//! Names of containers and blobs that are safe to use as names of files.

use crate::text::{from_chars, replace_all, to_chars, trim_start};
use crate::types::{Blob, BlobView, Container, ContainerView};
use vstd::prelude::*;

verus! {

/// The characters that no name starts with.
pub open spec fn bad_prefixes() -> Seq<char> {
    seq!['/', '.']
}

/// The name that `id` is stored under: slashes and dots in front are dropped, then every
/// pair of dots is taken out, then every slash becomes an underscore.
pub open spec fn sanitized(id: Seq<char>) -> Seq<char> {
    let s = crate::text::trimmed_start(id, bad_prefixes());
    let s = crate::text::replaced(s, seq!['.', '.'], Seq::empty());
    crate::text::replaced(s, seq!['/'], seq!['_'])
}

/// The container under the name that it is stored under.
pub open spec fn sanitized_container(container: ContainerView) -> ContainerView {
    ContainerView { id: sanitized(container.id) }
}

/// The blob under the names that it is stored under.
pub open spec fn sanitized_blob(blob: BlobView) -> BlobView {
    BlobView {
        id: sanitized(blob.id),
        container: sanitized(blob.container),
        byte_size: blob.byte_size,
    }
}

/// The name that `id` is stored under.
pub fn sanitize_id(id: &str) -> (name: String)
    ensures
        name@ == sanitized(id@),
{
    let prefixes: Vec<char> = vec!['/', '.'];
    let dots: Vec<char> = vec!['.', '.'];
    let nothing: Vec<char> = Vec::new();
    let slash: Vec<char> = vec!['/'];
    let underscore: Vec<char> = vec!['_'];
    assert(prefixes@ == bad_prefixes());
    assert(dots@ == seq!['.', '.']);
    assert(slash@ == seq!['/']);
    assert(underscore@ == seq!['_']);
    let s: Vec<char> = trim_start(&to_chars(id), &prefixes);
    let s: Vec<char> = replace_all(&s, &dots, &nothing);
    let s: Vec<char> = replace_all(&s, &slash, &underscore);
    from_chars(&s)
}

/// The container under the name that it is stored under.
pub fn sanitize_container(container: &Container) -> (safe: Container)
    ensures
        safe@ == sanitized_container(container@),
{
    Container { id: sanitize_id(container.id.as_str()) }
}

/// The blob under the names that it is stored under.
pub fn sanitize_blob(blob: &Blob) -> (safe: Blob)
    ensures
        safe@ == sanitized_blob(blob@),
{
    Blob {
        id: sanitize_id(blob.id.as_str()),
        byte_size: blob.byte_size,
        container: sanitize_id(blob.container.as_str()),
    }
}

/// A name that stays in the directory it is joined to: it holds no slash and no two dots
/// side by side, and it does not start with a dot.
pub open spec fn is_safe_name(name: Seq<char>) -> bool {
    &&& forall|i: int| 0 <= i < name.len() ==> name[i] != '/'
    &&& forall|i: int, j: int|
        0 <= i < name.len() && j == i + 1 && j < name.len() ==> !(name[i] == '.' && name[j] == '.')
    &&& name.len() > 0 ==> name[0] != '.'
}

/// Every id is stored under a safe name.
pub proof fn sanitized_is_safe(id: Seq<char>)
    ensures
        is_safe_name(sanitized(id)),
{
    let trimmed = crate::text::trimmed_start(id, bad_prefixes());
    lemma_trimmed_front(id);
    lemma_pairs_taken_out(trimmed);
    let undotted = crate::text::replaced(trimmed, seq!['.', '.'], Seq::empty());
    lemma_slashes_replaced(undotted);
}

/// A safe name is stored as it is.
pub proof fn safe_name_is_kept(name: Seq<char>)
    requires
        is_safe_name(name),
    ensures
        sanitized(name) == name,
{
    assert(crate::text::trimmed_start(name, bad_prefixes()) == name) by {
        if name.len() > 0 {
            assert(name[0] != '/' && name[0] != '.');
            assert(!bad_prefixes().contains(name[0]));
        }
    }
    lemma_no_pair_to_take_out(name);
    lemma_slashes_replaced(name);
    assert(crate::text::replaced(name, seq!['/'], seq!['_']) == name);
}

/// Sanitizing a name a second time changes nothing.
pub proof fn sanitizing_is_idempotent(id: Seq<char>)
    ensures
        sanitized(sanitized(id)) == sanitized(id),
{
    sanitized_is_safe(id);
    safe_name_is_kept(sanitized(id));
}

/// No slash or dot is in front after trimming.
proof fn lemma_trimmed_front(id: Seq<char>)
    ensures
        ({
            let rest = crate::text::trimmed_start(id, bad_prefixes());
            rest.len() > 0 ==> rest[0] != '/' && rest[0] != '.'
        }),
    decreases id.len(),
{
    if id.len() > 0 {
        if bad_prefixes().contains(id[0]) {
            lemma_trimmed_front(id.skip(1));
        } else {
            assert(bad_prefixes()[0] == '/' && bad_prefixes()[1] == '.');
        }
    }
}

/// What is left after taking out the pairs of dots has no such pair, and starts as the text did
/// where the text does not start with a dot.
proof fn lemma_pairs_taken_out(text: Seq<char>)
    ensures
        ({
            let out = crate::text::replaced(text, seq!['.', '.'], Seq::empty());
            &&& forall|i: int, j: int|
                0 <= i < out.len() && j == i + 1 && j < out.len() ==> !(out[i] == '.' && out[j] == '.')
            &&& text.len() > 0 && text[0] != '.' ==> out.len() > 0 && out[0] == text[0]
            &&& text.len() == 0 ==> out.len() == 0
        }),
    decreases text.len(),
{
    let pair = seq!['.', '.'];
    let out = crate::text::replaced(text, pair, Seq::empty());
    if text.len() >= 2 {
        if text.take(2) == pair {
            lemma_pairs_taken_out(text.skip(2));
            assert(text.take(2)[0] == '.');
            assert(out == crate::text::replaced(text.skip(2), pair, Seq::empty()));
        } else {
            lemma_pairs_taken_out(text.skip(1));
            let rest = crate::text::replaced(text.skip(1), pair, Seq::empty());
            assert(out == seq![text[0]] + rest);
            if text[0] == '.' {
                assert(text[1] != '.') by {
                    if text[1] == '.' {
                        assert(text.take(2) == pair);
                    }
                }
                assert(rest[0] == text[1]);
            }
            assert forall|i: int, j: int|
                0 <= i < out.len() && j == i + 1 && j < out.len() implies !(out[i] == '.' && out[j] == '.') by {
                if i > 0 {
                    assert(out[i] == rest[i - 1]);
                    assert(out[j] == rest[j - 1]);
                }
            }
        }
    }
}

/// A text without two dots side by side has no pair to take out.
proof fn lemma_no_pair_to_take_out(text: Seq<char>)
    requires
        forall|i: int, j: int|
            0 <= i < text.len() && j == i + 1 && j < text.len() ==> !(text[i] == '.' && text[j] == '.'),
    ensures
        crate::text::replaced(text, seq!['.', '.'], Seq::empty()) == text,
    decreases text.len(),
{
    let pair = seq!['.', '.'];
    if text.len() >= 2 {
        assert(text.take(2) != pair) by {
            if text.take(2) == pair {
                assert(text.take(2)[0] == text[0] && text.take(2)[1] == text[1]);
            }
        }
        assert forall|i: int, j: int|
            0 <= i < text.skip(1).len() && j == i + 1 && j < text.skip(1).len() implies !(text.skip(1)[i] == '.'
            && text.skip(1)[j] == '.') by {
            assert(text.skip(1)[i] == text[i + 1]);
            assert(text.skip(1)[j] == text[j + 1]);
        }
        lemma_no_pair_to_take_out(text.skip(1));
        assert(seq![text[0]] + text.skip(1) == text);
    }
}

/// Replacing slashes by underscores works character by character.
proof fn lemma_slashes_replaced(text: Seq<char>)
    ensures
        crate::text::replaced(text, seq!['/'], seq!['_']) == text.map_values(
            |c: char|
                if c == '/' {
                    '_'
                } else {
                    c
                },
        ),
    decreases text.len(),
{
    let slash = seq!['/'];
    let mapped = text.map_values(
        |c: char|
            if c == '/' {
                '_'
            } else {
                c
            },
    );
    let out = crate::text::replaced(text, slash, seq!['_']);
    if text.len() > 0 {
        lemma_slashes_replaced(text.skip(1));
        assert(text.take(1)[0] == text[0]);
        if text[0] == '/' {
            assert(text.take(1) == slash);
            assert(out == seq!['_'] + crate::text::replaced(text.skip(1), slash, seq!['_']));
        } else {
            assert(text.take(1) != slash) by {
                assert(slash[0] == '/');
            }
            assert(out == seq![text[0]] + crate::text::replaced(text.skip(1), slash, seq!['_']));
        }
        assert(out == mapped);
    } else {
        assert(out == mapped);
    }
}

/// The id starts with a character that a name may start with.
pub open spec fn starts_well(id: Seq<char>) -> bool {
    id.len() > 0 && id[0] != '/' && id[0] != '.'
}

/// Slashes and dots in front of an id make no difference.
pub proof fn front_is_dropped(c: char, id: Seq<char>)
    requires
        c == '/' || c == '.',
    ensures
        sanitized(seq![c] + id) == sanitized(id),
        sanitized(Seq::empty()) == Seq::<char>::empty(),
{
    let longer = seq![c] + id;
    assert(longer.skip(1) == id);
    assert(bad_prefixes()[0] == '/' && bad_prefixes()[1] == '.');
    assert(bad_prefixes().contains(longer[0]));
}

/// Every character behind a good start but a dot is kept at its place, a slash as an underscore.
pub proof fn character_is_kept(id: Seq<char>, c: char)
    requires
        c != '.',
        id.len() == 0 && c != '/' || starts_well(id),
    ensures
        sanitized(id.push(c)) == sanitized(id).push(
            if c == '/' {
                '_'
            } else {
                c
            },
        ),
{
    lemma_not_trimmed(id.push(c));
    if id.len() > 0 {
        lemma_not_trimmed(id);
    }
    lemma_pairs_before_character(id, c);
    let undotted = crate::text::replaced(id, seq!['.', '.'], Seq::empty());
    lemma_slashes_replaced(undotted);
    lemma_slashes_replaced(undotted.push(c));
    assert(sanitized(id.push(c)) == sanitized(id).push(
        if c == '/' {
            '_'
        } else {
            c
        },
    ));
}

/// A pair of dots behind a good start is taken out.
pub proof fn pair_of_dots_is_taken_out(id: Seq<char>)
    requires
        starts_well(id),
    ensures
        sanitized(id + seq!['.', '.']) == sanitized(id),
{
    lemma_not_trimmed(id + seq!['.', '.']);
    lemma_not_trimmed(id);
    lemma_pairs_before_pair(id);
}

/// A dot behind a good start and another character is kept.
pub proof fn single_dot_is_kept(id: Seq<char>)
    requires
        starts_well(id),
        id.last() != '.',
    ensures
        sanitized(id.push('.')) == sanitized(id).push('.'),
{
    lemma_not_trimmed(id.push('.'));
    lemma_not_trimmed(id);
    lemma_pairs_before_dot(id);
    let undotted = crate::text::replaced(id, seq!['.', '.'], Seq::empty());
    lemma_slashes_replaced(undotted);
    lemma_slashes_replaced(undotted.push('.'));
    assert(sanitized(id.push('.')) == sanitized(id).push('.'));
}

/// An id without dots that does not start with a slash is stored under a name of the same length,
/// with underscores for the slashes.
pub proof fn id_without_dots_keeps_its_characters(id: Seq<char>)
    requires
        id.len() > 0 ==> id[0] != '/',
        forall|i: int| 0 <= i < id.len() ==> id[i] != '.',
    ensures
        sanitized(id).len() == id.len(),
        forall|i: int|
            0 <= i < id.len() ==> #[trigger] sanitized(id)[i] == if id[i] == '/' {
                '_'
            } else {
                id[i]
            },
{
    if id.len() > 0 {
        lemma_not_trimmed(id);
    }
    lemma_no_pair_to_take_out(id);
    lemma_slashes_replaced(id);
}

/// The containers and the blobs keep their sizes, and their ids are sanitized each for itself.
pub proof fn names_are_sanitized_each_for_itself(container: ContainerView, blob: BlobView)
    ensures
        sanitized_container(container).id == sanitized(container.id),
        sanitized_blob(blob).id == sanitized(blob.id),
        sanitized_blob(blob).container == sanitized(blob.container),
        sanitized_blob(blob).byte_size == blob.byte_size,
{
}

/// An id with a good start is not trimmed.
proof fn lemma_not_trimmed(id: Seq<char>)
    requires
        starts_well(id),
    ensures
        crate::text::trimmed_start(id, bad_prefixes()) == id,
{
    assert(!bad_prefixes().contains(id[0]));
}

/// Taking out the pairs of dots keeps a character at the end.
proof fn lemma_pairs_before_character(text: Seq<char>, c: char)
    requires
        c != '.',
    ensures
        crate::text::replaced(text.push(c), seq!['.', '.'], Seq::empty()) == crate::text::replaced(
            text,
            seq!['.', '.'],
            Seq::empty(),
        ).push(c),
    decreases text.len(),
{
    let pair = seq!['.', '.'];
    let longer = text.push(c);
    let out = crate::text::replaced(text, pair, Seq::empty());
    if text.len() >= 2 {
        assert(longer.take(2) == text.take(2));
        if text.take(2) == pair {
            lemma_pairs_before_character(text.skip(2), c);
            assert(longer.skip(2) == text.skip(2).push(c));
        } else {
            lemma_pairs_before_character(text.skip(1), c);
            assert(longer.skip(1) == text.skip(1).push(c));
        }
        assert(crate::text::replaced(longer, pair, Seq::empty()) == out.push(c));
    } else if text.len() == 1 {
        assert(longer.take(2)[1] == c);
        assert(pair[1] == '.');
        assert(longer.take(2) != pair);
        assert(crate::text::replaced(longer, pair, Seq::empty()) == seq![longer[0]]
            + crate::text::replaced(longer.skip(1), pair, Seq::empty()));
        assert(crate::text::replaced(longer, pair, Seq::empty()) == out.push(c));
    }
}

/// Taking out the pairs of dots takes out one at the end.
proof fn lemma_pairs_before_pair(text: Seq<char>)
    ensures
        crate::text::replaced(text + seq!['.', '.'], seq!['.', '.'], Seq::empty())
            == crate::text::replaced(text, seq!['.', '.'], Seq::empty()),
    decreases text.len(),
{
    let pair = seq!['.', '.'];
    let longer = text + pair;
    let out = crate::text::replaced(text, pair, Seq::empty());
    if text.len() >= 2 {
        assert(longer.take(2) == text.take(2));
        if text.take(2) == pair {
            lemma_pairs_before_pair(text.skip(2));
            assert(longer.skip(2) == text.skip(2) + pair);
        } else {
            lemma_pairs_before_pair(text.skip(1));
            assert(longer.skip(1) == text.skip(1) + pair);
        }
    } else if text.len() == 1 {
        if text[0] == '.' {
            assert(longer.take(2) == pair);
            assert(longer.skip(2) == text);
            assert(crate::text::replaced(longer, pair, Seq::empty()) == out);
        } else {
            assert(longer.take(2)[0] == text[0]);
            assert(pair[0] == '.');
            assert(longer.take(2) != pair);
            lemma_pairs_before_pair(Seq::empty());
            assert(longer.skip(1) == Seq::<char>::empty() + pair);
            assert(crate::text::replaced(longer, pair, Seq::empty()) == out);
        }
    } else {
        assert(longer.take(2) == pair);
        assert(longer.skip(2) == text);
        assert(crate::text::replaced(longer, pair, Seq::empty()) == out);
    }
}

/// Taking out the pairs of dots keeps a dot at the end that is not the second of two.
proof fn lemma_pairs_before_dot(text: Seq<char>)
    requires
        text.len() > 0 ==> text.last() != '.',
    ensures
        crate::text::replaced(text.push('.'), seq!['.', '.'], Seq::empty())
            == crate::text::replaced(text, seq!['.', '.'], Seq::empty()).push('.'),
    decreases text.len(),
{
    let pair = seq!['.', '.'];
    let longer = text.push('.');
    let out = crate::text::replaced(text, pair, Seq::empty());
    if text.len() >= 2 {
        assert(longer.take(2) == text.take(2));
        if text.take(2) == pair {
            assert(text.take(2)[1] == '.');
            lemma_pairs_before_dot(text.skip(2));
            assert(longer.skip(2) == text.skip(2).push('.'));
        } else {
            lemma_pairs_before_dot(text.skip(1));
            assert(longer.skip(1) == text.skip(1).push('.'));
        }
        assert(crate::text::replaced(longer, pair, Seq::empty()) == out.push('.'));
    } else if text.len() == 1 {
        assert(longer.take(2)[0] == text[0]);
        assert(pair[0] == '.');
        assert(longer.take(2) != pair);
        assert(crate::text::replaced(longer, pair, Seq::empty()) == seq![longer[0]]
            + crate::text::replaced(longer.skip(1), pair, Seq::empty()));
        assert(crate::text::replaced(longer, pair, Seq::empty()) == out.push('.'));
    }
}

} // verus!
