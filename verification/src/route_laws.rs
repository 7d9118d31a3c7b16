//! How paths and methods are named, character by character.

use vstd::prelude::*;

use crate::route;
use crate::sums;
use crate::text;

verus! {

/// Whether a character is a decimal digit.
pub open spec fn digit(c: char) -> bool {
    c == '0' || c == '1' || c == '2' || c == '3' || c == '4' || c == '5' || c == '6' || c == '7'
        || c == '8' || c == '9'
}

/// Whether a character is a hexadecimal digit.
pub open spec fn hex_digit(c: char) -> bool {
    ||| digit(c)
    ||| c == 'a' || c == 'b' || c == 'c' || c == 'd' || c == 'e' || c == 'f'
    ||| c == 'A' || c == 'B' || c == 'C' || c == 'D' || c == 'E' || c == 'F'
}

/// Whether a segment is written as the parameter of a route, in braces or after a
/// colon.
pub open spec fn written_as_parameter(segment: Seq<char>) -> bool {
    ||| segment.len() > 2 && segment[0] == '{' && segment[segment.len() - 1] == '}'
    ||| segment.len() > 1 && segment[0] == ':'
}

/// Whether a segment identifies an object: it is a number, 8 to 32 hexadecimal
/// digits, or 36 of them and dashes with four dashes.
pub open spec fn written_as_identifier(segment: Seq<char>) -> bool {
    ||| segment.len() > 0 && forall|i: int| 0 <= i < segment.len() ==> digit(#[trigger] segment[i])
    ||| 8 <= segment.len() <= 32 && forall|i: int|
        0 <= i < segment.len() ==> hex_digit(#[trigger] segment[i])
    ||| segment.len() == 36 && sums::how_many(segment, |c: char| c == '-') == 4
        && forall|i: int|
        0 <= i < segment.len() ==> hex_digit(#[trigger] segment[i]) || segment[i] == '-'
}

proof fn lemma_dashes(segment: Seq<char>)
    ensures
        route::dashes(segment) == sums::how_many(segment, |c: char| c == '-'),
    decreases segment.len(),
{
    if segment.len() > 0 {
        lemma_dashes(segment.drop_last());
    }
}

/// A segment is named `:id` exactly where it is written as an identifier or as a
/// parameter. Any other is named by its first 48 characters, or by itself where
/// it has no more.
pub proof fn law_labels(segment: Seq<char>)
    ensures
        written_as_identifier(segment) || written_as_parameter(segment) ==> route::label(segment)
            == seq![':', 'i', 'd'],
        !written_as_identifier(segment) && !written_as_parameter(segment) && segment.len() <= 48
            ==> route::label(segment) == segment,
        !written_as_identifier(segment) && !written_as_parameter(segment) && segment.len() > 48
            ==> route::label(segment) == segment.take(48),
{
    reveal_strlit(":id");
    assert(":id"@ =~= seq![':', 'i', 'd']);
    lemma_dashes(segment);
    assert(forall|c: char| #[trigger] route::is_digit(c) == digit(c));
    assert(forall|c: char| #[trigger] route::is_hex(c) == hex_digit(c));
    if segment.len() > 0 && forall|i: int|
        0 <= i < segment.len() ==> digit(#[trigger] segment[i]) {
        assert forall|i: int| 0 <= i < segment.len() implies route::is_digit(
            #[trigger] segment[i],
        ) by {}
    }
    if forall|i: int| 0 <= i < segment.len() ==> hex_digit(#[trigger] segment[i]) {
        assert forall|i: int| 0 <= i < segment.len() implies route::is_hex(
            #[trigger] segment[i],
        ) by {}
    }
    if forall|i: int|
        0 <= i < segment.len() ==> hex_digit(#[trigger] segment[i]) || segment[i] == '-' {
        assert forall|i: int| 0 <= i < segment.len() implies route::is_hex(#[trigger] segment[i])
            || segment[i] == '-' by {}
    }
    if segment.len() > 0 && forall|i: int|
        0 <= i < segment.len() ==> route::is_digit(#[trigger] segment[i]) {
        assert forall|i: int| 0 <= i < segment.len() implies digit(#[trigger] segment[i]) by {
            assert(route::is_digit(segment[i]));
        }
    }
    if forall|i: int| 0 <= i < segment.len() ==> route::is_hex(#[trigger] segment[i]) {
        assert forall|i: int| 0 <= i < segment.len() implies hex_digit(#[trigger] segment[i]) by {
            assert(route::is_hex(segment[i]));
        }
    }
    if forall|i: int|
        0 <= i < segment.len() ==> route::is_hex(#[trigger] segment[i]) || segment[i] == '-' {
        assert forall|i: int| 0 <= i < segment.len() implies hex_digit(#[trigger] segment[i])
            || segment[i] == '-' by {
            assert(route::is_hex(segment[i]) || segment[i] == '-');
        }
    }
}

/// A segment of at most 48 characters with one that is neither a dash nor a
/// hexadecimal digit is kept as it is, unless it is written as a parameter.
pub proof fn law_words_are_kept(segment: Seq<char>, i: int)
    requires
        segment.len() <= 48,
        0 <= i < segment.len(),
        !hex_digit(segment[i]),
        segment[i] != '-',
        !written_as_parameter(segment),
    ensures
        route::label(segment) == segment,
{
    law_labels(segment);
}

/// Whether a text holds none of the characters that end a path.
pub open spec fn is_plain(s: Seq<char>) -> bool {
    forall|i: int| 0 <= i < s.len() ==> #[trigger] s[i] != '?' && s[i] != '#'
}

proof fn lemma_plain(s: Seq<char>)
    requires
        is_plain(s),
    ensures
        text::up_to(s, seq!['?', '#']) == s,
{
    let ends = seq!['?', '#'];
    assert(ends[0] == '?' && ends[1] == '#');
    assert forall|i: int| 0 <= i < s.len() implies !ends.contains(#[trigger] s[i]) by {}
    text::lemma_first_of_is(s, ends, s.len() as int);
    assert(s.take(s.len() as int) =~= s);
}

proof fn lemma_clipped(s: Seq<char>)
    ensures
        ({
            let name = route::clipped(s, route::MAX_PATH_BYTES as int);
            &&& name.len() <= s.len()
            &&& name == s.take(name.len() as int)
            &&& text::byte_len(s) <= 128 ==> name == s
            &&& text::byte_len(s) > 128 ==> 124 < text::byte_len(name) <= 128
        }),
{
    let limit = route::MAX_PATH_BYTES as int;
    assert(s.take(s.len() as int) =~= s);
    let found = route::lemma_fills_some(s, limit, s.len() as int);
    let n = choose|n: int| route::fills(s, n, limit);
    assert(route::fills(s, n, limit));
    if n < s.len() {
        text::lemma_byte_len_step(s, n);
        text::lemma_byte_len_monotone(s, n + 1, s.len() as int);
    }
}

/// The name of a path without segments is a slash.
pub proof fn law_root_is_a_slash(path: Seq<char>)
    requires
        forall|i: int| 0 <= i < path.len() ==> #[trigger] path[i] == '/',
    ensures
        route::path_name(path) == seq!['/'],
    decreases path.len(),
{
    let none = Seq::<char>::empty();
    if path.len() == 0 {
        assert(path =~= none);
        lemma_plain(path);
        text::lemma_pieces_none(path, '/');
        reveal_with_fuel(route::joined, 2);
        assert(seq![path].drop_last() =~= Seq::<Seq<char>>::empty());
        assert(route::full_path(path) == seq!['/']);
        lemma_clipped(seq!['/']);
        assert(seq!['/'].drop_last() =~= none);
        reveal_with_fuel(text::byte_len, 2);
        assert(text::byte_len(seq!['/']) == 1);
    } else {
        let less = path.drop_last();
        assert(path =~= less.push('/'));
        assert forall|i: int| 0 <= i < less.len() implies #[trigger] less[i] == '/' by {
            assert(path[i] == '/');
        }
        law_root_is_a_slash(less);
        law_closing_slash_is_ignored(less);
    }
}

/// A slash at the end of a path has no bearing on its name.
pub proof fn law_closing_slash_is_ignored(path: Seq<char>)
    requires
        is_plain(path),
    ensures
        route::path_name(path.push('/')) == route::path_name(path),
{
    let none = Seq::<char>::empty();
    let longer = path.push('/');
    assert(longer + none =~= longer);
    lemma_plain(path);
    lemma_plain(longer);
    text::lemma_pieces_pushed(path, '/', none);
    let parts = text::pieces(longer, '/');
    assert(parts.drop_last() =~= text::pieces(path, '/'));
    assert(parts.last() == none);
}

/// A path with one more segment is named like the path without it, then a slash
/// and the name of the segment. Of a name longer than 128 bytes as many whole
/// characters are kept as fit.
pub proof fn law_segments_are_appended(path: Seq<char>, segment: Seq<char>)
    requires
        is_plain(path),
        is_plain(segment),
        segment.len() > 0,
        forall|i: int| 0 <= i < segment.len() ==> #[trigger] segment[i] != '/',
        text::byte_len(route::path_name(path)) < 125,
    ensures
        ({
            let head = route::path_name(path);
            let whole = if head == seq!['/'] {
                head + route::label(segment)
            } else {
                head + seq!['/'] + route::label(segment)
            };
            let name = route::path_name(path + seq!['/'] + segment);
            &&& text::byte_len(whole) <= 128 ==> name == whole
            &&& text::byte_len(whole) > 128 ==> {
                &&& name.len() < whole.len()
                &&& name == whole.take(name.len() as int)
                &&& 124 < text::byte_len(name) <= 128
            }
        }),
{
    let longer = path + seq!['/'] + segment;
    assert(longer =~= path.push('/') + segment);
    assert forall|i: int| 0 <= i < longer.len() implies #[trigger] longer[i] != '?' && longer[i]
        != '#' by {
        if i < path.len() {
            assert(longer[i] == path[i]);
        } else if i > path.len() {
            assert(longer[i] == segment[i - path.len() - 1]);
        }
    }
    lemma_plain(path);
    lemma_plain(longer);
    text::lemma_pieces_pushed(path, '/', segment);
    let parts = text::pieces(longer, '/');
    assert(parts.drop_last() =~= text::pieces(path, '/'));
    assert(parts.last() == segment);
    lemma_clipped(route::full_path(path));
    let head = route::full_path(path);
    assert(head == route::path_name(path));
    route::law_path_names_are_bare(path);
    if head.len() == 1 {
        assert(head =~= seq!['/']);
    }
    let whole = route::full_path(longer);
    assert(head.push('/') =~= head + seq!['/']);
    assert(head.len() != 1 ==> head != seq!['/']);
    assert(whole == (if head == seq!['/'] {
        head + route::label(segment)
    } else {
        head + seq!['/'] + route::label(segment)
    }));
    assert(whole.take(whole.len() as int) =~= whole);
    lemma_clipped(whole);
}

/// The name of a method is the method in capitals, or its first 16 characters
/// where it is longer, without a space before or after it. The name of an empty
/// one is `GET`.
pub proof fn law_methods_are_named_in_capitals(method: Seq<char>)
    requires
        method.len() > 0 ==> !text::is_white(method[0]) && !text::is_white(
            method[method.len() - 1],
        ),
    ensures
        method.len() == 0 ==> route::method_name(method) == seq!['G', 'E', 'T'],
        method.len() > 0 ==> {
            &&& route::method_name(method).len() == (if method.len() < 16 {
                method.len()
            } else {
                16
            })
            &&& forall|i: int|
                0 <= i < route::method_name(method).len() ==> if 'a' <= method[i] <= 'z' {
                    method[i] as u32 - (#[trigger] route::method_name(method)[i]) as u32 == 32
                } else {
                    route::method_name(method)[i] == method[i]
                }
        },
        route::method_name(method.push(' ')) == route::method_name(method),
        route::method_name(seq![' '] + method) == route::method_name(method),
{
    reveal_strlit("GET");
    assert("GET"@ =~= seq!['G', 'E', 'T']);
    assert(method.push(' ').drop_last() =~= method);
    assert((seq![' '] + method).skip(1) =~= method);
    reveal_with_fuel(text::trim_start, 2);
    reveal_with_fuel(text::trim_end, 2);
    if method.len() == 0 {
        assert(method.push(' ').skip(1) =~= method);
    } else {
        assert(method.push(' ')[0] == method[0]);
        assert(text::trimmed(method) == method);
    }
}

} // verus!
