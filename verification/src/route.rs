//! Names under which routes are listed.

use vstd::prelude::*;

use crate::text;
use crate::text::{append, before_any, chars_of, split, text_of, to_upper, trim, width_of};

verus! {

/// Longest path name, in bytes.
pub const MAX_PATH_BYTES: usize = 128;

/// Longest part of a path segment that is kept.
pub const MAX_SEGMENT_CHARS: usize = 48;

/// Longest method name.
pub const MAX_METHOD_CHARS: usize = 16;

/// The name of a method: its first characters in capitals, `GET` where there
/// are none.
pub open spec fn method_name(method: Seq<char>) -> Seq<char> {
    let name = text::trimmed(method);
    if name.len() == 0 {
        "GET"@
    } else {
        Seq::new(
            if name.len() < MAX_METHOD_CHARS {
                name.len()
            } else {
                MAX_METHOD_CHARS as nat
            },
            |i: int| text::upper(name[i]),
        )
    }
}

/// Brings the method of a request into the form in which it is listed.
pub fn normalize_method(method: &str) -> (name: String)
    ensures
        name@ == method_name(method@),
{
    let chars = chars_of(method);
    let trimmed = trim(chars.as_slice());
    if trimmed.len() == 0 {
        return "GET".to_owned();
    }
    let ghost goal = method_name(method@);
    let mut name: Vec<char> = Vec::new();
    while name.len() < trimmed.len() && name.len() < MAX_METHOD_CHARS
        invariant
            trimmed@ == text::trimmed(method@),
            trimmed@.len() > 0,
            name@.len() <= trimmed@.len(),
            name@.len() <= MAX_METHOD_CHARS,
            forall|i: int| 0 <= i < name@.len() ==> #[trigger] name@[i] == text::upper(trimmed@[i]),
        decreases trimmed@.len() - name@.len(),
    {
        name.push(to_upper(trimmed[name.len()]));
    }
    assert(name@ =~= goal);
    text_of(name.as_slice())
}

pub open spec fn is_digit(c: char) -> bool {
    '0' <= c <= '9'
}

pub open spec fn is_hex(c: char) -> bool {
    is_digit(c) || 'a' <= c <= 'f' || 'A' <= c <= 'F'
}

/// Number of dashes in a text.
pub open spec fn dashes(s: Seq<char>) -> nat
    decreases s.len(),
{
    if s.len() == 0 {
        0
    } else {
        dashes(s.drop_last()) + (if s.last() == '-' {
            1nat
        } else {
            0
        })
    }
}

/// Whether a segment names one object: a number, a UUID or a short hexadecimal
/// hash.
pub open spec fn is_id(segment: Seq<char>) -> bool {
    &&& segment.len() > 0
    &&& {
        ||| forall|i: int| 0 <= i < segment.len() ==> is_digit(#[trigger] segment[i])
        ||| {
            &&& segment.len() == 36
            &&& dashes(segment) == 4
            &&& forall|i: int|
                0 <= i < segment.len() ==> is_hex(#[trigger] segment[i]) || segment[i] == '-'
        }
        ||| {
            &&& 8 <= segment.len() <= 32
            &&& forall|i: int| 0 <= i < segment.len() ==> is_hex(#[trigger] segment[i])
        }
    }
}

/// Whether a segment is the parameter of a route, `{name}` or `:name`.
pub open spec fn is_param(segment: Seq<char>) -> bool {
    ||| segment.len() >= 3 && segment[0] == '{' && segment.last() == '}'
    ||| segment.len() > 1 && segment[0] == ':'
}

fn looks_like_id(segment: &[char]) -> (yes: bool)
    ensures
        yes == is_id(segment@),
{
    if segment.len() == 0 {
        return false;
    }
    let mut digits: bool = true;
    let mut hex: bool = true;
    let mut hex_or_dash: bool = true;
    let mut count: usize = 0;
    let mut i: usize = 0;
    assert(segment@.take(0) =~= Seq::<char>::empty());
    while i < segment.len()
        invariant
            i <= segment@.len(),
            digits <==> forall|j: int| 0 <= j < i ==> is_digit(#[trigger] segment@[j]),
            hex <==> forall|j: int| 0 <= j < i ==> is_hex(#[trigger] segment@[j]),
            hex_or_dash <==> forall|j: int|
                0 <= j < i ==> is_hex(#[trigger] segment@[j]) || segment@[j] == '-',
            count == dashes(segment@.take(i as int)),
            count <= i,
        decreases segment@.len() - i,
    {
        let c: char = segment[i];
        let is_digit: bool = '0' <= c && c <= '9';
        let is_hex: bool = is_digit || ('a' <= c && c <= 'f') || ('A' <= c && c <= 'F');
        if !is_digit {
            digits = false;
        }
        if !is_hex {
            hex = false;
            if c != '-' {
                hex_or_dash = false;
            }
        }
        assert(segment@.take(i + 1).drop_last() =~= segment@.take(i as int));
        if c == '-' {
            count = count + 1;
        }
        i = i + 1;
    }
    assert(segment@.take(segment@.len() as int) =~= segment@);
    if digits {
        return true;
    }
    if segment.len() == 36 && count == 4 {
        return hex_or_dash;
    }
    8 <= segment.len() && segment.len() <= 32 && hex
}

fn is_route_param(segment: &[char]) -> (yes: bool)
    ensures
        yes == is_param(segment@),
{
    let n: usize = segment.len();
    (n >= 3 && segment[0] == '{' && segment[n - 1] == '}') || (n > 1 && segment[0] == ':')
}

/// The name that stands for a segment.
pub open spec fn label(segment: Seq<char>) -> Seq<char> {
    if is_id(segment) || is_param(segment) {
        ":id"@
    } else if segment.len() <= MAX_SEGMENT_CHARS {
        segment
    } else {
        segment.take(MAX_SEGMENT_CHARS as int)
    }
}

/// The labels of all segments that are not empty, each after a slash; a single
/// slash where there is none.
pub open spec fn joined(segments: Seq<Seq<char>>) -> Seq<char>
    decreases segments.len(),
{
    if segments.len() == 0 {
        seq!['/']
    } else {
        let head = joined(segments.drop_last());
        if segments.last().len() == 0 {
            head
        } else if head.len() == 1 {
            head + label(segments.last())
        } else {
            head.push('/') + label(segments.last())
        }
    }
}

/// The segments of a path, without its query string or fragment.
pub open spec fn segments(path: Seq<char>) -> Seq<Seq<char>> {
    text::pieces(text::up_to(path, seq!['?', '#']), '/')
}

/// A path as it would be listed if there were no limit to its length.
pub open spec fn full_path(path: Seq<char>) -> Seq<char> {
    joined(segments(path))
}

/// Whether `n` characters of a text are the most that fit into `limit` bytes.
pub open spec fn fills(s: Seq<char>, n: int, limit: int) -> bool {
    &&& 0 <= n <= s.len()
    &&& text::byte_len(s.take(n)) <= limit
    &&& n < s.len() ==> text::byte_len(s.take(n + 1)) > limit
}

/// The characters of a text that fit into `limit` bytes.
pub open spec fn clipped(s: Seq<char>, limit: int) -> Seq<char> {
    s.take(choose|n: int| fills(s, n, limit))
}

/// The name of a path.
pub open spec fn path_name(path: Seq<char>) -> Seq<char> {
    clipped(full_path(path), MAX_PATH_BYTES as int)
}

/// Whether the limit on path names falls between two characters of the path:
/// its name is complete, or takes exactly the bytes of the limit.
pub open spec fn fits_limit(path: Seq<char>) -> bool {
    ||| path_name(path) == full_path(path)
    ||| text::byte_len(path_name(path)) == MAX_PATH_BYTES
}

proof fn lemma_fills_one(s: Seq<char>, n: int, m: int, limit: int)
    requires
        fills(s, n, limit),
        fills(s, m, limit),
    ensures
        n == m,
{
    if n < m {
        text::lemma_byte_len_monotone(s, n + 1, m);
    } else if m < n {
        text::lemma_byte_len_monotone(s, m + 1, n);
    }
}

fn clip_at(s: &[char], limit: usize) -> (cut: usize)
    requires
        limit <= 0x1000_0000,
    ensures
        fills(s@, cut as int, limit as int),
        clipped(s@, limit as int) == s@.take(cut as int),
{
    let mut n: usize = 0;
    let mut bytes: usize = 0;
    assert(s@.take(0) =~= Seq::<char>::empty());
    while n < s.len() && bytes + width_of(s[n]) <= limit
        invariant
            limit <= 0x1000_0000,
            n <= s@.len(),
            bytes <= limit,
            bytes == text::byte_len(s@.take(n as int)),
        decreases s@.len() - n,
    {
        proof {
            text::lemma_byte_len_step(s@, n as int);
        }
        bytes = bytes + width_of(s[n]);
        n = n + 1;
    }
    proof {
        if n < s@.len() {
            text::lemma_byte_len_step(s@, n as int);
        }
        assert(fills(s@, n as int, limit as int));
        lemma_fills_one(
            s@,
            n as int,
            choose|m: int| fills(s@, m, limit as int),
            limit as int,
        );
    }
    n
}

fn write_full_path(path: &str) -> (out: Vec<char>)
    ensures
        out@ == full_path(path@),
{
    let chars = chars_of(path);
    let ends: Vec<char> = vec!['?', '#'];
    assert(ends@ =~= seq!['?', '#']);
    let kept = before_any(chars.as_slice(), ends.as_slice());
    let segments = split(kept, '/');
    let id = chars_of(":id");
    let ghost all = text::views(segments@);
    let mut out: Vec<char> = vec!['/'];
    let mut i: usize = 0;
    assert(all.take(0) =~= Seq::<Seq<char>>::empty());
    assert(out@ =~= joined(all.take(0)));
    while i < segments.len()
        invariant
            i <= segments@.len(),
            all == text::views(segments@),
            id@ == ":id"@,
            out@ == joined(all.take(i as int)),
        decreases segments@.len() - i,
    {
        let segment = segments[i];
        assert(all[i as int] == segment@);
        assert(all.take(i + 1).drop_last() =~= all.take(i as int));
        if segment.len() > 0 {
            if out.len() != 1 {
                out.push('/');
            }
            if looks_like_id(segment) || is_route_param(segment) {
                append(&mut out, id.as_slice());
            } else if segment.len() <= MAX_SEGMENT_CHARS {
                append(&mut out, segment);
            } else {
                let part = vstd::slice::slice_subrange(segment, 0, MAX_SEGMENT_CHARS);
                assert(part@ =~= segment@.take(MAX_SEGMENT_CHARS as int));
                append(&mut out, part);
            }
        }
        i = i + 1;
    }
    assert(all.take(all.len() as int) =~= all);
    out
}

/// Brings the path of a request into the form in which it is listed: without
/// the query, with numbers, UUIDs, hashes and parameters collapsed to `:id`, and
/// at most [`MAX_PATH_BYTES`] long. A character that would lie across the limit
/// is left out.
pub fn normalize_path(path: &str) -> (name: String)
    ensures
        name@ == path_name(path@),
{
    let full = write_full_path(path);
    let n = clip_at(full.as_slice(), MAX_PATH_BYTES);
    assert(full@.subrange(0, n as int) =~= full@.take(n as int));
    text_of(vstd::slice::slice_subrange(full.as_slice(), 0, n))
}

pub proof fn lemma_fills_some(s: Seq<char>, limit: int, upto: int) -> (n: int)
    requires
        0 <= limit,
        0 <= upto <= s.len(),
        upto < s.len() ==> text::byte_len(s.take(upto + 1)) > limit,
    ensures
        fills(s, n, limit),
    decreases upto,
{
    if text::byte_len(s.take(upto)) <= limit {
        upto
    } else if upto == 0 {
        assert(s.take(0) =~= Seq::<char>::empty());
        0
    } else {
        lemma_fills_some(s, limit, upto - 1)
    }
}

/// The characters that do not begin a query string or a fragment.
pub open spec fn bare() -> spec_fn(char) -> bool {
    |c: char| c != '?' && c != '#'
}

/// The characters of ASCII.
pub open spec fn ascii() -> spec_fn(char) -> bool {
    |c: char| c as u32 <= 0x7f
}

/// Whether a text holds neither a question mark nor a hash.
pub open spec fn is_bare(s: Seq<char>) -> bool {
    text::all_chars(s, bare())
}

/// Whether a text is made of ASCII characters.
pub open spec fn is_ascii(s: Seq<char>) -> bool {
    text::all_chars(s, ascii())
}

proof fn lemma_joined_all(segments: Seq<Seq<char>>, p: spec_fn(char) -> bool)
    requires
        forall|k: int| 0 <= k < segments.len() ==> text::all_chars(#[trigger] segments[k], p),
        p('/'),
        p(':'),
        p('i'),
        p('d'),
    ensures
        text::all_chars(joined(segments), p),
        joined(segments).len() > 0,
        joined(segments)[0] == '/',
    decreases segments.len(),
{
    reveal_strlit(":id");
    if segments.len() > 0 {
        lemma_joined_all(segments.drop_last(), p);
        assert(text::all_chars(segments[segments.len() - 1], p));
    }
}

proof fn lemma_full_path_bare(path: Seq<char>)
    ensures
        is_bare(full_path(path)),
        full_path(path).len() > 0,
        full_path(path)[0] == '/',
{
    let ends = seq!['?', '#'];
    let kept = text::up_to(path, ends);
    text::lemma_first_of(path, ends);
    assert(is_bare(kept)) by {
        assert forall|i: int| 0 <= i < kept.len() implies #[trigger] kept[i] != '?' && kept[i]
            != '#' by {
            assert(!ends.contains(path[i]));
            assert(ends[0] == '?' && ends[1] == '#');
        }
    }
    text::lemma_pieces_all(kept, '/', bare());
    lemma_joined_all(text::pieces(kept, '/'), bare());
}

/// The name of a path begins with a slash, stays within its limit, and holds
/// nothing of a query string or fragment.
pub proof fn law_path_names_are_bare(path: Seq<char>)
    ensures
        path_name(path).len() > 0,
        path_name(path)[0] == '/',
        text::byte_len(path_name(path)) <= MAX_PATH_BYTES,
        is_bare(path_name(path)),
{
    let full = full_path(path);
    lemma_full_path_bare(path);
    assert(full.take(full.len() as int) =~= full);
    let n = lemma_fills_some(full, MAX_PATH_BYTES as int, full.len() as int);
    lemma_fills_one(
        full,
        n,
        choose|m: int| fills(full, m, MAX_PATH_BYTES as int),
        MAX_PATH_BYTES as int,
    );
    if n == 0 {
        text::lemma_byte_len_step(full, 0);
        assert(full.take(0) =~= Seq::<char>::empty());
    }
}

/// What follows a question mark or a hash has no bearing on the name of a path.
pub proof fn law_query_is_ignored(path: Seq<char>, mark: char, rest: Seq<char>)
    requires
        mark == '?' || mark == '#',
    ensures
        path_name(path.push(mark) + rest) == path_name(path),
{
    let ends = seq!['?', '#'];
    let long = path.push(mark) + rest;
    text::lemma_first_of(path, ends);
    let at = text::first_of(path, ends);
    assert forall|i: int| 0 <= i < at implies !ends.contains(#[trigger] long[i]) by {
        assert(long[i] == path[i]);
    }
    assert(ends[0] == '?' && ends[1] == '#');
    text::lemma_first_of_is(long, ends, at);
    assert(text::up_to(long, ends) =~= text::up_to(path, ends));
}

proof fn lemma_ascii_byte_len(s: Seq<char>)
    requires
        is_ascii(s),
    ensures
        text::byte_len(s) == s.len(),
    decreases s.len(),
{
    if s.len() > 0 {
        lemma_ascii_byte_len(s.drop_last());
    }
}

/// The limit never falls within a character of a path of ASCII characters.
pub proof fn law_ascii_paths_fit_the_limit(path: Seq<char>)
    requires
        is_ascii(path),
    ensures
        fits_limit(path),
{
    let full = full_path(path);
    let kept = text::up_to(path, seq!['?', '#']);
    text::lemma_first_of(path, seq!['?', '#']);
    text::lemma_pieces_all(kept, '/', ascii());
    lemma_joined_all(text::pieces(kept, '/'), ascii());
    assert(full.take(full.len() as int) =~= full);
    let n = lemma_fills_some(full, MAX_PATH_BYTES as int, full.len() as int);
    lemma_fills_one(
        full,
        n,
        choose|m: int| fills(full, m, MAX_PATH_BYTES as int),
        MAX_PATH_BYTES as int,
    );
    lemma_ascii_byte_len(full.take(n));
    if n < full.len() {
        lemma_ascii_byte_len(full.take(n + 1));
    }
}

/// Whether a segment is a UUID: hexadecimal digits in groups of 8, 4, 4, 4 and
/// 12 with a dash between any two groups.
pub open spec fn is_uuid(segment: Seq<char>) -> bool {
    &&& segment.len() == 36
    &&& forall|i: int|
        0 <= i < 36 ==> if i == 8 || i == 13 || i == 18 || i == 23 {
            #[trigger] segment[i] == '-'
        } else {
            is_hex(segment[i])
        }
}

proof fn lemma_uuid_dashes(segment: Seq<char>, n: int)
    requires
        is_uuid(segment),
        0 <= n <= 36,
    ensures
        dashes(segment.take(n)) == (if n > 23 {
            4nat
        } else if n > 18 {
            3
        } else if n > 13 {
            2
        } else if n > 8 {
            1
        } else {
            0
        }),
    decreases n,
{
    if n > 0 {
        lemma_uuid_dashes(segment, n - 1);
        assert(segment.take(n).drop_last() =~= segment.take(n - 1));
        assert(segment.take(n).last() == segment[n - 1]);
    }
}

/// Numbers, UUIDs and parameters in braces are collapsed to `:id`.
pub proof fn law_ids_collapse(segment: Seq<char>)
    requires
        ({
            ||| segment.len() > 0 && forall|i: int|
                0 <= i < segment.len() ==> is_digit(#[trigger] segment[i])
            ||| is_uuid(segment)
            ||| segment.len() >= 3 && segment[0] == '{' && segment.last() == '}'
        }),
    ensures
        label(segment) == ":id"@,
{
    if is_uuid(segment) {
        lemma_uuid_dashes(segment, 36);
        assert(segment.take(36) =~= segment);
        assert forall|i: int| 0 <= i < segment.len() implies is_hex(#[trigger] segment[i])
            || segment[i] == '-' by {}
    }
}

/// A segment that is neither an identifier nor a parameter and not too long is
/// kept as it is.
pub proof fn law_named_segments_are_kept(segment: Seq<char>)
    requires
        !is_id(segment),
        !is_param(segment),
        segment.len() <= MAX_SEGMENT_CHARS,
    ensures
        label(segment) == segment,
{
}

/// The characters of a segment.
pub open spec fn inner() -> spec_fn(char) -> bool {
    |c: char| c != '/'
}

/// Whether what is kept of a segment is not in turn taken for an identifier. It
/// is the case for every segment that is short enough to be kept whole.
pub open spec fn keeps_label(segment: Seq<char>) -> bool {
    ||| segment.len() <= MAX_SEGMENT_CHARS
    ||| is_id(segment)
    ||| is_param(segment)
    ||| !is_id(label(segment)) && !is_param(label(segment))
}

proof fn lemma_label_is_kept(segment: Seq<char>)
    requires
        keeps_label(segment),
    ensures
        label(label(segment)) == label(segment),
        segment.len() > 0 ==> label(segment).len() > 0,
        text::all_chars(segment, inner()) ==> text::all_chars(label(segment), inner()),
{
    reveal_strlit(":id");
    assert(":id"@ =~= seq![':', 'i', 'd']);
    assert(is_param(":id"@));
}

proof fn lemma_joined_again(segments: Seq<Seq<char>>)
    requires
        forall|k: int|
            0 <= k < segments.len() ==> text::all_chars(#[trigger] segments[k], inner())
                && keeps_label(segments[k]),
    ensures
        joined(text::pieces(joined(segments), '/')) == joined(segments),
        joined(segments).len() > 0,
        joined(segments)[0] == '/',
    decreases segments.len(),
{
    let none = Seq::<char>::empty();
    reveal_with_fuel(joined, 3);
    text::lemma_pieces_none(none, '/');
    if segments.len() == 0 {
        text::lemma_pieces_pushed(none, '/', none);
        assert(none.push('/') + none =~= seq!['/']);
        let parts = text::pieces(seq!['/'], '/');
        assert(parts =~= seq![none, none]);
        assert(parts.drop_last() =~= seq![none]);
        assert(parts.drop_last().drop_last() =~= Seq::<Seq<char>>::empty());
    } else {
        let last = segments[segments.len() - 1];
        let head = joined(segments.drop_last());
        lemma_joined_again(segments.drop_last());
        lemma_label_is_kept(last);
        let l = label(last);
        if last.len() > 0 {
            if head.len() == 1 {
                assert(head =~= seq!['/']);
                text::lemma_pieces_pushed(none, '/', l);
                assert(none.push('/') + l =~= head + l);
                let parts = text::pieces(head + l, '/');
                assert(parts =~= seq![none, l]);
                assert(parts.drop_last() =~= seq![none]);
                assert(parts.drop_last().drop_last() =~= Seq::<Seq<char>>::empty());
            } else {
                text::lemma_pieces_pushed(head, '/', l);
                let parts = text::pieces(head.push('/') + l, '/');
                assert(parts.drop_last() =~= text::pieces(head, '/'));
                assert(parts.last() == l);
            }
        }
    }
}

/// The name of a path is its own name: nothing in it is collapsed or cut again.
/// This holds where nothing was cut off at the limit on names and no segment was
/// cut to what looks like an identifier.
pub proof fn law_names_are_their_own_names(path: Seq<char>)
    requires
        path_name(path) == full_path(path),
        forall|k: int| 0 <= k < segments(path).len() ==> keeps_label(#[trigger] segments(path)[k]),
    ensures
        path_name(path_name(path)) == path_name(path),
{
    let ends = seq!['?', '#'];
    let parts = segments(path);
    let name = path_name(path);
    lemma_full_path_bare(path);
    text::lemma_pieces_apart(text::up_to(path, ends), '/');
    assert forall|k: int| 0 <= k < parts.len() implies text::all_chars(
        #[trigger] parts[k],
        inner(),
    ) by {
        assert(!parts[k].contains('/'));
    }
    lemma_joined_again(parts);
    text::lemma_first_of(name, ends);
    assert(text::first_of(name, ends) == name.len()) by {
        if text::first_of(name, ends) < name.len() {
            let c = name[text::first_of(name, ends)];
            assert(ends.contains(c));
            assert(bare()(c));
            assert(ends[0] == '?' && ends[1] == '#');
        }
    }
    assert(text::up_to(name, ends) =~= name);
    assert(full_path(name) == full_path(path));
}

} // verus!
