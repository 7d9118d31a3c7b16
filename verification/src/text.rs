//! Text as sequences of characters.

use vstd::prelude::*;
use vstd::slice::slice_subrange;

verus! {

/// `String::push` appends one character.
pub assume_specification[ std::string::String::push ](string: &mut String, ch: char)
    ensures
        final(string)@ == old(string)@.push(ch),
;

/// The characters of a text.
pub fn chars_of(text: &str) -> (chars: Vec<char>)
    ensures
        chars@ == text@,
{
    let mut chars: Vec<char> = Vec::new();
    for c in it: text.chars()
        invariant
            it.seq() == text@,
            chars@ == text@.take(it.index() as int),
    {
        chars.push(c);
    }
    assert(text@.take(text@.len() as int) =~= text@);
    chars
}

/// The text of some characters.
pub fn text_of(chars: &[char]) -> (text: String)
    ensures
        text@ == chars@,
{
    let mut text = String::new();
    let mut i: usize = 0;
    while i < chars.len()
        invariant
            i <= chars@.len(),
            text@ == chars@.take(i as int),
        decreases chars@.len() - i,
    {
        text.push(chars[i]);
        i = i + 1;
        assert(text@ =~= chars@.take(i as int));
    }
    assert(chars@.take(chars@.len() as int) =~= chars@);
    text
}

/// Whether a character has the Unicode property `White_Space`.
pub open spec fn is_white(c: char) -> bool {
    ||| '\u{9}' <= c <= '\u{d}'
    ||| c == ' '
    ||| c == '\u{85}'
    ||| c == '\u{a0}'
    ||| c == '\u{1680}'
    ||| '\u{2000}' <= c <= '\u{200a}'
    ||| c == '\u{2028}'
    ||| c == '\u{2029}'
    ||| c == '\u{202f}'
    ||| c == '\u{205f}'
    ||| c == '\u{3000}'
}

pub fn white(c: char) -> (yes: bool)
    ensures
        yes == is_white(c),
{
    ('\u{9}' <= c && c <= '\u{d}') || c == ' ' || c == '\u{85}' || c == '\u{a0}' || c == '\u{1680}'
        || ('\u{2000}' <= c && c <= '\u{200a}') || c == '\u{2028}' || c == '\u{2029}' || c
        == '\u{202f}' || c == '\u{205f}' || c == '\u{3000}'
}

/// The text without the white space it begins with.
pub open spec fn trim_start(s: Seq<char>) -> Seq<char>
    decreases s.len(),
{
    if s.len() > 0 && is_white(s[0]) {
        trim_start(s.skip(1))
    } else {
        s
    }
}

/// The text without the white space it ends with.
pub open spec fn trim_end(s: Seq<char>) -> Seq<char>
    decreases s.len(),
{
    if s.len() > 0 && is_white(s.last()) {
        trim_end(s.drop_last())
    } else {
        s
    }
}

/// The text without white space at either end.
pub open spec fn trimmed(s: Seq<char>) -> Seq<char> {
    trim_end(trim_start(s))
}

pub fn trim(s: &[char]) -> (t: &[char])
    ensures
        t@ == trimmed(s@),
{
    let mut from: usize = 0;
    assert(s@.skip(0) =~= s@);
    while from < s.len() && white(s[from])
        invariant
            from <= s@.len(),
            trim_start(s@) == trim_start(s@.skip(from as int)),
        decreases s@.len() - from,
    {
        assert(s@.skip(from as int).skip(1) =~= s@.skip(from + 1));
        from = from + 1;
    }
    let ghost start = s@.skip(from as int);
    assert(trim_start(s@) == start);
    let mut to: usize = s.len();
    assert(s@.subrange(from as int, to as int) =~= start);
    while from < to && white(s[to - 1])
        invariant
            from <= to <= s@.len(),
            start == s@.skip(from as int),
            trim_end(start) == trim_end(s@.subrange(from as int, to as int)),
        decreases to - from,
    {
        assert(s@.subrange(from as int, to as int).drop_last() =~= s@.subrange(
            from as int,
            to - 1,
        ));
        to = to - 1;
    }
    slice_subrange(s, from, to)
}

/// Position of the first character out of `set`, or the length of the text.
pub open spec fn first_of(s: Seq<char>, set: Seq<char>) -> int
    decreases s.len(),
{
    if s.len() == 0 || set.contains(s[0]) {
        0
    } else {
        1 + first_of(s.skip(1), set)
    }
}

pub proof fn lemma_first_of(s: Seq<char>, set: Seq<char>)
    ensures
        0 <= first_of(s, set) <= s.len(),
        forall|i: int| 0 <= i < first_of(s, set) ==> !set.contains(#[trigger] s[i]),
        first_of(s, set) < s.len() ==> set.contains(s[first_of(s, set)]),
    decreases s.len(),
{
    if s.len() > 0 && !set.contains(s[0]) {
        lemma_first_of(s.skip(1), set);
        assert forall|i: int| 0 <= i < first_of(s, set) implies !set.contains(#[trigger] s[i]) by {
            if i > 0 {
                assert(s[i] == s.skip(1)[i - 1]);
            }
        }
    }
}

pub proof fn lemma_first_of_is(s: Seq<char>, set: Seq<char>, at: int)
    requires
        0 <= at <= s.len(),
        forall|i: int| 0 <= i < at ==> !set.contains(#[trigger] s[i]),
        at < s.len() ==> set.contains(s[at]),
    ensures
        first_of(s, set) == at,
{
    lemma_first_of(s, set);
    let f = first_of(s, set);
    if f < at {
        assert(!set.contains(s[f]));
    } else if at < f {
        assert(!set.contains(s[at]));
    }
}

fn is_in(c: char, set: &[char]) -> (yes: bool)
    ensures
        yes == set@.contains(c),
{
    let mut i: usize = 0;
    while i < set.len()
        invariant
            i <= set@.len(),
            forall|j: int| 0 <= j < i ==> set@[j] != c,
        decreases set@.len() - i,
    {
        if set[i] == c {
            assert(set@[i as int] == c);
            return true;
        }
        i = i + 1;
    }
    false
}

pub fn find_any(s: &[char], set: &[char]) -> (at: usize)
    ensures
        at == first_of(s@, set@),
        at <= s@.len(),
{
    let mut at: usize = 0;
    while at < s.len() && !is_in(s[at], set)
        invariant
            at <= s@.len(),
            forall|i: int| 0 <= i < at ==> !set@.contains(#[trigger] s@[i]),
        decreases s@.len() - at,
    {
        at = at + 1;
    }
    proof {
        lemma_first_of_is(s@, set@, at as int);
    }
    at
}

/// What stands before the first character out of `set`.
pub open spec fn up_to(s: Seq<char>, set: Seq<char>) -> Seq<char> {
    s.take(first_of(s, set))
}

pub fn before_any<'a>(s: &'a [char], set: &[char]) -> (part: &'a [char])
    ensures
        part@ == up_to(s@, set@),
{
    let at = find_any(s, set);
    assert(s@.subrange(0, at as int) =~= s@.take(at as int));
    slice_subrange(s, 0, at)
}

/// The parts of a text before and after the first `sep`.
pub open spec fn split_at_first(s: Seq<char>, sep: char) -> Option<(Seq<char>, Seq<char>)> {
    let at = first_of(s, seq![sep]);
    if at < s.len() {
        Some((s.take(at), s.skip(at + 1)))
    } else {
        None
    }
}

pub fn split_once<'a>(s: &'a [char], sep: char) -> (parts: Option<(&'a [char], &'a [char])>)
    ensures
        parts is Some <==> split_at_first(s@, sep) is Some,
        parts matches Some((left, right)) ==> split_at_first(s@, sep) == Some((left@, right@)),
{
    let set: Vec<char> = vec![sep];
    assert(set@ =~= seq![sep]);
    let at = find_any(s, set.as_slice());
    if at < s.len() {
        assert(s@.subrange(0, at as int) =~= s@.take(at as int));
        assert(s@.subrange(at + 1, s@.len() as int) =~= s@.skip(at + 1));
        Some((slice_subrange(s, 0, at), slice_subrange(s, at + 1, s.len())))
    } else {
        None
    }
}

/// The pieces of a text between all its `sep`: one more than there are `sep`.
pub open spec fn pieces(s: Seq<char>, sep: char) -> Seq<Seq<char>>
    decreases s.len(),
    via pieces_decreases
{
    let at = first_of(s, seq![sep]);
    if at < s.len() {
        seq![s.take(at)] + pieces(s.skip(at + 1), sep)
    } else {
        seq![s]
    }
}

#[via_fn]
proof fn pieces_decreases(s: Seq<char>, sep: char) {
    lemma_first_of(s, seq![sep]);
}

pub proof fn lemma_pieces_some(s: Seq<char>, sep: char)
    ensures
        pieces(s, sep).len() > 0,
{
    lemma_first_of(s, seq![sep]);
}

/// Whether all characters of a text have a property.
pub open spec fn all_chars(s: Seq<char>, p: spec_fn(char) -> bool) -> bool {
    forall|i: int| 0 <= i < s.len() ==> p(#[trigger] s[i])
}

/// What all characters of a text have, all characters of its pieces have.
pub proof fn lemma_pieces_all(s: Seq<char>, sep: char, p: spec_fn(char) -> bool)
    requires
        all_chars(s, p),
    ensures
        forall|k: int| 0 <= k < pieces(s, sep).len() ==> all_chars(#[trigger] pieces(s, sep)[k], p),
    decreases s.len(),
{
    lemma_first_of(s, seq![sep]);
    let at = first_of(s, seq![sep]);
    let all = pieces(s, sep);
    if at < s.len() {
        let rest = s.skip(at + 1);
        assert(all_chars(rest, p)) by {
            assert forall|i: int| 0 <= i < rest.len() implies p(#[trigger] rest[i]) by {
                assert(rest[i] == s[i + at + 1]);
            }
        }
        lemma_pieces_all(rest, sep, p);
        assert forall|k: int| 0 <= k < all.len() implies all_chars(#[trigger] all[k], p) by {
            if k == 0 {
                assert(all[0] == s.take(at));
            } else {
                assert(all[k] == pieces(rest, sep)[k - 1]);
            }
        }
    }
}

/// No piece of a text holds what it was cut at.
pub proof fn lemma_pieces_apart(s: Seq<char>, sep: char)
    ensures
        forall|k: int|
            0 <= k < pieces(s, sep).len() ==> !(#[trigger] pieces(s, sep)[k]).contains(sep),
    decreases s.len(),
{
    let set = seq![sep];
    lemma_first_of(s, set);
    let at = first_of(s, set);
    let all = pieces(s, sep);
    assert(set[0] == sep);
    assert(!s.take(at).contains(sep)) by {
        assert forall|i: int| 0 <= i < at implies s.take(at)[i] != sep by {
            assert(!set.contains(s[i]));
        }
    }
    if at < s.len() {
        lemma_pieces_apart(s.skip(at + 1), sep);
        assert forall|k: int| 0 <= k < all.len() implies !(#[trigger] all[k]).contains(sep) by {
            if k == 0 {
                assert(all[0] == s.take(at));
            } else {
                assert(all[k] == pieces(s.skip(at + 1), sep)[k - 1]);
            }
        }
    } else {
        assert(s.take(at) =~= s);
    }
}

/// A text that does not hold `sep` is its only piece.
pub proof fn lemma_pieces_none(s: Seq<char>, sep: char)
    requires
        all_chars(s, |c: char| c != sep),
    ensures
        pieces(s, sep) == seq![s],
{
    let set = seq![sep];
    lemma_first_of(s, set);
    if first_of(s, set) < s.len() {
        assert(set.contains(s[first_of(s, set)]));
    }
}

/// A text without `sep` that follows one more `sep` is one more piece.
pub proof fn lemma_pieces_pushed(s: Seq<char>, sep: char, more: Seq<char>)
    requires
        forall|i: int| 0 <= i < more.len() ==> #[trigger] more[i] != sep,
    ensures
        pieces(s.push(sep) + more, sep) == pieces(s, sep).push(more),
    decreases s.len(),
{
    let set = seq![sep];
    let whole = s.push(sep) + more;
    let at = first_of(s, set);
    lemma_first_of(s, set);
    assert(set[0] == sep);
    assert forall|i: int| 0 <= i < at implies !set.contains(#[trigger] whole[i]) by {
        assert(whole[i] == s[i]);
    }
    if at < s.len() {
        assert(whole[at] == s[at]);
        lemma_first_of_is(whole, set, at);
        assert(whole.skip(at + 1) =~= s.skip(at + 1).push(sep) + more);
        assert(whole.take(at) =~= s.take(at));
        lemma_pieces_pushed(s.skip(at + 1), sep, more);
        assert(pieces(whole, sep) =~= pieces(s, sep).push(more));
    } else {
        assert(whole[at] == sep);
        assert(set.contains(sep));
        lemma_first_of_is(whole, set, at);
        assert(whole.skip(at + 1) =~= more);
        assert(whole.take(at) =~= s);
        lemma_pieces_none(more, sep);
        assert(pieces(whole, sep) =~= pieces(s, sep).push(more));
    }
}

/// The contents of a list of texts.
pub open spec fn texts(list: Seq<String>) -> Seq<Seq<char>> {
    Seq::new(list.len(), |i: int| list[i]@)
}

/// The texts behind a list of slices.
pub open spec fn views(parts: Seq<&[char]>) -> Seq<Seq<char>> {
    Seq::new(parts.len(), |i: int| parts[i]@)
}

pub fn split<'a>(s: &'a [char], sep: char) -> (parts: Vec<&'a [char]>)
    ensures
        views(parts@) == pieces(s@, sep),
{
    let set: Vec<char> = vec![sep];
    assert(set@ =~= seq![sep]);
    let mut parts: Vec<&'a [char]> = Vec::new();
    let mut rest: &'a [char] = s;
    assert(views(parts@) + pieces(s@, sep) =~= pieces(s@, sep));
    loop
        invariant
            set@ == seq![sep],
            views(parts@) + pieces(rest@, sep) == pieces(s@, sep),
        decreases rest@.len(),
    {
        let at = find_any(rest, set.as_slice());
        let ghost before = views(parts@);
        assert(rest@.subrange(0, at as int) =~= rest@.take(at as int));
        parts.push(slice_subrange(rest, 0, at));
        assert(views(parts@) =~= before.push(rest@.take(at as int)));
        if at >= rest.len() {
            assert(rest@.take(at as int) =~= rest@);
            assert(views(parts@) =~= before + pieces(rest@, sep));
            return parts;
        }
        let ghost tail = pieces(rest@.skip(at + 1), sep);
        assert(before + (seq![rest@.take(at as int)] + tail) =~= before.push(
            rest@.take(at as int),
        ) + tail);
        assert(rest@.subrange(at + 1, rest@.len() as int) =~= rest@.skip(at + 1));
        rest = slice_subrange(rest, at + 1, rest.len());
    }
}

/// The character with an ASCII letter made small.
pub open spec fn lower(c: char) -> char {
    if 'A' <= c <= 'Z' {
        (c as u8 + 32) as u8 as char
    } else {
        c
    }
}

/// The character with an ASCII letter made capital.
pub open spec fn upper(c: char) -> char {
    if 'a' <= c <= 'z' {
        (c as u8 - 32) as u8 as char
    } else {
        c
    }
}

pub fn to_lower(c: char) -> (r: char)
    ensures
        r == lower(c),
{
    if 'A' <= c && c <= 'Z' {
        (c as u8 + 32) as char
    } else {
        c
    }
}

pub fn to_upper(c: char) -> (r: char)
    ensures
        r == upper(c),
{
    if 'a' <= c && c <= 'z' {
        (c as u8 - 32) as char
    } else {
        c
    }
}

/// The text with all ASCII letters made small.
pub open spec fn lowered(s: Seq<char>) -> Seq<char> {
    Seq::new(s.len(), |i: int| lower(s[i]))
}

/// Whether two texts are the same but for the case of ASCII letters.
pub open spec fn same_text(a: Seq<char>, b: Seq<char>) -> bool {
    lowered(a) == lowered(b)
}

pub fn eq_ignore_case(a: &[char], b: &[char]) -> (same: bool)
    ensures
        same == same_text(a@, b@),
{
    if a.len() != b.len() {
        assert(lowered(a@).len() != lowered(b@).len());
        return false;
    }
    let mut i: usize = 0;
    while i < a.len()
        invariant
            i <= a@.len(),
            a@.len() == b@.len(),
            forall|j: int| 0 <= j < i ==> lower(#[trigger] a@[j]) == lower(b@[j]),
        decreases a@.len() - i,
    {
        if to_lower(a[i]) != to_lower(b[i]) {
            assert(lowered(a@)[i as int] != lowered(b@)[i as int]);
            return false;
        }
        i = i + 1;
    }
    assert(lowered(a@) =~= lowered(b@));
    true
}

/// Compares characters with a text, but for the case of ASCII letters.
pub fn is_text(a: &[char], b: &str) -> (same: bool)
    ensures
        same == same_text(a@, b@),
{
    let other = chars_of(b);
    eq_ignore_case(a, other.as_slice())
}

/// Compares characters one by one.
pub fn eq_chars(a: &[char], b: &[char]) -> (same: bool)
    ensures
        same == (a@ == b@),
{
    if a.len() != b.len() {
        return false;
    }
    let mut i: usize = 0;
    while i < a.len()
        invariant
            i <= a@.len(),
            a@.len() == b@.len(),
            forall|j: int| 0 <= j < i ==> a@[j] == b@[j],
        decreases a@.len() - i,
    {
        if a[i] != b[i] {
            return false;
        }
        i = i + 1;
    }
    assert(a@ =~= b@);
    true
}

/// Whether `s` begins with `head`.
pub open spec fn begins(s: Seq<char>, head: Seq<char>) -> bool {
    head.len() <= s.len() && s.take(head.len() as int) == head
}

pub fn starts_with(s: &[char], head: &[char]) -> (yes: bool)
    ensures
        yes == begins(s@, head@),
{
    if head.len() > s.len() {
        return false;
    }
    let part = slice_subrange(s, 0, head.len());
    assert(part@ =~= s@.take(head@.len() as int));
    eq_chars(part, head)
}

/// Whether a character occurs in a text.
pub fn contains(s: &[char], c: char) -> (yes: bool)
    ensures
        yes == s@.contains(c),
{
    is_in(c, s)
}

/// Position of the first occurrence of `pattern`, or the length of the text.
pub open spec fn first_match(s: Seq<char>, pattern: Seq<char>) -> int
    decreases s.len(),
{
    if s.len() == 0 || begins(s, pattern) {
        0
    } else {
        1 + first_match(s.skip(1), pattern)
    }
}

/// The parts of a text before and after the first occurrence of `pattern`.
pub open spec fn split_at_text(s: Seq<char>, pattern: Seq<char>) -> Option<
    (Seq<char>, Seq<char>),
> {
    let at = first_match(s, pattern);
    if at < s.len() {
        Some((s.take(at), s.skip(at + pattern.len())))
    } else {
        None
    }
}

pub fn split_once_text<'a>(s: &'a [char], pattern: &[char]) -> (parts: Option<
    (&'a [char], &'a [char]),
>)
    requires
        pattern@.len() > 0,
    ensures
        parts is Some <==> split_at_text(s@, pattern@) is Some,
        parts matches Some((left, right)) ==> split_at_text(s@, pattern@) == Some((left@, right@)),
{
    let mut at: usize = 0;
    assert(s@.skip(0) =~= s@);
    while at < s.len()
        invariant
            pattern@.len() > 0,
            at <= s@.len(),
            first_match(s@, pattern@) == at + first_match(s@.skip(at as int), pattern@),
        decreases s@.len() - at,
    {
        let rest = slice_subrange(s, at, s.len());
        assert(rest@ =~= s@.skip(at as int));
        if starts_with(rest, pattern) {
            assert(s@.subrange(0, at as int) =~= s@.take(at as int));
            assert(s@.subrange(at + pattern@.len(), s@.len() as int) =~= s@.skip(
                at + pattern@.len(),
            ));
            return Some(
                (slice_subrange(s, 0, at), slice_subrange(s, at + pattern.len(), s.len())),
            );
        }
        assert(s@.skip(at as int).skip(1) =~= s@.skip(at + 1));
        at = at + 1;
    }
    None
}

/// The text with every occurrence of `pattern`, found from left to right and not
/// overlapping, replaced.
pub open spec fn replaced(s: Seq<char>, pattern: Seq<char>, with: Seq<char>) -> Seq<char>
    decreases s.len(),
{
    if s.len() == 0 || pattern.len() == 0 {
        s
    } else if begins(s, pattern) {
        with + replaced(s.skip(pattern.len() as int), pattern, with)
    } else {
        seq![s[0]] + replaced(s.skip(1), pattern, with)
    }
}

/// Appends some characters.
pub fn append(target: &mut Vec<char>, more: &[char])
    ensures
        final(target)@ == old(target)@ + more@,
{
    let mut i: usize = 0;
    assert(target@ =~= old(target)@ + more@.take(0));
    while i < more.len()
        invariant
            i <= more@.len(),
            target@ == old(target)@ + more@.take(i as int),
        decreases more@.len() - i,
    {
        target.push(more[i]);
        i = i + 1;
        assert(target@ =~= old(target)@ + more@.take(i as int));
    }
    assert(more@.take(more@.len() as int) =~= more@);
}

pub fn replace(s: &[char], pattern: &[char], with: &[char]) -> (out: Vec<char>)
    requires
        pattern@.len() > 0,
    ensures
        out@ == replaced(s@, pattern@, with@),
{
    let mut out: Vec<char> = Vec::new();
    let mut at: usize = 0;
    assert(s@.skip(0) =~= s@);
    assert(out@ + replaced(s@, pattern@, with@) =~= replaced(s@, pattern@, with@));
    while at < s.len()
        invariant
            pattern@.len() > 0,
            at <= s@.len(),
            out@ + replaced(s@.skip(at as int), pattern@, with@) == replaced(
                s@,
                pattern@,
                with@,
            ),
        decreases s@.len() - at,
    {
        let rest = slice_subrange(s, at, s.len());
        assert(rest@ =~= s@.skip(at as int));
        let ghost before = out@;
        if starts_with(rest, pattern) {
            append(&mut out, with);
            assert(rest@.skip(pattern@.len() as int) =~= s@.skip(at + pattern@.len()));
            assert(before + (with@ + replaced(s@.skip(at + pattern@.len()), pattern@, with@))
                =~= out@ + replaced(s@.skip(at + pattern@.len()), pattern@, with@));
            at = at + pattern.len();
        } else {
            out.push(s[at]);
            assert(rest@.skip(1) =~= s@.skip(at + 1));
            assert(before + (seq![rest@[0]] + replaced(s@.skip(at + 1), pattern@, with@))
                =~= out@ + replaced(s@.skip(at + 1), pattern@, with@));
            at = at + 1;
        }
    }
    assert(out@ + replaced(s@.skip(at as int), pattern@, with@) =~= out@);
    out
}

/// The decimal digit `d`.
pub open spec fn digit(d: nat) -> char {
    (48 + d) as u8 as char
}

/// The decimal numeral of `n`.
pub open spec fn numeral(n: nat) -> Seq<char>
    decreases n,
{
    if n < 10 {
        seq![digit(n)]
    } else {
        numeral(n / 10).push(digit(n % 10))
    }
}

pub fn decimal(n: u128) -> (chars: Vec<char>)
    ensures
        chars@ == numeral(n as nat),
    decreases n,
{
    let last: u8 = (n % 10) as u8;
    let c: char = (48 + last) as char;
    if n < 10 {
        let chars: Vec<char> = vec![c];
        assert(chars@ =~= numeral(n as nat));
        chars
    } else {
        let mut chars = decimal(n / 10);
        chars.push(c);
        chars
    }
}

/// Bytes that a character takes in UTF-8.
pub open spec fn width(c: char) -> nat {
    if c as u32 <= 0x7f {
        1
    } else if c as u32 <= 0x7ff {
        2
    } else if c as u32 <= 0xffff {
        3
    } else {
        4
    }
}

pub fn width_of(c: char) -> (bytes: usize)
    ensures
        bytes == width(c),
{
    let code: u32 = c as u32;
    if code <= 0x7f {
        1
    } else if code <= 0x7ff {
        2
    } else if code <= 0xffff {
        3
    } else {
        4
    }
}

/// Bytes that a text takes in UTF-8.
pub open spec fn byte_len(s: Seq<char>) -> nat
    decreases s.len(),
{
    if s.len() == 0 {
        0
    } else {
        byte_len(s.drop_last()) + width(s.last())
    }
}

pub proof fn lemma_byte_len_step(s: Seq<char>, i: int)
    requires
        0 <= i < s.len(),
    ensures
        byte_len(s.take(i + 1)) == byte_len(s.take(i)) + width(s[i]),
{
    assert(s.take(i + 1).drop_last() =~= s.take(i));
}

pub proof fn lemma_byte_len_monotone(s: Seq<char>, i: int, j: int)
    requires
        0 <= i <= j <= s.len(),
    ensures
        byte_len(s.take(i)) + (j - i) <= byte_len(s.take(j)),
    decreases j - i,
{
    if i < j {
        lemma_byte_len_monotone(s, i, j - 1);
        lemma_byte_len_step(s, j - 1);
    }
}

/// Whether text `a` comes before text `b` in the order of a dictionary that
/// goes by code points.
pub open spec fn comes_before(a: Seq<char>, b: Seq<char>) -> bool
    decreases a.len(),
{
    if b.len() == 0 {
        false
    } else if a.len() == 0 {
        true
    } else if a[0] != b[0] {
        a[0] < b[0]
    } else {
        comes_before(a.skip(1), b.skip(1))
    }
}

/// Tests the order of two texts: `Some(true)` where the first comes first,
/// `None` where they are the same.
pub fn order(a: &[char], b: &[char]) -> (first: Option<bool>)
    ensures
        match first {
            None => a@ == b@,
            Some(first) => a@ != b@ && first == comes_before(a@, b@),
        },
{
    let mut i: usize = 0;
    assert(a@.skip(0) =~= a@);
    assert(b@.skip(0) =~= b@);
    while i < a.len() && i < b.len()
        invariant
            i <= a@.len(),
            i <= b@.len(),
            forall|j: int| 0 <= j < i ==> a@[j] == b@[j],
            comes_before(a@, b@) == comes_before(a@.skip(i as int), b@.skip(i as int)),
        decreases a@.len() - i,
    {
        if a[i] != b[i] {
            return Some(a[i] < b[i]);
        }
        assert(a@.skip(i as int).skip(1) =~= a@.skip(i + 1));
        assert(b@.skip(i as int).skip(1) =~= b@.skip(i + 1));
        i = i + 1;
    }
    if a.len() == b.len() {
        assert(a@ =~= b@);
        None
    } else {
        Some(a.len() < b.len())
    }
}

/// The order of texts is total and has no two texts before each other.
pub proof fn lemma_order_is_total(a: Seq<char>, b: Seq<char>)
    ensures
        a == b || comes_before(a, b) || comes_before(b, a),
        !(comes_before(a, b) && comes_before(b, a)),
    decreases a.len() + b.len(),
{
    if a.len() > 0 && b.len() > 0 {
        lemma_order_is_total(a.skip(1), b.skip(1));
        if a[0] == b[0] && a.skip(1) == b.skip(1) {
            assert(a =~= seq![a[0]] + a.skip(1));
            assert(b =~= seq![b[0]] + b.skip(1));
        }
    } else if a.len() == 0 && b.len() == 0 {
        assert(a =~= b);
    }
}

pub proof fn lemma_order_chains(a: Seq<char>, b: Seq<char>, c: Seq<char>)
    requires
        comes_before(a, b),
        comes_before(b, c),
    ensures
        comes_before(a, c),
    decreases a.len(),
{
    if a.len() > 0 && b.len() > 0 && c.len() > 0 && a[0] == b[0] && b[0] == c[0] {
        lemma_order_chains(a.skip(1), b.skip(1), c.skip(1));
    }
}

} // verus!
