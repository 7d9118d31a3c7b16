//! Media types and their negotiation.
//!
//! Qualities are floating-point numbers of single precision. They are read by
//! the caller and compared here by their bits.

use vstd::prelude::*;

use axum::http::{HeaderMap, HeaderValue};

use crate::headers;
use crate::headers::{first_value, read_text};
use crate::text;
use crate::text::{
    before_any, chars_of, eq_chars, is_text, split, split_once, text_of, trim,
};

verus! {

/// Name of the header that lists what a client accepts.
pub const ACCEPT: &'static str = "accept";

/// Name of the header that tells the type of a body.
pub const CONTENT_TYPE: &'static str = "content-type";

/// Bits of the number one.
pub const ONE_BITS: u32 = 0x3f80_0000;

/// Bits of infinity. Above them lie those of what is not a number.
pub const INFINITY_BITS: u32 = 0x7f80_0000;

/// Bits of negative zero. From there on numbers are negative.
pub const SIGN_BITS: u32 = 0x8000_0000;

/// One media range that a client accepts.
#[derive(Debug)]
pub struct MediaRange {
    pub kind: String,
    pub subtype: String,
    /// The values of all its `q` parameters, in order.
    pub qualities: Vec<String>,
}

/// One media range.
#[verifier::ext_equal]
pub struct RangeState {
    pub kind: Seq<char>,
    pub subtype: Seq<char>,
    pub qualities: Seq<Seq<char>>,
}

impl MediaRange {
    pub open spec fn view(&self) -> RangeState {
        RangeState {
            kind: self.kind@,
            subtype: self.subtype@,
            qualities: text::texts(self.qualities@),
        }
    }
}

pub open spec fn range_views(list: Seq<MediaRange>) -> Seq<RangeState> {
    Seq::new(list.len(), |i: int| list[i]@)
}

/// The value of a parameter, where it is a quality.
pub open spec fn quality_in(parameter: Seq<char>) -> Option<Seq<char>> {
    match text::split_at_first(text::trimmed(parameter), '=') {
        Some((name, value)) => if text::same_text(name, "q"@) {
            Some(text::trimmed(value))
        } else {
            None
        },
        None => None,
    }
}

/// The values of all qualities among some parameters.
pub open spec fn qualities_in(parameters: Seq<Seq<char>>) -> Seq<Seq<char>>
    decreases parameters.len(),
{
    if parameters.len() == 0 {
        Seq::empty()
    } else {
        let rest = qualities_in(parameters.drop_last());
        match quality_in(parameters.last()) {
            Some(value) => rest.push(value),
            None => rest,
        }
    }
}

/// The media range that an item of a list stands for, if it is one.
pub open spec fn range_in(item: Seq<char>) -> Option<RangeState> {
    let parts = text::pieces(text::trimmed(item), ';');
    match text::split_at_first(text::trimmed(parts[0]), '/') {
        Some((kind, subtype)) => Some(
            RangeState {
                kind: text::trimmed(kind),
                subtype: text::trimmed(subtype),
                qualities: qualities_in(parts.skip(1)),
            },
        ),
        None => None,
    }
}

/// The media ranges among some items.
pub open spec fn ranges_among(items: Seq<Seq<char>>) -> Seq<RangeState>
    decreases items.len(),
{
    if items.len() == 0 {
        Seq::empty()
    } else {
        let rest = ranges_among(items.drop_last());
        match range_in(items.last()) {
            Some(range) => rest.push(range),
            None => rest,
        }
    }
}

/// The media ranges that a text lists.
pub open spec fn ranges_in(list: Seq<char>) -> Seq<RangeState> {
    ranges_among(text::pieces(list, ','))
}

fn parse_quality(parameter: &[char]) -> (value: Option<String>)
    ensures
        value is Some <==> quality_in(parameter@) is Some,
        value matches Some(v) ==> quality_in(parameter@) == Some(v@),
{
    match split_once(trim(parameter), '=') {
        Some((name, value)) => if is_text(name, "q") {
            Some(text_of(trim(value)))
        } else {
            None
        },
        None => None,
    }
}

fn parse_range(item: &[char]) -> (range: Option<MediaRange>)
    ensures
        range is Some <==> range_in(item@) is Some,
        range matches Some(r) ==> range_in(item@) == Some(r@),
{
    let parts = split(trim(item), ';');
    let ghost all = text::views(parts@);
    proof {
        text::lemma_pieces_some(text::trimmed(item@), ';');
        assert(all[0] == parts@[0]@);
    }
    let (kind, subtype) = match split_once(trim(parts[0]), '/') {
        Some(pair) => pair,
        None => {
            return None;
        },
    };
    let ghost parameters = all.skip(1);
    let mut qualities: Vec<String> = Vec::new();
    let mut i: usize = 1;
    assert(parameters.take(0) =~= Seq::<Seq<char>>::empty());
    assert(text::texts(qualities@) =~= qualities_in(parameters.take(0)));
    while i < parts.len()
        invariant
            1 <= i <= parts@.len(),
            all == text::views(parts@),
            parameters == all.skip(1),
            text::texts(qualities@) == qualities_in(parameters.take(i - 1)),
        decreases parts@.len() - i,
    {
        assert(parameters[i - 1] == parts@[i as int]@);
        assert(parameters.take(i as int).drop_last() =~= parameters.take(i - 1));
        let ghost before = text::texts(qualities@);
        match parse_quality(parts[i]) {
            Some(value) => {
                let ghost v = value@;
                qualities.push(value);
                assert(text::texts(qualities@) =~= before.push(v));
            },
            None => {},
        }
        i = i + 1;
    }
    assert(parameters.take(parameters.len() as int) =~= parameters);
    Some(MediaRange { kind: text_of(trim(kind)), subtype: text_of(trim(subtype)), qualities })
}

/// Reads the media ranges of a list.
pub fn parse_accept(list: &[char]) -> (ranges: Vec<MediaRange>)
    ensures
        range_views(ranges@) == ranges_in(list@),
{
    let items = split(list, ',');
    let ghost all = text::views(items@);
    let mut ranges: Vec<MediaRange> = Vec::new();
    let mut i: usize = 0;
    assert(all.take(0) =~= Seq::<Seq<char>>::empty());
    assert(range_views(ranges@) =~= ranges_among(all.take(0)));
    while i < items.len()
        invariant
            i <= items@.len(),
            all == text::views(items@),
            range_views(ranges@) == ranges_among(all.take(i as int)),
        decreases items@.len() - i,
    {
        assert(all[i as int] == items@[i as int]@);
        assert(all.take(i + 1).drop_last() =~= all.take(i as int));
        let ghost before = range_views(ranges@);
        match parse_range(items[i]) {
            Some(range) => {
                let ghost r = range@;
                ranges.push(range);
                assert(range_views(ranges@) =~= before.push(r));
            },
            None => {},
        }
        i = i + 1;
    }
    assert(all.take(all.len() as int) =~= all);
    ranges
}

/// The media ranges that a header value lists; none where there is no such value
/// or it is no text.
pub open spec fn accepted(value: Option<Seq<u8>>) -> Seq<RangeState> {
    match headers::header_text(value) {
        Some(list) => ranges_in(list),
        None => Seq::empty(),
    }
}

/// Reads the media ranges that a header value lists.
pub fn read_accept(value: &Option<Vec<u8>>) -> (ranges: Vec<MediaRange>)
    ensures
        range_views(ranges@) == accepted(headers::bytes_in(*value)),
{
    match value {
        Some(bytes) => match read_text(bytes) {
            Some(list) => {
                return parse_accept(list.as_slice());
            },
            None => {},
        },
        None => {},
    }
    let none: Vec<MediaRange> = Vec::new();
    assert(range_views(none@) =~= Seq::<RangeState>::empty());
    none
}

/// Reads the media ranges that a client accepts.
pub fn accept_ranges(headers: &HeaderMap<HeaderValue>) -> (ranges: Vec<MediaRange>)
    ensures
        range_views(ranges@) == accepted(headers::value_of(*headers, ACCEPT@)),
{
    let value = first_value(headers, ACCEPT);
    read_accept(&value)
}

/// Whether bits are not those of a number.
pub open spec fn is_nan(bits: u32) -> bool {
    INFINITY_BITS < bits < SIGN_BITS || bits > SIGN_BITS + INFINITY_BITS
}

/// A number that orders bits as the numbers they stand for are ordered.
pub open spec fn rank(bits: u32) -> int {
    if bits < SIGN_BITS {
        bits as int
    } else {
        SIGN_BITS - bits
    }
}

/// A number that orders all bits: as [`rank`], with negative zero before zero
/// and what is not a number at the two ends.
pub open spec fn total_rank(bits: u32) -> int {
    if bits < SIGN_BITS {
        bits as int
    } else {
        SIGN_BITS - 1 - bits
    }
}

/// A quality, brought between zero and one.
pub open spec fn bounded(bits: u32) -> u32 {
    if is_nan(bits) {
        bits
    } else if rank(bits) < 0 {
        0
    } else if rank(bits) > ONE_BITS {
        ONE_BITS
    } else {
        bits
    }
}

/// The first of some values that was read.
pub open spec fn first_read(values: Seq<Option<u32>>) -> Option<u32>
    decreases values.len(),
{
    if values.len() == 0 {
        None
    } else if values[0] is Some {
        values[0]
    } else {
        first_read(values.skip(1))
    }
}

/// The quality of a range whose `q` parameters were read as `values`: the first
/// that is a number, or one.
pub open spec fn quality_of(values: Seq<Option<u32>>) -> u32 {
    bounded(
        match first_read(values) {
            Some(bits) => bits,
            None => ONE_BITS,
        },
    )
}

/// Whether a range admits a media type.
pub open spec fn admits(range: RangeState, kind: Seq<char>, subtype: Seq<char>) -> bool {
    &&& range.kind == "*"@ || text::same_text(range.kind, kind)
    &&& range.subtype == "*"@ || text::same_text(range.subtype, subtype)
}

/// How narrow a range is.
pub open spec fn specificity(range: RangeState) -> u8 {
    if range.kind != "*"@ && range.subtype != "*"@ {
        2
    } else if range.kind != "*"@ || range.subtype != "*"@ {
        1
    } else {
        0
    }
}

/// Whether range `i` counts no more than range `j`: it is less narrow, or as
/// narrow and of no higher quality.
pub open spec fn counts_less(
    ranges: Seq<RangeState>,
    qualities: Seq<u32>,
    i: int,
    j: int,
) -> bool {
    if specificity(ranges[i]) != specificity(ranges[j]) {
        specificity(ranges[i]) < specificity(ranges[j])
    } else if total_rank(qualities[i]) != total_rank(qualities[j]) {
        total_rank(qualities[i]) < total_rank(qualities[j])
    } else {
        i <= j
    }
}

/// Whether range `i` decides on a media type: it admits the type and counts most
/// of those that do.
pub open spec fn decides(
    ranges: Seq<RangeState>,
    qualities: Seq<u32>,
    i: int,
    kind: Seq<char>,
    subtype: Seq<char>,
) -> bool {
    &&& 0 <= i < ranges.len()
    &&& admits(ranges[i], kind, subtype)
    &&& forall|j: int|
        0 <= j < ranges.len() && #[trigger] admits(ranges[j], kind, subtype) ==> counts_less(
            ranges,
            qualities,
            j,
            i,
        )
}

/// Quality and specificity of the range that decides on a media type.
pub open spec fn weight_of(
    ranges: Seq<RangeState>,
    qualities: Seq<u32>,
    kind: Seq<char>,
    subtype: Seq<char>,
) -> Option<(u32, u8)> {
    if exists|i: int| decides(ranges, qualities, i, kind, subtype) {
        let i = choose|i: int| decides(ranges, qualities, i, kind, subtype);
        Some((qualities[i], specificity(ranges[i])))
    } else {
        None
    }
}

/// Whether a quality is greater than zero.
pub open spec fn is_positive(bits: u32) -> bool {
    !is_nan(bits) && rank(bits) > 0
}

/// Whether one weight is greater than another: of higher quality, or of equal
/// quality and narrower.
pub open spec fn outweighs(a: (u32, u8), b: (u32, u8)) -> bool {
    &&& !is_nan(a.0) && !is_nan(b.0)
    &&& rank(a.0) > rank(b.0) || (rank(a.0) == rank(b.0) && a.1 > b.1)
}

/// Whether JSON is preferred to HTML, given the weights of both.
pub open spec fn json_wins(json: Option<(u32, u8)>, html: Option<(u32, u8)>) -> bool {
    match (json, html) {
        (Some(j), Some(h)) => is_positive(j.0) && outweighs(j, h),
        (Some(j), None) => is_positive(j.0),
        _ => false,
    }
}

/// The qualities of all ranges.
pub open spec fn quality_list(values: Seq<Vec<Option<u32>>>) -> Seq<u32> {
    Seq::new(values.len(), |i: int| quality_of(values[i]@))
}

/// Whether a client prefers JSON that accepts some ranges with some qualities.
pub open spec fn wants_json(ranges: Seq<RangeState>, qualities: Seq<u32>) -> bool {
    json_wins(
        weight_of(ranges, qualities, "application"@, "json"@),
        weight_of(ranges, qualities, "text"@, "html"@),
    )
}

fn bits_are_nan(bits: u32) -> (nan: bool)
    ensures
        nan == is_nan(bits),
{
    (INFINITY_BITS < bits && bits < SIGN_BITS) || bits > SIGN_BITS + INFINITY_BITS
}

fn rank_bits(bits: u32) -> (n: i64)
    ensures
        n == rank(bits),
{
    if bits < SIGN_BITS {
        bits as i64
    } else {
        SIGN_BITS as i64 - bits as i64
    }
}

fn total_rank_bits(bits: u32) -> (n: i64)
    ensures
        n == total_rank(bits),
{
    if bits < SIGN_BITS {
        bits as i64
    } else {
        SIGN_BITS as i64 - 1 - bits as i64
    }
}

/// Chooses the quality of a range whose `q` parameters were read as `values`.
pub fn choose_quality(values: &Vec<Option<u32>>) -> (bits: u32)
    ensures
        bits == quality_of(values@),
{
    let mut read: Option<u32> = None;
    let mut i: usize = 0;
    assert(values@.skip(0) =~= values@);
    while i < values.len() && read.is_none()
        invariant
            i <= values@.len(),
            match read {
                Some(bits) => first_read(values@) == Some(bits),
                None => first_read(values@) == first_read(values@.skip(i as int)),
            },
        decreases values@.len() - i,
    {
        assert(values@.skip(i as int).skip(1) =~= values@.skip(i + 1));
        read = values[i];
        i = i + 1;
    }
    let bits: u32 = match read {
        Some(bits) => bits,
        None => ONE_BITS,
    };
    if bits_are_nan(bits) {
        bits
    } else if rank_bits(bits) < 0 {
        0
    } else if rank_bits(bits) > ONE_BITS as i64 {
        ONE_BITS
    } else {
        bits
    }
}

fn is_star(part: &[char]) -> (yes: bool)
    ensures
        yes == (part@ == "*"@),
{
    let star = chars_of("*");
    eq_chars(part, star.as_slice())
}

proof fn lemma_decider_is_one(
    ranges: Seq<RangeState>,
    qualities: Seq<u32>,
    i: int,
    j: int,
    kind: Seq<char>,
    subtype: Seq<char>,
)
    requires
        decides(ranges, qualities, i, kind, subtype),
        decides(ranges, qualities, j, kind, subtype),
    ensures
        i == j,
{
    assert(admits(ranges[i], kind, subtype));
    assert(admits(ranges[j], kind, subtype));
}

/// Finds quality and specificity of the range that decides on a media type.
pub fn candidate_quality(
    ranges: &Vec<MediaRange>,
    qualities: &Vec<u32>,
    kind: &str,
    subtype: &str,
) -> (weight: Option<(u32, u8)>)
    requires
        qualities@.len() == ranges@.len(),
    ensures
        weight == weight_of(range_views(ranges@), qualities@, kind@, subtype@),
{
    let ghost all = range_views(ranges@);
    let mut best: Option<usize> = None;
    let mut weight: Option<(u32, u8)> = None;
    let mut i: usize = 0;
    while i < ranges.len()
        invariant
            i <= ranges@.len(),
            qualities@.len() == ranges@.len(),
            all == range_views(ranges@),
            match best {
                Some(b) => {
                    &&& b < i
                    &&& admits(all[b as int], kind@, subtype@)
                    &&& weight == Some((qualities@[b as int], specificity(all[b as int])))
                    &&& forall|j: int|
                        0 <= j < i && #[trigger] admits(all[j], kind@, subtype@) ==> counts_less(
                            all,
                            qualities@,
                            j,
                            b as int,
                        )
                },
                None => weight is None && forall|j: int|
                    0 <= j < i ==> !#[trigger] admits(all[j], kind@, subtype@),
            },
        decreases ranges@.len() - i,
    {
        let range = &ranges[i];
        assert(all[i as int] == range@);
        let range_kind = chars_of(range.kind.as_str());
        let range_subtype = chars_of(range.subtype.as_str());
        let any_kind = is_star(range_kind.as_slice());
        let any_subtype = is_star(range_subtype.as_slice());
        if (any_kind || is_text(range_kind.as_slice(), kind)) && (any_subtype || is_text(
            range_subtype.as_slice(),
            subtype,
        )) {
            let mut narrow: u8 = 0;
            if !any_kind {
                narrow = narrow + 1;
            }
            if !any_subtype {
                narrow = narrow + 1;
            }
            let counts_more: bool = match weight {
                Some((quality, other)) => if other != narrow {
                    other < narrow
                } else {
                    total_rank_bits(quality) <= total_rank_bits(qualities[i])
                },
                None => true,
            };
            if counts_more {
                best = Some(i);
                weight = Some((qualities[i], narrow));
            }
        }
        i = i + 1;
    }
    proof {
        match best {
            Some(b) => {
                assert(decides(all, qualities@, b as int, kind@, subtype@));
                lemma_decider_is_one(
                    all,
                    qualities@,
                    b as int,
                    choose|k: int| decides(all, qualities@, k, kind@, subtype@),
                    kind@,
                    subtype@,
                );
            },
            None => {
                assert forall|k: int| !decides(all, qualities@, k, kind@, subtype@) by {}
            },
        }
    }
    weight
}

/// Decides whether a client prefers JSON to HTML. It accepts `ranges`, and the
/// `q` parameters of each were read as the bits in `values`, without bits where
/// one is no number.
pub fn prefers_json(ranges: &Vec<MediaRange>, values: &Vec<Vec<Option<u32>>>) -> (json: bool)
    requires
        values@.len() == ranges@.len(),
    ensures
        json == wants_json(range_views(ranges@), quality_list(values@)),
{
    let mut qualities: Vec<u32> = Vec::with_capacity(values.len());
    let mut i: usize = 0;
    while i < values.len()
        invariant
            i <= values@.len(),
            qualities@ == quality_list(values@).take(i as int),
        decreases values@.len() - i,
    {
        qualities.push(choose_quality(&values[i]));
        i = i + 1;
        assert(qualities@ =~= quality_list(values@).take(i as int));
    }
    assert(qualities@ =~= quality_list(values@));
    let json = candidate_quality(ranges, &qualities, "application", "json");
    let html = candidate_quality(ranges, &qualities, "text", "html");
    match (json, html) {
        (Some(j), Some(h)) => {
            let nan: bool = bits_are_nan(j.0) || bits_are_nan(h.0);
            let higher: bool = rank_bits(j.0) > rank_bits(h.0);
            let equal: bool = rank_bits(j.0) == rank_bits(h.0);
            !nan && rank_bits(j.0) > 0 && (higher || (equal && j.1 > h.1))
        },
        (Some(j), None) => !bits_are_nan(j.0) && rank_bits(j.0) > 0,
        _ => false,
    }
}

/// Whether a media type with its parameters is that of a JSON document.
pub open spec fn is_json_type(value: Seq<char>) -> bool {
    match text::split_at_first(text::trimmed(text::up_to(value, seq![';'])), '/') {
        Some((kind, subtype)) => {
            &&& text::same_text(kind, "application"@)
            &&& text::same_text(subtype, "json"@) || (subtype.len() > 5 && text::same_text(
                subtype.skip(subtype.len() - 5),
                "+json"@,
            ))
        },
        None => false,
    }
}

/// Whether a header value is the type of a JSON document.
pub open spec fn tells_json(value: Option<Seq<u8>>) -> bool {
    match headers::header_text(value) {
        Some(media) => is_json_type(media),
        None => false,
    }
}

fn is_json_text(value: &[char]) -> (yes: bool)
    ensures
        yes == is_json_type(value@),
{
    let ends: Vec<char> = vec![';'];
    assert(ends@ =~= seq![';']);
    let media = trim(before_any(value, ends.as_slice()));
    match split_once(media, '/') {
        Some((kind, subtype)) => {
            if !is_text(kind, "application") {
                return false;
            }
            if is_text(subtype, "json") {
                return true;
            }
            if subtype.len() <= 5 {
                return false;
            }
            let suffix = vstd::slice::slice_subrange(subtype, subtype.len() - 5, subtype.len());
            assert(suffix@ =~= subtype@.skip(subtype@.len() - 5));
            is_text(suffix, "+json")
        },
        None => false,
    }
}

/// Tests whether a header value is the type of a JSON document.
pub fn is_json_value(value: &Option<Vec<u8>>) -> (yes: bool)
    ensures
        yes == tells_json(headers::bytes_in(*value)),
{
    match value {
        Some(bytes) => match read_text(bytes) {
            Some(media) => is_json_text(media.as_slice()),
            None => false,
        },
        None => false,
    }
}

/// Tests whether headers tell that the body is a JSON document.
pub fn is_json_content_type(headers: &HeaderMap<HeaderValue>) -> (yes: bool)
    ensures
        yes == tells_json(headers::value_of(*headers, CONTENT_TYPE@)),
{
    let value = first_value(headers, CONTENT_TYPE);
    is_json_value(&value)
}

/// JSON is not preferred where the range that decides on it has no quality above
/// zero, whatever broader ranges admit.
pub proof fn law_refused_json_is_not_preferred(
    ranges: Seq<RangeState>,
    qualities: Seq<u32>,
    i: int,
)
    requires
        decides(ranges, qualities, i, "application"@, "json"@),
        !is_positive(qualities[i]),
    ensures
        !wants_json(ranges, qualities),
{
    lemma_decider_is_one(
        ranges,
        qualities,
        i,
        choose|k: int| decides(ranges, qualities, k, "application"@, "json"@),
        "application"@,
        "json"@,
    );
}

/// A client that lists nothing it accepts is served HTML.
pub proof fn law_html_is_the_default(value: Option<Seq<u8>>, qualities: Seq<u32>)
    requires
        headers::header_text(value) is None,
    ensures
        !wants_json(accepted(value), qualities),
{
}

/// Of two ranges that admit a media type the narrower one decides, and of two as
/// narrow the one of higher quality.
pub proof fn law_narrow_ranges_decide(
    ranges: Seq<RangeState>,
    qualities: Seq<u32>,
    i: int,
    j: int,
    kind: Seq<char>,
    subtype: Seq<char>,
)
    requires
        decides(ranges, qualities, i, kind, subtype),
        0 <= j < ranges.len(),
        admits(ranges[j], kind, subtype),
    ensures
        specificity(ranges[j]) <= specificity(ranges[i]),
        specificity(ranges[j]) == specificity(ranges[i]) ==> total_rank(qualities[j])
            <= total_rank(qualities[i]),
{
    assert(counts_less(ranges, qualities, j, i));
}

} // verus!
