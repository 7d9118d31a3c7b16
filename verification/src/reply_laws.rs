//! What a configuration becomes, and what a client is served.

use vstd::prelude::*;

use crate::config;
use crate::config::Config;
use crate::dashboard;
use crate::headers;
use crate::json::SonicJsonRejection;
use crate::media;
use crate::media::RangeState;
use crate::monitor;
use crate::monitor::{Reply, ReplyBody};
use crate::text;

verus! {

/// What a configuration leaves empty is filled in, a refresh interval is at least
/// a second and three where none is given, and the route begins with a slash.
/// Everything else is kept.
pub proof fn law_configuration_is_filled_in(given: Config, config: Config)
    requires
        config.normalizes(given),
    ensures
        given.title@.len() > 0 ==> config.title@ == given.title@,
        given.title@.len() == 0 ==> config.title@ == "Axum Sentinel Monitor"@,
        given.description@.len() > 0 ==> config.description@ == given.description@,
        given.description@.len() == 0 ==> config.description@
            == "Live process, runtime, system, and HTTP metrics for this Axum service."@,
        given.footer@.len() > 0 ==> config.footer@ == given.footer@,
        given.footer@.len() == 0 ==> config.footer@ == "Powered by axum-sentinel-monitor."@,
        given.refresh == 0 ==> config.refresh == 3_000_000_000,
        0 < given.refresh < 1_000_000_000 ==> config.refresh == 1_000_000_000,
        given.refresh >= 1_000_000_000 ==> config.refresh == given.refresh,
        config.api_only == given.api_only,
        config.custom_head@ == given.custom_head@,
        config.font_url@ == given.font_url@,
        config.chart_js_url@ == given.chart_js_url@,
        given.route@.len() == 0 ==> config.route@ == "/monitor"@,
        given.route@.len() > 0 && given.route@[0] == '/' ==> config.route@ == given.route@,
        given.route@.len() > 0 && given.route@[0] != '/' ==> config.route@.len()
            == given.route@.len() + 1 && config.route@[0] == '/' && config.route@.skip(1)
            == given.route@,
        config.favicon_url@.len() == 0 || config.favicon_url@ == given.favicon_url@,
{
    assert((seq!['/'] + given.route@).skip(1) =~= given.route@);
}

/// Whether a text begins and ends without a space and the like.
pub open spec fn is_tight(s: Seq<char>) -> bool {
    s.len() > 0 && !text::is_white(s[0]) && !text::is_white(s[s.len() - 1])
}

/// Whether a text spells a word of small letters, in letters of any case.
pub open spec fn spells(s: Seq<char>, word: Seq<char>) -> bool {
    &&& s.len() == word.len()
    &&& forall|i: int|
        0 <= i < s.len() ==> (#[trigger] s[i]) == word[i] || ('A' <= s[i] <= 'Z' && s[i] as u32 + 32
            == word[i] as u32)
}

proof fn lemma_spells(s: Seq<char>, word: Seq<char>)
    requires
        forall|i: int| 0 <= i < word.len() ==> !('A' <= #[trigger] word[i] <= 'Z'),
    ensures
        text::same_text(s, word) == spells(s, word),
{
    let ls = text::lowered(s);
    assert(text::lowered(word) =~= word);
    if spells(s, word) {
        assert forall|i: int| 0 <= i < s.len() implies ls[i] == word[i] by {
            assert(s[i] == word[i] || ('A' <= s[i] <= 'Z' && s[i] as u32 + 32 == word[i] as u32));
        }
        assert(ls =~= word);
    }
    if ls == word {
        assert forall|i: int| 0 <= i < s.len() implies (#[trigger] s[i]) == word[i] || ('A' <= s[i]
            <= 'Z' && s[i] as u32 + 32 == word[i] as u32) by {
            assert(ls[i] == word[i]);
        }
    }
}

proof fn lemma_tight(s: Seq<char>)
    requires
        is_tight(s),
    ensures
        text::trimmed(s) == s,
{
}

/// A path from the root of the site is accepted as an icon and kept. One that a
/// browser takes for another site is not: its second character is a slash or a
/// backslash.
pub proof fn law_rooted_icons_are_kept(given: Config, config: Config)
    requires
        config.normalizes(given),
        is_tight(given.favicon_url@),
        given.favicon_url@[0] == '/',
    ensures
        given.favicon_url@.len() == 1 ==> config.favicon_url@ == given.favicon_url@,
        given.favicon_url@.len() > 1 && given.favicon_url@[1] != '/' && given.favicon_url@[1] != '\\'
            ==> config.favicon_url@ == given.favicon_url@,
        given.favicon_url@.len() > 1 && given.favicon_url@[1] == '\\' && !given.favicon_url@.contains(
            ':',
        ) ==> config.favicon_url@.len() == 0,
        given.favicon_url@.len() > 1 && given.favicon_url@[1] == '/' && !given.favicon_url@.contains(
            ':',
        ) ==> config.favicon_url@.len() == 0,
{
    let url = given.favicon_url@;
    lemma_tight(url);
    if !url.contains(':') {
        lemma_no_marker(url);
    }
}

proof fn lemma_no_marker(s: Seq<char>)
    requires
        !s.contains(':'),
    ensures
        text::split_at_text(s, "://"@) is None,
    decreases s.len(),
{
    reveal_strlit("://");
    let pattern = "://"@;
    if s.len() > 0 {
        if text::begins(s, pattern) {
            assert(s.take(3)[0] == s[0]);
            assert(s.contains(s[0]));
        }
        assert forall|i: int| 0 <= i < s.len() - 1 implies s.skip(1)[i] != ':' by {
            assert(s.contains(s[i + 1]));
        }
        lemma_no_marker(s.skip(1));
    }
}

proof fn lemma_marker_at(scheme: Seq<char>, rest: Seq<char>)
    requires
        !scheme.contains(':'),
    ensures
        text::split_at_text(scheme + "://"@ + rest, "://"@) == Some((scheme, rest)),
        text::first_match(scheme + "://"@ + rest, "://"@) == scheme.len(),
    decreases scheme.len(),
{
    reveal_strlit("://");
    let pattern = "://"@;
    let whole = scheme + pattern + rest;
    if scheme.len() == 0 {
        assert(whole.take(3) =~= pattern);
    } else {
        if text::begins(whole, pattern) {
            assert(whole.take(3)[0] == scheme[0]);
            assert(scheme.contains(scheme[0]));
        }
        assert forall|i: int| 0 <= i < scheme.len() - 1 implies scheme.skip(1)[i] != ':' by {
            assert(scheme.contains(scheme[i + 1]));
        }
        lemma_marker_at(scheme.skip(1), rest);
        assert(whole.skip(1) =~= scheme.skip(1) + pattern + rest);
    }
    assert(whole.take(scheme.len() as int) =~= scheme);
    assert(whole.skip(scheme.len() as int + 3) =~= rest);
}

/// An absolute URL is kept as an icon exactly where its scheme is `http` or
/// `https`, in letters of any case, and its host is neither empty nor holds
/// credentials.
pub proof fn law_web_icons_are_kept(
    given: Config,
    config: Config,
    scheme: Seq<char>,
    host: Seq<char>,
    rest: Seq<char>,
)
    requires
        config.normalizes(given),
        is_tight(given.favicon_url@),
        given.favicon_url@ == scheme + "://"@ + (host + rest),
        scheme.len() > 0,
        scheme[0] != '/',
        !scheme.contains(':'),
        forall|i: int|
            0 <= i < host.len() ==> #[trigger] host[i] != '/' && host[i] != '?' && host[i] != '#',
        rest.len() > 0 ==> rest[0] == '/' || rest[0] == '?' || rest[0] == '#',
    ensures
        ({
            let accepted = (spells(scheme, seq!['h', 't', 't', 'p']) || spells(
                scheme,
                seq!['h', 't', 't', 'p', 's'],
            )) && host.len() > 0 && !host.contains('@');
            &&& accepted ==> config.favicon_url@ == given.favicon_url@
            &&& !accepted ==> config.favicon_url@.len() == 0
        }),
{
    let url = given.favicon_url@;
    let ends = seq!['/', '?', '#'];
    reveal_strlit("http");
    reveal_strlit("https");
    assert("http"@ =~= seq!['h', 't', 't', 'p']);
    assert("https"@ =~= seq!['h', 't', 't', 'p', 's']);
    lemma_tight(url);
    assert(url[0] == scheme[0]);
    lemma_marker_at(scheme, host + rest);
    assert(ends[0] == '/' && ends[1] == '?' && ends[2] == '#');
    assert forall|i: int| 0 <= i < host.len() implies !ends.contains(#[trigger] (host + rest)[i]) by {
        assert((host + rest)[i] == host[i]);
    }
    if rest.len() > 0 {
        assert((host + rest)[host.len() as int] == rest[0]);
    }
    text::lemma_first_of_is(host + rest, ends, host.len() as int);
    assert((host + rest).take(host.len() as int) =~= host);
    lemma_spells(scheme, "http"@);
    lemma_spells(scheme, "https"@);
}

/// A reply to a `GET` is the snapshot as JSON where the client prefers it or the
/// monitor serves nothing else, and the dashboard as HTML otherwise; neither is
/// stored. Any other method is told that only `GET` is allowed.
pub proof fn law_reply_suits_the_client(
    reply: Reply,
    method: Seq<char>,
    prefers_json: bool,
    config: Config,
    pid: u32,
    windows: bool,
)
    requires
        reply.answers(method, prefers_json, config, pid, windows),
    ensures
        ({
            let headers = monitor::header_pairs(reply.headers@);
            if method == seq!['G', 'E', 'T'] {
                &&& reply.status == 200
                &&& headers.len() == 3
                &&& headers[1] == ("cache-control"@, "no-store"@)
                &&& headers[2] == ("x-content-type-options"@, "nosniff"@)
                &&& config.api_only || prefers_json ==> {
                    &&& headers[0] == ("content-type"@, "application/json; charset=utf-8"@)
                    &&& reply.body is Snapshot
                }
                &&& !config.api_only && !prefers_json ==> {
                    &&& headers[0] == ("content-type"@, "text/html; charset=utf-8"@)
                    &&& reply.body matches ReplyBody::Page(html) && html@ == dashboard::page_of(
                        config,
                        pid,
                        windows,
                    )
                }
            } else {
                &&& reply.status == 405
                &&& headers == seq![("allow"@, "GET"@)]
                &&& reply.body is Empty
            }
        }),
{
    reveal_strlit("GET");
    assert("GET"@ =~= seq!['G', 'E', 'T']);
}

/// Whether qualities are numbers from zero to one, by their bits.
pub open spec fn are_shares(qualities: Seq<u32>) -> bool {
    forall|i: int| 0 <= i < qualities.len() ==> #[trigger] qualities[i] <= 0x3f80_0000
}

proof fn lemma_some_decides(
    ranges: Seq<RangeState>,
    qualities: Seq<u32>,
    kind: Seq<char>,
    subtype: Seq<char>,
    n: int,
) -> (best: Option<int>)
    requires
        0 <= n <= ranges.len(),
    ensures
        match best {
            Some(b) => {
                &&& 0 <= b < n
                &&& media::admits(ranges[b], kind, subtype)
                &&& forall|j: int|
                    0 <= j < n && #[trigger] media::admits(ranges[j], kind, subtype)
                        ==> media::counts_less(ranges, qualities, j, b)
            },
            None => forall|j: int|
                0 <= j < n ==> !#[trigger] media::admits(ranges[j], kind, subtype),
        },
    decreases n,
{
    if n == 0 {
        None
    } else {
        let before = lemma_some_decides(ranges, qualities, kind, subtype, n - 1);
        if media::admits(ranges[n - 1], kind, subtype) {
            match before {
                Some(b) => if media::counts_less(ranges, qualities, n - 1, b) {
                    Some(b)
                } else {
                    Some(n - 1)
                },
                None => Some(n - 1),
            }
        } else {
            before
        }
    }
}

proof fn lemma_weight(
    ranges: Seq<RangeState>,
    qualities: Seq<u32>,
    kind: Seq<char>,
    subtype: Seq<char>,
)
    ensures
        media::weight_of(ranges, qualities, kind, subtype) is None <==> forall|j: int|
            0 <= j < ranges.len() ==> !#[trigger] media::admits(ranges[j], kind, subtype),
{
    let best = lemma_some_decides(ranges, qualities, kind, subtype, ranges.len() as int);
    match best {
        Some(b) => {
            assert(media::decides(ranges, qualities, b, kind, subtype));
        },
        None => {
            assert forall|i: int| !media::decides(ranges, qualities, i, kind, subtype) by {}
        },
    }
}

proof fn lemma_names()
    ensures
        "application"@.len() == 11,
        "json"@.len() == 4,
        "text"@.len() == 4,
        "html"@.len() == 4,
        "*"@.len() == 1,
        forall|s: Seq<char>|
            #[trigger] spells(s, "application"@) == text::same_text(s, "application"@),
        forall|s: Seq<char>| #[trigger] spells(s, "json"@) == text::same_text(s, "json"@),
        forall|s: Seq<char>| #[trigger] spells(s, "text"@) == text::same_text(s, "text"@),
        forall|s: Seq<char>| #[trigger] spells(s, "html"@) == text::same_text(s, "html"@),
{
    reveal_strlit("application");
    reveal_strlit("json");
    reveal_strlit("text");
    reveal_strlit("html");
    reveal_strlit("*");
    assert("application"@ =~= seq!['a', 'p', 'p', 'l', 'i', 'c', 'a', 't', 'i', 'o', 'n']);
    assert("json"@ =~= seq!['j', 's', 'o', 'n']);
    assert("text"@ =~= seq!['t', 'e', 'x', 't']);
    assert("html"@ =~= seq!['h', 't', 'm', 'l']);
    assert forall|s: Seq<char>|
        #[trigger] spells(s, "application"@) == text::same_text(s, "application"@) by {
        lemma_spells(s, "application"@);
    }
    assert forall|s: Seq<char>| #[trigger] spells(s, "json"@) == text::same_text(s, "json"@) by {
        lemma_spells(s, "json"@);
    }
    assert forall|s: Seq<char>| #[trigger] spells(s, "text"@) == text::same_text(s, "text"@) by {
        lemma_spells(s, "text"@);
    }
    assert forall|s: Seq<char>| #[trigger] spells(s, "html"@) == text::same_text(s, "html"@) by {
        lemma_spells(s, "html"@);
    }
}

/// A client that lists `application/json` with a quality above zero, and whatever
/// else it lists with a lower one, prefers JSON.
pub proof fn law_json_is_preferred(ranges: Seq<RangeState>, qualities: Seq<u32>, i: int)
    requires
        qualities.len() == ranges.len(),
        are_shares(qualities),
        0 <= i < ranges.len(),
        spells(ranges[i].kind, "application"@),
        spells(ranges[i].subtype, "json"@),
        qualities[i] > 0,
        forall|j: int|
            0 <= j < ranges.len() ==> spells((#[trigger] ranges[j]).kind, "application"@)
                || qualities[j] < qualities[i],
    ensures
        media::wants_json(ranges, qualities),
{
    lemma_names();
    lemma_weight(ranges, qualities, "application"@, "json"@);
    lemma_weight(ranges, qualities, "text"@, "html"@);
    assert(media::admits(ranges[i], "application"@, "json"@));
    let d = choose|d: int| media::decides(ranges, qualities, d, "application"@, "json"@);
    assert(media::decides(ranges, qualities, d, "application"@, "json"@));
    assert(media::counts_less(ranges, qualities, i, d));
    assert(qualities[d] <= 0x3f80_0000);
    if media::weight_of(ranges, qualities, "text"@, "html"@) is Some {
        let h = choose|h: int| media::decides(ranges, qualities, h, "text"@, "html"@);
        assert(media::decides(ranges, qualities, h, "text"@, "html"@));
        if spells(ranges[h].kind, "application"@) {
            assert(text::lowered(ranges[h].kind).len() == 11);
            assert(text::lowered("text"@).len() == 4);
        }
        assert(qualities[h] < qualities[i]);
    }
}

/// A client that lists `text/html`, and whatever else it lists with no higher
/// quality, does not prefer JSON.
pub proof fn law_html_is_preferred(ranges: Seq<RangeState>, qualities: Seq<u32>, i: int)
    requires
        qualities.len() == ranges.len(),
        are_shares(qualities),
        0 <= i < ranges.len(),
        spells(ranges[i].kind, "text"@),
        spells(ranges[i].subtype, "html"@),
        forall|j: int|
            0 <= j < ranges.len() ==> spells((#[trigger] ranges[j]).kind, "text"@) || qualities[j]
                <= qualities[i],
    ensures
        !media::wants_json(ranges, qualities),
{
    lemma_names();
    lemma_weight(ranges, qualities, "application"@, "json"@);
    lemma_weight(ranges, qualities, "text"@, "html"@);
    assert(media::admits(ranges[i], "text"@, "html"@));
    let h = choose|h: int| media::decides(ranges, qualities, h, "text"@, "html"@);
    assert(media::decides(ranges, qualities, h, "text"@, "html"@));
    assert(media::counts_less(ranges, qualities, i, h));
    assert(qualities[h] <= 0x3f80_0000);
    if media::weight_of(ranges, qualities, "application"@, "json"@) is Some {
        let d = choose|d: int| media::decides(ranges, qualities, d, "application"@, "json"@);
        assert(media::decides(ranges, qualities, d, "application"@, "json"@));
        if spells(ranges[d].kind, "text"@) {
            assert(text::lowered(ranges[d].kind).len() == 4);
            assert(text::lowered("application"@).len() == 11);
        }
        assert(qualities[d] <= qualities[i]);
    }
}

/// A client that takes anything, or nothing that is JSON, does not prefer it.
pub proof fn law_json_has_to_be_asked_for(ranges: Seq<RangeState>, qualities: Seq<u32>)
    requires
        qualities.len() == ranges.len(),
        are_shares(qualities),
        ({
            ||| forall|j: int|
                0 <= j < ranges.len() ==> (#[trigger] ranges[j]).kind == "*"@ && ranges[j].subtype
                    == "*"@
            ||| forall|j: int|
                0 <= j < ranges.len() ==> {
                    ||| (#[trigger] ranges[j]).kind.len() != 1 && ranges[j].kind.len() != 11
                    ||| ranges[j].subtype.len() != 1 && ranges[j].subtype.len() != 4
                    ||| qualities[j] == 0
                }
        }),
    ensures
        !media::wants_json(ranges, qualities),
{
    lemma_names();
    lemma_weight(ranges, qualities, "application"@, "json"@);
    lemma_weight(ranges, qualities, "text"@, "html"@);
    if media::weight_of(ranges, qualities, "application"@, "json"@) is Some {
        let d = choose|d: int| media::decides(ranges, qualities, d, "application"@, "json"@);
        assert(media::decides(ranges, qualities, d, "application"@, "json"@));
        assert(text::lowered(ranges[d].kind).len() == ranges[d].kind.len());
        assert(text::lowered(ranges[d].subtype).len() == ranges[d].subtype.len());
        assert(text::lowered("application"@).len() == 11);
        assert(text::lowered("json"@).len() == 4);
        if qualities[d] != 0 {
            assert(ranges[d].kind == "*"@);
            assert(media::admits(ranges[d], "text"@, "html"@));
            let h = choose|h: int| media::decides(ranges, qualities, h, "text"@, "html"@);
            assert(media::decides(ranges, qualities, h, "text"@, "html"@));
            assert(media::counts_less(ranges, qualities, d, h));
            assert(media::admits(ranges[h], "application"@, "json"@));
            assert(ranges[h].kind == "*"@);
            assert(qualities[h] <= 0x3f80_0000);
            assert(qualities[d] <= 0x3f80_0000);
        }
    }
}

/// The quality of a range is the first of its parameters that is a number,
/// brought between zero and one, and one where there is none.
pub proof fn law_qualities(values: Seq<Option<u32>>, bits: u32)
    ensures
        media::quality_of(Seq::empty()) == 0x3f80_0000,
        media::quality_of(seq![None::<u32>] + values) == media::quality_of(values),
        bits <= 0x3f80_0000 ==> media::quality_of(seq![Some(bits)] + values) == bits,
        0x3f80_0000 < bits <= 0x7f80_0000 ==> media::quality_of(seq![Some(bits)] + values)
            == 0x3f80_0000,
        0x8000_0000 < bits <= 0xff80_0000 ==> media::quality_of(seq![Some(bits)] + values) == 0,
{
    assert((seq![None::<u32>] + values).skip(1) =~= values);
    assert((seq![None::<u32>] + values)[0] is None);
    assert((seq![Some(bits)] + values)[0] == Some(bits));
}

/// A client that lists `application/json` with a quality of zero does not prefer
/// JSON, whatever broader ranges it lists.
pub proof fn law_json_can_be_refused(ranges: Seq<RangeState>, qualities: Seq<u32>, i: int)
    requires
        qualities.len() == ranges.len(),
        are_shares(qualities),
        0 <= i < ranges.len(),
        ranges[i].kind == "application"@,
        ranges[i].subtype == "json"@,
        forall|j: int|
            0 <= j < ranges.len() ==> (#[trigger] ranges[j]).kind == "*"@ || ranges[j].subtype
                == "*"@ || ranges[j].kind.len() != 11 || ranges[j].subtype.len() != 4
                || qualities[j] == 0,
    ensures
        !media::wants_json(ranges, qualities),
{
    lemma_names();
    assert(media::admits(ranges[i], "application"@, "json"@));
    lemma_weight(ranges, qualities, "application"@, "json"@);
    let d = choose|d: int| media::decides(ranges, qualities, d, "application"@, "json"@);
    assert(media::decides(ranges, qualities, d, "application"@, "json"@));
    assert(media::counts_less(ranges, qualities, i, d));
    assert(text::lowered(ranges[d].kind).len() == ranges[d].kind.len());
    assert(text::lowered(ranges[d].subtype).len() == ranges[d].subtype.len());
    assert(text::lowered("application"@).len() == 11);
    assert(text::lowered("json"@).len() == 4);
    assert(qualities[d] == 0);
}

/// A range for all subtypes counts more than one for all types, and one for a
/// single type more than both: the quality that decides is that of the narrowest
/// range. Here JSON is listed as `application/*` and HTML only by `*/*`.
pub proof fn law_half_a_range_is_narrower(ranges: Seq<RangeState>, qualities: Seq<u32>, i: int)
    requires
        qualities.len() == ranges.len(),
        are_shares(qualities),
        0 <= i < ranges.len(),
        ranges[i].kind == "application"@,
        ranges[i].subtype == "*"@,
        qualities[i] > 0,
        forall|j: int|
            0 <= j < ranges.len() && j != i ==> (#[trigger] ranges[j]).kind == "*"@
                && ranges[j].subtype == "*"@ && qualities[j] <= qualities[i],
    ensures
        media::wants_json(ranges, qualities),
{
    lemma_names();
    lemma_weight(ranges, qualities, "application"@, "json"@);
    lemma_weight(ranges, qualities, "text"@, "html"@);
    assert(media::admits(ranges[i], "application"@, "json"@));
    let d = choose|d: int| media::decides(ranges, qualities, d, "application"@, "json"@);
    assert(media::decides(ranges, qualities, d, "application"@, "json"@));
    assert(media::counts_less(ranges, qualities, i, d));
    assert(d == i);
    assert(qualities[i] <= 0x3f80_0000);
    if media::weight_of(ranges, qualities, "text"@, "html"@) is Some {
        let h = choose|h: int| media::decides(ranges, qualities, h, "text"@, "html"@);
        assert(media::decides(ranges, qualities, h, "text"@, "html"@));
        assert(text::lowered("application"@).len() == 11);
        assert(text::lowered("text"@).len() == 4);
        assert(h != i);
        assert(ranges[h].kind == "*"@);
    }
}

/// Whether a text is made of characters other than white space and those that
/// structure a list of media ranges.
pub open spec fn is_token(s: Seq<char>) -> bool {
    &&& s.len() > 0
    &&& forall|i: int|
        0 <= i < s.len() ==> !text::is_white(#[trigger] s[i]) && s[i] != '/' && s[i] != ';' && s[i]
            != ',' && s[i] != '='
}

proof fn lemma_split_at(a: Seq<char>, sep: char, b: Seq<char>)
    requires
        forall|i: int| 0 <= i < a.len() ==> #[trigger] a[i] != sep,
    ensures
        text::split_at_first(a + seq![sep] + b, sep) == Some((a, b)),
{
    let whole = a + seq![sep] + b;
    let set = seq![sep];
    assert(set[0] == sep);
    assert forall|i: int| 0 <= i < a.len() implies !set.contains(#[trigger] whole[i]) by {
        assert(whole[i] == a[i]);
    }
    assert(whole[a.len() as int] == sep);
    assert(set.contains(sep));
    text::lemma_first_of_is(whole, set, a.len() as int);
    assert(whole.take(a.len() as int) =~= a);
    assert(whole.skip(a.len() as int + 1) =~= b);
}

/// A list of media ranges is read item by item, from one comma to the next.
pub proof fn law_lists_are_read_item_by_item(list: Seq<char>, item: Seq<char>)
    requires
        forall|i: int| 0 <= i < item.len() ==> #[trigger] item[i] != ',',
    ensures
        media::ranges_in(list + seq![','] + item) == media::ranges_in(list) + media::ranges_in(item),
{
    assert(list + seq![','] + item =~= list.push(',') + item);
    text::lemma_pieces_pushed(list, ',', item);
    text::lemma_pieces_none(item, ',');
    let parts = text::pieces(list, ',').push(item);
    assert(parts.drop_last() =~= text::pieces(list, ','));
    assert(seq![item].drop_last() =~= Seq::<Seq<char>>::empty());
    reveal_with_fuel(media::ranges_among, 2);
    assert(media::ranges_in(list + seq![','] + item) =~= media::ranges_in(list)
        + media::ranges_in(item));
}

/// An item names a type and a subtype with a slash between them, and may give a
/// quality after a semicolon.
pub proof fn law_ranges_are_read(kind: Seq<char>, subtype: Seq<char>, quality: Seq<char>)
    requires
        is_token(kind),
        is_token(subtype),
        is_token(quality),
    ensures
        media::ranges_in(kind + seq!['/'] + subtype) == seq![
            RangeState { kind, subtype, qualities: Seq::empty() },
        ],
        media::ranges_in(kind + seq!['/'] + subtype + (seq![';', 'q', '='] + quality)) == seq![
            RangeState { kind, subtype, qualities: seq![quality] },
        ],
{
    let plain = kind + seq!['/'] + subtype;
    let parameter = seq!['q', '='] + quality;
    let whole = plain + (seq![';', 'q', '='] + quality);
    assert(whole =~= plain.push(';') + parameter);
    assert forall|i: int| 0 <= i < plain.len() implies #[trigger] plain[i] != ',' && plain[i] != ';' by {
        if i < kind.len() {
            assert(plain[i] == kind[i]);
        } else if i > kind.len() {
            assert(plain[i] == subtype[i - kind.len() - 1]);
        }
    }
    assert forall|i: int| 0 <= i < parameter.len() implies #[trigger] parameter[i] != ','
        && parameter[i] != ';' by {
        if i >= 2 {
            assert(parameter[i] == quality[i - 2]);
        }
    }
    assert forall|i: int| 0 <= i < whole.len() implies #[trigger] whole[i] != ',' by {
        if i < plain.len() {
            assert(whole[i] == plain[i]);
        } else if i > plain.len() {
            assert(whole[i] == parameter[i - plain.len() - 1]);
        }
    }
    assert(plain[0] == kind[0]);
    assert(plain[plain.len() - 1] == subtype[subtype.len() - 1]);
    assert(whole[0] == kind[0]);
    assert(whole[whole.len() - 1] == quality[quality.len() - 1]);
    assert(parameter[parameter.len() - 1] == quality[quality.len() - 1]);
    lemma_tight(plain);
    lemma_tight(whole);
    lemma_tight(kind);
    lemma_tight(subtype);
    lemma_tight(quality);
    lemma_tight(parameter);
    text::lemma_pieces_none(plain, ',');
    text::lemma_pieces_none(whole, ',');
    text::lemma_pieces_none(plain, ';');
    text::lemma_pieces_pushed(plain, ';', parameter);
    lemma_split_at(kind, '/', subtype);
    let name = seq!['q'];
    assert(parameter =~= name + seq!['='] + quality);
    lemma_split_at(name, '=', quality);
    reveal_strlit("q");
    assert("q"@ =~= name);
    assert(seq![plain].skip(1) =~= Seq::<Seq<char>>::empty());
    let parts = seq![plain].push(parameter);
    assert(parts.skip(1) =~= seq![parameter]);
    assert(seq![parameter].drop_last() =~= Seq::<Seq<char>>::empty());
    assert(seq![plain].drop_last() =~= Seq::<Seq<char>>::empty());
    assert(seq![whole].drop_last() =~= Seq::<Seq<char>>::empty());
    reveal_with_fuel(media::ranges_among, 2);
    reveal_with_fuel(media::qualities_in, 2);
    assert(media::qualities_in(seq![parameter]) =~= seq![quality]);
    assert(media::ranges_in(plain) =~= seq![
        RangeState { kind, subtype, qualities: Seq::empty() },
    ]);
    assert(media::ranges_in(whole) =~= seq![RangeState { kind, subtype, qualities: seq![quality] }]);
}

/// A media type is that of a JSON document exactly where its type is
/// `application` and its subtype `json` or ends with `+json` after at least one
/// more character, in letters of any case. Parameters have no bearing.
pub proof fn law_json_types(kind: Seq<char>, subtype: Seq<char>, parameters: Seq<char>)
    requires
        is_token(kind),
        is_token(subtype),
    ensures
        ({
            let n = subtype.len() as int;
            let is_json = spells(kind, "application"@) && (spells(subtype, "json"@) || (n > 5
                && spells(subtype.skip(n - 5), seq!['+', 'j', 's', 'o', 'n'])));
            &&& media::is_json_type(kind + seq!['/'] + subtype) == is_json
            &&& media::is_json_type(kind + seq!['/'] + subtype + (seq![';'] + parameters)) == is_json
        }),
{
    let plain = kind + seq!['/'] + subtype;
    let whole = plain + (seq![';'] + parameters);
    let ends = seq![';'];
    assert(ends[0] == ';');
    assert(ends.contains(';'));
    assert forall|i: int| 0 <= i < plain.len() implies !ends.contains(#[trigger] plain[i])
        && !ends.contains(whole[i]) by {
        assert(whole[i] == plain[i]);
        if i < kind.len() {
            assert(plain[i] == kind[i]);
        } else if i > kind.len() {
            assert(plain[i] == subtype[i - kind.len() - 1]);
        }
    }
    text::lemma_first_of_is(plain, ends, plain.len() as int);
    assert(plain.take(plain.len() as int) =~= plain);
    assert(whole[plain.len() as int] == ';');
    assert forall|i: int| 0 <= i < plain.len() implies !ends.contains(#[trigger] whole[i]) by {
        assert(!ends.contains(plain[i]));
    }
    text::lemma_first_of_is(whole, ends, plain.len() as int);
    assert(whole.take(plain.len() as int) =~= plain);
    assert(plain[0] == kind[0]);
    assert(plain[plain.len() - 1] == subtype[subtype.len() - 1]);
    lemma_tight(plain);
    lemma_split_at(kind, '/', subtype);
    lemma_names();
    reveal_strlit("application");
    reveal_strlit("json");
    reveal_strlit("+json");
    assert("+json"@ =~= seq!['+', 'j', 's', 'o', 'n']);
    if subtype.len() > 5 {
        lemma_spells(subtype.skip(subtype.len() - 5), "+json"@);
    }
}

/// Letters are compared without regard to their case, and nothing else is.
pub proof fn law_case_is_ignored(a: Seq<char>, b: Seq<char>)
    ensures
        text::same_text(a, b) <==> a.len() == b.len() && forall|i: int|
            0 <= i < a.len() ==> {
                ||| (#[trigger] a[i]) == b[i]
                ||| 'a' <= a[i] <= 'z' && a[i] as u32 - b[i] as u32 == 32
                ||| 'a' <= b[i] <= 'z' && b[i] as u32 - a[i] as u32 == 32
            },
{
    let la = text::lowered(a);
    let lb = text::lowered(b);
    if a.len() == b.len() {
        if forall|i: int|
            0 <= i < a.len() ==> {
                ||| (#[trigger] a[i]) == b[i]
                ||| 'a' <= a[i] <= 'z' && a[i] as u32 - b[i] as u32 == 32
                ||| 'a' <= b[i] <= 'z' && b[i] as u32 - a[i] as u32 == 32
            } {
            assert forall|i: int| 0 <= i < a.len() implies la[i] == lb[i] by {
                assert(a[i] == b[i] || ('a' <= a[i] <= 'z' && a[i] as u32 - b[i] as u32 == 32) || (
                'a' <= b[i] <= 'z' && b[i] as u32 - a[i] as u32 == 32));
            }
            assert(la =~= lb);
        }
        if la == lb {
            assert forall|i: int| 0 <= i < a.len() implies {
                ||| (#[trigger] a[i]) == b[i]
                ||| 'a' <= a[i] <= 'z' && a[i] as u32 - b[i] as u32 == 32
                ||| 'a' <= b[i] <= 'z' && b[i] as u32 - a[i] as u32 == 32
            } by {
                assert(la[i] == lb[i]);
            }
        }
    } else {
        assert(la.len() != lb.len());
    }
}

/// Trimming takes white space off both ends, all of it and nothing else.
pub proof fn law_trimming(s: Seq<char>)
    ensures
        text::trimmed(s).len() > 0 ==> is_tight(text::trimmed(s)),
        s.len() > 0 && (s[0] == ' ' || s[0] == '\t' || s[0] == '\n' || s[0] == '\r') ==> text::trimmed(
            s,
        ) == text::trimmed(s.skip(1)),
        is_tight(s) ==> text::trimmed(s) == s,
{
    let start = text::trim_start(s);
    lemma_trim_start(s);
    lemma_trim_end(start);
}

proof fn lemma_trim_start(s: Seq<char>)
    ensures
        text::trim_start(s).len() > 0 ==> !text::is_white(text::trim_start(s)[0]),
    decreases s.len(),
{
    if s.len() > 0 && text::is_white(s[0]) {
        lemma_trim_start(s.skip(1));
    }
}

proof fn lemma_trim_end(s: Seq<char>)
    ensures
        text::trim_end(s).len() > 0 ==> !text::is_white(text::trim_end(s).last())
            && text::trim_end(s)[0] == s[0],
    decreases s.len(),
{
    if s.len() > 0 && text::is_white(s.last()) {
        lemma_trim_end(s.drop_last());
    }
}

/// A space after a comma, and one before a quality, has no bearing on what is read.
/// The name of a quality is a letter of either case.
pub proof fn law_spaces_in_lists_are_ignored(
    item: Seq<char>,
    kind: Seq<char>,
    subtype: Seq<char>,
    quality: Seq<char>,
)
    requires
        forall|i: int| 0 <= i < item.len() ==> #[trigger] item[i] != ',',
        is_token(kind),
        is_token(subtype),
        is_token(quality),
    ensures
        media::ranges_in(seq![' '] + item) == media::ranges_in(item),
        media::ranges_in(kind + seq!['/'] + subtype + (seq![';', ' ', 'Q', '='] + quality)) == seq![
            RangeState { kind, subtype, qualities: seq![quality] },
        ],
{
    let spaced = seq![' '] + item;
    assert forall|i: int| 0 <= i < spaced.len() implies #[trigger] spaced[i] != ',' by {
        if i > 0 {
            assert(spaced[i] == item[i - 1]);
        }
    }
    text::lemma_pieces_none(spaced, ',');
    text::lemma_pieces_none(item, ',');
    assert(spaced.skip(1) =~= item);
    reveal_with_fuel(text::trim_start, 2);
    assert(text::trimmed(spaced) == text::trimmed(item));
    assert(seq![spaced].drop_last() =~= Seq::<Seq<char>>::empty());
    assert(seq![item].drop_last() =~= Seq::<Seq<char>>::empty());
    reveal_with_fuel(media::ranges_among, 2);

    let plain = kind + seq!['/'] + subtype;
    let tight = seq!['Q', '='] + quality;
    let parameter = seq![' '] + tight;
    let whole = plain + (seq![';', ' ', 'Q', '='] + quality);
    assert(whole =~= plain.push(';') + parameter);
    assert(parameter.skip(1) =~= tight);
    assert forall|i: int| 0 <= i < plain.len() implies #[trigger] plain[i] != ',' && plain[i] != ';' by {
        if i < kind.len() {
            assert(plain[i] == kind[i]);
        } else if i > kind.len() {
            assert(plain[i] == subtype[i - kind.len() - 1]);
        }
    }
    assert forall|i: int| 0 <= i < parameter.len() implies #[trigger] parameter[i] != ','
        && parameter[i] != ';' by {
        if i >= 3 {
            assert(parameter[i] == quality[i - 3]);
        }
    }
    assert forall|i: int| 0 <= i < whole.len() implies #[trigger] whole[i] != ',' by {
        if i < plain.len() {
            assert(whole[i] == plain[i]);
        } else if i > plain.len() {
            assert(whole[i] == parameter[i - plain.len() - 1]);
        }
    }
    assert(plain[0] == kind[0]);
    assert(plain[plain.len() - 1] == subtype[subtype.len() - 1]);
    assert(whole[0] == kind[0]);
    assert(whole[whole.len() - 1] == quality[quality.len() - 1]);
    assert(tight[tight.len() - 1] == quality[quality.len() - 1]);
    lemma_tight(plain);
    lemma_tight(whole);
    lemma_tight(kind);
    lemma_tight(subtype);
    lemma_tight(quality);
    lemma_tight(tight);
    assert(text::trimmed(parameter) == tight);
    text::lemma_pieces_none(whole, ',');
    text::lemma_pieces_none(plain, ';');
    text::lemma_pieces_pushed(plain, ';', parameter);
    lemma_split_at(kind, '/', subtype);
    let name = seq!['Q'];
    assert(tight =~= name + seq!['='] + quality);
    lemma_split_at(name, '=', quality);
    reveal_strlit("q");
    assert("q"@ =~= seq!['q']);
    lemma_spells(name, "q"@);
    let parts = seq![plain].push(parameter);
    assert(parts.skip(1) =~= seq![parameter]);
    assert(seq![parameter].drop_last() =~= Seq::<Seq<char>>::empty());
    assert(seq![whole].drop_last() =~= Seq::<Seq<char>>::empty());
    reveal_with_fuel(media::qualities_in, 2);
    assert(media::qualities_in(seq![parameter]) =~= seq![quality]);
    assert(media::ranges_in(whole) =~= seq![RangeState { kind, subtype, qualities: seq![quality] }]);
}

/// A header value is read as the text of its bytes where these are visible ASCII
/// characters, spaces and tabs, and not at all where one of them is not.
pub proof fn law_header_values_are_text(bytes: Seq<u8>, i: int)
    requires
        0 <= i < bytes.len(),
    ensures
        (forall|j: int| 0 <= j < bytes.len() ==> 32 <= #[trigger] bytes[j] <= 126 || bytes[j] == 9)
            ==> (headers::header_text(Some(bytes)) matches Some(s) && s.len() == bytes.len()
            && s[i] as u32 == bytes[i] as u32),
        bytes[i] > 126 || (bytes[i] < 32 && bytes[i] != 9) ==> headers::header_text(Some(bytes))
            is None,
        headers::header_text(None) is None,
{
    if forall|j: int| 0 <= j < bytes.len() ==> 32 <= #[trigger] bytes[j] <= 126 || bytes[j] == 9 {
        assert forall|j: int| 0 <= j < bytes.len() implies headers::is_text_byte(
            #[trigger] bytes[j],
        ) by {}
    }
}

/// How narrow a range is: two where it names type and subtype, one where it names
/// one of them, and zero where it names neither.
pub proof fn law_how_narrow_ranges_are(range: RangeState)
    ensures
        range.kind == seq!['*'] && range.subtype == seq!['*'] ==> media::specificity(range) == 0,
        range.kind != seq!['*'] && range.subtype == seq!['*'] ==> media::specificity(range) == 1,
        range.kind == seq!['*'] && range.subtype != seq!['*'] ==> media::specificity(range) == 1,
        range.kind != seq!['*'] && range.subtype != seq!['*'] ==> media::specificity(range) == 2,
{
    reveal_strlit("*");
    assert("*"@ =~= seq!['*']);
}

/// The message of a rejection tells what was expected, or what went wrong with the
/// body.
pub proof fn law_rejections_are_explained(rejection: SonicJsonRejection)
    ensures
        match rejection {
            SonicJsonRejection::MissingContentType => rejection.text()
                == "expected request with `Content-Type: application/json` or `application/*+json`"@,
            SonicJsonRejection::Body(error) => rejection.text() == "failed to read JSON body: "@
                + error@,
            SonicJsonRejection::InvalidJson(error) => rejection.text() == "invalid JSON: "@
                + error@,
        },
{
}

/// A space before the URL of an icon has no bearing on whether it is accepted.
pub proof fn law_spaces_before_icons_are_ignored(url: Seq<char>)
    ensures
        config::is_favicon_url(seq![' '] + url) == config::is_favicon_url(url),
{
    assert((seq![' '] + url).skip(1) =~= url);
}

} // verus!
