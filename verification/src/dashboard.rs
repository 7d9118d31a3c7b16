//! Rendering of the dashboard.

use vstd::prelude::*;

use crate::config::Config;
use crate::page;
use crate::page::dashboard_page;
use crate::text;
use crate::text::{append, chars_of, decimal, replace, text_of};

verus! {

/// Icon of a dashboard for which none is configured.
pub const DEFAULT_FAVICON: &'static str =
    "data:image/svg+xml;base64,PHN2ZyB4bWxucz0iaHR0cDovL3d3dy53My5vcmcvMjAwMC9zdmciIHZpZXdCb3g9IjAgMCA2NCA2NCI+CjxyZWN0IHdpZHRoPSI2NCIgaGVpZ2h0PSI2NCIgcng9IjE0IiBmaWxsPSIjMGYxNzJhIi8+CjxwYXRoIGQ9Ik04IDM0aDEzbDYtMTcgMTEgMzIgNy0yMCA0IDVoNyIgZmlsbD0ibm9uZSIgc3Ryb2tlPSIjNjdlOGY5IiBzdHJva2Utd2lkdGg9IjYiIHN0cm9rZS1saW5lY2FwPSJyb3VuZCIgc3Ryb2tlLWxpbmVqb2luPSJyb3VuZCIvPgo8L3N2Zz4=";

/// Shortest polling interval of the dashboard, in milliseconds.
pub const MIN_REFRESH_MS: u128 = 1_000;

/// Longest polling interval of the dashboard, in milliseconds.
pub const MAX_REFRESH_MS: u128 = 2_147_483_647;

/// What stands for a character in HTML.
pub open spec fn escape_of(c: char) -> Seq<char> {
    if c == '&' {
        "&amp;"@
    } else if c == '<' {
        "&lt;"@
    } else if c == '>' {
        "&gt;"@
    } else if c == '"' {
        "&quot;"@
    } else if c == '\'' {
        "&#39;"@
    } else {
        seq![c]
    }
}

/// A text with every character that means something in HTML escaped.
pub open spec fn escaped(s: Seq<char>) -> Seq<char>
    decreases s.len(),
{
    if s.len() == 0 {
        Seq::empty()
    } else {
        escaped(s.drop_last()) + escape_of(s.last())
    }
}

/// The polling interval of the dashboard for a refresh interval in nanoseconds,
/// in milliseconds.
pub open spec fn polling_ms(refresh: u128) -> u128 {
    let ms = refresh / 1_000_000;
    if ms < MIN_REFRESH_MS {
        MIN_REFRESH_MS
    } else if ms > MAX_REFRESH_MS {
        MAX_REFRESH_MS
    } else {
        ms
    }
}

/// The icon of a configuration.
pub open spec fn favicon_of(configured: Seq<char>) -> Seq<char> {
    if configured.len() == 0 {
        DEFAULT_FAVICON@
    } else {
        configured
    }
}

/// What open descriptors are called.
pub open spec fn descriptor_label(windows: bool) -> Seq<char> {
    if windows {
        "Handles"@
    } else {
        "FDs"@
    }
}

/// The dashboard of a configuration, for the process `pid`.
pub open spec fn page_of(config: Config, pid: u32, windows: bool) -> Seq<char> {
    let titled = text::replaced(page::dashboard(), "__MONITOR_TITLE__"@, escaped(config.title@));
    let described = text::replaced(
        titled,
        "__MONITOR_DESCRIPTION__"@,
        escaped(config.description@),
    );
    let signed = text::replaced(described, "__MONITOR_FOOTER__"@, escaped(config.footer@));
    let marked = text::replaced(
        signed,
        "__MONITOR_FAVICON_URL__"@,
        escaped(favicon_of(config.favicon_url@)),
    );
    let timed = text::replaced(
        marked,
        "__MONITOR_REFRESH_MS__"@,
        text::numeral(polling_ms(config.refresh) as nat),
    );
    let labelled = text::replaced(
        timed,
        "__MONITOR_DESCRIPTOR_LABEL__"@,
        descriptor_label(windows),
    );
    text::replaced(labelled, "__MONITOR_PID__"@, text::numeral(pid as nat))
}

/// Escapes every character that means something in HTML.
pub fn escape_html(value: &[char]) -> (out: Vec<char>)
    ensures
        out@ == escaped(value@),
{
    let mut out: Vec<char> = Vec::new();
    let mut i: usize = 0;
    assert(value@.take(0) =~= Seq::<char>::empty());
    while i < value.len()
        invariant
            i <= value@.len(),
            out@ == escaped(value@.take(i as int)),
        decreases value@.len() - i,
    {
        let c: char = value[i];
        assert(value@.take(i + 1).drop_last() =~= value@.take(i as int));
        if c == '&' {
            append(&mut out, chars_of("&amp;").as_slice());
        } else if c == '<' {
            append(&mut out, chars_of("&lt;").as_slice());
        } else if c == '>' {
            append(&mut out, chars_of("&gt;").as_slice());
        } else if c == '"' {
            append(&mut out, chars_of("&quot;").as_slice());
        } else if c == '\'' {
            append(&mut out, chars_of("&#39;").as_slice());
        } else {
            let ghost before = out@;
            out.push(c);
            assert(out@ =~= before + seq![c]);
        }
        i = i + 1;
    }
    assert(value@.take(value@.len() as int) =~= value@);
    out
}

/// Fills in one placeholder of a page.
fn fill(page: &[char], placeholder: &str, with: &[char]) -> (out: Vec<char>)
    requires
        placeholder@.len() > 0,
    ensures
        out@ == text::replaced(page@, placeholder@, with@),
{
    let pattern = chars_of(placeholder);
    replace(page, pattern.as_slice(), with)
}

/// Renders the dashboard of a configuration for the process `pid`.
pub fn render(config: &Config, pid: u32, windows: bool) -> (html: String)
    ensures
        html@ == page_of(*config, pid, windows),
{
    proof {
        reveal_strlit("__MONITOR_TITLE__");
        reveal_strlit("__MONITOR_DESCRIPTION__");
        reveal_strlit("__MONITOR_FOOTER__");
        reveal_strlit("__MONITOR_FAVICON_URL__");
        reveal_strlit("__MONITOR_REFRESH_MS__");
        reveal_strlit("__MONITOR_DESCRIPTOR_LABEL__");
        reveal_strlit("__MONITOR_PID__");
    }
    let ms: u128 = config.refresh / 1_000_000;
    let clamped: u128 = if ms < MIN_REFRESH_MS {
        MIN_REFRESH_MS
    } else if ms > MAX_REFRESH_MS {
        MAX_REFRESH_MS
    } else {
        ms
    };
    let refresh_ms = decimal(clamped);
    let favicon = if config.favicon_url.as_str().is_empty() {
        chars_of(DEFAULT_FAVICON)
    } else {
        chars_of(config.favicon_url.as_str())
    };
    let descriptor = if windows {
        chars_of("Handles")
    } else {
        chars_of("FDs")
    };
    let title = escape_html(chars_of(config.title.as_str()).as_slice());
    let description = escape_html(chars_of(config.description.as_str()).as_slice());
    let footer = escape_html(chars_of(config.footer.as_str()).as_slice());
    let icon = escape_html(favicon.as_slice());
    let number = decimal(pid as u128);

    let page = dashboard_page();
    let page = fill(page.as_slice(), "__MONITOR_TITLE__", title.as_slice());
    let page = fill(page.as_slice(), "__MONITOR_DESCRIPTION__", description.as_slice());
    let page = fill(page.as_slice(), "__MONITOR_FOOTER__", footer.as_slice());
    let page = fill(page.as_slice(), "__MONITOR_FAVICON_URL__", icon.as_slice());
    let page = fill(page.as_slice(), "__MONITOR_REFRESH_MS__", refresh_ms.as_slice());
    let page = fill(page.as_slice(), "__MONITOR_DESCRIPTOR_LABEL__", descriptor.as_slice());
    let page = fill(page.as_slice(), "__MONITOR_PID__", number.as_slice());
    text_of(page.as_slice())
}

/// Whether a character opens or closes a tag or a quoted attribute.
pub open spec fn is_markup(c: char) -> bool {
    c == '<' || c == '>' || c == '"' || c == '\''
}

proof fn lemma_escape_is_inert(c: char)
    ensures
        forall|i: int| 0 <= i < escape_of(c).len() ==> !is_markup(#[trigger] escape_of(c)[i]),
{
    reveal_strlit("&amp;");
    reveal_strlit("&lt;");
    reveal_strlit("&gt;");
    reveal_strlit("&quot;");
    reveal_strlit("&#39;");
    assert("&amp;"@ =~= seq!['&', 'a', 'm', 'p', ';']);
    assert("&lt;"@ =~= seq!['&', 'l', 't', ';']);
    assert("&gt;"@ =~= seq!['&', 'g', 't', ';']);
    assert("&quot;"@ =~= seq!['&', 'q', 'u', 'o', 't', ';']);
    assert("&#39;"@ =~= seq!['&', '#', '3', '9', ';']);
}

/// Escaped text holds no character that opens or closes a tag or a quoted
/// attribute.
pub proof fn law_escaped_text_is_inert(s: Seq<char>)
    ensures
        forall|i: int| 0 <= i < escaped(s).len() ==> !is_markup(#[trigger] escaped(s)[i]),
    decreases s.len(),
{
    if s.len() > 0 {
        let head = escaped(s.drop_last());
        law_escaped_text_is_inert(s.drop_last());
        lemma_escape_is_inert(s.last());
        assert forall|i: int| 0 <= i < escaped(s).len() implies !is_markup(
            #[trigger] escaped(s)[i],
        ) by {
            if i < head.len() {
                assert(escaped(s)[i] == head[i]);
            } else {
                assert(escaped(s)[i] == escape_of(s.last())[i - head.len()]);
            }
        }
    }
}

/// Text without characters that mean something in HTML is kept as it is.
pub proof fn law_plain_text_is_kept(s: Seq<char>)
    requires
        forall|i: int| 0 <= i < s.len() ==> !is_markup(#[trigger] s[i]) && s[i] != '&',
    ensures
        escaped(s) == s,
    decreases s.len(),
{
    if s.len() > 0 {
        law_plain_text_is_kept(s.drop_last());
        assert(escaped(s) =~= s);
    }
}

/// The custom head, the font and the chart library of a configuration have no
/// bearing on the dashboard.
pub proof fn law_deprecated_fields_are_ignored(
    config: Config,
    custom_head: String,
    font_url: String,
    chart_js_url: String,
    pid: u32,
    windows: bool,
)
    ensures
        page_of(
            Config { custom_head, font_url, chart_js_url, ..config },
            pid,
            windows,
        ) == page_of(config, pid, windows),
{
}

} // verus!
