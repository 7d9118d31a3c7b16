//! What stands where on the dashboard.

use vstd::prelude::*;

use crate::config::Config;
use crate::dashboard;
use crate::page;
use crate::text;

verus! {

/// Whether a text holds another.
pub open spec fn holds(s: Seq<char>, part: Seq<char>) -> bool {
    exists|before: Seq<char>, after: Seq<char>| s == #[trigger] (before + part + after)
}

/// Whether a character occurs in the placeholders of the page.
spec fn is_mark(c: char) -> bool {
    'A' <= c <= 'Z' || c == '_'
}

/// The placeholders, in the order in which they are filled in.
spec fn placeholder(i: int) -> Seq<char> {
    if i == 0 {
        "__MONITOR_TITLE__"@
    } else if i == 1 {
        "__MONITOR_DESCRIPTION__"@
    } else if i == 2 {
        "__MONITOR_FOOTER__"@
    } else if i == 3 {
        "__MONITOR_FAVICON_URL__"@
    } else if i == 4 {
        "__MONITOR_REFRESH_MS__"@
    } else if i == 5 {
        "__MONITOR_DESCRIPTOR_LABEL__"@
    } else {
        "__MONITOR_PID__"@
    }
}

/// A text after the first `n` placeholders were filled in.
spec fn filled(s: Seq<char>, with: Seq<Seq<char>>, n: int) -> Seq<char>
    decreases n,
{
    if n <= 0 {
        s
    } else {
        text::replaced(filled(s, with, n - 1), placeholder(n - 1), with[n - 1])
    }
}

/// Whether a text holds a pattern nowhere.
pub open spec fn lacks(s: Seq<char>, pattern: Seq<char>) -> bool {
    forall|i: int| 0 <= i < s.len() ==> !text::begins(#[trigger] s.skip(i), pattern)
}

/// Whether a text holds no placeholder of the page.
pub open spec fn lacks_placeholders(s: Seq<char>) -> bool {
    &&& lacks(s, "__MONITOR_TITLE__"@)
    &&& lacks(s, "__MONITOR_DESCRIPTION__"@)
    &&& lacks(s, "__MONITOR_FOOTER__"@)
    &&& lacks(s, "__MONITOR_FAVICON_URL__"@)
    &&& lacks(s, "__MONITOR_REFRESH_MS__"@)
    &&& lacks(s, "__MONITOR_DESCRIPTOR_LABEL__"@)
    &&& lacks(s, "__MONITOR_PID__"@)
}

proof fn lemma_replaced_lacking(s: Seq<char>, pattern: Seq<char>, with: Seq<char>)
    requires
        lacks(s, pattern),
    ensures
        text::replaced(s, pattern, with) == s,
    decreases s.len(),
{
    if s.len() > 0 && pattern.len() > 0 {
        assert(s.skip(0) =~= s);
        assert(!text::begins(s.skip(0), pattern));
        assert forall|i: int| 0 <= i < s.len() - 1 implies !text::begins(
            #[trigger] s.skip(1).skip(i),
            pattern,
        ) by {
            assert(s.skip(1).skip(i) =~= s.skip(i + 1));
            assert(!text::begins(s.skip(i + 1), pattern));
        }
        lemma_replaced_lacking(s.skip(1), pattern, with);
        assert(seq![s[0]] + s.skip(1) =~= s);
    }
}

/// What stands before and after a character that a pattern does not hold is
/// replaced on its own.
proof fn lemma_replaced_around(
    a: Seq<char>,
    c: char,
    b: Seq<char>,
    pattern: Seq<char>,
    with: Seq<char>,
)
    requires
        pattern.len() > 0,
        forall|i: int| 0 <= i < pattern.len() ==> #[trigger] pattern[i] != c,
    ensures
        text::replaced(a + seq![c] + b, pattern, with) == text::replaced(a, pattern, with) + seq![c]
            + text::replaced(b, pattern, with),
    decreases a.len(),
{
    let whole = a + seq![c] + b;
    let n = pattern.len() as int;
    if text::begins(whole, pattern) && n > a.len() {
        assert(whole.take(n)[a.len() as int] == c);
        assert(pattern[a.len() as int] == c);
    }
    if a.len() == 0 {
        assert(whole.skip(1) =~= b);
        assert(text::replaced(a, pattern, with) =~= Seq::<char>::empty());
        assert(text::replaced(whole, pattern, with) =~= seq![c] + text::replaced(b, pattern, with));
    } else if text::begins(whole, pattern) {
        assert(a.take(n) =~= whole.take(n));
        assert(whole.skip(n) =~= a.skip(n) + seq![c] + b);
        lemma_replaced_around(a.skip(n), c, b, pattern, with);
        assert(text::replaced(whole, pattern, with) =~= text::replaced(a, pattern, with) + seq![c]
            + text::replaced(b, pattern, with));
    } else {
        if text::begins(a, pattern) {
            assert(a.take(n) =~= whole.take(n));
        }
        assert(whole.skip(1) =~= a.skip(1) + seq![c] + b);
        lemma_replaced_around(a.skip(1), c, b, pattern, with);
        assert(text::replaced(whole, pattern, with) =~= text::replaced(a, pattern, with) + seq![c]
            + text::replaced(b, pattern, with));
    }
}

/// Whether a placeholder begins as all do, and nowhere else in it does one begin.
spec fn begins_once(s: Seq<char>) -> bool {
    &&& s.len() >= 15
    &&& s[0] == '_'
    &&& s[1] == '_'
    &&& s[2] == 'M'
    &&& forall|i: int| 1 <= i < s.len() - 2 ==> #[trigger] s[i] != '_' || s[i + 1] != '_' || s[i + 2]
        != 'M'
    &&& forall|i: int| 0 <= i < s.len() ==> is_mark(#[trigger] s[i])
}

proof fn lemma_placeholder(k: int)
    requires
        0 <= k < 7,
    ensures
        begins_once(placeholder(k)),
{
    reveal_strlit("__MONITOR_TITLE__");
    reveal_strlit("__MONITOR_DESCRIPTION__");
    reveal_strlit("__MONITOR_FOOTER__");
    reveal_strlit("__MONITOR_FAVICON_URL__");
    reveal_strlit("__MONITOR_REFRESH_MS__");
    reveal_strlit("__MONITOR_DESCRIPTOR_LABEL__");
    reveal_strlit("__MONITOR_PID__");
    if k == 0 {
        assert("__MONITOR_TITLE__"@ =~= seq!['_', '_', 'M', 'O', 'N', 'I', 'T', 'O', 'R', '_', 'T', 'I', 'T', 'L', 'E', '_', '_']);
    } else if k == 1 {
        assert("__MONITOR_DESCRIPTION__"@ =~= seq!['_', '_', 'M', 'O', 'N', 'I', 'T', 'O', 'R', '_', 'D', 'E', 'S', 'C', 'R', 'I', 'P', 'T', 'I', 'O', 'N', '_', '_']);
    } else if k == 2 {
        assert("__MONITOR_FOOTER__"@ =~= seq!['_', '_', 'M', 'O', 'N', 'I', 'T', 'O', 'R', '_', 'F', 'O', 'O', 'T', 'E', 'R', '_', '_']);
    } else if k == 3 {
        assert("__MONITOR_FAVICON_URL__"@ =~= seq!['_', '_', 'M', 'O', 'N', 'I', 'T', 'O', 'R', '_', 'F', 'A', 'V', 'I', 'C', 'O', 'N', '_', 'U', 'R', 'L', '_', '_']);
    } else if k == 4 {
        assert("__MONITOR_REFRESH_MS__"@ =~= seq!['_', '_', 'M', 'O', 'N', 'I', 'T', 'O', 'R', '_', 'R', 'E', 'F', 'R', 'E', 'S', 'H', '_', 'M', 'S', '_', '_']);
    } else if k == 5 {
        assert("__MONITOR_DESCRIPTOR_LABEL__"@ =~= seq!['_', '_', 'M', 'O', 'N', 'I', 'T', 'O', 'R', '_', 'D', 'E', 'S', 'C', 'R', 'I', 'P', 'T', 'O', 'R', '_', 'L', 'A', 'B', 'E', 'L', '_', '_']);
    } else {
        assert("__MONITOR_PID__"@ =~= seq!['_', '_', 'M', 'O', 'N', 'I', 'T', 'O', 'R', '_', 'P', 'I', 'D', '_', '_']);
    }
}

proof fn lemma_differs(s: Seq<char>, pattern: Seq<char>, i: int)
    requires
        0 <= i < pattern.len(),
        i < s.len() ==> s[i] != pattern[i],
    ensures
        !text::begins(s, pattern),
{
    if text::begins(s, pattern) {
        assert(s.take(pattern.len() as int)[i] == s[i]);
    }
}

proof fn lemma_placeholders_differ(k: int, j: int)
    requires
        0 <= k < 7,
        0 <= j < 7,
        k != j,
    ensures
        lacks(placeholder(k), placeholder(j)),
{
    let s = placeholder(k);
    let pattern = placeholder(j);
    lemma_placeholder(k);
    lemma_placeholder(j);
    assert(!text::begins(s, pattern)) by {
        reveal_strlit("__MONITOR_TITLE__");
        reveal_strlit("__MONITOR_DESCRIPTION__");
        reveal_strlit("__MONITOR_FOOTER__");
        reveal_strlit("__MONITOR_FAVICON_URL__");
        reveal_strlit("__MONITOR_REFRESH_MS__");
        reveal_strlit("__MONITOR_DESCRIPTOR_LABEL__");
        reveal_strlit("__MONITOR_PID__");
        if s[10] != pattern[10] {
            lemma_differs(s, pattern, 10);
        } else if s[11] != pattern[11] {
            lemma_differs(s, pattern, 11);
        } else {
            assert(s[18] != pattern[18]);
            lemma_differs(s, pattern, 18);
        }
    }
    assert forall|i: int| 0 <= i < s.len() implies !text::begins(#[trigger] s.skip(i), pattern) by {
        if i == 0 {
            assert(s.skip(0) =~= s);
        } else if i + 2 < s.len() {
            if s[i] != '_' {
                lemma_differs(s.skip(i), pattern, 0);
            } else if s[i + 1] != '_' {
                lemma_differs(s.skip(i), pattern, 1);
            } else {
                lemma_differs(s.skip(i), pattern, 2);
            }
        }
    }
}

proof fn lemma_filled_around(a: Seq<char>, c: char, b: Seq<char>, with: Seq<Seq<char>>, n: int)
    requires
        0 <= n <= 7,
        !is_mark(c),
    ensures
        filled(a + seq![c] + b, with, n) == filled(a, with, n) + seq![c] + filled(b, with, n),
    decreases n,
{
    if n > 0 {
        lemma_filled_around(a, c, b, with, n - 1);
        lemma_placeholder(n - 1);
        lemma_replaced_around(
            filled(a, with, n - 1),
            c,
            filled(b, with, n - 1),
            placeholder(n - 1),
            with[n - 1],
        );
    }
}

/// A text without underscores stays as it is.
proof fn lemma_filled_plain(s: Seq<char>, with: Seq<Seq<char>>, n: int)
    requires
        0 <= n <= 7,
        forall|i: int| 0 <= i < s.len() ==> #[trigger] s[i] != '_',
    ensures
        filled(s, with, n) == s,
    decreases n,
{
    if n > 0 {
        lemma_filled_plain(s, with, n - 1);
        lemma_placeholder(n - 1);
        assert forall|i: int| 0 <= i < s.len() implies !text::begins(
            #[trigger] s.skip(i),
            placeholder(n - 1),
        ) by {
            lemma_differs(s.skip(i), placeholder(n - 1), 0);
        }
        lemma_replaced_lacking(s, placeholder(n - 1), with[n - 1]);
    }
}

/// A placeholder is filled in with its text.
proof fn lemma_filled_placeholder(k: int, with: Seq<Seq<char>>, n: int)
    requires
        0 <= k < 7,
        0 <= n <= 7,
        lacks_placeholders(with[k]),
    ensures
        filled(placeholder(k), with, n) == (if n <= k {
            placeholder(k)
        } else {
            with[k]
        }),
    decreases n,
{
    if n > 0 {
        let pattern = placeholder(n - 1);
        lemma_filled_placeholder(k, with, n - 1);
        lemma_placeholder(n - 1);
        if n - 1 < k {
            lemma_placeholders_differ(k, n - 1);
            lemma_replaced_lacking(placeholder(k), pattern, with[n - 1]);
        } else if n - 1 == k {
            assert(pattern.take(pattern.len() as int) =~= pattern);
            assert(pattern.skip(pattern.len() as int) =~= Seq::<char>::empty());
            assert(text::replaced(Seq::empty(), pattern, with[k]) =~= Seq::<char>::empty());
            assert(with[k] + Seq::<char>::empty() =~= with[k]);
        } else {
            assert(lacks(with[k], pattern));
            lemma_replaced_lacking(with[k], pattern, with[n - 1]);
        }
    }
}

/// What surrounds a placeholder stays, and in between stands its text.
proof fn lemma_slot(
    before: Seq<char>,
    open: Seq<char>,
    k: int,
    close: Seq<char>,
    after: Seq<char>,
    with: Seq<Seq<char>>,
)
    requires
        0 <= k < 7,
        lacks_placeholders(with[k]),
        open.len() >= 2,
        close.len() >= 2,
        !is_mark(open[0]),
        !is_mark(open.last()),
        !is_mark(close[0]),
        !is_mark(close.last()),
        forall|i: int| 0 <= i < open.len() ==> #[trigger] open[i] != '_',
        forall|i: int| 0 <= i < close.len() ==> #[trigger] close[i] != '_',
    ensures
        holds(filled(before + (open + placeholder(k) + close) + after, with, 7), open + with[k] + close),
{
    let whole = before + (open + placeholder(k) + close) + after;
    let left = open.subrange(1, open.len() - 1);
    let right = close.subrange(1, close.len() - 1);
    let rest3 = right + seq![close.last()] + after;
    let rest2 = placeholder(k) + seq![close[0]] + rest3;
    let rest1 = left + seq![open.last()] + rest2;
    assert(whole =~= before + seq![open[0]] + rest1);
    lemma_filled_around(before, open[0], rest1, with, 7);
    lemma_filled_around(left, open.last(), rest2, with, 7);
    lemma_filled_around(placeholder(k), close[0], rest3, with, 7);
    lemma_filled_around(right, close.last(), after, with, 7);
    lemma_filled_plain(left, with, 7);
    lemma_filled_plain(right, with, 7);
    lemma_filled_placeholder(k, with, 7);
    assert(filled(whole, with, 7) =~= filled(before, with, 7) + (open + with[k] + close) + filled(
        after,
        with,
        7,
    ));
}

/// The texts that are filled in.
spec fn texts_of(config: Config, pid: u32, windows: bool) -> Seq<Seq<char>> {
    seq![
        dashboard::escaped(config.title@),
        dashboard::escaped(config.description@),
        dashboard::escaped(config.footer@),
        dashboard::escaped(dashboard::favicon_of(config.favicon_url@)),
        text::numeral(dashboard::polling_ms(config.refresh) as nat),
        dashboard::descriptor_label(windows),
        text::numeral(pid as nat),
    ]
}

proof fn lemma_page_is_filled(config: Config, pid: u32, windows: bool)
    ensures
        dashboard::page_of(config, pid, windows) == filled(
            page::dashboard(),
            texts_of(config, pid, windows),
            7,
        ),
{
    reveal_with_fuel(filled, 8);
}

proof fn lemma_title_slot(with: Seq<Seq<char>>)
    requires
        lacks_placeholders(with[0]),
    ensures
        holds(filled(page::dashboard(), with, 7), "<title>"@ + with[0] + "</title>"@),
{
    reveal_strlit("<title>");
    reveal_strlit("</title>");
    reveal_strlit("<title>__MONITOR_TITLE__</title>");
    reveal_strlit("__MONITOR_TITLE__");
    assert("<title>"@ =~= seq!['<', 't', 'i', 't', 'l', 'e', '>']);
    assert("</title>"@ =~= seq!['<', '/', 't', 'i', 't', 'l', 'e', '>']);
    assert(page::TITLE_SLOT@ =~= "<title>"@ + placeholder(0) + "</title>"@);
    let before = page::HEAD_PART@;
    let after = page::HEAD_END_PART@ + page::ICON_SLOT@ + page::STYLE_PART@ + page::HEADING_SLOT@ + page::TABS_PART@ + page::DESCRIPTION_SLOT@ + page::PROCESS_PART@ + page::NUMBER_SLOT@ + page::PROCESS_FIGURES_PART@ + page::DESCRIPTORS_SLOT@ + page::FIGURES_PART@ + page::FOOTER_SLOT@ + page::SCRIPT_START_PART@ + page::INTERVAL_SLOT@ + page::SCRIPT_PART@;
    assert(page::dashboard() =~= before + page::TITLE_SLOT@ + after);
    lemma_slot(before, "<title>"@, 0, "</title>"@, after, with);
}

proof fn lemma_heading_slot(with: Seq<Seq<char>>)
    requires
        lacks_placeholders(with[0]),
    ensures
        holds(filled(page::dashboard(), with, 7), "<h1>"@ + with[0] + "</h1>"@),
{
    reveal_strlit("<h1>");
    reveal_strlit("</h1>");
    reveal_strlit("<h1>__MONITOR_TITLE__</h1>");
    reveal_strlit("__MONITOR_TITLE__");
    assert("<h1>"@ =~= seq!['<', 'h', '1', '>']);
    assert("</h1>"@ =~= seq!['<', '/', 'h', '1', '>']);
    assert(page::HEADING_SLOT@ =~= "<h1>"@ + placeholder(0) + "</h1>"@);
    let before = page::HEAD_PART@ + page::TITLE_SLOT@ + page::HEAD_END_PART@ + page::ICON_SLOT@ + page::STYLE_PART@;
    let after = page::TABS_PART@ + page::DESCRIPTION_SLOT@ + page::PROCESS_PART@ + page::NUMBER_SLOT@ + page::PROCESS_FIGURES_PART@ + page::DESCRIPTORS_SLOT@ + page::FIGURES_PART@ + page::FOOTER_SLOT@ + page::SCRIPT_START_PART@ + page::INTERVAL_SLOT@ + page::SCRIPT_PART@;
    assert(page::dashboard() =~= before + page::HEADING_SLOT@ + after);
    lemma_slot(before, "<h1>"@, 0, "</h1>"@, after, with);
}

proof fn lemma_description_slot(with: Seq<Seq<char>>)
    requires
        lacks_placeholders(with[1]),
    ensures
        holds(filled(page::dashboard(), with, 7), "<p>"@ + with[1] + "</p>"@),
{
    reveal_strlit("<p>");
    reveal_strlit("</p>");
    reveal_strlit("<p>__MONITOR_DESCRIPTION__</p>");
    reveal_strlit("__MONITOR_DESCRIPTION__");
    assert("<p>"@ =~= seq!['<', 'p', '>']);
    assert("</p>"@ =~= seq!['<', '/', 'p', '>']);
    assert(page::DESCRIPTION_SLOT@ =~= "<p>"@ + placeholder(1) + "</p>"@);
    let before = page::HEAD_PART@ + page::TITLE_SLOT@ + page::HEAD_END_PART@ + page::ICON_SLOT@ + page::STYLE_PART@ + page::HEADING_SLOT@ + page::TABS_PART@;
    let after = page::PROCESS_PART@ + page::NUMBER_SLOT@ + page::PROCESS_FIGURES_PART@ + page::DESCRIPTORS_SLOT@ + page::FIGURES_PART@ + page::FOOTER_SLOT@ + page::SCRIPT_START_PART@ + page::INTERVAL_SLOT@ + page::SCRIPT_PART@;
    assert(page::dashboard() =~= before + page::DESCRIPTION_SLOT@ + after);
    lemma_slot(before, "<p>"@, 1, "</p>"@, after, with);
}

proof fn lemma_footer_slot(with: Seq<Seq<char>>)
    requires
        lacks_placeholders(with[2]),
    ensures
        holds(filled(page::dashboard(), with, 7), "<footer>"@ + with[2] + "</footer>"@),
{
    reveal_strlit("<footer>");
    reveal_strlit("</footer>");
    reveal_strlit("<footer>__MONITOR_FOOTER__</footer>");
    reveal_strlit("__MONITOR_FOOTER__");
    assert("<footer>"@ =~= seq!['<', 'f', 'o', 'o', 't', 'e', 'r', '>']);
    assert("</footer>"@ =~= seq!['<', '/', 'f', 'o', 'o', 't', 'e', 'r', '>']);
    assert(page::FOOTER_SLOT@ =~= "<footer>"@ + placeholder(2) + "</footer>"@);
    let before = page::HEAD_PART@ + page::TITLE_SLOT@ + page::HEAD_END_PART@ + page::ICON_SLOT@ + page::STYLE_PART@ + page::HEADING_SLOT@ + page::TABS_PART@ + page::DESCRIPTION_SLOT@ + page::PROCESS_PART@ + page::NUMBER_SLOT@ + page::PROCESS_FIGURES_PART@ + page::DESCRIPTORS_SLOT@ + page::FIGURES_PART@;
    let after = page::SCRIPT_START_PART@ + page::INTERVAL_SLOT@ + page::SCRIPT_PART@;
    assert(page::dashboard() =~= before + page::FOOTER_SLOT@ + after);
    lemma_slot(before, "<footer>"@, 2, "</footer>"@, after, with);
}

proof fn lemma_icon_slot(with: Seq<Seq<char>>)
    requires
        lacks_placeholders(with[3]),
    ensures
        holds(filled(page::dashboard(), with, 7), "<link rel=\"icon\" href=\""@ + with[3] + "\">"@),
{
    reveal_strlit("<link rel=\"icon\" href=\"");
    reveal_strlit("\">");
    reveal_strlit("<link rel=\"icon\" href=\"__MONITOR_FAVICON_URL__\">");
    reveal_strlit("__MONITOR_FAVICON_URL__");
    assert("<link rel=\"icon\" href=\""@ =~= seq!['<', 'l', 'i', 'n', 'k', ' ', 'r', 'e', 'l', '=', '"', 'i', 'c', 'o', 'n', '"', ' ', 'h', 'r', 'e', 'f', '=', '"']);
    assert("\">"@ =~= seq!['"', '>']);
    assert(page::ICON_SLOT@ =~= "<link rel=\"icon\" href=\""@ + placeholder(3) + "\">"@);
    let before = page::HEAD_PART@ + page::TITLE_SLOT@ + page::HEAD_END_PART@;
    let after = page::STYLE_PART@ + page::HEADING_SLOT@ + page::TABS_PART@ + page::DESCRIPTION_SLOT@ + page::PROCESS_PART@ + page::NUMBER_SLOT@ + page::PROCESS_FIGURES_PART@ + page::DESCRIPTORS_SLOT@ + page::FIGURES_PART@ + page::FOOTER_SLOT@ + page::SCRIPT_START_PART@ + page::INTERVAL_SLOT@ + page::SCRIPT_PART@;
    assert(page::dashboard() =~= before + page::ICON_SLOT@ + after);
    lemma_slot(before, "<link rel=\"icon\" href=\""@, 3, "\">"@, after, with);
}

proof fn lemma_interval_slot(with: Seq<Seq<char>>)
    requires
        lacks_placeholders(with[4]),
    ensures
        holds(filled(page::dashboard(), with, 7), "= Number(\""@ + with[4] + "\")"@),
{
    reveal_strlit("= Number(\"");
    reveal_strlit("\")");
    reveal_strlit("= Number(\"__MONITOR_REFRESH_MS__\")");
    reveal_strlit("__MONITOR_REFRESH_MS__");
    assert("= Number(\""@ =~= seq!['=', ' ', 'N', 'u', 'm', 'b', 'e', 'r', '(', '"']);
    assert("\")"@ =~= seq!['"', ')']);
    assert(page::INTERVAL_SLOT@ =~= "= Number(\""@ + placeholder(4) + "\")"@);
    let before = page::HEAD_PART@ + page::TITLE_SLOT@ + page::HEAD_END_PART@ + page::ICON_SLOT@ + page::STYLE_PART@ + page::HEADING_SLOT@ + page::TABS_PART@ + page::DESCRIPTION_SLOT@ + page::PROCESS_PART@ + page::NUMBER_SLOT@ + page::PROCESS_FIGURES_PART@ + page::DESCRIPTORS_SLOT@ + page::FIGURES_PART@ + page::FOOTER_SLOT@ + page::SCRIPT_START_PART@;
    let after = page::SCRIPT_PART@;
    assert(page::dashboard() =~= before + page::INTERVAL_SLOT@ + after);
    lemma_slot(before, "= Number(\""@, 4, "\")"@, after, with);
}

proof fn lemma_descriptors_slot(with: Seq<Seq<char>>)
    requires
        lacks_placeholders(with[5]),
    ensures
        holds(filled(page::dashboard(), with, 7), "<dt>"@ + with[5] + "</dt>"@),
{
    reveal_strlit("<dt>");
    reveal_strlit("</dt>");
    reveal_strlit("<dt>__MONITOR_DESCRIPTOR_LABEL__</dt>");
    reveal_strlit("__MONITOR_DESCRIPTOR_LABEL__");
    assert("<dt>"@ =~= seq!['<', 'd', 't', '>']);
    assert("</dt>"@ =~= seq!['<', '/', 'd', 't', '>']);
    assert(page::DESCRIPTORS_SLOT@ =~= "<dt>"@ + placeholder(5) + "</dt>"@);
    let before = page::HEAD_PART@ + page::TITLE_SLOT@ + page::HEAD_END_PART@ + page::ICON_SLOT@ + page::STYLE_PART@ + page::HEADING_SLOT@ + page::TABS_PART@ + page::DESCRIPTION_SLOT@ + page::PROCESS_PART@ + page::NUMBER_SLOT@ + page::PROCESS_FIGURES_PART@;
    let after = page::FIGURES_PART@ + page::FOOTER_SLOT@ + page::SCRIPT_START_PART@ + page::INTERVAL_SLOT@ + page::SCRIPT_PART@;
    assert(page::dashboard() =~= before + page::DESCRIPTORS_SLOT@ + after);
    lemma_slot(before, "<dt>"@, 5, "</dt>"@, after, with);
}

proof fn lemma_number_slot(with: Seq<Seq<char>>)
    requires
        lacks_placeholders(with[6]),
    ensures
        holds(filled(page::dashboard(), with, 7), "<small>PID "@ + with[6] + "</small>"@),
{
    reveal_strlit("<small>PID ");
    reveal_strlit("</small>");
    reveal_strlit("<small>PID __MONITOR_PID__</small>");
    reveal_strlit("__MONITOR_PID__");
    assert("<small>PID "@ =~= seq!['<', 's', 'm', 'a', 'l', 'l', '>', 'P', 'I', 'D', ' ']);
    assert("</small>"@ =~= seq!['<', '/', 's', 'm', 'a', 'l', 'l', '>']);
    assert(page::NUMBER_SLOT@ =~= "<small>PID "@ + placeholder(6) + "</small>"@);
    let before = page::HEAD_PART@ + page::TITLE_SLOT@ + page::HEAD_END_PART@ + page::ICON_SLOT@ + page::STYLE_PART@ + page::HEADING_SLOT@ + page::TABS_PART@ + page::DESCRIPTION_SLOT@ + page::PROCESS_PART@;
    let after = page::PROCESS_FIGURES_PART@ + page::DESCRIPTORS_SLOT@ + page::FIGURES_PART@ + page::FOOTER_SLOT@ + page::SCRIPT_START_PART@ + page::INTERVAL_SLOT@ + page::SCRIPT_PART@;
    assert(page::dashboard() =~= before + page::NUMBER_SLOT@ + after);
    lemma_slot(before, "<small>PID "@, 6, "</small>"@, after, with);
}

proof fn lemma_no_underscore(s: Seq<char>)
    requires
        forall|i: int| 0 <= i < s.len() ==> #[trigger] s[i] != '_',
    ensures
        lacks_placeholders(s),
{
    lemma_placeholder(0);
    lemma_placeholder(1);
    lemma_placeholder(2);
    lemma_placeholder(3);
    lemma_placeholder(4);
    lemma_placeholder(5);
    lemma_placeholder(6);
    assert forall|i: int, k: int| 0 <= i < s.len() && 0 <= k < 7 implies !text::begins(
        #[trigger] s.skip(i),
        #[trigger] placeholder(k),
    ) by {
        lemma_placeholder(k);
        lemma_differs(s.skip(i), placeholder(k), 0);
    }
    assert forall|k: int| 0 <= k < 7 implies lacks(s, #[trigger] placeholder(k)) by {}
    assert(lacks(s, placeholder(0)));
    assert(lacks(s, placeholder(1)));
    assert(lacks(s, placeholder(2)));
    assert(lacks(s, placeholder(3)));
    assert(lacks(s, placeholder(4)));
    assert(lacks(s, placeholder(5)));
    assert(lacks(s, placeholder(6)));
}

/// The number that some decimal digits write.
pub open spec fn number_in(digits: Seq<char>) -> int
    decreases digits.len(),
{
    if digits.len() == 0 {
        0
    } else {
        10 * number_in(digits.drop_last()) + (digits.last() as u32 - '0' as u32)
    }
}

/// A number is written in decimal digits that read as the number, without a zero
/// in front.
pub proof fn law_numerals_read_back(n: nat)
    ensures
        number_in(text::numeral(n)) == n,
        text::numeral(n).len() > 0,
        text::numeral(n).len() > 1 ==> text::numeral(n)[0] != '0',
        forall|i: int| 0 <= i < text::numeral(n).len() ==> '0' <= #[trigger] text::numeral(n)[i]
            <= '9',
    decreases n,
{
    let s = text::numeral(n);
    assert(text::digit(n % 10) as u32 - '0' as u32 == n % 10);
    if n < 10 {
        assert(s.drop_last() =~= Seq::<char>::empty());
        assert(number_in(s.drop_last()) == 0);
    } else {
        law_numerals_read_back(n / 10);
        assert(s.drop_last() =~= text::numeral(n / 10));
        let head = text::numeral(n / 10);
        assert(s[0] == head[0]);
        if n < 100 {
            assert(head =~= seq![text::digit(n / 10)]);
            assert(text::digit(n / 10) as u32 - '0' as u32 == n / 10);
        } else {
            law_numerals_read_back(n / 10 / 10);
            assert(head =~= text::numeral(n / 10 / 10).push(text::digit(n / 10 % 10)));
        }
    }
}

/// The texts of a configuration stand on the page where they belong: the title in
/// the head and as the heading, the description in a paragraph below it, the
/// footer at the bottom and the icon in its link, each escaped; the polling
/// interval in the script, and for the process its number and what its open
/// descriptors are called. The texts themselves hold no placeholder.
pub proof fn law_texts_stand_in_their_places(config: Config, pid: u32, windows: bool)
    ensures
        ({
            let page = dashboard::page_of(config, pid, windows);
            let title = dashboard::escaped(config.title@);
            let description = dashboard::escaped(config.description@);
            let footer = dashboard::escaped(config.footer@);
            let icon = dashboard::escaped(config.favicon_url@);
            &&& lacks_placeholders(title) ==> holds(page, "<title>"@ + title + "</title>"@)
            &&& lacks_placeholders(title) ==> holds(page, "<h1>"@ + title + "</h1>"@)
            &&& lacks_placeholders(description) ==> holds(page, "<p>"@ + description + "</p>"@)
            &&& lacks_placeholders(footer) ==> holds(page, "<footer>"@ + footer + "</footer>"@)
            &&& config.favicon_url@.len() > 0 && lacks_placeholders(icon) ==> holds(
                page,
                "<link rel=\"icon\" href=\""@ + icon + "\">"@,
            )
            &&& holds(page, "<small>PID "@ + text::numeral(pid as nat) + "</small>"@)
            &&& windows ==> holds(page, "<dt>"@ + "Handles"@ + "</dt>"@)
            &&& !windows ==> holds(page, "<dt>"@ + "FDs"@ + "</dt>"@)
            &&& 1_000_000_000 <= config.refresh <= 2_147_483_647_000_000 ==> holds(
                page,
                "= Number(\""@ + text::numeral((config.refresh / 1_000_000) as nat) + "\")"@,
            )
            &&& config.refresh < 1_000_000_000 ==> holds(
                page,
                "= Number(\""@ + text::numeral(1_000) + "\")"@,
            )
            &&& config.refresh > 2_147_483_647_000_000 ==> holds(
                page,
                "= Number(\""@ + text::numeral(2_147_483_647) + "\")"@,
            )
        }),
{
    let with = texts_of(config, pid, windows);
    lemma_page_is_filled(config, pid, windows);
    law_numerals_read_back(pid as nat);
    law_numerals_read_back(dashboard::polling_ms(config.refresh) as nat);
    lemma_no_underscore(with[4]);
    lemma_no_underscore(with[6]);
    assert(forall|i: int| 0 <= i < with[5].len() ==> #[trigger] with[5][i] != '_') by {
        reveal_strlit("Handles");
        reveal_strlit("FDs");
        assert("Handles"@ =~= seq!['H', 'a', 'n', 'd', 'l', 'e', 's']);
        assert("FDs"@ =~= seq!['F', 'D', 's']);
    }
    lemma_no_underscore(with[5]);
    if lacks_placeholders(with[0]) {
        lemma_title_slot(with);
        lemma_heading_slot(with);
    }
    if lacks_placeholders(with[1]) {
        lemma_description_slot(with);
    }
    if lacks_placeholders(with[2]) {
        lemma_footer_slot(with);
    }
    if lacks_placeholders(with[3]) {
        lemma_icon_slot(with);
    }
    lemma_interval_slot(with);
    lemma_descriptors_slot(with);
    lemma_number_slot(with);
}

/// Text is escaped character by character: five characters have an escape, any
/// other stands for itself.
pub proof fn law_characters_are_escaped(before: Seq<char>, c: char)
    ensures
        dashboard::escaped(Seq::<char>::empty()) == Seq::<char>::empty(),
        dashboard::escaped(before.push(c)) == dashboard::escaped(before) + (if c == '&' {
            seq!['&', 'a', 'm', 'p', ';']
        } else if c == '<' {
            seq!['&', 'l', 't', ';']
        } else if c == '>' {
            seq!['&', 'g', 't', ';']
        } else if c == '"' {
            seq!['&', 'q', 'u', 'o', 't', ';']
        } else if c == '\'' {
            seq!['&', '#', '3', '9', ';']
        } else {
            seq![c]
        }),
{
    reveal_strlit("&amp;");
    reveal_strlit("&lt;");
    reveal_strlit("&gt;");
    reveal_strlit("&quot;");
    reveal_strlit("&#39;");
    assert("&amp;"@ =~= seq!['&', 'a', 'm', 'p', ';']);
    assert("&lt;"@ =~= seq!['&', 'l', 't', ';']);
    assert("&gt;"@ =~= seq!['&', 'g', 't', ';']);
    assert("&quot;"@ =~= seq!['&', 'q', 'u', 'o', 't', ';']);
    assert("&#39;"@ =~= seq!['&', '#', '3', '9', ';']);
    assert(before.push(c).drop_last() =~= before);
}

/// A dashboard for which no icon is configured shows the one built in.
pub proof fn law_icon_is_built_in(config: Config, pid: u32, windows: bool)
    requires
        config.favicon_url@.len() == 0,
        lacks_placeholders(dashboard::escaped(dashboard::DEFAULT_FAVICON@)),
    ensures
        holds(
            dashboard::page_of(config, pid, windows),
            "<link rel=\"icon\" href=\""@ + dashboard::escaped(dashboard::DEFAULT_FAVICON@) + "\">"@,
        ),
{
    lemma_page_is_filled(config, pid, windows);
    lemma_icon_slot(texts_of(config, pid, windows));
}

} // verus!
