//! Configuration of a monitor.

use vstd::prelude::*;

use crate::text;
use crate::text::{
    before_any, chars_of, contains, is_text, split_once_text, text_of, trim,
};

verus! {

/// Minimum supported dashboard refresh interval, in nanoseconds.
pub const MIN_REFRESH: u128 = 1_000_000_000;

/// How long HTTP samples are retained, in nanoseconds.
pub const HTTP_WINDOW: u128 = 60_000_000_000;

/// Refresh interval where none is configured, in nanoseconds.
pub const DEFAULT_REFRESH: u128 = 3_000_000_000;

pub const DEFAULT_TITLE: &'static str = "Axum Sentinel Monitor";

pub const DEFAULT_DESCRIPTION: &'static str =
    "Live process, runtime, system, and HTTP metrics for this Axum service.";

pub const DEFAULT_FOOTER: &'static str = "Powered by axum-sentinel-monitor.";

pub const DEFAULT_ROUTE: &'static str = "/monitor";

pub const LEGACY_FONT_URL: &'static str =
    "https://fonts.googleapis.com/css2?family=Roboto:wght@400;900&display=swap";

pub const LEGACY_CHART_JS_URL: &'static str =
    "https://cdn.jsdelivr.net/npm/chart.js@2.9/dist/Chart.bundle.min.js";

/// Configuration of a [`crate::Monitor`].
#[derive(Clone, Debug)]
pub struct Config {
    /// Dashboard page title.
    pub title: String,
    /// Text displayed below the heading.
    pub description: String,
    /// Text displayed at the bottom of the page.
    pub footer: String,
    /// Root-relative path or absolute HTTP(S) URL. Empty uses the built-in icon.
    pub favicon_url: String,
    /// Interval used for browser polling and the snapshot cache, in nanoseconds.
    pub refresh: u128,
    /// Return JSON even when the client does not request it.
    pub api_only: bool,
    /// Retained for source compatibility. The embedded dashboard ignores this field.
    pub custom_head: String,
    /// Retained for source compatibility. The embedded dashboard loads no external font.
    pub font_url: String,
    /// Retained for source compatibility. Charts use the built-in Canvas implementation.
    pub chart_js_url: String,
    /// Route of the monitor endpoint.
    pub route: String,
}

impl Default for Config {
    fn default() -> (config: Self)
        ensures
            config.title@ == DEFAULT_TITLE@,
            config.description@ == DEFAULT_DESCRIPTION@,
            config.footer@ == DEFAULT_FOOTER@,
            config.favicon_url@.len() == 0,
            config.refresh == DEFAULT_REFRESH,
            !config.api_only,
            config.custom_head@.len() == 0,
            config.font_url@ == LEGACY_FONT_URL@,
            config.chart_js_url@ == LEGACY_CHART_JS_URL@,
            config.route@ == DEFAULT_ROUTE@,
    {
        Config {
            title: DEFAULT_TITLE.to_owned(),
            description: DEFAULT_DESCRIPTION.to_owned(),
            footer: DEFAULT_FOOTER.to_owned(),
            favicon_url: String::new(),
            refresh: DEFAULT_REFRESH,
            api_only: false,
            custom_head: String::new(),
            font_url: LEGACY_FONT_URL.to_owned(),
            chart_js_url: LEGACY_CHART_JS_URL.to_owned(),
            route: DEFAULT_ROUTE.to_owned(),
        }
    }
}

/// A text, or another one where it is empty.
pub open spec fn or_default(s: Seq<char>, default: Seq<char>) -> Seq<char> {
    if s.len() == 0 {
        default
    } else {
        s
    }
}

/// The refresh interval that stands for a configured one.
pub open spec fn refresh_of(refresh: u128) -> u128 {
    if refresh == 0 {
        DEFAULT_REFRESH
    } else if refresh < MIN_REFRESH {
        MIN_REFRESH
    } else {
        refresh
    }
}

/// Whether a URL is a path from the root of the site.
pub open spec fn is_rooted(url: Seq<char>) -> bool {
    &&& url.len() > 0 && url[0] == '/'
    &&& url.len() > 1 ==> url[1] != '/' && url[1] != '\\'
}

/// Whether a URL is absolute, with the scheme `http` or `https` and a host
/// without credentials.
pub open spec fn is_web_url(url: Seq<char>) -> bool {
    match text::split_at_text(url, "://"@) {
        Some((scheme, rest)) => {
            let host = text::up_to(rest, seq!['/', '?', '#']);
            &&& text::same_text(scheme, "http"@) || text::same_text(scheme, "https"@)
            &&& host.len() > 0
            &&& !host.contains('@')
        },
        None => false,
    }
}

/// Whether a favicon URL is accepted.
pub open spec fn is_favicon_url(raw: Seq<char>) -> bool {
    is_rooted(text::trimmed(raw)) || is_web_url(text::trimmed(raw))
}

/// A route with the slash that it must begin with.
pub open spec fn route_of(route: Seq<char>) -> Seq<char> {
    if route.len() == 0 {
        DEFAULT_ROUTE@
    } else if route[0] != '/' {
        seq!['/'] + route
    } else {
        route
    }
}

impl Config {
    /// Minimum supported dashboard refresh interval, in nanoseconds.
    pub const MIN_REFRESH: u128 = 1_000_000_000;

    /// Whether this is the configuration `given` with defaults for what it
    /// leaves empty and without what it must not hold.
    pub open spec fn normalizes(&self, given: Config) -> bool {
        &&& self.title@ == or_default(given.title@, DEFAULT_TITLE@)
        &&& self.description@ == or_default(given.description@, DEFAULT_DESCRIPTION@)
        &&& self.footer@ == or_default(given.footer@, DEFAULT_FOOTER@)
        &&& self.favicon_url@ == (if is_favicon_url(given.favicon_url@) {
            given.favicon_url@
        } else {
            Seq::empty()
        })
        &&& self.refresh == refresh_of(given.refresh)
        &&& self.api_only == given.api_only
        &&& self.custom_head@ == given.custom_head@
        &&& self.font_url@ == given.font_url@
        &&& self.chart_js_url@ == given.chart_js_url@
        &&& self.route@ == route_of(given.route@)
    }

    /// Fills in defaults, raises a refresh interval that is too short, drops a
    /// favicon URL that is not safe, and makes the route begin with a slash.
    pub fn normalized(self) -> (config: Self)
        ensures
            config.normalizes(self),
    {
        let mut config = self;
        if config.title.as_str().is_empty() {
            config.title = DEFAULT_TITLE.to_owned();
        }
        if config.description.as_str().is_empty() {
            config.description = DEFAULT_DESCRIPTION.to_owned();
        }
        if config.footer.as_str().is_empty() {
            config.footer = DEFAULT_FOOTER.to_owned();
        }
        if config.refresh == 0 {
            config.refresh = DEFAULT_REFRESH;
        }
        if config.refresh < MIN_REFRESH {
            config.refresh = MIN_REFRESH;
        }
        if !valid_favicon_url(config.favicon_url.as_str()) {
            config.favicon_url = String::new();
        }
        if config.route.as_str().is_empty() {
            config.route = DEFAULT_ROUTE.to_owned();
        } else {
            let route = chars_of(config.route.as_str());
            if route[0] != '/' {
                let mut rooted: Vec<char> = vec!['/'];
                text::append(&mut rooted, route.as_slice());
                assert(rooted@ =~= seq!['/'] + route@);
                config.route = text_of(rooted.as_slice());
            }
        }
        config
    }
}

/// Tests whether a favicon URL is accepted: a path from the root of the site, or
/// an absolute HTTP(S) URL without credentials.
pub fn valid_favicon_url(raw: &str) -> (valid: bool)
    ensures
        valid == is_favicon_url(raw@),
{
    let chars = chars_of(raw);
    let url = trim(chars.as_slice());
    if url.len() > 0 && url[0] == '/' && (url.len() == 1 || (url[1] != '/' && url[1] != '\\')) {
        return true;
    }
    let marker = chars_of("://");
    proof {
        reveal_strlit("://");
    }
    let (scheme, rest) = match split_once_text(url, marker.as_slice()) {
        Some(parts) => parts,
        None => {
            return false;
        },
    };
    if !is_text(scheme, "http") && !is_text(scheme, "https") {
        return false;
    }
    let ends: Vec<char> = vec!['/', '?', '#'];
    assert(ends@ =~= seq!['/', '?', '#']);
    let host = before_any(rest, ends.as_slice());
    host.len() > 0 && !contains(host, '@')
}

proof fn lemma_empty_is_no_url()
    ensures
        !is_favicon_url(Seq::empty()),
{
    assert(text::trimmed(Seq::<char>::empty()) =~= Seq::<char>::empty());
}

/// A normalized configuration has a title, a description, a footer, a route that
/// begins with a slash, a refresh interval of at least a second, and no favicon
/// URL but an accepted one.
pub proof fn law_normalized_is_complete(given: Config, config: Config)
    requires
        config.normalizes(given),
    ensures
        config.title@.len() > 0,
        config.description@.len() > 0,
        config.footer@.len() > 0,
        config.route@.len() > 0 && config.route@[0] == '/',
        config.refresh >= MIN_REFRESH,
        config.favicon_url@.len() > 0 ==> is_favicon_url(config.favicon_url@),
{
    reveal_strlit("Axum Sentinel Monitor");
    reveal_strlit("Live process, runtime, system, and HTTP metrics for this Axum service.");
    reveal_strlit("Powered by axum-sentinel-monitor.");
    reveal_strlit("/monitor");
}

/// Normalizing a normalized configuration changes nothing.
pub proof fn law_normalizing_twice_is_once(given: Config, once: Config, twice: Config)
    requires
        once.normalizes(given),
        twice.normalizes(once),
    ensures
        twice.title@ == once.title@,
        twice.description@ == once.description@,
        twice.footer@ == once.footer@,
        twice.favicon_url@ == once.favicon_url@,
        twice.refresh == once.refresh,
        twice.api_only == once.api_only,
        twice.custom_head@ == once.custom_head@,
        twice.font_url@ == once.font_url@,
        twice.chart_js_url@ == once.chart_js_url@,
        twice.route@ == once.route@,
{
    law_normalized_is_complete(given, once);
    lemma_empty_is_no_url();
    if once.favicon_url@.len() == 0 {
        assert(once.favicon_url@ =~= Seq::<char>::empty());
    }
}

} // verus!
