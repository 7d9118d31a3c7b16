use axum::http::{header, HeaderMap, HeaderValue};
use axum_sentinel_monitor::media::{
    accept_ranges, candidate_quality, choose_quality, is_json_content_type, prefers_json,
    read_accept, MediaRange,
};

fn parsed(ranges: &[MediaRange]) -> Vec<Vec<Option<u32>>> {
    ranges
        .iter()
        .map(|range| {
            range
                .qualities
                .iter()
                .map(|text| text.parse::<f32>().ok().map(f32::to_bits))
                .collect()
        })
        .collect()
}

fn headers_prefer_json(headers: &HeaderMap) -> bool {
    let ranges = accept_ranges(headers);
    let values = parsed(&ranges);
    prefers_json(&ranges, &values)
}

fn accepts_json(accept: &str) -> bool {
    let mut headers = HeaderMap::new();
    headers.insert(header::ACCEPT, accept.parse().unwrap());
    headers_prefer_json(&headers)
}

#[test]
fn handler_negotiates_quality_and_specificity() {
    let mut headers = HeaderMap::new();
    headers.insert(
        header::ACCEPT,
        "text/html;q=0.4, application/json;q=0.8".parse().unwrap(),
    );
    assert!(headers_prefer_json(&headers));
    headers.insert(
        header::ACCEPT,
        "application/json;q=0, */*;q=1".parse().unwrap(),
    );
    assert!(!headers_prefer_json(&headers));
}

#[test]
fn lib_negotiates_quality_and_specificity() {
    let mut headers = HeaderMap::new();
    headers.insert(
        header::ACCEPT,
        "text/html;q=0.4, application/json;q=0.8".parse().unwrap(),
    );
    assert!(headers_prefer_json(&headers));
    headers.insert(header::ACCEPT, "application/json;q=0, */*;q=1".parse().unwrap());
    assert!(!headers_prefer_json(&headers));
}

#[test]
fn recognizes_json_media_types() {
    let mut headers = HeaderMap::new();
    headers.insert(
        header::CONTENT_TYPE,
        "application/problem+json; charset=utf-8".parse().unwrap(),
    );
    assert!(is_json_content_type(&headers));

    headers.insert(header::CONTENT_TYPE, "text/json".parse().unwrap());
    assert!(!is_json_content_type(&headers));
}

#[test]
fn other_media_types() {
    let is_json = |value: &str| {
        let mut headers = HeaderMap::new();
        headers.insert(header::CONTENT_TYPE, value.parse().unwrap());
        is_json_content_type(&headers)
    };
    assert!(is_json("application/json"));
    assert!(is_json("APPLICATION/JSON"));
    assert!(is_json("application/json;charset=utf-8"));
    assert!(is_json(" application/ld+JSON "));
    assert!(!is_json("application/+json"));
    assert!(!is_json("application"));
    assert!(!is_json("application/jsonp"));
    assert!(!is_json("application/ json"));
    assert!(!is_json_content_type(&HeaderMap::new()));
}

#[test]
fn headers_that_are_no_text_tell_nothing() {
    let mut headers = HeaderMap::new();
    headers.insert(
        header::CONTENT_TYPE,
        HeaderValue::from_bytes(b"application/json\xff").unwrap(),
    );
    headers.insert(
        header::ACCEPT,
        HeaderValue::from_bytes(b"application/json, \xe9").unwrap(),
    );
    assert!(!is_json_content_type(&headers));
    assert!(!headers_prefer_json(&headers));
    assert!(accept_ranges(&headers).is_empty());
}

#[test]
fn the_first_accept_header_counts() {
    let mut headers = HeaderMap::new();
    headers.append(header::ACCEPT, "text/html".parse().unwrap());
    headers.append(header::ACCEPT, "application/json".parse().unwrap());
    assert!(!headers_prefer_json(&headers));
    let mut headers = HeaderMap::new();
    headers.append(header::ACCEPT, "application/json".parse().unwrap());
    headers.append(header::ACCEPT, "text/html".parse().unwrap());
    assert!(headers_prefer_json(&headers));
}

#[test]
fn negotiation() {
    assert!(!headers_prefer_json(&HeaderMap::new()));
    assert!(!accepts_json("*/*"));
    assert!(!accepts_json("text/html"));
    assert!(accepts_json("application/json"));
    assert!(accepts_json("application/*"));
    assert!(accepts_json("Application/JSON;Q=0.1"));
    assert!(accepts_json("application/json, */*;q=0.5"));
    assert!(accepts_json("application/json, */*"));
    assert!(!accepts_json("application/json, text/html"));
    assert!(accepts_json("text/html;q=0.4, application/json; charset=utf-8; q=0.9"));
    assert!(!accepts_json("text/html,application/xhtml+xml,*/*;q=0.8"));
    assert!(!accepts_json("json"));
    assert!(!accepts_json("application/json;q=0"));
    assert!(!accepts_json("application/json;q=-0"));
    assert!(!accepts_json("application/json;q=-3"));
    assert!(accepts_json("application/json;q=7, text/html;q=0.9"));
    assert!(!accepts_json("application/json;q=nan"));
    assert!(!accepts_json("application/json, text/html;q=nan"));
}

#[test]
fn the_first_quality_that_is_a_number_counts() {
    assert!(accepts_json("application/json;q=x;q=0.9, text/html;q=0.5"));
    assert!(!accepts_json("application/json;q=0.2;q=0.9, text/html;q=0.5"));
    assert!(accepts_json("application/json;q=x, text/html;q=0.5"));
    assert!(accepts_json("application/json;q =0.1, text/html;q=0.5"));
    assert!(!accepts_json("application/json; q= 0.1 , text/html;q=0.5"));
}

#[test]
fn narrower_ranges_decide() {
    assert!(!accepts_json("application/json;q=0.1, application/*;q=1, text/html;q=0.5"));
    assert!(accepts_json("application/json;q=0.9, application/*;q=0, text/html;q=0.5"));
    assert!(accepts_json("application/json;q=0.3, application/json;q=0.7, text/html;q=0.5"));
}

#[test]
fn ranges_are_read() {
    let ranges = read_accept(&Some(b" a/b ; q=1 ;x=2; Q=z , nothing, */ * ".to_vec()));
    assert_eq!(ranges.len(), 2);
    assert_eq!(ranges[0].kind, "a");
    assert_eq!(ranges[0].subtype, "b");
    assert_eq!(ranges[0].qualities, vec!["1".to_string(), "z".to_string()]);
    assert_eq!(ranges[1].kind, "*");
    assert_eq!(ranges[1].subtype, "*");
    assert!(ranges[1].qualities.is_empty());
    assert!(read_accept(&None).is_empty());
}

#[test]
fn qualities_are_chosen_and_bounded() {
    let bits = |value: f32| Some(value.to_bits());
    assert_eq!(choose_quality(&vec![]), 1.0f32.to_bits());
    assert_eq!(choose_quality(&vec![None, bits(0.25)]), 0.25f32.to_bits());
    assert_eq!(choose_quality(&vec![bits(0.25), bits(0.5)]), 0.25f32.to_bits());
    assert_eq!(choose_quality(&vec![bits(1.5)]), 1.0f32.to_bits());
    assert_eq!(choose_quality(&vec![bits(f32::INFINITY)]), 1.0f32.to_bits());
    assert_eq!(choose_quality(&vec![bits(-0.5)]), 0.0f32.to_bits());
    assert_eq!(choose_quality(&vec![bits(f32::NEG_INFINITY)]), 0.0f32.to_bits());
    assert_eq!(choose_quality(&vec![bits(-0.0)]), (-0.0f32).to_bits());
    assert_eq!(choose_quality(&vec![bits(f32::NAN)]), f32::NAN.to_bits());
    for value in [0.0f32, 1e-30, 0.1, 0.999, 1.0, 2.0, -1.0, -0.0] {
        assert_eq!(choose_quality(&vec![bits(value)]), value.clamp(0.0, 1.0).to_bits());
    }
}

#[test]
fn weights_of_candidates() {
    let ranges = read_accept(&Some(b"*/*, application/*, application/json".to_vec()));
    let qualities = vec![1.0f32.to_bits(), 0.5f32.to_bits(), 0.25f32.to_bits()];
    assert_eq!(
        candidate_quality(&ranges, &qualities, "application", "json"),
        Some((0.25f32.to_bits(), 2))
    );
    assert_eq!(
        candidate_quality(&ranges, &qualities, "application", "xml"),
        Some((0.5f32.to_bits(), 1))
    );
    assert_eq!(
        candidate_quality(&ranges, &qualities, "text", "html"),
        Some((1.0f32.to_bits(), 0))
    );
    let none: Vec<MediaRange> = vec![];
    assert_eq!(candidate_quality(&none, &vec![], "text", "html"), None);
}
