use catscii::error::PipelineError;
use catscii::metadata::parse_metadata;
use catscii::pipeline::{cat_image_url_from_fetch, FetchOutcome};

#[test]
fn empty_array_parses_to_no_urls() {
    assert_eq!(parse_metadata(b"[]"), Some(Vec::new()));
    assert_eq!(parse_metadata(b"  [ ]  "), Some(Vec::new()));
}

#[test]
fn single_object_yields_its_url() {
    let doc = br#"[{"url":"https://example.com/cat.jpg"}]"#;
    let urls = parse_metadata(doc).unwrap();
    assert_eq!(urls, vec![b"https://example.com/cat.jpg".to_vec()]);
}

#[test]
fn other_members_are_skipped() {
    let doc = br#"[{"id":"abc","width":640,"height":-4.8e2,"approved":true,"banned":false,"note":null,"url":"https://example.com/a.png"}]"#;
    let urls = parse_metadata(doc).unwrap();
    assert_eq!(urls, vec![b"https://example.com/a.png".to_vec()]);
}

#[test]
fn several_objects_keep_their_order() {
    let doc = br#"[ {"url":"one"} , {"url":"two"}, {"id":"x","url":"three"} ]"#;
    let urls = parse_metadata(doc).unwrap();
    assert_eq!(urls, vec![b"one".to_vec(), b"two".to_vec(), b"three".to_vec()]);
}

#[test]
fn whitespace_everywhere_is_accepted() {
    let doc = b" \t\r\n[ { \"url\" : \"u\" } ]\n";
    let urls = parse_metadata(doc).unwrap();
    assert_eq!(urls, vec![b"u".to_vec()]);
}

#[test]
fn string_escapes_are_unescaped() {
    let doc = br#"[{"url":"a\"b\\c\/d"}]"#;
    let urls = parse_metadata(doc).unwrap();
    assert_eq!(urls, vec![b"a\"b\\c/d".to_vec()]);
}

#[test]
fn letter_escapes_are_unescaped() {
    let doc = br#"[{"url":"a\nb\tc\rd\be\ff"}]"#;
    let urls = parse_metadata(doc).unwrap();
    assert_eq!(urls, vec![b"a\nb\tc\rd\x08e\x0Cf".to_vec()]);
}

#[test]
fn unicode_escapes_become_utf8() {
    let urls = parse_metadata(br#"[{"url":"\u0041"}]"#).unwrap();
    assert_eq!(urls, vec![b"A".to_vec()]);
    let urls = parse_metadata(br#"[{"url":"\u00e9"}]"#).unwrap();
    assert_eq!(urls, vec![vec![0xC3, 0xA9]]);
    let urls = parse_metadata(br#"[{"url":"\u20AC"}]"#).unwrap();
    assert_eq!(urls, vec![vec![0xE2, 0x82, 0xAC]]);
}

#[test]
fn surrogate_pairs_become_one_code_point() {
    let urls = parse_metadata(br#"[{"url":"\ud83d\ude00"}]"#).unwrap();
    assert_eq!(urls, vec![vec![0xF0, 0x9F, 0x98, 0x80]]);
}

#[test]
fn lone_surrogates_are_rejected() {
    assert_eq!(parse_metadata(br#"[{"url":"\ud83d"}]"#), None);
    assert_eq!(parse_metadata(br#"[{"url":"\ude00"}]"#), None);
    assert_eq!(parse_metadata(br#"[{"url":"\ud83dx"}]"#), None);
}

#[test]
fn malformed_escapes_are_rejected() {
    assert_eq!(parse_metadata(br#"[{"url":"a\qb"}]"#), None);
    assert_eq!(parse_metadata(br#"[{"url":"a\u12"}]"#), None);
    assert_eq!(parse_metadata(br#"[{"url":"a\u12zz"}]"#), None);
}

#[test]
fn json_numbers_are_accepted() {
    let doc = br#"[{"a":0,"b":-0,"c":10.25,"d":-4.8e2,"e":3E+7,"f":2e-1,"url":"u"}]"#;
    assert_eq!(parse_metadata(doc).unwrap(), vec![b"u".to_vec()]);
}

#[test]
fn malformed_numbers_are_rejected() {
    assert_eq!(parse_metadata(br#"[{"n":1e+,"url":"u"}]"#), None);
    assert_eq!(parse_metadata(br#"[{"n":01,"url":"u"}]"#), None);
    assert_eq!(parse_metadata(br#"[{"n":1.,"url":"u"}]"#), None);
    assert_eq!(parse_metadata(br#"[{"n":.5,"url":"u"}]"#), None);
    assert_eq!(parse_metadata(br#"[{"n":-,"url":"u"}]"#), None);
    assert_eq!(parse_metadata(br#"[{"n":+1,"url":"u"}]"#), None);
}

#[test]
fn object_without_url_is_rejected() {
    assert_eq!(parse_metadata(br#"[{"id":"abc"}]"#), None);
    assert_eq!(parse_metadata(br#"[{"url":"ok"},{"id":"abc"}]"#), None);
    assert_eq!(parse_metadata(b"[{}]"), None);
}

#[test]
fn non_string_url_alone_is_rejected() {
    assert_eq!(parse_metadata(br#"[{"url":7}]"#), None);
}

#[test]
fn first_string_url_member_wins() {
    let urls = parse_metadata(br#"[{"url":"a","url":"b"}]"#).unwrap();
    assert_eq!(urls, vec![b"a".to_vec()]);
}

#[test]
fn malformed_documents_are_rejected() {
    assert_eq!(parse_metadata(b""), None);
    assert_eq!(parse_metadata(b"   "), None);
    assert_eq!(parse_metadata(b"{}"), None);
    assert_eq!(parse_metadata(b"["), None);
    assert_eq!(parse_metadata(br#"[{"url":"a"}"#), None);
    assert_eq!(parse_metadata(br#"[{"url":"a"}] trailing"#), None);
    assert_eq!(parse_metadata(br#"[{"url":"a"},]"#), None);
    assert_eq!(parse_metadata(br#"[{"url":"unterminated]"#), None);
    assert_eq!(parse_metadata(br#"[{"url" "a"}]"#), None);
    assert_eq!(parse_metadata(b"[7]"), None);
}

#[test]
fn nested_member_values_are_skipped() {
    let urls = parse_metadata(br#"[{"breeds":[],"url":"a"}]"#).unwrap();
    assert_eq!(urls, vec![b"a".to_vec()]);
    let doc = br#"[{"breeds":[{"name":"x","tags":["a","b"]},2,null],"meta":{"k":{"d":[]}},"url":"deep"}]"#;
    assert_eq!(parse_metadata(doc).unwrap(), vec![b"deep".to_vec()]);
}

#[test]
fn a_url_inside_a_nested_value_does_not_count() {
    assert_eq!(parse_metadata(br#"[{"meta":{"url":"inner"}}]"#), None);
    let doc = br#"[{"meta":{"url":"inner"},"url":"outer"}]"#;
    assert_eq!(parse_metadata(doc).unwrap(), vec![b"outer".to_vec()]);
}

#[test]
fn unbalanced_nested_values_are_rejected() {
    assert_eq!(parse_metadata(br#"[{"b":[1,2},"url":"a"}]"#), None);
    assert_eq!(parse_metadata(br#"[{"b":{"k":1],"url":"a"}]"#), None);
    assert_eq!(parse_metadata(br#"[{"b":[[1],"url":"a"}]"#), None);
    assert_eq!(parse_metadata(br#"[{"b":{1:2},"url":"a"}]"#), None);
    assert_eq!(parse_metadata(br#"[{"b":[1 2],"url":"a"}]"#), None);
    assert_eq!(parse_metadata(br#"[{"b":{"k" 1},"url":"a"}]"#), None);
    assert_eq!(parse_metadata(br#"[{"b":[,],"url":"a"}]"#), None);
}

#[test]
fn url_pick_takes_the_last_listed_image() {
    let doc = br#"[{"url":"first"},{"url":"last"}]"#.to_vec();
    let r = cat_image_url_from_fetch(FetchOutcome::Success { status: 200, body: doc });
    assert_eq!(r.unwrap(), b"last".to_vec());
}

#[test]
fn url_pick_scenario_single_image() {
    let doc = br#"[{"url":"https://example.com/cat.jpg"}]"#.to_vec();
    let r = cat_image_url_from_fetch(FetchOutcome::Success { status: 200, body: doc });
    assert_eq!(r.unwrap(), b"https://example.com/cat.jpg".to_vec());
}

#[test]
fn url_pick_empty_array_is_an_empty_result() {
    let r = cat_image_url_from_fetch(FetchOutcome::Success { status: 200, body: b"[]".to_vec() });
    assert_eq!(r.unwrap_err(), PipelineError::EmptyResult);
}

#[test]
fn url_pick_unreadable_metadata_is_invalid() {
    let r = cat_image_url_from_fetch(FetchOutcome::Success {
        status: 200,
        body: b"not json".to_vec(),
    });
    assert_eq!(r.unwrap_err(), PipelineError::InvalidMetadata);
}

#[test]
fn url_pick_non_2xx_is_an_upstream_error() {
    let doc = br#"[{"url":"fine"}]"#.to_vec();
    let r = cat_image_url_from_fetch(FetchOutcome::Success { status: 404, body: doc });
    assert_eq!(r.unwrap_err(), PipelineError::UpstreamStatus(404));
}

#[test]
fn url_pick_network_failure_is_a_network_error() {
    let r = cat_image_url_from_fetch(FetchOutcome::NetworkFailure);
    assert_eq!(r.unwrap_err(), PipelineError::Network);
}
