use rust_xdiff::cli::{key_val_from_parts, parse_key_val, Action, Args, RunArgs};
use rust_xdiff::headers::{filter_headers, get_content_type, insert_header};
use rust_xdiff::req::{encoding_for, filter_json, BodyEncoding};
use rust_xdiff::text::{eq_ignore_case, media_type, split_lines};
use rust_xdiff::{
    diff_text, DiffConfig, DiffProfile, ExtraArgs, KeyVal, KeyValType, RequestProfile,
    ResponseExt, ResponseProfile, XdiffError,
};

fn s(x: &str) -> String {
    x.to_string()
}

fn pair(a: &str, b: &str) -> (String, String) {
    (s(a), s(b))
}

fn json(x: &str) -> serde_json::Value {
    serde_json::from_str(x).unwrap()
}

fn profile(headers: Vec<(String, String)>, params: Option<&str>, body: Option<&str>) -> RequestProfile {
    RequestProfile::new(
        s("GET"),
        s("https://example.com/api"),
        params.map(json),
        headers,
        body.map(json),
    )
}

fn args(tokens: &[&str]) -> ExtraArgs {
    let kvs: Vec<KeyVal> = tokens.iter().map(|t| parse_key_val(t).unwrap()).collect();
    ExtraArgs::from(kvs)
}

fn json_response(body: &str) -> ResponseExt {
    ResponseExt::new(
        s("HTTP/1.1 200 OK"),
        vec![pair("content-type", "application/json; charset=utf-8")],
        s(body),
    )
}

#[test]
fn parse_key_val_routes_by_sigil() {
    let q = parse_key_val("page=2").unwrap();
    assert_eq!(q, KeyVal { key_type: KeyValType::Query, key: s("page"), val: s("2") });
    let h = parse_key_val("%Authorization=Bearer xyz").unwrap();
    assert_eq!(h, KeyVal { key_type: KeyValType::Header, key: s("Authorization"), val: s("Bearer xyz") });
    let b = parse_key_val("@name=a=b").unwrap();
    assert_eq!(b, KeyVal { key_type: KeyValType::Body, key: s("name"), val: s("a=b") });
}

#[test]
fn parse_key_val_trims_both_sides() {
    let q = parse_key_val("  k  =  v  ").unwrap();
    assert_eq!(q, KeyVal { key_type: KeyValType::Query, key: s("k"), val: s("v") });
}

#[test]
fn parse_key_val_rejects_malformed_tokens() {
    assert!(matches!(parse_key_val("novalue"), Err(XdiffError::InvalidOverride(_))));
    assert!(matches!(parse_key_val("1a=b"), Err(XdiffError::InvalidOverride(_))));
    assert!(matches!(parse_key_val("=b"), Err(XdiffError::InvalidOverride(_))));
}

#[test]
fn extra_args_keep_order_per_destination() {
    let a = args(&["a=1", "%x=2", "@b=3", "c=4", "@d=5"]);
    assert_eq!(a.query, vec![pair("a", "1"), pair("c", "4")]);
    assert_eq!(a.headers, vec![pair("x", "2")]);
    assert_eq!(a.body, vec![pair("b", "3"), pair("d", "5")]);
}

#[test]
fn header_override_replaces_base_value() {
    let p = profile(vec![pair("authorization", "Bearer abc")], None, None);
    let (headers, _, _) = p.generate(&args(&["%Authorization=Bearer xyz"])).unwrap();
    assert_eq!(
        headers,
        vec![pair("authorization", "Bearer xyz"), pair("content-type", "application/json")]
    );
}

#[test]
fn last_body_override_wins() {
    let p = profile(vec![], None, Some(r#"{"a":1,"keep":true}"#));
    let (_, _, body) = p.generate(&args(&["@a=2", "@b=x", "@a=3"])).unwrap();
    assert_eq!(json(&body), json(r#"{"a":3,"b":"x","keep":true}"#));
}

#[test]
fn query_overrides_parse_json_values() {
    let p = profile(vec![], Some(r#"{"page":1}"#), None);
    let (_, query, body) = p.generate(&args(&["page=5", "tags=[1,2]", "q=hello"])).unwrap();
    assert_eq!(query, json(r#"{"page":5,"tags":[1,2],"q":"hello"}"#));
    assert_eq!(body, "{}");
}

#[test]
fn form_content_type_encodes_body_as_pairs() {
    let p = profile(
        vec![pair("Content-Type", "application/x-www-form-urlencoded")],
        None,
        Some(r#"{"a":"b c"}"#),
    );
    let (_, _, body) = p.generate(&args(&[])).unwrap();
    assert_eq!(body, "a=b+c");
}

#[test]
fn nested_form_body_is_unencodable() {
    let p = profile(
        vec![pair("content-type", "multipart/form-data")],
        None,
        Some(r#"{"a":{"b":1}}"#),
    );
    assert!(matches!(p.generate(&args(&[])), Err(XdiffError::UnencodableBody(_))));
}

#[test]
fn unknown_content_type_is_unsupported() {
    let p = profile(vec![pair("content-type", "text/plain")], None, None);
    assert!(matches!(p.generate(&args(&[])), Err(XdiffError::UnsupportedContentType(_))));
}

#[test]
fn invalid_header_override_fails() {
    let p = profile(vec![], None, None);
    assert!(matches!(p.generate(&args(&["%bad name=x"])), Err(XdiffError::InvalidHeader(_))));
    assert!(matches!(p.generate(&args(&["%x=bad\nvalue"])), Err(XdiffError::InvalidHeader(_))));
}

#[test]
fn non_object_body_fails_validation() {
    let p = profile(vec![], None, Some(r#""not-an-object""#));
    assert!(matches!(p.validate(), Err(XdiffError::InvalidProfile(_))));
    assert!(matches!(p.generate(&args(&[])), Err(XdiffError::InvalidProfile(_))));
    let q = profile(vec![], Some("[1,2]"), None);
    assert!(matches!(q.validate(), Err(XdiffError::InvalidProfile(_))));
    assert!(profile(vec![], Some("{}"), Some("{}")).validate().is_ok());
}

#[test]
fn skipped_header_is_absent_in_any_case() {
    let r = ResponseExt::new(
        s("HTTP/1.1 200 OK"),
        vec![pair("Date", "Mon, 1 Jan 2024"), pair("server", "x")],
        s("hello"),
    );
    let out = r.filter_text(&ResponseProfile::new(vec![s("date")], vec![])).unwrap();
    assert_eq!(out, "HTTP/1.1 200 OK\nserver: x\n\nhello");
    assert!(!out.to_lowercase().contains("date"));
}

#[test]
fn empty_filter_keeps_everything_in_order() {
    let r = ResponseExt::new(
        s("HTTP/1.1 200 OK"),
        vec![pair("content-type", "application/json"), pair("b", "2"), pair("a", "1")],
        s(r#"{"x":1}"#),
    );
    let out = r.filter_text(&ResponseProfile::new(vec![], vec![])).unwrap();
    assert_eq!(out, "HTTP/1.1 200 OK\ncontent-type: application/json\nb: 2\na: 1\n\n{\n  \"x\": 1\n}");
}

#[test]
fn skipped_body_field_is_dropped() {
    let out = filter_json(r#"{"trace_id":"abc","x":1}"#, &vec![s("trace_id")]).unwrap();
    assert_eq!(out, "{\n  \"x\": 1\n}");
    assert_eq!(json(&out), json(r#"{"x":1}"#));
}

#[test]
fn non_object_json_body_passes_through() {
    assert_eq!(filter_json("[1]", &vec![s("x")]).unwrap(), "[\n  1\n]");
}

#[test]
fn malformed_json_body_fails() {
    assert!(matches!(filter_json("{oops", &vec![]), Err(XdiffError::MalformedBody(_))));
    let r = json_response("not json");
    assert!(matches!(
        r.filter_text(&ResponseProfile::new(vec![], vec![])),
        Err(XdiffError::MalformedBody(_))
    ));
}

#[test]
fn diff_of_equal_texts_is_empty() {
    assert_eq!(diff_text("a\nb\nc\n", "a\nb\nc\n"), "");
    assert_eq!(diff_text("", ""), "");
}

#[test]
fn diff_marks_removed_and_added_lines() {
    assert_eq!(diff_text("a\nb\nc", "a\nx\nc"), " a\n-b\n+x\n c\n");
    assert_eq!(diff_text("a", ""), "-a\n");
    assert_eq!(diff_text("", "a\nb"), "+a\n+b\n");
}

#[test]
fn diff_swapped_exchanges_markers() {
    let ab = diff_text("a\nb\nc\nd", "a\nc\nd\ne");
    let ba = diff_text("a\nc\nd\ne", "a\nb\nc\nd");
    assert_eq!(ab, " a\n-b\n c\n d\n+e\n");
    assert_eq!(ba, " a\n+b\n c\n d\n-e\n");
}

#[test]
fn diff_breaks_ties_by_text_order() {
    assert_eq!(diff_text("x\na", "a\nx"), "+a\n x\n-a\n");
    assert_eq!(diff_text("a\nx", "x\na"), "-a\n x\n+a\n");
}

#[test]
fn diff_of_replaced_block_is_symmetric() {
    assert_eq!(diff_text("x", "y"), "-x\n+y\n");
    assert_eq!(diff_text("y", "x"), "+x\n-y\n");
    assert_eq!(diff_text("k\nb\na", "k\nc\nd"), " k\n-b\n-a\n+c\n+d\n");
}

#[test]
fn end_to_end_filtered_field_gives_no_differences() {
    let p = DiffProfile::new(
        profile(vec![], None, None),
        profile(vec![], None, None),
        ResponseProfile::new(vec![], vec![s("extra")]),
    );
    let r1 = json_response(r#"{"a":1}"#);
    let r2 = json_response(r#"{"a":1,"extra":"z"}"#);
    assert_eq!(p.diff_responses(&r1, &r2).unwrap(), "");
}

#[test]
fn end_to_end_status_change_shows_one_removed_and_one_added_line() {
    let p = DiffProfile::new(
        profile(vec![], None, None),
        profile(vec![], None, None),
        ResponseProfile::new(vec![], vec![]),
    );
    let r1 = json_response(r#"{"status":"ok"}"#);
    let r2 = json_response(r#"{"status":"fail"}"#);
    let out = p.diff_responses(&r1, &r2).unwrap();
    let removed: Vec<&str> = out.lines().filter(|l| l.starts_with('-')).collect();
    let added: Vec<&str> = out.lines().filter(|l| l.starts_with('+')).collect();
    assert_eq!(removed, vec!["-  \"status\": \"ok\""]);
    assert_eq!(added, vec!["+  \"status\": \"fail\""]);
}

#[test]
fn config_finds_profiles_by_name() {
    let p = DiffProfile::new(
        profile(vec![], None, None),
        profile(vec![], None, None),
        ResponseProfile::new(vec![], vec![]),
    );
    let c = DiffConfig::new(vec![(s("todo"), p.clone()), (s("user"), p.clone())]).unwrap();
    assert!(c.get_profile("user").is_some());
    assert!(c.get_profile("none").is_none());
    assert!(matches!(c.find_profile("none"), Err(XdiffError::ProfileNotFound(_))));
    assert!(c.validate().is_ok());
    assert!(DiffConfig::new(vec![(s("a"), p.clone()), (s("a"), p)]).is_none());
}

#[test]
fn config_validation_names_bad_profile() {
    let bad = DiffProfile::new(
        profile(vec![], None, Some("3")),
        profile(vec![], None, None),
        ResponseProfile::new(vec![], vec![]),
    );
    let c = DiffConfig::new(vec![(s("broken"), bad)]).unwrap();
    assert_eq!(c.validate(), Err(XdiffError::InvalidProfile(s("broken"))));
}

#[test]
fn header_helpers_ignore_case() {
    assert!(eq_ignore_case("Content-Type", "content-type"));
    assert!(!eq_ignore_case("content-type", "content-typo"));
    let mut hs = vec![pair("Accept", "a")];
    insert_header(&mut hs, "accept", "b");
    insert_header(&mut hs, "x", "c");
    assert_eq!(hs, vec![pair("accept", "b"), pair("x", "c")]);
    let kept = filter_headers(&hs, &vec![s("ACCEPT")]);
    assert_eq!(kept, vec![pair("x", "c")]);
    let ct = get_content_type(&vec![pair("Content-Type", "text/html; charset=utf-8")]);
    assert_eq!(ct, Some(s("text/html")));
}

#[test]
fn text_helpers() {
    assert_eq!(split_lines("a\nb\n"), vec![s("a"), s("b")]);
    assert_eq!(split_lines("a\n\nb"), vec![s("a"), s(""), s("b")]);
    assert_eq!(split_lines(""), Vec::<String>::new());
    assert_eq!(media_type("application/json;charset=utf-8"), "application/json");
    assert_eq!(encoding_for("application/json"), Some(BodyEncoding::Json));
    assert_eq!(encoding_for("multipart/form-data"), Some(BodyEncoding::Form));
    assert_eq!(encoding_for("text/plain"), None);
}

#[test]
fn run_args_hold_parsed_overrides() {
    let a = Args {
        action: Action::Run(RunArgs {
            config: None,
            profile: s("todo"),
            extra_params: vec![parse_key_val("%a=b").unwrap()],
        }),
    };
    match a.action {
        Action::Run(r) => assert_eq!(r.extra_params[0].key_type, KeyValType::Header),
        _ => panic!("expected a run"),
    }
}

#[test]
fn key_val_from_parts_routes_trimmed_parts() {
    let h = key_val_from_parts("%X-Id", "7").unwrap();
    assert_eq!(h, KeyVal { key_type: KeyValType::Header, key: s("X-Id"), val: s("7") });
    assert!(matches!(key_val_from_parts("", "7"), Err(XdiffError::InvalidOverride(_))));
    assert!(matches!(key_val_from_parts("#a", "7"), Err(XdiffError::InvalidOverride(_))));
}

#[test]
fn parse_key_val_trims_unicode_white_space() {
    let q = parse_key_val("\u{3000}k=\tv\u{a0}").unwrap();
    assert_eq!(q, KeyVal { key_type: KeyValType::Query, key: s("k"), val: s("v") });
}

#[test]
fn header_override_names_are_lower_cased_and_checked() {
    let p = profile(vec![], None, None);
    let (headers, _, _) = p.generate(&args(&["%X-Trace_ID=a\tb"])).unwrap();
    assert_eq!(headers[0], pair("x-trace_id", "a\tb"));
    let long = format!("%{}=v", "a".repeat(65536));
    assert!(matches!(p.generate(&args(&[&long])), Err(XdiffError::InvalidHeader(_))));
    assert!(matches!(p.generate(&args(&["%x=a\u{7f}"])), Err(XdiffError::InvalidHeader(_))));
}
