use routecore::binder::{bind, parse_int, BindError, FieldSource, FieldType, ParamValue, SchemaField};
use routecore::guard::Guard;
use routecore::pattern::RoutePattern;
use routecore::persons::{greet_body, guarded_body, post_greet_body, u16_to_string, PersonParams, PersonQuery};
use routecore::request::IncomingRequest;
use routecore::router::{status_code_of, ConfigError, HandlerRef, MatchOutcome, RequestOutcome, Router};

fn pairs(entries: &[(&str, &str)]) -> Vec<(String, String)> {
    entries.iter().map(|(k, v)| (k.to_string(), v.to_string())).collect()
}

fn req(method: &str, path: &str, headers: &[(&str, &str)], query: &[(&str, &str)]) -> IncomingRequest {
    IncomingRequest {
        method: method.to_string(),
        path: path.to_string(),
        headers: pairs(headers),
        query: pairs(query),
    }
}

fn methods(ms: &[&str]) -> Vec<String> {
    ms.iter().map(|m| m.to_string()).collect()
}

fn path_field(name: &str) -> SchemaField {
    SchemaField { name: name.to_string(), source: FieldSource::Path, ty: FieldType::Text }
}

fn person_router() -> Router {
    let mut router = Router::new();
    router
        .add_route(methods(&["GET"]), "/person", vec![], PersonQuery::schema(), HandlerRef(1))
        .unwrap();
    router
        .add_route(
            methods(&["GET"]),
            "/person/{id}/comments/{comment_id}",
            vec![],
            vec![path_field("id"), path_field("comment_id")],
            HandlerRef(2),
        )
        .unwrap();
    router
        .add_route(
            methods(&["GET"]),
            "/guarded",
            vec![Guard::HeaderEquals("X-SECRET".to_string(), "HIDDEN".to_string())],
            vec![],
            HandlerRef(3),
        )
        .unwrap();
    router
}

#[test]
fn test_person_route_querry() {
    let router = person_router();
    let request = req("GET", "/person", &[], &[("name", "actix"), ("location", "world"), ("age", "43")]);
    match router.handle(&request) {
        RequestOutcome::Dispatch { handler, params, .. } => {
            assert_eq!(handler, HandlerRef(1));
            let q = PersonQuery::from_record(&params).unwrap();
            assert_eq!(q.name, "actix");
            assert_eq!(q.location.as_deref(), Some("world"));
            assert_eq!(q.age, 43);
            assert_eq!(q.body(), "route query params are, nameactix Some(\"world\") 43");
        }
        other => panic!("expected a dispatch, got {:?}", other),
    }
}

#[test]
fn test_person_route_params() {
    let router = person_router();
    let request = req("GET", "/person/PERSONID_1337/comments/COMMENT_ID_42", &[], &[]);
    match router.resolve(&request) {
        MatchOutcome::Matched { captures, .. } => {
            assert_eq!(captures.len(), 2);
            assert_eq!(captures[0], ("id".to_string(), "PERSONID_1337".to_string()));
            assert_eq!(captures[1], ("comment_id".to_string(), "COMMENT_ID_42".to_string()));
            let p = PersonParams::from_captures(&captures).unwrap();
            assert_eq!(p.body(), "route params are, PERSONID_1337 COMMENT_ID_42");
        }
        other => panic!("expected a match, got {:?}", other),
    }
}

#[test]
fn test_guarded_route_with_secret() {
    let router = person_router();
    let request = req("GET", "/guarded", &[("X-SECRET", "different_secret")], &[]);
    let outcome = router.handle(&request);
    assert_eq!(outcome, RequestOutcome::GuardRejected);
    let code = status_code_of(&outcome);
    assert!(400 <= code && code < 500);
}

#[test]
fn test_guarded_route_without_secret() {
    let router = person_router();
    let request = req("GET", "/guarded", &[("X-SECRET", "WRONK_SECRET")], &[]);
    let outcome = router.handle(&request);
    assert_eq!(outcome, RequestOutcome::GuardRejected);
    let code = status_code_of(&outcome);
    assert!(400 <= code && code < 500);
}

#[test]
fn guarded_route_accepts_exact_secret() {
    let router = person_router();
    let request = req("GET", "/guarded", &[("X-SECRET", "HIDDEN")], &[]);
    match router.handle(&request) {
        RequestOutcome::Dispatch { handler, params, .. } => {
            assert_eq!(handler, HandlerRef(3));
            assert!(params.is_empty());
            assert_eq!(guarded_body(), "From guarded , you are authorized!");
        }
        other => panic!("expected a dispatch, got {:?}", other),
    }
}

#[test]
fn guarded_route_rejects_missing_header() {
    let router = person_router();
    let request = req("GET", "/guarded", &[("OTHER", "HIDDEN")], &[]);
    assert_eq!(router.handle(&request), RequestOutcome::GuardRejected);
}

#[test]
fn header_lookup_takes_first_occurrence() {
    let router = person_router();
    let ok = req("GET", "/guarded", &[("X-SECRET", "HIDDEN"), ("X-SECRET", "WRONG")], &[]);
    assert!(matches!(router.handle(&ok), RequestOutcome::Dispatch { .. }));
    let bad = req("GET", "/guarded", &[("X-SECRET", "WRONG"), ("X-SECRET", "HIDDEN")], &[]);
    assert_eq!(router.handle(&bad), RequestOutcome::GuardRejected);
}

#[test]
fn method_mismatch_lists_declared_methods() {
    let router = person_router();
    let request = req("POST", "/person", &[], &[]);
    match router.resolve(&request) {
        MatchOutcome::PathMatchedMethodMismatch { allowed } => {
            assert_eq!(allowed, vec!["GET".to_string()]);
        }
        other => panic!("expected a method mismatch, got {:?}", other),
    }
    assert_eq!(status_code_of(&router.handle(&request)), 405);
}

#[test]
fn unknown_path_is_not_found() {
    let router = person_router();
    let request = req("GET", "/nonexistent", &[], &[]);
    assert_eq!(router.resolve(&request), MatchOutcome::NoPathMatch);
    assert_eq!(status_code_of(&router.handle(&request)), 404);
}

#[test]
fn methods_compare_case_insensitively() {
    let router = person_router();
    let request = req("get", "/person", &[], &[("name", "actix"), ("age", "1")]);
    assert!(matches!(router.handle(&request), RequestOutcome::Dispatch { .. }));
}

#[test]
fn resolution_is_idempotent() {
    let router = person_router();
    let request = req("GET", "/person/A/comments/B", &[], &[]);
    let first = router.resolve(&request);
    let second = router.resolve(&request);
    assert_eq!(first, second);
    let third = router.resolve(&request);
    assert_eq!(second, third);
}

#[test]
fn named_segment_rejects_empty_segment() {
    let router = person_router();
    let request = req("GET", "/person//comments/C", &[], &[]);
    assert_eq!(router.resolve(&request), MatchOutcome::NoPathMatch);
}

#[test]
fn literal_segments_are_case_sensitive() {
    let router = person_router();
    let request = req("GET", "/Person", &[], &[]);
    assert_eq!(router.resolve(&request), MatchOutcome::NoPathMatch);
}

#[test]
fn match_path_yields_ordered_captures() {
    let pattern = RoutePattern::compile("/person/{id}/comments/{comment_id}").unwrap();
    let caps = pattern.match_path("/person/P/comments/C").unwrap();
    assert_eq!(caps, pairs(&[("id", "P"), ("comment_id", "C")]));
    assert!(pattern.match_path("/person/P/comments").is_none());
    assert!(pattern.match_path("/person/P/comments/C/extra").is_none());
}

#[test]
fn compile_rejects_bad_names() {
    assert!(RoutePattern::compile("/a/{}").is_err());
    assert!(RoutePattern::compile("/a/{x}/{x}").is_err());
    assert!(RoutePattern::compile("/a/{x-y}").is_err());
    assert!(RoutePattern::compile("/a/{ok_Name9}").is_ok());
}

#[test]
fn add_route_rejects_configuration_defects() {
    let mut router = Router::new();
    assert_eq!(
        router.add_route(methods(&["GET"]), "/a/{}", vec![], vec![], HandlerRef(9)),
        Err(ConfigError::InvalidPattern)
    );
    assert_eq!(
        router.add_route(methods(&[]), "/a", vec![], vec![], HandlerRef(9)),
        Err(ConfigError::NoMethods)
    );
    assert_eq!(
        router.add_route(methods(&["GET"]), "/a/{id}", vec![], vec![], HandlerRef(9)),
        Err(ConfigError::SchemaMismatch)
    );
    router
        .add_route(methods(&["GET"]), "/a/{id}", vec![], vec![path_field("id")], HandlerRef(9))
        .unwrap();
    assert_eq!(
        router.add_route(methods(&["get"]), "/a/{other}", vec![], vec![path_field("other")], HandlerRef(10)),
        Err(ConfigError::AmbiguousRoute)
    );
    router
        .add_route(methods(&["POST"]), "/a/{other}", vec![], vec![path_field("other")], HandlerRef(11))
        .unwrap();
}

#[test]
fn bind_reports_missing_required_field() {
    let schema = PersonQuery::schema();
    let caps: Vec<(String, String)> = Vec::new();
    let query = pairs(&[("location", "world"), ("age", "43")]);
    assert_eq!(
        bind(&schema, &caps, &query),
        Err(BindError::MissingRequiredField("name".to_string()))
    );
}

#[test]
fn bind_reports_type_coercion_failure() {
    let schema = PersonQuery::schema();
    let caps: Vec<(String, String)> = Vec::new();
    let query = pairs(&[("name", "actix"), ("age", "forty")]);
    assert_eq!(
        bind(&schema, &caps, &query),
        Err(BindError::TypeCoercionError("age".to_string(), "forty".to_string()))
    );
}

#[test]
fn bind_fills_optional_fields() {
    let schema = PersonQuery::schema();
    let caps: Vec<(String, String)> = Vec::new();
    let query = pairs(&[("name", "actix"), ("age", "43")]);
    let rec = bind(&schema, &caps, &query).unwrap();
    assert_eq!(rec.len(), 3);
    assert_eq!(rec[1], ("location".to_string(), ParamValue::OptionalText(None)));
    assert_eq!(rec[2], ("age".to_string(), ParamValue::Integer(43)));
}

#[test]
fn parse_int_accepts_integer_literals() {
    assert_eq!(parse_int("43"), Some(43));
    assert_eq!(parse_int("-7"), Some(-7));
    assert_eq!(parse_int("007"), Some(7));
    assert_eq!(parse_int("0"), Some(0));
    assert_eq!(parse_int("-0"), Some(0));
    assert_eq!(parse_int("9223372036854775807"), Some(i64::MAX));
    assert_eq!(parse_int("-9223372036854775808"), Some(i64::MIN));
}

#[test]
fn parse_int_rejects_everything_else() {
    assert_eq!(parse_int(""), None);
    assert_eq!(parse_int("-"), None);
    assert_eq!(parse_int("+5"), None);
    assert_eq!(parse_int(" 5"), None);
    assert_eq!(parse_int("5 "), None);
    assert_eq!(parse_int("12a"), None);
    assert_eq!(parse_int("9223372036854775808"), None);
    assert_eq!(parse_int("-9223372036854775809"), None);
}

#[test]
fn greet_bodies_follow_the_length_rule() {
    let (code, body) = greet_body("actixfan");
    assert_eq!((code, body.as_str()), (200, "Hello \"actixfan\""));
    let (code, body) = greet_body("bob");
    assert_eq!((code, body.as_str()), (400, "Your name is to short!"));
    let (code, body) = post_greet_body("actixfan");
    assert_eq!((code, body.as_str()), (200, "You posted this name \"actixfan\""));
    let (code, body) = post_greet_body("bob");
    assert_eq!((code, body.as_str()), (400, "Your name is to short!"));
}

#[test]
fn quoted_bodies_escape_quotes_and_backslashes() {
    let (code, body) = greet_body("a\"b\\c d");
    assert_eq!((code, body.as_str()), (200, "Hello \"a\\\"b\\\\c d\""));
    let q = PersonQuery {
        name: "actix".to_string(),
        location: Some("new\\\"york".to_string()),
        age: 7,
    };
    assert_eq!(q.body(), "route query params are, nameactix Some(\"new\\\\\\\"york\") 7");
}

#[test]
fn quoted_bodies_match_debug_formatting() {
    let names = [
        "with\nnewline!",
        "tab\tand\rcr!",
        "zero\0byte!!",
        "esc\u{1b}ape!!",
        "del\u{7f}char!",
        "bell\u{7}rings!",
        "plain name",
    ];
    for name in names {
        let (code, body) = greet_body(name);
        assert_eq!(code, 200);
        assert_eq!(body, format!("Hello {:?}", name));
        let (code, body) = post_greet_body(name);
        assert_eq!(code, 200);
        assert_eq!(body, format!("You posted this name {:?}", name));
    }
    let q = PersonQuery {
        name: "actix".to_string(),
        location: Some("two\nlines".to_string()),
        age: 43,
    };
    assert_eq!(
        q.body(),
        format!("route query params are, name{} {:?} {}", q.name, q.location, q.age)
    );
}

#[test]
fn greet_length_rule_counts_bytes() {
    let three_chars_six_bytes = "\u{e9}\u{e9}\u{e9}";
    assert_eq!(three_chars_six_bytes.len(), 6);
    let (code, body) = greet_body(three_chars_six_bytes);
    assert_eq!(code, 200);
    assert_eq!(body, format!("Hello {:?}", three_chars_six_bytes));
    let (code, _) = post_greet_body(three_chars_six_bytes);
    assert_eq!(code, 200);

    let five_bytes = "ab\u{e9}c";
    assert_eq!(five_bytes.len(), 5);
    assert_eq!(greet_body(five_bytes).0, 400);
    assert_eq!(post_greet_body(five_bytes).0, 400);
    assert_eq!(greet_body("exact").0, 400);
    assert_eq!(greet_body("longer").0, 200);
}

#[test]
fn person_query_body_without_location() {
    let q = PersonQuery { name: "actix".to_string(), location: None, age: 43 };
    assert_eq!(q.body(), "route query params are, nameactix None 43");
}

#[test]
fn u16_to_string_formats_decimals() {
    assert_eq!(u16_to_string(0), "0");
    assert_eq!(u16_to_string(43), "43");
    assert_eq!(u16_to_string(65535), "65535");
}
