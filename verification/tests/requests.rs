use machine_operator::request::{
    admit_classic, admit_ensure, check_hash_format, route, signing, Route,
};
use machine_operator::response::{
    error_response, health_response, state_response, unknown_request_response,
};

const HASH: &str = "0123456789abcdef0123456789abcdef0123456789abcdef0123456789abcdef";
const HASH_BODY: &str =
    "{\"error\":\"machine_hash should contain only symbols a-f 0-9 and have length 64\"}";

#[test]
fn routes() {
    assert!(matches!(route("GET", "/health"), Route::Health));
    assert!(matches!(route("GET", "//health//"), Route::Health));
    match route("POST", "/classic/abc") {
        Route::Classic { machine_hash } => assert_eq!(machine_hash, "abc"),
        _ => panic!("not a run"),
    }
    match route("POST", "/ensure//bafy/abc/12") {
        Route::Ensure { cid, machine_hash, size } => {
            assert_eq!(cid, "bafy");
            assert_eq!(machine_hash, "abc");
            assert_eq!(size, "12");
        }
        _ => panic!("not a request for a snapshot"),
    }
}

#[test]
fn unknown_routes() {
    for (method, path) in [
        ("POST", "/health"),
        ("GET", "/"),
        ("GET", ""),
        ("GET", "/health/more"),
        ("GET", "/classic/abc"),
        ("post", "/classic/abc"),
        ("POST", "/classic"),
        ("POST", "/classic/abc/def"),
        ("POST", "/Classic/abc"),
        ("POST", "/ensure/a/b"),
        ("POST", "/ensure/a/b/c/d"),
    ] {
        assert!(matches!(route(method, path), Route::Unknown), "{} {}", method, path);
    }
}

#[test]
fn hashes_of_machines() {
    assert!(check_hash_format(HASH, "no").is_ok());
    let upper = HASH.to_uppercase();
    let longer = format!("{}0", HASH);
    let line = format!("{}\n", HASH);
    let foreign = format!("{}g", &HASH[..63]);
    let wide = format!("{}\u{e9}", &HASH[..63]);
    for text in ["", "abc", &HASH[..63], &upper, &longer, &line, &foreign, &wide] {
        let response = check_hash_format(text, "no \"hash\"").unwrap_err();
        assert_eq!(response.status, 400);
        assert_eq!(response.body, "{\"error\":\"no \\\"hash\\\"\"}");
    }
}

#[test]
fn a_ruleset_of_twenty_bytes() {
    let text = "000102030405060708090a0B0C0d0e0f10111213";
    let expected: Vec<u8> = (0..20).collect();
    assert_eq!(signing(Some(text.as_bytes())).unwrap(), expected);
}

#[test]
fn rulesets_ignore_case_alone() {
    let lower = "00ab".repeat(10);
    let ruleset = signing(Some(lower.as_bytes())).unwrap();
    assert_eq!(ruleset, [0x00, 0xab].repeat(10));
    assert_eq!(signing(Some(lower.to_uppercase().as_bytes())).unwrap(), ruleset);
    assert_eq!(signing(Some("00aB".repeat(10).as_bytes())).unwrap(), ruleset);
    assert_ne!(signing(Some("00ac".repeat(10).as_bytes())).unwrap(), ruleset);
}

#[test]
fn a_missing_ruleset() {
    let response = signing(None).unwrap_err();
    assert_eq!(response.status, 400);
    assert_eq!(
        response.body,
        "{\"error\":\"X-Ruleset header is required when signing is requested\"}"
    );
}

#[test]
fn a_ruleset_that_is_no_hex() {
    for value in ["0", "zz", "0x00", "00 "] {
        let response = signing(Some(value.as_bytes())).unwrap_err();
        assert_eq!(response.status, 400);
        assert_eq!(
            response.body,
            "{\"error\":\"Invalid X-Ruleset header: must be valid hex\"}"
        );
    }
}

#[test]
fn a_ruleset_of_another_length() {
    let long = "00".repeat(21);
    for value in ["", "00", &long] {
        let response = signing(Some(value.as_bytes())).unwrap_err();
        assert_eq!(response.status, 400);
        assert_eq!(
            response.body,
            "{\"error\":\"Invalid X-Ruleset header: must decode to 20 bytes\"}"
        );
    }
}

#[test]
fn a_ruleset_that_is_no_text_counts_as_empty() {
    let response = signing(Some(&[b'0', b'0', 0xff])).unwrap_err();
    assert_eq!(
        response.body,
        "{\"error\":\"Invalid X-Ruleset header: must decode to 20 bytes\"}"
    );
}

#[test]
fn admission_of_a_run() {
    assert_eq!(admit_classic(HASH, false, None).unwrap(), Vec::<u8>::new());
    assert_eq!(admit_classic(HASH, false, Some(b"zz")).unwrap(), Vec::<u8>::new());
    let ruleset = "ff".repeat(20);
    assert_eq!(admit_classic(HASH, true, Some(ruleset.as_bytes())).unwrap(), vec![0xff; 20]);
    assert_eq!(
        admit_classic(HASH, true, None).unwrap_err().body,
        "{\"error\":\"X-Ruleset header is required when signing is requested\"}"
    );
    let response = admit_classic("abc", true, None).unwrap_err();
    assert_eq!(response.status, 400);
    assert_eq!(response.body, HASH_BODY);
}

#[test]
fn admission_of_a_snapshot() {
    assert_eq!(admit_ensure(HASH, "1234").unwrap(), 1234);
    assert_eq!(admit_ensure(HASH, "0").unwrap(), 0);
    assert_eq!(admit_ensure("abc", "x").unwrap_err().body, HASH_BODY);
    for size in ["", "-1", "1.5", "18446744073709551616", "abc"] {
        let response = admit_ensure(HASH, size).unwrap_err();
        assert_eq!(response.status, 400);
        assert_eq!(response.body, "{\"error\":\"Invalid size: must be a positive integer\"}");
    }
}

#[test]
fn bodies() {
    assert_eq!(health_response().status, 200);
    assert_eq!(health_response().body, "{\"healthy\": \"true\"}");
    assert_eq!(unknown_request_response().status, 400);
    assert_eq!(unknown_request_response().body, "{\"error\":\"unknown request\"}");
    assert_eq!(state_response("ready").status, 200);
    assert_eq!(state_response("ready").body, "{\"state\":\"ready\"}");
}

#[test]
fn escapes_in_bodies() {
    let message = "\"\\/\u{8}\t\n\u{c}\r\u{1}\u{1f}\u{7f}\u{e9}\u{1f600}";
    let response = error_response(500, message);
    assert_eq!(response.status, 500);
    assert_eq!(
        response.body,
        "{\"error\":\"\\\"\\\\/\\b\\t\\n\\f\\r\\u0001\\u001f\u{7f}\u{e9}\u{1f600}\"}"
    );
}

#[test]
fn bodies_of_different_messages_differ() {
    assert_ne!(error_response(400, "\n").body, error_response(400, "\\n").body);
}
