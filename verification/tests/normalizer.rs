use texspell::json::JsonValue;
use texspell::server::{CheckError, LanguagueToolServer};

fn server() -> LanguagueToolServer {
    LanguagueToolServer::new("http://localhost:8081")
}

#[test]
fn server_urls() {
    let s = server();
    assert_eq!(s.get_check_url(), "http://localhost:8081/v2/check");
    assert_eq!(s.get_languages_url(), "http://localhost:8081/v2/languages");
    assert_eq!(s.base_url, "http://localhost:8081");
}

#[test]
fn nested_schema_with_context() {
    // Checker answer for plain text "je suis trè beau", language fr: one
    // match whose context carries the snippet, offsets in characters.
    let s = server();
    let text = "je suis trè beau";
    let body = "{\"matches\":[{\"message\":\"Faute de frappe\",\
                 \"context\":{\"text\":\"je suis trè beau\",\"offset\":8,\"length\":3},\
                 \"offset\":8,\"length\":3,\
                 \"replacements\":[{\"value\":\"très\"}]}]}";
    let r = s.parse_checked_text(200, body, text).unwrap();
    assert_eq!(r.len(), 1);
    assert_eq!(r[0].offset, 8);
    assert_eq!(r[0].length, 3);
    assert_eq!(r[0].word, "trè");
    assert_eq!(r[0].message, "Faute de frappe");
    assert_eq!(r[0].replacements, vec!["très".to_string()]);
}

#[test]
fn flat_array_schema_absolute_offsets() {
    // The older shape: a bare list, no context; the flagged word comes out
    // of the checked text itself.
    let s = server();
    let text = "one twoo three";
    let body = "[{\"message\":\"spelling\",\"offset\":4,\"length\":4,\
                 \"replacements\":[\"two\"]}]";
    let r = s.parse_checked_text(200, body, text).unwrap();
    assert_eq!(r.len(), 1);
    assert_eq!(r[0].word, "twoo");
    assert_eq!(r[0].replacements, vec!["two".to_string()]);
}

#[test]
fn malformed_top_level_is_an_error_not_empty() {
    let s = server();
    let r = s.parse_checked_text(200, "{\"results\":[]}", "abc");
    assert_eq!(r, Err(CheckError::MalformedResponse));
    let r = s.parse_checked_text(200, "not json at all", "abc");
    assert_eq!(r, Err(CheckError::MalformedResponse));
    let r = s.parse_checked_text(200, "42", "abc");
    assert_eq!(r, Err(CheckError::MalformedResponse));
}

#[test]
fn matches_key_not_a_list_is_malformed() {
    let s = server();
    let r = s.parse_checked_text(200, "{\"matches\":7}", "abc");
    assert_eq!(r, Err(CheckError::MalformedResponse));
}

#[test]
fn replacement_entry_missing_value_key_skips_that_record() {
    // The first record's replacement entry lacks the value key: that one
    // record is dropped, the rest of the batch still comes through.
    let s = server();
    let text = "aaaa bbbb";
    let body = "{\"matches\":[\
        {\"message\":\"first\",\"offset\":0,\"length\":4,\"replacements\":[{\"wrong\":\"x\"}]},\
        {\"message\":\"second\",\"offset\":5,\"length\":4,\"replacements\":[]}]}";
    let r = s.parse_checked_text(200, body, text).unwrap();
    assert_eq!(r.len(), 1);
    assert_eq!(r[0].message, "second");
    assert_eq!(r[0].word, "bbbb");
}

#[test]
fn span_past_text_end_skips_that_record() {
    let s = server();
    let body = "{\"matches\":[{\"message\":\"m\",\"offset\":2,\"length\":9,\
                 \"replacements\":[]}]}";
    let r = s.parse_checked_text(200, body, "abc").unwrap();
    assert_eq!(r.len(), 0);
}

#[test]
fn negative_offset_skips_that_record() {
    let s = server();
    let body = "{\"matches\":[{\"message\":\"m\",\"offset\":-1,\"length\":2,\
                 \"replacements\":[]}]}";
    let r = s.parse_checked_text(200, body, "abc").unwrap();
    assert_eq!(r.len(), 0);
}

#[test]
fn non_success_status_is_unavailable() {
    let s = server();
    let r = s.parse_checked_text(500, "{\"matches\":[]}", "abc");
    assert_eq!(r, Err(CheckError::Unavailable { status: 500 }));
    let r = s.parse_languages(404, "[]");
    assert_eq!(r, Err(CheckError::Unavailable { status: 404 }));
}

#[test]
fn language_listing() {
    let s = server();
    let r = s.parse_languages(200, "[{\"name\":\"French\",\"longCode\":\"fr\"}]").unwrap();
    assert_eq!(r.len(), 1);
    assert_eq!(r[0].code, "fr");
    assert_eq!(r[0].name, "French");
}

#[test]
fn language_entry_missing_long_code_is_malformed() {
    let s = server();
    let r = s.parse_languages(200, "[{\"name\":\"French\"}]");
    assert_eq!(r, Err(CheckError::MalformedResponse));
}

#[test]
fn parse_response_value_direct() {
    // The structural stage on an already-decoded document, as a canned
    // backend double would use it.
    let v = JsonValue::Object(vec![(
        "matches".to_string(),
        JsonValue::Array(vec![JsonValue::Object(vec![
            ("message".to_string(), JsonValue::Str("m".to_string())),
            ("offset".to_string(), JsonValue::UInt(0)),
            ("length".to_string(), JsonValue::UInt(2)),
            ("replacements".to_string(), JsonValue::Array(vec![])),
        ])]),
    )]);
    let resp = texspell::server::parse_response_value(&v).unwrap();
    assert_eq!(resp.matches.len(), 1);
    assert_eq!(resp.matches[0].message, "m");
    assert_eq!(resp.matches[0].offset, 0);
    assert_eq!(resp.matches[0].length, 2);
    let out = texspell::server::read_matches(resp, "hello");
    assert_eq!(out.len(), 1);
    assert_eq!(out[0].word, "he");
}

#[test]
fn context_slicing_counts_characters_not_bytes() {
    // "è" is two bytes but one character: slicing must use characters.
    let s = server();
    let text = "un très bon thé";
    let body = "{\"matches\":[{\"message\":\"m\",\
                 \"context\":{\"text\":\"un très bon thé\",\"offset\":3,\"length\":4},\
                 \"offset\":3,\"length\":4,\"replacements\":[]}]}";
    let r = s.parse_checked_text(200, body, text).unwrap();
    assert_eq!(r.len(), 1);
    assert_eq!(r[0].word, "très");
}

#[test]
fn empty_matches_list_is_ok_and_empty() {
    let s = server();
    let r = s.parse_checked_text(200, "{\"matches\":[]}", "abc").unwrap();
    assert_eq!(r.len(), 0);
}
