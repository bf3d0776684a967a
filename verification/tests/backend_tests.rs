use translate_bot::backend::{
    detect_request_body, detect_url, json_escape, languages_request_body, languages_url,
    parse_detect_response, parse_languages_response, parse_translate_response,
    translate_request_body, translate_url, Auth, BackendError,
};
use translate_bot::json::Json;

fn obj(members: Vec<(&str, Json)>) -> Json {
    Json::Obj(members.into_iter().map(|(k, v)| (k.to_string(), v)).collect())
}

fn s(text: &str) -> Json {
    Json::Str(text.to_string())
}

fn detect_response(code: &str) -> Json {
    obj(vec![(
        "data",
        obj(vec![(
            "detections",
            Json::Arr(vec![Json::Arr(vec![obj(vec![("language", s(code))])])]),
        )]),
    )])
}

fn translate_response(text: &str) -> Json {
    obj(vec![(
        "data",
        obj(vec![(
            "translations",
            Json::Arr(vec![obj(vec![("translatedText", s(text))])]),
        )]),
    )])
}

#[test]
fn bearer_header_prefixes_token() {
    let auth = Auth { token: "abc123".to_string(), project: "proj".to_string() };
    assert_eq!(auth.bearer(), "Bearer abc123");
}

#[test]
fn endpoints_are_fixed() {
    assert_eq!(
        languages_url(),
        "https://translation.googleapis.com/language/translate/v2/languages"
    );
    assert_eq!(
        detect_url(),
        "https://translation.googleapis.com/language/translate/v2/detect"
    );
    assert_eq!(translate_url(), "https://translation.googleapis.com/language/translate/v2");
}

#[test]
fn languages_body_asks_for_english_names() {
    assert_eq!(languages_request_body(), "{\"target\": \"en\"}");
}

#[test]
fn detect_body_is_json_encoded() {
    assert_eq!(detect_request_body("hello there"), "{\"q\": \"hello there\"}");
    assert_eq!(detect_request_body("a\"b\\c\nd"), "{\"q\": \"a\\\"b\\\\c\\nd\"}");
}

#[test]
fn translate_body_holds_all_fields() {
    assert_eq!(
        translate_request_body("fr", "es", "Bonjour"),
        "{\"q\": \"Bonjour\", \"source\": \"fr\", \"target\": \"es\", \"format\": \"text\"}"
    );
}

#[test]
fn translate_body_escapes_text() {
    assert_eq!(
        translate_request_body("fr", "es", "a\"b\\c\nd"),
        "{\"q\": \"a\\\"b\\\\c\\nd\", \"source\": \"fr\", \"target\": \"es\", \"format\": \"text\"}"
    );
}

#[test]
fn escape_handles_named_and_numeric_controls() {
    assert_eq!(json_escape("plain"), "plain");
    assert_eq!(json_escape("a\tb\rc\u{0008}d\u{000C}e"), "a\\tb\\rc\\bd\\fe");
    assert_eq!(json_escape("\u{0001}\u{001f}"), "\\u0001\\u001f");
}

#[test]
fn detect_response_yields_first_detection() {
    assert_eq!(parse_detect_response(&detect_response("en")), Ok("en".to_string()));
}

#[test]
fn detect_response_of_wrong_shape_is_shape_error() {
    assert_eq!(parse_detect_response(&obj(vec![])), Err(BackendError::Shape));
    assert_eq!(
        parse_detect_response(&obj(vec![("data", obj(vec![("detections", Json::Arr(vec![]))]))])),
        Err(BackendError::Shape)
    );
    let no_language = obj(vec![(
        "data",
        obj(vec![("detections", Json::Arr(vec![Json::Arr(vec![obj(vec![])])]))]),
    )]);
    assert_eq!(parse_detect_response(&no_language), Err(BackendError::Shape));
}

#[test]
fn translate_response_yields_text() {
    assert_eq!(parse_translate_response(&translate_response("Hola")), "Hola");
}

#[test]
fn translate_response_without_field_degrades_to_sentinel() {
    let missing = obj(vec![(
        "data",
        obj(vec![("translations", Json::Arr(vec![obj(vec![("detectedSourceLanguage", s("fr"))])]))]),
    )]);
    assert_eq!(parse_translate_response(&missing), "<error>");
    assert_eq!(parse_translate_response(&obj(vec![])), "<error>");
    assert_eq!(parse_translate_response(&Json::Null), "<error>");
}

#[test]
fn languages_response_yields_all_pairs() {
    let resp = obj(vec![(
        "data",
        obj(vec![(
            "languages",
            Json::Arr(vec![
                obj(vec![("language", s("fr")), ("name", s("French"))]),
                obj(vec![("language", s("es")), ("name", s("Spanish"))]),
            ]),
        )]),
    )]);
    assert_eq!(
        parse_languages_response(&resp),
        Ok(vec![
            ("French".to_string(), "fr".to_string()),
            ("Spanish".to_string(), "es".to_string()),
        ])
    );
}

#[test]
fn languages_response_of_wrong_shape_is_shape_error() {
    assert_eq!(parse_languages_response(&obj(vec![])), Err(BackendError::Shape));
    let not_array = obj(vec![("data", obj(vec![("languages", s("fr"))]))]);
    assert_eq!(parse_languages_response(&not_array), Err(BackendError::Shape));
    let entry_without_name = obj(vec![(
        "data",
        obj(vec![("languages", Json::Arr(vec![obj(vec![("language", s("fr"))])]))]),
    )]);
    assert_eq!(parse_languages_response(&entry_without_name), Err(BackendError::Shape));
}
