use translate_bot::backend::{parse_translate_response, BackendError};
use translate_bot::command::{parse_command, Command};
use translate_bot::directory::LanguageDirectory;
use translate_bot::dispatch::{dispatch, help_text, on_call_result, BackendCall, Pending, Step};
use translate_bot::json::Json;

fn pairs(input: &[(&str, &str)]) -> Vec<(String, String)> {
    input.iter().map(|(n, c)| (n.to_string(), c.to_string())).collect()
}

fn french_spanish() -> LanguageDirectory {
    LanguageDirectory::new(pairs(&[("French", "fr"), ("Spanish", "es")]))
}

#[test]
fn help_replies_with_fixed_usage_text() {
    let cmd = parse_command("/help").unwrap();
    let step = dispatch(cmd, &french_spanish());
    let expected = "These commands are supported:\n\n\
                    /help \u{2014} Display this text.\n\
                    /languages \u{2014} Get list of supported languages.\n\
                    /detectlanguage \u{2014} Detect language.\n\
                    /translateto \u{2014} Translates text into given language. Input language is autodetected.\n\
                    /translatefromto \u{2014} Translates text from given language into given language.";
    assert_eq!(step, Step::Reply(expected.to_string()));
    assert_eq!(help_text(), expected);
}

#[test]
fn languages_lists_every_display_name_once() {
    let step = dispatch(Command::Languages, &french_spanish());
    assert_eq!(step, Step::Reply("[\"French\", \"Spanish\"]".to_string()));
}

#[test]
fn languages_reply_escapes_names() {
    let d = LanguageDirectory::new(pairs(&[("a\"b", "x"), ("c\\d", "y"), ("e\u{0001}f", "z")]));
    let step = dispatch(Command::Languages, &d);
    let expected = format!("{:?}", vec!["a\"b", "c\\d", "e\u{0001}f"]);
    assert_eq!(step, Step::Reply(expected));
}

#[test]
fn languages_on_empty_directory() {
    let step = dispatch(Command::Languages, &LanguageDirectory::new(Vec::new()));
    assert_eq!(step, Step::Reply("[]".to_string()));
}

#[test]
fn detect_language_asks_for_detection_then_replies_code() {
    let cmd = parse_command("/detectlanguage Bonjour").unwrap();
    let step = dispatch(cmd, &french_spanish());
    assert_eq!(
        step,
        Step::Call(BackendCall::Detect { text: "Bonjour".to_string() }, Pending::DetectReply)
    );
    let done = on_call_result(Pending::DetectReply, Ok("fr".to_string()));
    assert_eq!(done, Step::Reply("fr".to_string()));
}

#[test]
fn translate_from_to_resolves_both_names() {
    let cmd = parse_command("/translatefromto French Spanish Bonjour").unwrap();
    let step = dispatch(cmd, &french_spanish());
    assert_eq!(
        step,
        Step::Call(
            BackendCall::Translate {
                from: "fr".to_string(),
                to: "es".to_string(),
                text: "Bonjour".to_string(),
            },
            Pending::TranslateReply,
        )
    );
    let done = on_call_result(Pending::TranslateReply, Ok("Buenos dias".to_string()));
    assert_eq!(done, Step::Reply("Buenos dias".to_string()));
}

#[test]
fn translate_to_detects_on_original_text_and_passes_unknown_code_through() {
    let cmd = parse_command("/translateto xx hello").unwrap();
    let step = dispatch(cmd, &LanguageDirectory::new(Vec::new()));
    let pending = match step {
        Step::Call(call, pending) => {
            assert_eq!(call, BackendCall::Detect { text: "hello".to_string() });
            pending
        }
        other => panic!("expected a detect call, got {:?}", other),
    };
    assert_eq!(
        pending,
        Pending::DetectThenTranslate { to: "xx".to_string(), text: "hello".to_string() }
    );
    let next = on_call_result(pending, Ok("en".to_string()));
    assert_eq!(
        next,
        Step::Call(
            BackendCall::Translate {
                from: "en".to_string(),
                to: "xx".to_string(),
                text: "hello".to_string(),
            },
            Pending::TranslateReply,
        )
    );
}

#[test]
fn translate_to_resolves_display_name_to_code() {
    let cmd = parse_command("/translateto Spanish good morning").unwrap();
    let step = dispatch(cmd, &french_spanish());
    assert_eq!(
        step,
        Step::Call(
            BackendCall::Detect { text: "good morning".to_string() },
            Pending::DetectThenTranslate { to: "es".to_string(), text: "good morning".to_string() },
        )
    );
}

#[test]
fn failed_detection_replies_internal_error() {
    let done = on_call_result(Pending::DetectReply, Err(BackendError::Transport));
    assert_eq!(done, Step::Reply("Internal error".to_string()));
}

#[test]
fn failed_detection_short_circuits_translation() {
    let pending = Pending::DetectThenTranslate { to: "es".to_string(), text: "hi".to_string() };
    let done = on_call_result(pending, Err(BackendError::Transport));
    assert_eq!(done, Step::Reply("Internal error".to_string()));
}

#[test]
fn failed_translation_replies_internal_error() {
    let done = on_call_result(Pending::TranslateReply, Err(BackendError::Shape));
    assert_eq!(done, Step::Reply("Internal error".to_string()));
}

#[test]
fn missing_translation_field_is_a_successful_sentinel_reply() {
    let resp = Json::Obj(vec![(
        "data".to_string(),
        Json::Obj(vec![("translations".to_string(), Json::Arr(vec![Json::Obj(vec![])]))]),
    )]);
    let text = parse_translate_response(&resp);
    let done = on_call_result(Pending::TranslateReply, Ok(text));
    assert_eq!(done, Step::Reply("<error>".to_string()));
}
