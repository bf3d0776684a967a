use translate_bot::command::{parse_command, Command};

#[test]
fn parse_help() {
    assert_eq!(parse_command("/help"), Some(Command::Help));
}

#[test]
fn parse_help_ignores_tail() {
    assert_eq!(parse_command("/help whatever"), Some(Command::Help));
}

#[test]
fn parse_languages() {
    assert_eq!(parse_command("/languages"), Some(Command::Languages));
}

#[test]
fn parse_detect_language_takes_remainder() {
    assert_eq!(
        parse_command("/detectlanguage hello there world"),
        Some(Command::DetectLanguage("hello there world".to_string()))
    );
}

#[test]
fn parse_detect_language_needs_text() {
    assert_eq!(parse_command("/detectlanguage"), None);
    assert_eq!(parse_command("/detectlanguage "), None);
}

#[test]
fn parse_translate_to_splits_language_and_text() {
    assert_eq!(
        parse_command("/translateto French bonjour tout le monde"),
        Some(Command::TranslateTo {
            language: "French".to_string(),
            text: "bonjour tout le monde".to_string(),
        })
    );
}

#[test]
fn parse_translate_to_needs_language_and_text() {
    assert_eq!(parse_command("/translateto"), None);
    assert_eq!(parse_command("/translateto French"), None);
}

#[test]
fn parse_translate_from_to() {
    assert_eq!(
        parse_command("/translatefromto French Spanish Bonjour"),
        Some(Command::TranslateFromTo {
            from_language: "French".to_string(),
            to_language: "Spanish".to_string(),
            text: "Bonjour".to_string(),
        })
    );
}

#[test]
fn parse_translate_from_to_needs_three_fields() {
    assert_eq!(parse_command("/translatefromto French Spanish"), None);
    assert_eq!(parse_command("/translatefromto French"), None);
}

#[test]
fn parse_unknown_command_rejected() {
    assert_eq!(parse_command("/frobnicate x"), None);
    assert_eq!(parse_command("hello"), None);
    assert_eq!(parse_command(""), None);
}
