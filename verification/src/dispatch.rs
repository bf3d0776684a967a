//! The dispatcher: one command in, exactly one reply out.
//!
//! A command either answers immediately or names the backend call to make
//! next together with what to do with its outcome. The transport performs
//! the call and feeds the outcome back in; the decisions all stand here.
//! No command leaves the chat without a reply: every backend failure becomes
//! the fixed error text.

use vstd::prelude::*;
use crate::backend::{BackendError, hex_digit, translate_model, translated_text_or_sentinel};
use crate::command::{Command, CommandModel};
use crate::directory::{
    LanguageDirectory, PairSeq, has_key, key_seq, spec_resolve, unique_keys, lemma_lookup_exists,
};
use crate::json::Json;

verus! {

/// A backend call the dispatcher asks the transport to make.
#[derive(Clone, Debug, PartialEq, Eq)]
pub enum BackendCall {
    Detect { text: String },
    Translate { from: String, to: String, text: String },
}

/// The model of a [`BackendCall`] over `Seq<char>`.
pub enum BackendCallModel {
    Detect { text: Seq<char> },
    Translate { from: Seq<char>, to: Seq<char>, text: Seq<char> },
}

impl View for BackendCall {
    type V = BackendCallModel;

    open spec fn view(&self) -> BackendCallModel {
        match self {
            BackendCall::Detect { text } => BackendCallModel::Detect { text: text@ },
            BackendCall::Translate { from, to, text } => BackendCallModel::Translate {
                from: from@,
                to: to@,
                text: text@,
            },
        }
    }
}

/// What the dispatcher will do with the outcome of the call it asked for.
#[derive(Clone, Debug, PartialEq, Eq)]
pub enum Pending {
    /// The detected code is itself the reply.
    DetectReply,
    /// The detected code becomes the source of a translate call on the held
    /// target and text.
    DetectThenTranslate { to: String, text: String },
    /// The translated text is the reply.
    TranslateReply,
}

/// The model of a [`Pending`] over `Seq<char>`.
pub enum PendingModel {
    DetectReply,
    DetectThenTranslate { to: Seq<char>, text: Seq<char> },
    TranslateReply,
}

impl View for Pending {
    type V = PendingModel;

    open spec fn view(&self) -> PendingModel {
        match self {
            Pending::DetectReply => PendingModel::DetectReply,
            Pending::DetectThenTranslate { to, text } => PendingModel::DetectThenTranslate {
                to: to@,
                text: text@,
            },
            Pending::TranslateReply => PendingModel::TranslateReply,
        }
    }
}

/// What the dispatcher decided: reply now, or make a call and continue.
#[derive(Clone, Debug, PartialEq, Eq)]
pub enum Step {
    Reply(String),
    Call(BackendCall, Pending),
}

/// The model of a [`Step`] over `Seq<char>`.
pub enum StepModel {
    Reply(Seq<char>),
    Call(BackendCallModel, PendingModel),
}

impl View for Step {
    type V = StepModel;

    open spec fn view(&self) -> StepModel {
        match self {
            Step::Reply(text) => StepModel::Reply(text@),
            Step::Call(call, pending) => StepModel::Call(call@, pending@),
        }
    }
}

/// The fixed reply on any failed backend call.
pub open spec fn internal_error_text() -> Seq<char> {
    "Internal error"@
}

/// The fixed usage text: the header, a blank line, then every command with
/// its description after a spaced em dash.
pub open spec fn help_text_model() -> Seq<char> {
    "These commands are supported:\n\n/help \u{2014} Display this text.\n/languages \u{2014} Get list of supported languages.\n/detectlanguage \u{2014} Detect language.\n/translateto \u{2014} Translates text into given language. Input language is autodetected.\n/translatefromto \u{2014} Translates text from given language into given language."@
}

/// The usage text the help command replies with.
pub fn help_text() -> (r: String)
    ensures
        r@ == help_text_model(),
{
    String::from_str(
        "These commands are supported:\n\n/help \u{2014} Display this text.\n/languages \u{2014} Get list of supported languages.\n/detectlanguage \u{2014} Detect language.\n/translateto \u{2014} Translates text into given language. Input language is autodetected.\n/translatefromto \u{2014} Translates text from given language into given language.",
    )
}

/// How one character of a display name stands inside the quoted name, as a
/// string-literal rendering puts it: quote and backslash escaped, the named
/// control characters as their escapes, any other control character as a
/// braced hexadecimal escape, everything else as itself.
pub open spec fn name_escape_char(c: char) -> Seq<char> {
    if c == '"' { seq!['\\', '"'] }
    else if c == '\\' { seq!['\\', '\\'] }
    else if c == '\u{0000}' { seq!['\\', '0'] }
    else if c == '\u{0009}' { seq!['\\', 't'] }
    else if c == '\u{000A}' { seq!['\\', 'n'] }
    else if c == '\u{000D}' { seq!['\\', 'r'] }
    else if (c as u32) < 32 || c == '\u{007F}' {
        if (c as u32) < 16 {
            seq!['\\', 'u', '{', hex_digit(c as u32 as int), '}']
        } else {
            seq![
                '\\',
                'u',
                '{',
                hex_digit(c as u32 as int / 16),
                hex_digit(c as u32 as int % 16),
                '}',
            ]
        }
    } else {
        seq![c]
    }
}

/// The characters of a display name as they stand inside the quoted name.
pub open spec fn name_escaped(s: Seq<char>) -> Seq<char>
    decreases s.len(),
{
    if s.len() == 0 {
        Seq::empty()
    } else {
        name_escape_char(s[0]) + name_escaped(s.drop_first())
    }
}

pub proof fn lemma_name_escaped_push(s: Seq<char>, c: char)
    ensures
        name_escaped(s.push(c)) == name_escaped(s) + name_escape_char(c),
    decreases s.len(),
{
    if s.len() == 0 {
        reveal_with_fuel(name_escaped, 2);
        assert(s.push(c).drop_first() =~= Seq::<char>::empty());
        assert(name_escaped(s.push(c)) =~= name_escaped(s) + name_escape_char(c));
    } else {
        assert(s.push(c).drop_first() =~= s.drop_first().push(c));
        lemma_name_escaped_push(s.drop_first(), c);
        assert(name_escaped(s.push(c)) =~= name_escaped(s) + name_escape_char(c));
    }
}

/// Escapes a display name for its place inside the quoted name.
pub fn name_escape(s: &str) -> (r: String)
    ensures
        r@ == name_escaped(s@),
{
    let n = s.unicode_len();
    let mut r = String::new();
    let mut i: usize = 0;
    while i < n
        invariant
            n == s@.len(),
            i <= n,
            r@ == name_escaped(s@.take(i as int)),
        decreases n - i,
    {
        let c = s.get_char(i);
        if c == '"' {
            r.append("\\\"");
            proof {
                reveal_strlit("\\\"");
                assert(r@ =~= name_escaped(s@.take(i as int)) + name_escape_char(c));
            }
        } else if c == '\\' {
            r.append("\\\\");
            proof {
                reveal_strlit("\\\\");
                assert(r@ =~= name_escaped(s@.take(i as int)) + name_escape_char(c));
            }
        } else if c == '\u{0000}' {
            r.append("\\0");
            proof {
                reveal_strlit("\\0");
                assert(r@ =~= name_escaped(s@.take(i as int)) + name_escape_char(c));
            }
        } else if c == '\u{0009}' {
            r.append("\\t");
            proof {
                reveal_strlit("\\t");
                assert(r@ =~= name_escaped(s@.take(i as int)) + name_escape_char(c));
            }
        } else if c == '\u{000A}' {
            r.append("\\n");
            proof {
                reveal_strlit("\\n");
                assert(r@ =~= name_escaped(s@.take(i as int)) + name_escape_char(c));
            }
        } else if c == '\u{000D}' {
            r.append("\\r");
            proof {
                reveal_strlit("\\r");
                assert(r@ =~= name_escaped(s@.take(i as int)) + name_escape_char(c));
            }
        } else if (c as u32) < 32 || c == '\u{007F}' {
            let digits = "0123456789abcdef";
            proof {
                reveal_strlit("0123456789abcdef");
                assert(digits.is_ascii());
            }
            r.append("\\u{");
            let code = c as u32;
            if code < 16 {
                let d = code as usize;
                r.append(digits.substring_ascii(d, d + 1));
                proof {
                    reveal_strlit("\\u{");
                    assert(digits@[d as int] == hex_digit(d as int));
                    assert(digits@.subrange(d as int, d as int + 1)
                        =~= seq![hex_digit(d as int)]);
                }
            } else {
                let hi = (code / 16) as usize;
                let lo = (code % 16) as usize;
                r.append(digits.substring_ascii(hi, hi + 1));
                r.append(digits.substring_ascii(lo, lo + 1));
                proof {
                    reveal_strlit("\\u{");
                    assert(digits@[hi as int] == hex_digit(hi as int));
                    assert(digits@[lo as int] == hex_digit(lo as int));
                    assert(digits@.subrange(hi as int, hi as int + 1)
                        =~= seq![hex_digit(hi as int)]);
                    assert(digits@.subrange(lo as int, lo as int + 1)
                        =~= seq![hex_digit(lo as int)]);
                }
            }
            r.append("}");
            proof {
                reveal_strlit("}");
                assert(r@ =~= name_escaped(s@.take(i as int)) + name_escape_char(c));
            }
        } else {
            let piece = s.substring_char(i, i + 1);
            r.append(piece);
            proof {
                assert(piece@ =~= seq![c]);
                assert(r@ =~= name_escaped(s@.take(i as int)) + name_escape_char(c));
            }
        }
        proof {
            lemma_name_escaped_push(s@.take(i as int), c);
            assert(s@.take(i + 1) =~= s@.take(i as int).push(c));
        }
        i += 1;
    }
    proof {
        assert(s@.take(n as int) =~= s@);
    }
    r
}

/// One display name inside the languages reply: the escaped name in quotes.
pub open spec fn quoted(name: Seq<char>) -> Seq<char> {
    "\""@ + name_escaped(name) + "\""@
}

/// The quoted display names, separated by comma and space.
pub open spec fn joined_names(names: Seq<Seq<char>>) -> Seq<char>
    decreases names.len(),
{
    if names.len() == 0 {
        Seq::empty()
    } else if names.len() == 1 {
        quoted(names[0])
    } else {
        joined_names(names.drop_last()) + ", "@ + quoted(names.last())
    }
}

/// The languages reply on `names`: the quoted names, comma-separated, in
/// brackets.
pub open spec fn languages_text_model(names: Seq<Seq<char>>) -> Seq<char> {
    "["@ + joined_names(names) + "]"@
}

/// Formats the reply of the languages command.
pub fn format_languages(names: &Vec<String>) -> (r: String)
    ensures
        r@ == languages_text_model(names@.map_values(|s: String| s@)),
{
    let ghost keys = names@.map_values(|s: String| s@);
    let mut r = String::from_str("[");
    let mut i: usize = 0;
    proof {
        assert(keys.take(0) =~= Seq::<Seq<char>>::empty());
    }
    while i < names.len()
        invariant
            keys == names@.map_values(|s: String| s@),
            keys.len() == names@.len(),
            i <= names@.len(),
            r@ == "["@ + joined_names(keys.take(i as int)),
        decreases names@.len() - i,
    {
        if i > 0 {
            r.append(", ");
        }
        r.append("\"");
        r.append(name_escape(names[i].as_str()).as_str());
        r.append("\"");
        proof {
            assert(keys.take(i + 1).drop_last() =~= keys.take(i as int));
            assert(keys.take(i + 1).last() == keys[i as int]);
            assert(r@ =~= "["@ + joined_names(keys.take(i + 1)));
        }
        i += 1;
    }
    r.append("]");
    proof {
        assert(keys.take(keys.len() as int) =~= keys);
        assert(r@ =~= languages_text_model(keys));
    }
    r
}

/// What the dispatcher decides on `cmd` against directory `dir`.
pub open spec fn dispatch_model(cmd: CommandModel, dir: PairSeq) -> StepModel {
    match cmd {
        CommandModel::Help => StepModel::Reply(help_text_model()),
        CommandModel::Languages => StepModel::Reply(languages_text_model(key_seq(dir))),
        CommandModel::DetectLanguage(text) => StepModel::Call(
            BackendCallModel::Detect { text },
            PendingModel::DetectReply,
        ),
        CommandModel::TranslateTo { language, text } => StepModel::Call(
            BackendCallModel::Detect { text },
            PendingModel::DetectThenTranslate { to: spec_resolve(dir, language), text },
        ),
        CommandModel::TranslateFromTo { from_language, to_language, text } => StepModel::Call(
            BackendCallModel::Translate {
                from: spec_resolve(dir, from_language),
                to: spec_resolve(dir, to_language),
                text,
            },
            PendingModel::TranslateReply,
        ),
    }
}

/// The outcome of a backend call, over `Seq<char>`.
pub open spec fn result_view(res: Result<String, BackendError>) -> Result<Seq<char>, BackendError> {
    match res {
        Ok(value) => Ok(value@),
        Err(e) => Err(e),
    }
}

/// What the dispatcher decides when the call it asked for comes back:
/// any failure is the fixed error reply; a value either is the reply or, for
/// a detection made on behalf of a translation, the source of the translate
/// call that follows.
pub open spec fn continue_model(pending: PendingModel, res: Result<Seq<char>, BackendError>)
    -> StepModel {
    match res {
        Err(_) => StepModel::Reply(internal_error_text()),
        Ok(value) => match pending {
            PendingModel::DetectReply => StepModel::Reply(value),
            PendingModel::DetectThenTranslate { to, text } => StepModel::Call(
                BackendCallModel::Translate { from: value, to, text },
                PendingModel::TranslateReply,
            ),
            PendingModel::TranslateReply => StepModel::Reply(value),
        },
    }
}

/// Executes one command up to its first backend call, or to its reply.
pub fn dispatch(cmd: Command, dir: &LanguageDirectory) -> (r: Step)
    ensures
        r@ == dispatch_model(cmd@, dir@),
{
    match cmd {
        Command::Help => Step::Reply(help_text()),
        Command::Languages => {
            let names = dir.names();
            Step::Reply(format_languages(&names))
        },
        Command::DetectLanguage(text) => Step::Call(
            BackendCall::Detect { text },
            Pending::DetectReply,
        ),
        Command::TranslateTo { language, text } => {
            let to = dir.resolve(language.as_str());
            Step::Call(
                BackendCall::Detect { text: text.clone() },
                Pending::DetectThenTranslate { to, text },
            )
        },
        Command::TranslateFromTo { from_language, to_language, text } => {
            let from = dir.resolve(from_language.as_str());
            let to = dir.resolve(to_language.as_str());
            Step::Call(
                BackendCall::Translate { from, to, text },
                Pending::TranslateReply,
            )
        },
    }
}

/// Feeds the outcome of the asked-for backend call back into the dispatch.
pub fn on_call_result(pending: Pending, res: Result<String, BackendError>) -> (r: Step)
    ensures
        r@ == continue_model(pending@, result_view(res)),
{
    match res {
        Err(_) => Step::Reply(String::from_str("Internal error")),
        Ok(value) => match pending {
            Pending::DetectReply => Step::Reply(value),
            Pending::DetectThenTranslate { to, text } => Step::Call(
                BackendCall::Translate { from: value, to, text },
                Pending::TranslateReply,
            ),
            Pending::TranslateReply => Step::Reply(value),
        },
    }
}

/// Law: the languages reply of a directory with unique keys lists exactly
/// the directory's key set, with no name twice.
pub proof fn lemma_languages_keys_exact(m: PairSeq)
    requires
        unique_keys(m),
    ensures
        key_seq(m).no_duplicates(),
        forall|k: Seq<char>| key_seq(m).contains(k) <==> has_key(m, k),
{
    assert forall|i: int, j: int|
        0 <= i < key_seq(m).len() && 0 <= j < key_seq(m).len() && i != j
        implies key_seq(m)[i] != key_seq(m)[j] by {
        assert(key_seq(m)[i] == m[i].0 && key_seq(m)[j] == m[j].0);
    }
    assert forall|k: Seq<char>| key_seq(m).contains(k) implies has_key(m, k) by {
        let i = choose|i: int| 0 <= i < key_seq(m).len() && key_seq(m)[i] == k;
        assert(m[i].0 == k);
        lemma_lookup_exists(m, k);
    }
    assert forall|k: Seq<char>| has_key(m, k) implies key_seq(m).contains(k) by {
        lemma_lookup_exists(m, k);
        let i = choose|i: int| 0 <= i < m.len() && m[i].0 == k;
        assert(key_seq(m)[i] == k);
    }
}

/// Law: a translate-to command asks for detection on the original text, not
/// on anything resolved, and when that detection fails the reply is the
/// fixed error text: the translate call is never reached.
pub proof fn lemma_translate_to_order(
    language: Seq<char>,
    text: Seq<char>,
    dir: PairSeq,
    e: BackendError,
)
    ensures
        dispatch_model(CommandModel::TranslateTo { language, text }, dir) == StepModel::Call(
            BackendCallModel::Detect { text },
            PendingModel::DetectThenTranslate { to: spec_resolve(dir, language), text },
        ),
        continue_model(
            PendingModel::DetectThenTranslate { to: spec_resolve(dir, language), text },
            Err(e),
        ) == StepModel::Reply(internal_error_text()),
{
}

/// Law: whichever call was pending, a failed backend call is answered with
/// exactly the fixed error text.
pub proof fn lemma_backend_error_reply(pending: PendingModel, e: BackendError)
    ensures
        continue_model(pending, Err(e)) == StepModel::Reply(internal_error_text()),
{
}

/// Law: a translate response without the translated-text field ends as an
/// ordinary successful reply holding the sentinel text, not as a failure.
pub proof fn lemma_sentinel_is_success(j: Json)
    requires
        translate_model(j) is None,
    ensures
        continue_model(
            PendingModel::TranslateReply,
            Ok(translated_text_or_sentinel(j)),
        ) == StepModel::Reply("<error>"@),
{
}

} // verus!
