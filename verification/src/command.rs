//! The closed set of chat commands and the parser that recognises them.
//!
//! A command is selected by the first whitespace-delimited token of the
//! inbound text; the remaining tokens fill the command's fields. Unknown
//! command tokens and missing required fields reject the whole message.

use vstd::prelude::*;
use crate::text::str_eq;

verus! {

/// A parsed user intent.
#[derive(Clone, Debug, PartialEq, Eq)]
pub enum Command {
    Help,
    Languages,
    DetectLanguage(String),
    TranslateTo { language: String, text: String },
    TranslateFromTo { from_language: String, to_language: String, text: String },
}

/// The mathematical model of a [`Command`]: the same shape over `Seq<char>`.
pub enum CommandModel {
    Help,
    Languages,
    DetectLanguage(Seq<char>),
    TranslateTo { language: Seq<char>, text: Seq<char> },
    TranslateFromTo { from_language: Seq<char>, to_language: Seq<char>, text: Seq<char> },
}

impl View for Command {
    type V = CommandModel;

    open spec fn view(&self) -> CommandModel {
        match self {
            Command::Help => CommandModel::Help,
            Command::Languages => CommandModel::Languages,
            Command::DetectLanguage(text) => CommandModel::DetectLanguage(text@),
            Command::TranslateTo { language, text } => CommandModel::TranslateTo {
                language: language@,
                text: text@,
            },
            Command::TranslateFromTo { from_language, to_language, text } =>
                CommandModel::TranslateFromTo {
                    from_language: from_language@,
                    to_language: to_language@,
                    text: text@,
                },
        }
    }
}

/// Index of the first space in `s`, or `s.len()` if there is none.
pub open spec fn space_index(s: Seq<char>) -> int
    decreases s.len(),
{
    if s.len() == 0 {
        0
    } else if s[0] == ' ' {
        0
    } else {
        1 + space_index(s.drop_first())
    }
}

/// The leading token of `s`: everything before the first space.
pub open spec fn first_token(s: Seq<char>) -> Seq<char> {
    s.subrange(0, space_index(s))
}

/// What follows the leading token: everything after the first space,
/// or empty if `s` has no space.
pub open spec fn tail_after_token(s: Seq<char>) -> Seq<char> {
    if space_index(s) == s.len() {
        Seq::empty()
    } else {
        s.subrange(space_index(s) + 1, s.len() as int)
    }
}

/// If the first `i` characters are not spaces and (unless `i` is the length)
/// the character at `i` is a space, then `i` is the index of the first space.
pub proof fn lemma_space_index_at(s: Seq<char>, i: int)
    requires
        0 <= i <= s.len(),
        forall|j: int| 0 <= j < i ==> s[j] != ' ',
        i < s.len() ==> s[i] == ' ',
    ensures
        space_index(s) == i,
    decreases i,
{
    if s.len() == 0 {
    } else if i == 0 {
    } else {
        assert(s[0] != ' ');
        lemma_space_index_at(s.drop_first(), i - 1);
    }
}

/// Finds the index of the first space in `s`, or its length if there is none.
fn find_space(s: &str) -> (i: usize)
    ensures
        i == space_index(s@),
        i <= s@.len(),
{
    let n = s.unicode_len();
    let mut i: usize = 0;
    while i < n
        invariant
            n == s@.len(),
            i <= n,
            forall|j: int| 0 <= j < i ==> s@[j] != ' ',
        decreases n - i,
    {
        if s.get_char(i) == ' ' {
            proof {
                lemma_space_index_at(s@, i as int);
            }
            return i;
        }
        i += 1;
    }
    proof {
        lemma_space_index_at(s@, n as int);
    }
    n
}

/// Splits `s` into its leading token and the remainder after the first space.
pub fn split_first_token<'a>(s: &'a str) -> (r: (&'a str, &'a str))
    ensures
        r.0@ == first_token(s@),
        r.1@ == tail_after_token(s@),
{
    let n = s.unicode_len();
    let i = find_space(s);
    let token = s.substring_char(0, i);
    let rest = if i == n {
        s.substring_char(n, n)
    } else {
        s.substring_char(i + 1, n)
    };
    proof {
        if i == n {
            assert(rest@ =~= tail_after_token(s@));
        }
    }
    (token, rest)
}

/// What the parser yields on `s`: the command selected by the leading token,
/// or `None` when the token is unknown or a required field is missing.
pub open spec fn parse_command_model(s: Seq<char>) -> Option<CommandModel> {
    let token = first_token(s);
    let rest = tail_after_token(s);
    if token == "/help"@ {
        Some(CommandModel::Help)
    } else if token == "/languages"@ {
        Some(CommandModel::Languages)
    } else if token == "/detectlanguage"@ {
        if rest.len() > 0 {
            Some(CommandModel::DetectLanguage(rest))
        } else {
            None
        }
    } else if token == "/translateto"@ {
        let language = first_token(rest);
        let text = tail_after_token(rest);
        if language.len() > 0 && text.len() > 0 {
            Some(CommandModel::TranslateTo { language, text })
        } else {
            None
        }
    } else if token == "/translatefromto"@ {
        let from_language = first_token(rest);
        let rest2 = tail_after_token(rest);
        let to_language = first_token(rest2);
        let text = tail_after_token(rest2);
        if from_language.len() > 0 && to_language.len() > 0 && text.len() > 0 {
            Some(CommandModel::TranslateFromTo { from_language, to_language, text })
        } else {
            None
        }
    } else {
        None
    }
}

/// Parses one inbound message into a [`Command`].
pub fn parse_command(s: &str) -> (r: Option<Command>)
    ensures
        match r {
            Some(c) => parse_command_model(s@) == Some(c@),
            None => parse_command_model(s@) is None,
        },
{
    let (token, rest) = split_first_token(s);
    if str_eq(token, "/help") {
        Some(Command::Help)
    } else if str_eq(token, "/languages") {
        Some(Command::Languages)
    } else if str_eq(token, "/detectlanguage") {
        if rest.unicode_len() > 0 {
            Some(Command::DetectLanguage(rest.to_owned()))
        } else {
            None
        }
    } else if str_eq(token, "/translateto") {
        let (language, text) = split_first_token(rest);
        if language.unicode_len() > 0 && text.unicode_len() > 0 {
            Some(Command::TranslateTo { language: language.to_owned(), text: text.to_owned() })
        } else {
            None
        }
    } else if str_eq(token, "/translatefromto") {
        let (from_language, rest2) = split_first_token(rest);
        let (to_language, text) = split_first_token(rest2);
        if from_language.unicode_len() > 0 && to_language.unicode_len() > 0
            && text.unicode_len() > 0 {
            Some(Command::TranslateFromTo {
                from_language: from_language.to_owned(),
                to_language: to_language.to_owned(),
                text: text.to_owned(),
            })
        } else {
            None
        }
    } else {
        None
    }
}

} // verus!
