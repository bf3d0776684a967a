//! The backend client's computing half: the credentials record, the fixed
//! endpoints, the request bodies the translation service takes, and the
//! parsers that read its JSON replies into domain values.
//!
//! The transport performs the HTTP round trips; everything here is a
//! function from plain values to plain values.

use vstd::prelude::*;
use crate::json::{Json, spec_member, spec_element, spec_text, member, element, text};
use crate::directory::pairs_view;

verus! {

/// Why a backend call yielded no domain value.
#[derive(Clone, Copy, Debug, PartialEq, Eq)]
pub enum BackendError {
    /// The round trip itself failed: network, HTTP status, or a body that is
    /// not JSON. Raised by the transport.
    Transport,
    /// The response was JSON but not of the shape the service documents.
    Shape,
}

/// The credentials every backend call carries, loaded once at startup and
/// never changed.
#[derive(Debug)]
pub struct Auth {
    pub token: String,
    pub project: String,
}

impl Auth {
    /// The value of the authorization header: the bearer prefix and the token.
    pub fn bearer(&self) -> (r: String)
        ensures
            r@ == "Bearer "@ + self.token@,
    {
        let mut r = String::new();
        r.append("Bearer ");
        r.append(self.token.as_str());
        r
    }
}

/// Endpoint of the list-languages operation.
pub fn languages_url() -> (r: &'static str)
    ensures
        r@ == "https://translation.googleapis.com/language/translate/v2/languages"@,
{
    "https://translation.googleapis.com/language/translate/v2/languages"
}

/// Endpoint of the detect-language operation.
pub fn detect_url() -> (r: &'static str)
    ensures
        r@ == "https://translation.googleapis.com/language/translate/v2/detect"@,
{
    "https://translation.googleapis.com/language/translate/v2/detect"
}

/// Endpoint of the translate operation.
pub fn translate_url() -> (r: &'static str)
    ensures
        r@ == "https://translation.googleapis.com/language/translate/v2"@,
{
    "https://translation.googleapis.com/language/translate/v2"
}

/// Body of the list-languages request: the display names are asked for in
/// English.
pub fn languages_request_body() -> (r: &'static str)
    ensures
        r@ == "{\"target\": \"en\"}"@,
{
    "{\"target\": \"en\"}"
}

/// The detect request body on `text`: the text stands in it as a JSON
/// string literal.
pub open spec fn detect_request_model(text: Seq<char>) -> Seq<char> {
    "{\"q\": \""@ + json_escaped(text) + "\"}"@
}

/// Body of the detect-language request on `text`.
pub fn detect_request_body(text: &str) -> (r: String)
    ensures
        r@ == detect_request_model(text@),
{
    let mut r = String::new();
    r.append("{\"q\": \"");
    r.append(json_escape(text).as_str());
    r.append("\"}");
    proof {
        assert(r@ =~= detect_request_model(text@));
    }
    r
}

/// The lower-case hexadecimal digit of `n`, for `0 <= n < 16`.
pub open spec fn hex_digit(n: int) -> char {
    if n == 0 { '0' }
    else if n == 1 { '1' }
    else if n == 2 { '2' }
    else if n == 3 { '3' }
    else if n == 4 { '4' }
    else if n == 5 { '5' }
    else if n == 6 { '6' }
    else if n == 7 { '7' }
    else if n == 8 { '8' }
    else if n == 9 { '9' }
    else if n == 10 { 'a' }
    else if n == 11 { 'b' }
    else if n == 12 { 'c' }
    else if n == 13 { 'd' }
    else if n == 14 { 'e' }
    else { 'f' }
}

/// How one character stands inside a JSON string literal: quote and
/// backslash escaped, control characters as their named or numeric escapes,
/// everything else as itself.
pub open spec fn escape_char(c: char) -> Seq<char> {
    if c == '"' { seq!['\\', '"'] }
    else if c == '\\' { seq!['\\', '\\'] }
    else if c == '\u{0008}' { seq!['\\', 'b'] }
    else if c == '\u{0009}' { seq!['\\', 't'] }
    else if c == '\u{000A}' { seq!['\\', 'n'] }
    else if c == '\u{000C}' { seq!['\\', 'f'] }
    else if c == '\u{000D}' { seq!['\\', 'r'] }
    else if (c as u32) < 32 {
        seq!['\\', 'u', '0', '0', hex_digit(c as u32 as int / 16), hex_digit(c as u32 as int % 16)]
    } else {
        seq![c]
    }
}

/// The characters of `s` as they stand inside a JSON string literal.
pub open spec fn json_escaped(s: Seq<char>) -> Seq<char>
    decreases s.len(),
{
    if s.len() == 0 {
        Seq::empty()
    } else {
        escape_char(s[0]) + json_escaped(s.drop_first())
    }
}

pub proof fn lemma_json_escaped_push(s: Seq<char>, c: char)
    ensures
        json_escaped(s.push(c)) == json_escaped(s) + escape_char(c),
    decreases s.len(),
{
    if s.len() == 0 {
        reveal_with_fuel(json_escaped, 2);
        assert(s.push(c).drop_first() =~= Seq::<char>::empty());
        assert(json_escaped(s.push(c)) =~= json_escaped(s) + escape_char(c));
    } else {
        assert(s.push(c).drop_first() =~= s.drop_first().push(c));
        lemma_json_escaped_push(s.drop_first(), c);
        assert(json_escaped(s.push(c)) =~= json_escaped(s) + escape_char(c));
    }
}

/// Escapes `s` for use inside a JSON string literal.
pub fn json_escape(s: &str) -> (r: String)
    ensures
        r@ == json_escaped(s@),
{
    let n = s.unicode_len();
    let mut r = String::new();
    let mut i: usize = 0;
    while i < n
        invariant
            n == s@.len(),
            i <= n,
            r@ == json_escaped(s@.take(i as int)),
        decreases n - i,
    {
        let c = s.get_char(i);
        if c == '"' {
            r.append("\\\"");
            proof {
                reveal_strlit("\\\"");
                assert(r@ =~= json_escaped(s@.take(i as int)) + escape_char(c));
            }
        } else if c == '\\' {
            r.append("\\\\");
            proof {
                reveal_strlit("\\\\");
                assert(r@ =~= json_escaped(s@.take(i as int)) + escape_char(c));
            }
        } else if c == '\u{0008}' {
            r.append("\\b");
            proof {
                reveal_strlit("\\b");
                assert(r@ =~= json_escaped(s@.take(i as int)) + escape_char(c));
            }
        } else if c == '\u{0009}' {
            r.append("\\t");
            proof {
                reveal_strlit("\\t");
                assert(r@ =~= json_escaped(s@.take(i as int)) + escape_char(c));
            }
        } else if c == '\u{000A}' {
            r.append("\\n");
            proof {
                reveal_strlit("\\n");
                assert(r@ =~= json_escaped(s@.take(i as int)) + escape_char(c));
            }
        } else if c == '\u{000C}' {
            r.append("\\f");
            proof {
                reveal_strlit("\\f");
                assert(r@ =~= json_escaped(s@.take(i as int)) + escape_char(c));
            }
        } else if c == '\u{000D}' {
            r.append("\\r");
            proof {
                reveal_strlit("\\r");
                assert(r@ =~= json_escaped(s@.take(i as int)) + escape_char(c));
            }
        } else if (c as u32) < 32 {
            let digits = "0123456789abcdef";
            proof {
                reveal_strlit("0123456789abcdef");
                assert(digits.is_ascii());
            }
            let hi = ((c as u32) / 16) as usize;
            let lo = ((c as u32) % 16) as usize;
            r.append("\\u00");
            r.append(digits.substring_ascii(hi, hi + 1));
            r.append(digits.substring_ascii(lo, lo + 1));
            proof {
                reveal_strlit("\\u00");
                assert(digits@[hi as int] == hex_digit(hi as int));
                assert(digits@[lo as int] == hex_digit(lo as int));
                assert(digits@.subrange(hi as int, hi as int + 1)
                    =~= seq![hex_digit(hi as int)]);
                assert(digits@.subrange(lo as int, lo as int + 1)
                    =~= seq![hex_digit(lo as int)]);
                assert(r@ =~= json_escaped(s@.take(i as int)) + escape_char(c));
            }
        } else {
            let piece = s.substring_char(i, i + 1);
            r.append(piece);
            proof {
                assert(piece@ =~= seq![c]);
                assert(r@ =~= json_escaped(s@.take(i as int)) + escape_char(c));
            }
        }
        proof {
            lemma_json_escaped_push(s@.take(i as int), c);
            assert(s@.take(i + 1) =~= s@.take(i as int).push(c));
        }
        i += 1;
    }
    proof {
        assert(s@.take(n as int) =~= s@);
    }
    r
}

/// The translate request body: source, target and text stand in it as JSON
/// string literals, and the format is fixed to plain text.
pub open spec fn translate_request_model(from: Seq<char>, to: Seq<char>, text: Seq<char>)
    -> Seq<char> {
    "{\"q\": \""@ + json_escaped(text)
        + "\", \"source\": \""@ + json_escaped(from)
        + "\", \"target\": \""@ + json_escaped(to)
        + "\", \"format\": \"text\"}"@
}

/// Body of the translate request from `from` into `to` on `text`.
pub fn translate_request_body(from: &str, to: &str, text: &str) -> (r: String)
    ensures
        r@ == translate_request_model(from@, to@, text@),
{
    let mut r = String::new();
    r.append("{\"q\": \"");
    r.append(json_escape(text).as_str());
    r.append("\", \"source\": \"");
    r.append(json_escape(from).as_str());
    r.append("\", \"target\": \"");
    r.append(json_escape(to).as_str());
    r.append("\", \"format\": \"text\"}");
    proof {
        assert(r@ =~= translate_request_model(from@, to@, text@));
    }
    r
}

/// The code the detect response names: the language of the first detection
/// of the first candidate row, when the response has that shape.
pub open spec fn detect_model(j: Json) -> Option<Seq<char>> {
    match spec_member(j, "data"@) {
        Some(data) => match spec_member(data, "detections"@) {
            Some(detections) => match spec_element(detections, 0) {
                Some(row) => match spec_element(row, 0) {
                    Some(first) => match spec_member(first, "language"@) {
                        Some(lang) => spec_text(lang),
                        None => None,
                    },
                    None => None,
                },
                None => None,
            },
            None => None,
        },
        None => None,
    }
}

/// Reads the detected language code out of a detect response. A response of
/// any other shape is a client-level error, never silent empty data.
pub fn parse_detect_response(j: &Json) -> (r: Result<String, BackendError>)
    ensures
        match detect_model(*j) {
            Some(code) => r matches Ok(c) && c@ == code,
            None => r == Err::<String, BackendError>(BackendError::Shape),
        },
{
    let data = match member(j, "data") {
        Some(v) => v,
        None => { return Err(BackendError::Shape); },
    };
    let detections = match member(data, "detections") {
        Some(v) => v,
        None => { return Err(BackendError::Shape); },
    };
    let row = match element(detections, 0) {
        Some(v) => v,
        None => { return Err(BackendError::Shape); },
    };
    let first = match element(row, 0) {
        Some(v) => v,
        None => { return Err(BackendError::Shape); },
    };
    let lang = match member(first, "language") {
        Some(v) => v,
        None => { return Err(BackendError::Shape); },
    };
    match text(lang) {
        Some(code) => Ok(code.clone()),
        None => Err(BackendError::Shape),
    }
}

/// The translated text the translate response carries, when the fixed
/// navigation path down to the translated-text field holds a string.
pub open spec fn translate_model(j: Json) -> Option<Seq<char>> {
    match spec_member(j, "data"@) {
        Some(data) => match spec_member(data, "translations"@) {
            Some(translations) => match spec_element(translations, 0) {
                Some(first) => match spec_member(first, "translatedText"@) {
                    Some(t) => spec_text(t),
                    None => None,
                },
                None => None,
            },
            None => None,
        },
        None => None,
    }
}

/// What the translate operation yields on response `j`: the translated text,
/// or the sentinel text when the response lacks the translated-text field.
pub open spec fn translated_text_or_sentinel(j: Json) -> Seq<char> {
    match translate_model(j) {
        Some(t) => t,
        None => "<error>"@,
    }
}

/// Reads the translated text out of a translate response. A response that
/// lacks the translated-text field degrades to the sentinel text instead of
/// failing; this leniency is deliberate and preserved.
pub fn parse_translate_response(j: &Json) -> (r: String)
    ensures
        r@ == translated_text_or_sentinel(*j),
{
    let data = match member(j, "data") {
        Some(v) => v,
        None => { return String::from_str("<error>"); },
    };
    let translations = match member(data, "translations") {
        Some(v) => v,
        None => { return String::from_str("<error>"); },
    };
    let first = match element(translations, 0) {
        Some(v) => v,
        None => { return String::from_str("<error>"); },
    };
    let t = match member(first, "translatedText") {
        Some(v) => v,
        None => { return String::from_str("<error>"); },
    };
    match text(t) {
        Some(s) => s.clone(),
        None => String::from_str("<error>"),
    }
}

/// Law: a translate response without the translated-text field yields
/// exactly the sentinel text, and yields it as an ordinary value, not an
/// error.
pub proof fn lemma_missing_translation_degrades(j: Json)
    requires
        translate_model(j) is None,
    ensures
        translated_text_or_sentinel(j) == "<error>"@,
{
}

/// One (display name, code) pair of the language-list response.
pub open spec fn entry_model(j: Json) -> Option<(Seq<char>, Seq<char>)> {
    match spec_member(j, "name"@) {
        Some(n) => match spec_text(n) {
            Some(name) => match spec_member(j, "language"@) {
                Some(l) => match spec_text(l) {
                    Some(code) => Some((name, code)),
                    None => None,
                },
                None => None,
            },
            None => None,
        },
        None => None,
    }
}

/// The array the language-list response carries under its fixed path.
pub open spec fn languages_array(j: Json) -> Option<Seq<Json>> {
    match spec_member(j, "data"@) {
        Some(data) => match spec_member(data, "languages"@) {
            Some(Json::Arr(items)) => Some(items@),
            _ => None,
        },
        None => None,
    }
}

/// The (display name, code) pairs of the whole array, or `None` when any
/// entry lacks one of its two string fields.
pub open spec fn entries_model(items: Seq<Json>) -> Option<Seq<(Seq<char>, Seq<char>)>>
    decreases items.len(),
{
    if items.len() == 0 {
        Some(Seq::empty())
    } else {
        match entries_model(items.drop_last()) {
            None => None,
            Some(rest) => match entry_model(items.last()) {
                None => None,
                Some(p) => Some(rest.push(p)),
            },
        }
    }
}

/// The pairs of the language-list response `j`, when it has the documented
/// shape throughout.
pub open spec fn languages_model(j: Json) -> Option<Seq<(Seq<char>, Seq<char>)>> {
    match languages_array(j) {
        Some(items) => entries_model(items),
        None => None,
    }
}

pub proof fn lemma_entries_none(items: Seq<Json>, i: int)
    requires
        0 <= i < items.len(),
        entry_model(items[i]) is None,
    ensures
        entries_model(items) is None,
    decreases items.len(),
{
    if i < items.len() - 1 {
        lemma_entries_none(items.drop_last(), i);
    }
}

/// Reads all (display name, code) pairs out of a language-list response.
/// A response of any other shape is a client-level error.
pub fn parse_languages_response(j: &Json) -> (r: Result<Vec<(String, String)>, BackendError>)
    ensures
        match languages_model(*j) {
            Some(ps) => r matches Ok(v) && pairs_view(v@) == ps,
            None => r == Err::<Vec<(String, String)>, BackendError>(BackendError::Shape),
        },
{
    let data = match member(j, "data") {
        Some(v) => v,
        None => { return Err(BackendError::Shape); },
    };
    let languages = match member(data, "languages") {
        Some(v) => v,
        None => { return Err(BackendError::Shape); },
    };
    let items = match languages {
        Json::Arr(items) => items,
        _ => { return Err(BackendError::Shape); },
    };
    let mut out: Vec<(String, String)> = Vec::new();
    let mut i: usize = 0;
    proof {
        assert(items@.take(0) =~= Seq::<Json>::empty());
    }
    while i < items.len()
        invariant
            languages_array(*j) == Some(items@),
            i <= items@.len(),
            entries_model(items@.take(i as int)) == Some(pairs_view(out@)),
        decreases items@.len() - i,
    {
        let ghost before = pairs_view(out@);
        let item = &items[i];
        let name = match member(item, "name") {
            Some(v) => v,
            None => {
                proof { lemma_entries_none(items@, i as int); }
                return Err(BackendError::Shape);
            },
        };
        let name_s = match text(name) {
            Some(s) => s,
            None => {
                proof { lemma_entries_none(items@, i as int); }
                return Err(BackendError::Shape);
            },
        };
        let code = match member(item, "language") {
            Some(v) => v,
            None => {
                proof { lemma_entries_none(items@, i as int); }
                return Err(BackendError::Shape);
            },
        };
        let code_s = match text(code) {
            Some(s) => s,
            None => {
                proof { lemma_entries_none(items@, i as int); }
                return Err(BackendError::Shape);
            },
        };
        out.push((name_s.clone(), code_s.clone()));
        proof {
            assert(items@.take(i + 1).drop_last() =~= items@.take(i as int));
            assert(items@.take(i + 1).last() == items@[i as int]);
            assert(entry_model(items@[i as int]) == Some((name_s@, code_s@)));
            assert(pairs_view(out@) =~= before.push((name_s@, code_s@)));
        }
        i += 1;
    }
    proof {
        assert(items@.take(items@.len() as int) =~= items@);
    }
    Ok(out)
}

} // verus!
