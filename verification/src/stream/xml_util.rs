//! The lexical forms that the XML of a log is held to: names, tokens, URIs
//! and booleans.

use vstd::prelude::*;
use vstd::string::*;

use crate::error::{Error, ErrorView};
use crate::text::{chars_of, debug_quoted, quoted};

verus! {

/// The boolean that a text denotes.
pub open spec fn bool_value(text: Seq<char>) -> Option<bool> {
    if text == "true"@ {
        Some(true)
    } else if text == "false"@ {
        Some(false)
    } else {
        None
    }
}

/// Reads `true` or `false`; any other text is refused, and the error holds it.
pub fn parse_bool(text: &str) -> (r: Result<bool, Error>)
    ensures
        match r {
            Ok(b) => bool_value(text@) == Some(b),
            Err(e) => bool_value(text@) is None && e@ == ErrorView::ParseBooleanError(text@),
        },
{
    if crate::text::same_text(text, "true") {
        Ok(true)
    } else if crate::text::same_text(text, "false") {
        Ok(false)
    } else {
        Err(Error::ParseBooleanError(String::from_str(text)))
    }
}

/// True of the characters with which an XML name may begin.
pub open spec fn is_name_start(c: char) -> bool {
    let u = c as u32;
    ||| c == ':'
    ||| c == '_'
    ||| 'A' <= c <= 'Z'
    ||| 'a' <= c <= 'z'
    ||| 0xC0 <= u <= 0xD6
    ||| 0xD8 <= u <= 0xF6
    ||| 0xF8 <= u <= 0x2FF
    ||| 0x370 <= u <= 0x37D
    ||| 0x37F <= u <= 0x1FFF
    ||| 0x200C <= u <= 0x200D
    ||| 0x2070 <= u <= 0x218F
    ||| 0x2C00 <= u <= 0x2FEF
    ||| 0x3001 <= u <= 0xD7FF
    ||| 0xF900 <= u <= 0xFDCF
    ||| 0xFDF0 <= u <= 0xFFFD
    ||| 0x10000 <= u <= 0xEFFFF
}

/// True of the characters of which an XML name may consist.
pub open spec fn is_name_char(c: char) -> bool {
    let u = c as u32;
    ||| is_name_start(c)
    ||| c == '-'
    ||| c == '.'
    ||| '0' <= c <= '9'
    ||| u == 0xB7
    ||| 0x300 <= u <= 0x36F
    ||| 0x203F <= u <= 0x2040
}

/// True of an XML name: a character with which a name may begin, and then
/// characters of which a name may consist.
pub open spec fn is_name(text: Seq<char>) -> bool {
    &&& text.len() > 0
    &&& is_name_start(text[0])
    &&& forall|i: int| 0 <= i < text.len() ==> is_name_char(#[trigger] text[i])
}

/// True of an XML name without a colon.
pub open spec fn is_ncname(text: Seq<char>) -> bool {
    &&& is_name(text)
    &&& forall|i: int| 0 <= i < text.len() ==> #[trigger] text[i] != ':'
}

/// True of an XML token: no tab, line feed or carriage return, no space at
/// either end, no two spaces in a row.
pub open spec fn is_token(text: Seq<char>) -> bool {
    &&& forall|i: int|
        0 <= i < text.len() ==> {
            let c = #[trigger] text[i];
            c != '\t' && c != '\n' && c != '\r'
        }
    &&& text.len() > 0 ==> text[0] != ' ' && text.last() != ' '
    &&& forall|i: int| 0 < i < text.len() ==> !(#[trigger] text[i] == ' ' && text[i - 1] == ' ')
}

/// True of the characters that may stand in a URI reference as they are:
/// none of the control characters, the space, or the delimiters that a URI
/// must escape.
pub open spec fn is_uri_char(c: char) -> bool {
    let u = c as u32;
    &&& u > 0x20
    &&& u != 0x7F
    &&& c != '<'
    &&& c != '>'
    &&& c != '"'
    &&& c != '{'
    &&& c != '}'
    &&& c != '|'
    &&& c != '\\'
    &&& c != '^'
    &&& c != '`'
}

/// True of a URI reference: every character may stand in one.
pub open spec fn is_uri(text: Seq<char>) -> bool {
    forall|i: int| 0 <= i < text.len() ==> is_uri_char(#[trigger] text[i])
}

fn name_start(c: char) -> (r: bool)
    ensures
        r == is_name_start(c),
{
    let u = c as u32;
    c == ':' || c == '_' || ('A' <= c && c <= 'Z') || ('a' <= c && c <= 'z') || (0xC0 <= u && u
        <= 0xD6) || (0xD8 <= u && u <= 0xF6) || (0xF8 <= u && u <= 0x2FF) || (0x370 <= u && u
        <= 0x37D) || (0x37F <= u && u <= 0x1FFF) || (0x200C <= u && u <= 0x200D) || (0x2070 <= u
        && u <= 0x218F) || (0x2C00 <= u && u <= 0x2FEF) || (0x3001 <= u && u <= 0xD7FF) || (0xF900
        <= u && u <= 0xFDCF) || (0xFDF0 <= u && u <= 0xFFFD) || (0x10000 <= u && u <= 0xEFFFF)
}

fn name_char(c: char) -> (r: bool)
    ensures
        r == is_name_char(c),
{
    let u = c as u32;
    name_start(c) || c == '-' || c == '.' || ('0' <= c && c <= '9') || u == 0xB7 || (0x300 <= u
        && u <= 0x36F) || (0x203F <= u && u <= 0x2040)
}

fn uri_char(c: char) -> (r: bool)
    ensures
        r == is_uri_char(c),
{
    let u = c as u32;
    u > 0x20 && u != 0x7F && c != '<' && c != '>' && c != '"' && c != '{' && c != '}' && c != '|'
        && c != '\\' && c != '^' && c != '`'
}

/// The error for a text that has not the form that is asked for.
pub open spec fn refusal(form: Seq<char>, text: Seq<char>) -> ErrorView {
    ErrorView::ValidationError(debug_quoted(text) + " is no valid "@ + form)
}

fn refuse(form: &str, text: &str) -> (e: Error)
    ensures
        e@ == refusal(form@, text@),
{
    Error::ValidationError(quoted(text).concat(" is no valid ").concat(form))
}

fn name_check(chars: &Vec<char>, colon: bool) -> (r: bool)
    ensures
        r == if colon {
            is_name(chars@)
        } else {
            is_ncname(chars@)
        },
{
    if chars.len() == 0 {
        return false;
    }
    if !name_start(chars[0]) {
        return false;
    }
    let mut i: usize = 0;
    while i < chars.len()
        invariant
            0 <= i <= chars@.len(),
            chars@.len() > 0,
            is_name_start(chars@[0]),
            forall|j: int| 0 <= j < i ==> is_name_char(#[trigger] chars@[j]),
            !colon ==> forall|j: int| 0 <= j < i ==> #[trigger] chars@[j] != ':',
        decreases chars@.len() - i,
    {
        if !name_char(chars[i]) {
            return false;
        }
        if !colon && chars[i] == ':' {
            return false;
        }
        i = i + 1;
    }
    true
}

/// Accepts an XML name and hands it back.
pub fn validate_name<'a>(text: &'a str) -> (r: Result<&'a str, Error>)
    ensures
        match r {
            Ok(s) => is_name(text@) && s@ == text@,
            Err(e) => !is_name(text@) && e@ == refusal("Name"@, text@),
        },
{
    let chars = chars_of(text);
    if name_check(&chars, true) {
        Ok(text)
    } else {
        Err(refuse("Name", text))
    }
}

/// Accepts an XML name without a colon and hands it back.
pub fn validate_ncname<'a>(text: &'a str) -> (r: Result<&'a str, Error>)
    ensures
        match r {
            Ok(s) => is_ncname(text@) && s@ == text@,
            Err(e) => !is_ncname(text@) && e@ == refusal("NCName"@, text@),
        },
{
    let chars = chars_of(text);
    if name_check(&chars, false) {
        Ok(text)
    } else {
        Err(refuse("NCName", text))
    }
}

/// Accepts an XML token and hands it back.
pub fn validate_token<'a>(text: &'a str) -> (r: Result<&'a str, Error>)
    ensures
        match r {
            Ok(s) => is_token(text@) && s@ == text@,
            Err(e) => !is_token(text@) && e@ == refusal("token"@, text@),
        },
{
    let chars = chars_of(text);
    let n = chars.len();
    if n > 0 && (chars[0] == ' ' || chars[n - 1] == ' ') {
        return Err(refuse("token", text));
    }
    let mut i: usize = 0;
    while i < n
        invariant
            n == chars@.len(),
            chars@ == text@,
            0 <= i <= n,
            forall|j: int|
                0 <= j < i ==> {
                    let c = #[trigger] chars@[j];
                    c != '\t' && c != '\n' && c != '\r'
                },
            forall|j: int| 0 < j < i ==> !(#[trigger] chars@[j] == ' ' && chars@[j - 1] == ' '),
        decreases n - i,
    {
        let c = chars[i];
        if c == '\t' || c == '\n' || c == '\r' {
            return Err(refuse("token", text));
        }
        if i > 0 && c == ' ' && chars[i - 1] == ' ' {
            return Err(refuse("token", text));
        }
        i = i + 1;
    }
    Ok(text)
}

/// Accepts a URI reference and hands it back.
pub fn validate_uri<'a>(text: &'a str) -> (r: Result<&'a str, Error>)
    ensures
        match r {
            Ok(s) => is_uri(text@) && s@ == text@,
            Err(e) => !is_uri(text@) && e@ == refusal("anyURI"@, text@),
        },
{
    let chars = chars_of(text);
    let mut i: usize = 0;
    while i < chars.len()
        invariant
            chars@ == text@,
            0 <= i <= chars@.len(),
            forall|j: int| 0 <= j < i ==> is_uri_char(#[trigger] chars@[j]),
        decreases chars@.len() - i,
    {
        if !uri_char(chars[i]) {
            return Err(refuse("anyURI", text));
        }
        i = i + 1;
    }
    Ok(text)
}

} // verus!
