//! Header strings: their syntax, and the names and values HTTP accepts.

use vstd::prelude::*;

use crate::error::ConfigError;
use crate::pairs::upsert;
use crate::text::ascii_lower;
use crate::text::chars_of;
use crate::text::find_pair;
use crate::text::first_pair_index;
use crate::text::slice_text;
use crate::text::trim;
use crate::text::trim_bounds;

verus! {

/// The characters of an HTTP token: letters, digits and
/// ``! # $ % & ' * + - . ^ _ ` | ~``.
pub open spec fn is_token_char(c: char) -> bool {
    let n = c as u32;
    ||| 0x30 <= n <= 0x39
    ||| 0x41 <= n <= 0x5A
    ||| 0x61 <= n <= 0x7A
    ||| c == '!'
    ||| c == '#'
    ||| c == '$'
    ||| c == '%'
    ||| c == '&'
    ||| c == '\''
    ||| c == '*'
    ||| c == '+'
    ||| c == '-'
    ||| c == '.'
    ||| c == '^'
    ||| c == '_'
    ||| c == '`'
    ||| c == '|'
    ||| c == '~'
}

/// Longest header name, in characters.
pub const MAX_HEADER_NAME_LEN: usize = 65535;

/// Whether `s` can name a header: a token of 1 to 65535 characters.
pub open spec fn is_header_name(s: Seq<char>) -> bool {
    &&& 1 <= s.len() <= MAX_HEADER_NAME_LEN
    &&& forall|i: int| 0 <= i < s.len() ==> is_token_char(#[trigger] s[i])
}

/// Whether `s` can be the value of a header: no control character but the tab.
pub open spec fn is_header_value(s: Seq<char>) -> bool {
    forall|i: int|
        0 <= i < s.len() ==> {
            let n = (#[trigger] s[i]) as u32;
            (n >= 0x20 && n != 0x7F) || n == 0x09
        }
}

/// The error of `HeaderName::from_bytes`.
#[verifier::external_type_specification]
#[verifier::external_body]
pub struct ExInvalidHeaderName(reqwest::header::InvalidHeaderName);

/// The error of `HeaderValue::from_str`.
#[verifier::external_type_specification]
#[verifier::external_body]
pub struct ExInvalidHeaderValue(reqwest::header::InvalidHeaderValue);

/// `reqwest::header::HeaderName::from_bytes` on the bytes of `raw`, and `as_str` on the
/// name it gives. Trusted: the call succeeds exactly on the tokens of 1 to 65535
/// characters, and the name it gives is the argument in ASCII small letters.
#[verifier::external_body]
fn canonical_header_name(raw: &str) -> (r: Result<String, reqwest::header::InvalidHeaderName>)
    ensures
        match r {
            Ok(name) => is_header_name(raw@) && name@ == ascii_lower(raw@),
            Err(_) => !is_header_name(raw@),
        },
{
    match reqwest::header::HeaderName::from_bytes(raw.as_bytes()) {
        Ok(name) => Ok(name.as_str().to_owned()),
        Err(e) => Err(e),
    }
}

/// `reqwest::header::HeaderValue::from_str`. Trusted: the call succeeds exactly when no
/// character of the argument is a control character other than the tab.
#[verifier::external_body]
fn check_header_value(value: &str) -> (r: Result<(), reqwest::header::InvalidHeaderValue>)
    ensures
        r is Ok <==> is_header_value(value@),
{
    match reqwest::header::HeaderValue::from_str(value) {
        Ok(_) => Ok(()),
        Err(e) => Err(e),
    }
}

/// The header that a raw `name: value` string stands for. The string is split at its
/// first `": "`; both sides are trimmed; the name is put in small letters. A string
/// without `": "`, with a name that is no token, or with a value that HTTP does not
/// allow, is an error, looked for in this order.
pub open spec fn header_entry(line: Seq<char>) -> Result<(Seq<char>, Seq<char>), ConfigError> {
    let at = first_pair_index(line, ':', ' ');
    if at >= line.len() {
        Err(ConfigError::MalformedHeader)
    } else {
        let name = trim(line.subrange(0, at));
        let value = trim(line.subrange(at + 2, line.len() as int));
        if !is_header_name(name) {
            Err(ConfigError::InvalidHeaderName)
        } else if !is_header_value(value) {
            Err(ConfigError::InvalidHeaderValue)
        } else {
            Ok((ascii_lower(name), value))
        }
    }
}

/// The headers that a list of raw strings stands for, taken in order: a later header
/// replaces an earlier one of the same name. The first string in error decides the error.
pub open spec fn plain_headers(lines: Seq<Seq<char>>) -> Result<
    Seq<(Seq<char>, Seq<char>)>,
    ConfigError,
>
    decreases lines.len(),
{
    if lines.len() == 0 {
        Ok(Seq::empty())
    } else {
        match plain_headers(lines.drop_last()) {
            Err(e) => Err(e),
            Ok(list) => match header_entry(lines.last()) {
                Err(e) => Err(e),
                Ok(entry) => Ok(upsert(list, entry.0, entry.1)),
            },
        }
    }
}

/// The cookies joined by `"; "`.
pub open spec fn join_cookies(cookies: Seq<Seq<char>>) -> Seq<char>
    decreases cookies.len(),
{
    if cookies.len() == 0 {
        Seq::empty()
    } else if cookies.len() == 1 {
        cookies[0]
    } else {
        join_cookies(cookies.drop_last()) + seq![';', ' '] + cookies.last()
    }
}

/// The name of the header that carries the cookies.
pub open spec fn cookie_header_name() -> Seq<char> {
    seq!['c', 'o', 'o', 'k', 'i', 'e']
}

/// The headers of a target with the given raw header strings and cookies. With no
/// cookie there is no cookie header; otherwise it holds the joined cookies and replaces
/// a cookie header among the raw strings.
pub open spec fn header_list(headers: Seq<Seq<char>>, cookies: Seq<Seq<char>>) -> Result<
    Seq<(Seq<char>, Seq<char>)>,
    ConfigError,
> {
    match plain_headers(headers) {
        Err(e) => Err(e),
        Ok(list) => if cookies.len() == 0 {
            Ok(list)
        } else if !is_header_value(join_cookies(cookies)) {
            Err(ConfigError::InvalidHeaderValue)
        } else {
            Ok(upsert(list, cookie_header_name(), join_cookies(cookies)))
        },
    }
}

/// Tests a header or cookie value.
pub fn value_is_valid(value: &str) -> (valid: bool)
    ensures
        valid == is_header_value(value@),
{
    match check_header_value(value) {
        Ok(_) => true,
        Err(_) => false,
    }
}

/// Reads one raw header string.
pub fn parse_header(line: &str) -> (r: Result<(String, String), ConfigError>)
    ensures
        match r {
            Ok(entry) => header_entry(line@) == Ok::<(Seq<char>, Seq<char>), ConfigError>(
                entry.deep_view(),
            ),
            Err(e) => header_entry(line@) == Err::<(Seq<char>, Seq<char>), ConfigError>(e),
        },
{
    let chars = chars_of(line);
    let n = chars.len();
    let at = find_pair(&chars, ':', ' ');
    if at >= n {
        return Err(ConfigError::MalformedHeader);
    }
    let (a, b) = trim_bounds(&chars, 0, at);
    let (c, d) = trim_bounds(&chars, at + 2, n);
    let raw_name = slice_text(line, a, b);
    let name = match canonical_header_name(raw_name.as_str()) {
        Ok(name) => name,
        Err(_) => {
            return Err(ConfigError::InvalidHeaderName);
        },
    };
    let value = slice_text(line, c, d);
    if value_is_valid(value.as_str()) {
        Ok((name, value))
    } else {
        Err(ConfigError::InvalidHeaderValue)
    }
}

} // verus!
