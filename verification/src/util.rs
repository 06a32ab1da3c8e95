//! Connection details of the running client, as its process list shows them.
use vstd::prelude::*;
use vstd::utf8::{decode_utf8, encode_utf8, encode_utf8_decode_utf8, valid_utf8};
use crate::lcu_api::{base64_encoding, basic_authorization, basic_authorization_spec};
use crate::text::{parse_u16, parse_u16_spec};

verus! {

/// The pattern that finds the password and port in the client's command
/// line, in the regex crate's verbose syntax.
pub const CLIENT_PROCESS_PATTERN: &'static str = r"(?x)
            --remoting-auth-token=([\w\-_]*)
            (?:.*)
            --app-port=(\d*)";

/// The capture groups of the first match of `pattern` in `haystack`, group 0
/// being the whole match; `Some(None)` when nothing matches, and `None` when
/// `pattern` is not a valid regex.
pub uninterp spec fn regex_captures(pattern: Seq<char>, haystack: Seq<char>) -> Option<
    Option<Seq<Option<Seq<char>>>>,
>;

/// `regex::Regex::new(pattern)`, then `captures(haystack)` and the text of
/// each group. Claims only that the result is a function of the pattern and
/// the haystack.
#[verifier::external_body]
fn capture_groups(pattern: &str, haystack: &str) -> (r: Option<Option<Vec<Option<String>>>>)
    ensures
        r.deep_view() == regex_captures(pattern@, haystack@),
{
    match regex::Regex::new(pattern) {
        Ok(re) => Some(
            re.captures(haystack).map(
                |caps| caps.iter().map(|m| m.map(|m| m.as_str().to_string())).collect(),
            ),
        ),
        Err(_) => None,
    }
}

/// `String::from_utf8`: the text that `bytes` encode, exactly when they are
/// valid UTF-8.
#[verifier::external_body]
fn utf8_text(bytes: Vec<u8>) -> (r: Option<String>)
    ensures
        r is Some <==> valid_utf8(bytes@),
        r matches Some(s) ==> encode_utf8(s@) == bytes@,
{
    String::from_utf8(bytes).ok()
}

/// Why the process list gave no connection details.
#[derive(Clone, Copy, Debug, PartialEq, Eq, Structural)]
pub enum ProcessInfoError {
    /// The process list is not UTF-8 text.
    InvalidUtf8,
    /// The search pattern does not compile.
    InvalidPattern,
    /// No client command line is in the process list.
    ClientNotFound,
    /// The port in the command line is not a port number.
    InvalidPort,
}

/// The port and authorization value that the capture groups of the client's
/// command line give: group 1 is the password, group 2 the port.
pub open spec fn captured_connect_info(
    captures: Option<Option<Seq<Option<Seq<char>>>>>,
) -> Result<(u16, Seq<char>), ProcessInfoError> {
    match captures {
        None => Err(ProcessInfoError::InvalidPattern),
        Some(None) => Err(ProcessInfoError::ClientNotFound),
        Some(Some(groups)) => if groups.len() < 2 || groups[1] is None {
            Err(ProcessInfoError::ClientNotFound)
        } else if groups.len() < 3 || groups[2] is None {
            Err(ProcessInfoError::ClientNotFound)
        } else {
            match parse_u16_spec(groups[2]->0) {
                None => Err(ProcessInfoError::InvalidPort),
                Some(port) => Ok((port, basic_authorization_spec(groups[1]->0))),
            }
        },
    }
}

/// The port and authorization value that the capture groups of the client's
/// command line give.
pub fn lcu_info_from_captures(captures: Option<Option<Vec<Option<String>>>>) -> (r: Result<
    (u16, String),
    ProcessInfoError,
>)
    ensures
        match r {
            Ok((port, token)) => captured_connect_info(captures.deep_view()) == Ok::<(u16, Seq<char>), ProcessInfoError>((port, token@)),
            Err(e) => captured_connect_info(captures.deep_view()) == Err::<(u16, Seq<char>), ProcessInfoError>(e),
        },
        r matches Ok((port, token)) ==> captures.deep_view() matches Some(Some(g)) && g.len() >= 3
            && g[1] is Some && g[2] is Some && parse_u16_spec(g[2]->0) == Some(port) && token@
            == "Basic "@ + base64_encoding(encode_utf8("riot:"@ + g[1]->0)),
{
    let groups = match captures {
        None => return Err(ProcessInfoError::InvalidPattern),
        Some(None) => return Err(ProcessInfoError::ClientNotFound),
        Some(Some(groups)) => groups,
    };
    if groups.len() < 2 {
        return Err(ProcessInfoError::ClientNotFound);
    }
    let token = match &groups[1] {
        Some(t) => t,
        None => return Err(ProcessInfoError::ClientNotFound),
    };
    if groups.len() < 3 {
        return Err(ProcessInfoError::ClientNotFound);
    }
    let port_text = match &groups[2] {
        Some(p) => p,
        None => return Err(ProcessInfoError::ClientNotFound),
    };
    assert(groups.deep_view()[1] == groups@[1].deep_view());
    assert(groups.deep_view()[2] == groups@[2].deep_view());
    let port = match parse_u16(port_text.as_str()) {
        Some(p) => p,
        None => return Err(ProcessInfoError::InvalidPort),
    };
    Ok((port, basic_authorization(token.as_str())))
}

/// The port and authorization value that the process list `output` gives:
/// the first match of [`CLIENT_PROCESS_PATTERN`] in it.
pub open spec fn process_connect_info(output: Seq<u8>) -> Result<(u16, Seq<char>), ProcessInfoError> {
    if !valid_utf8(output) {
        Err(ProcessInfoError::InvalidUtf8)
    } else {
        captured_connect_info(regex_captures(CLIENT_PROCESS_PATTERN@, decode_utf8(output)))
    }
}

/// The client's details come from the process list itself, as it reads:
/// the port is the number in the second group of the first match of
/// [`CLIENT_PROCESS_PATTERN`] in the decoded text, and the authorization
/// value carries the first group's password unchanged.
pub proof fn lemma_process_connect_info(output: Seq<u8>)
    ensures
        (process_connect_info(output) == Err::<(u16, Seq<char>), ProcessInfoError>(
            ProcessInfoError::InvalidUtf8,
        )) == !valid_utf8(output),
        process_connect_info(output) matches Ok((port, token)) ==> regex_captures(
            CLIENT_PROCESS_PATTERN@,
            decode_utf8(output),
        ) matches Some(Some(g)) && g.len() >= 3 && g[1] is Some && g[2] is Some && parse_u16_spec(
            g[2]->0,
        ) == Some(port) && token == "Basic "@ + base64_encoding(encode_utf8("riot:"@ + g[1]->0)),
{
}

/// The port and authorization value of the running client, found in the
/// process list's entry for the client's user interface.
pub fn lcu_info_from_process_list(output: Vec<u8>) -> (r: Result<(u16, String), ProcessInfoError>)
    ensures
        match r {
            Ok((port, token)) => process_connect_info(output@) == Ok::<(u16, Seq<char>), ProcessInfoError>((port, token@)),
            Err(e) => process_connect_info(output@) == Err::<(u16, Seq<char>), ProcessInfoError>(e),
        },
        (r == Err::<(u16, String), ProcessInfoError>(ProcessInfoError::InvalidUtf8)) == !valid_utf8(
            output@,
        ),
        valid_utf8(output@) ==> match r {
            Ok((port, token)) => captured_connect_info(
                regex_captures(CLIENT_PROCESS_PATTERN@, decode_utf8(output@)),
            ) == Ok::<(u16, Seq<char>), ProcessInfoError>((port, token@)),
            Err(e) => captured_connect_info(
                regex_captures(CLIENT_PROCESS_PATTERN@, decode_utf8(output@)),
            ) == Err::<(u16, Seq<char>), ProcessInfoError>(e),
        },
        r matches Ok((port, token)) ==> regex_captures(
            CLIENT_PROCESS_PATTERN@,
            decode_utf8(output@),
        ) matches Some(Some(g)) && g.len() >= 3 && g[1] is Some && g[2] is Some && parse_u16_spec(
            g[2]->0,
        ) == Some(port) && token@ == "Basic "@ + base64_encoding(encode_utf8("riot:"@ + g[1]->0)),
{
    let ghost bytes = output@;
    let text = match utf8_text(output) {
        Some(text) => text,
        None => return Err(ProcessInfoError::InvalidUtf8),
    };
    proof {
        encode_utf8_decode_utf8(text@);
    }
    let captures = capture_groups(CLIENT_PROCESS_PATTERN, text.as_str());
    lcu_info_from_captures(captures)
}

} // verus!
