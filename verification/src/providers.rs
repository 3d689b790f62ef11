//! What both provider adapters share: the normalized reply type, the shape
//! of an outgoing HTTP request, and the two trusted bridges to the outside
//! world — URL joining and the blocking HTTP POST itself.

use vstd::prelude::*;
use crate::types::{Message, MessageV, Usage};
use crate::json::{Json, JsonV, lookup_field, lookup_fields, dup_chars};
use crate::strutil::{dec_int, i64_to_dec_chars, str_to_chars, chars_to_string, append_chars};

verus! {

/// A provider's reply, normalized: the assistant message and the token
/// usage it reported.
#[derive(Debug)]
pub struct ChatResponse {
    pub message: Message,
    pub usage: Option<Usage>,
}

/// The mathematical shape of a normalized reply.
pub struct ChatResponseV {
    pub message: MessageV,
    pub usage: Option<Usage>,
}

impl View for ChatResponse {
    type V = ChatResponseV;

    open spec fn view(&self) -> ChatResponseV {
        ChatResponseV { message: self.message@, usage: self.usage }
    }
}

/// One ready-to-send HTTP request: where to post, which headers to set, and
/// the serialized body.
#[derive(Debug)]
pub struct HttpParts {
    pub url: String,
    pub headers: Vec<(String, String)>,
    pub body: String,
}

/// The views of a header list.
pub open spec fn views_of_headers(s: Seq<(String, String)>) -> Seq<(Seq<char>, Seq<char>)> {
    Seq::new(s.len(), |i: int| (s[i].0@, s[i].1@))
}

/// Appends one header to a list under construction.
pub fn push_header(headers: &mut Vec<(String, String)>, key: &str, value: String)
    ensures
        views_of_headers(final(headers)@) == views_of_headers(old(headers)@).push(
            (key@, value@),
        ),
{
    let ghost snap = headers@;
    headers.push((key.to_owned(), value));
    proof {
        assert(views_of_headers(headers@) =~= views_of_headers(snap).push((key@, value@)));
    }
}

/// Whether `rel` resolves against the absolute URL `base`.
pub uninterp spec fn url_join_ok(base: Seq<char>, rel: Seq<char>) -> bool;

/// The URL that resolving `rel` against `base` yields.
pub uninterp spec fn url_join(base: Seq<char>, rel: Seq<char>) -> Seq<char>;

/// Relies on `reqwest::Url::parse` and `reqwest::Url::join`: parsing an
/// absolute URL and resolving a relative reference against it depend on the
/// two strings alone.
#[verifier::external_body]
pub(crate) fn join_url(base: &str, rel: &str) -> (r: Option<String>)
    ensures
        r is Some <==> url_join_ok(base@, rel@),
        r matches Some(u) ==> u@ == url_join(base@, rel@),
{
    reqwest::Url::parse(base).and_then(|b| b.join(rel)).map(|u| u.to_string()).ok()
}

/// Relies on `reqwest::blocking`: performs exactly one HTTP POST of `body`
/// to `url` with the given headers and a 60-second timeout, returning the
/// response status and body text, or a transport error. What comes back
/// depends on the network, so nothing is promised of it.
#[verifier::external_body]
pub(crate) fn http_post(url: &str, headers: &Vec<(String, String)>, body: &str) -> Result<
    (u16, String),
    String,
> {
    let client = reqwest::blocking::Client::builder().timeout(
        core::time::Duration::from_secs(60),
    ).build().map_err(|e| format!("Request failed: {}", e))?;
    let mut req = client.post(url).body(body.to_owned());
    for (k, v) in headers.iter() {
        req = req.header(k.as_str(), v.as_str());
    }
    let resp = req.send().map_err(|e| format!("Request failed: {}", e))?;
    let status = resp.status().as_u16();
    let text = resp.text().map_err(|e| format!("Failed to read response: {}", e))?;
    Ok((status, text))
}

/// The message of an embedded error object, if the body carries one.
pub open spec fn error_message(v: JsonV) -> Option<Seq<char>> {
    match lookup_field(v, "error"@) {
        Some(JsonV::Obj(fs)) => match lookup_fields(fs, "message"@) {
            Some(JsonV::Str(m)) => Some(m),
            _ => None,
        },
        _ => None,
    }
}

/// The error string for a failing HTTP status: the embedded message when one
/// can be read, annotated with the status code.
pub open spec fn status_error_msg(status: int, em: Option<Seq<char>>) -> Seq<char> {
    match em {
        Some(m) => m + " (status "@ + dec_int(status) + seq![')'],
        None => "request failed with status "@ + dec_int(status),
    }
}

/// The error string for a body that does not have the expected shape.
pub open spec fn invalid_response_msg() -> Seq<char> {
    "Invalid response"@
}

pub(crate) fn get_error_message(v: &Json) -> (r: Option<Vec<char>>)
    ensures
        match r {
            Some(m) => error_message(v@) == Some(m@),
            None => error_message(v@) is None,
        },
{
    match v.get("error") {
        Some(e) => match e.get("message") {
            Some(m) => match m.as_str() {
                Some(s) => Some(dup_chars(s)),
                None => None,
            },
            None => None,
        },
        None => None,
    }
}

pub(crate) fn status_error_string(status: u16, em: Option<Vec<char>>) -> (r: String)
    ensures
        r@ == status_error_msg(
            status as int,
            match em {
                Some(m) => Some(m@),
                None => None,
            },
        ),
{
    let digits = i64_to_dec_chars(status as i64);
    let mut out: Vec<char> = Vec::new();
    match em {
        Some(m) => {
            append_chars(&mut out, &m);
            let mid = str_to_chars(" (status ");
            append_chars(&mut out, &mid);
            append_chars(&mut out, &digits);
            out.push(')');
            proof {
                assert(out@ =~= m@ + " (status "@ + dec_int(status as int) + seq![')']);
            }
        },
        None => {
            let head = str_to_chars("request failed with status ");
            append_chars(&mut out, &head);
            append_chars(&mut out, &digits);
            proof {
                assert(out@ =~= "request failed with status "@ + dec_int(status as int));
            }
        },
    }
    chars_to_string(&out)
}

/// A status code in the range HTTP calls successful.
pub open spec fn status_ok(status: int) -> bool {
    200 <= status < 300
}

} // verus!
