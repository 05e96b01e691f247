//! What is sent for a task: the request made from its templates, and the
//! outcome read from the answer.

use std::collections::HashMap;
use vstd::prelude::*;
use crate::address::Ipv6Address;
use crate::config::Task;
use crate::notation::{address_text, dec_text, push_decimal};
use crate::template::{push_all, replace_all, replaced};
use crate::text::{chars_of, same_text, string_of};

verus! {

/// The methods a webhook can be sent with.
#[derive(Clone, Copy, Debug, PartialEq, Eq, Structural)]
pub enum HttpMethod {
    Get,
    Post,
    Put,
    Patch,
}

/// The upper-case form that std gives for a text.
pub uninterp spec fn uppercase(s: Seq<char>) -> Seq<char>;

/// `str::to_uppercase`: the upper-case equivalent of `s` as a new string,
/// by the Unicode case mapping. The result depends on `s` alone.
#[verifier::external_body]
fn to_uppercase(s: &str) -> (u: String)
    ensures
        u@ == uppercase(s@),
{
    s.to_uppercase()
}

/// The method that an upper-case name stands for: `POST`, `PUT` and
/// `PATCH` for themselves, every other name for `GET`.
pub open spec fn method_named(upper: Seq<char>) -> HttpMethod {
    if upper == "POST"@ {
        HttpMethod::Post
    } else if upper == "PUT"@ {
        HttpMethod::Put
    } else if upper == "PATCH"@ {
        HttpMethod::Patch
    } else {
        HttpMethod::Get
    }
}

/// The method for a name that is already in upper case.
pub fn method_for(upper: &str) -> (m: HttpMethod)
    ensures
        m == method_named(upper@),
{
    if same_text(upper, "POST") {
        HttpMethod::Post
    } else if same_text(upper, "PUT") {
        HttpMethod::Put
    } else if same_text(upper, "PATCH") {
        HttpMethod::Patch
    } else {
        HttpMethod::Get
    }
}

/// The method that a task's method text asks for, in whatever case it is
/// written.
pub fn method_of(name: &str) -> (m: HttpMethod)
    ensures
        m == method_named(uppercase(name@)),
{
    let upper: String = to_uppercase(name);
    method_for(upper.as_str())
}

/// Whether a request with this method carries a body.
pub open spec fn carries_body(m: HttpMethod) -> bool {
    m != HttpMethod::Get
}

/// The token for the combined address.
pub open spec fn token_combined() -> Seq<char> {
    "{{combined_ip}}"@
}

/// The token for the address that was observed.
pub open spec fn token_original() -> Seq<char> {
    "{{original_ip}}"@
}

/// The token for the address that a manual trigger was given.
pub open spec fn token_input() -> Seq<char> {
    "{{input_ip}}"@
}

/// The token for the prefix.
pub open spec fn token_prefix() -> Seq<char> {
    "{{prefix}}"@
}

/// How the prefix is shown: the observed address as it stands, host bits
/// included, followed by `/64`.
pub open spec fn prefix_text(original: u128) -> Seq<char> {
    address_text(original) + "/64"@
}

/// A template with its tokens filled in, one token after the other: the
/// combined address, the observed address, the input address where there
/// is one, the prefix.
pub open spec fn rendered(
    text: Seq<char>,
    combined: u128,
    original: u128,
    input: Option<u128>,
) -> Seq<char> {
    let a = replaced(text, token_combined(), address_text(combined));
    let b = replaced(a, token_original(), address_text(original));
    let c = match input {
        Some(i) => replaced(b, token_input(), address_text(i)),
        None => b,
    };
    replaced(c, token_prefix(), prefix_text(original))
}

/// Fills in the tokens of `text`.
pub fn render_chars(
    text: &str,
    combined_ip: Ipv6Address,
    original_ip: Ipv6Address,
    input_ip: Option<Ipv6Address>,
) -> (out: Vec<char>)
    ensures
        out@ == rendered(
            text@,
            combined_ip.bits,
            original_ip.bits,
            match input_ip {
                Some(i) => Some(i.bits),
                None => None,
            },
        ),
{
    let t: Vec<char> = chars_of(text);
    let combined_text: Vec<char> = chars_of(combined_ip.to_string().as_str());
    let original_text: Vec<char> = chars_of(original_ip.to_string().as_str());
    let a: Vec<char> = replace_all(&t, &chars_of("{{combined_ip}}"), &combined_text);
    let b: Vec<char> = replace_all(&a, &chars_of("{{original_ip}}"), &original_text);
    let c: Vec<char> = match input_ip {
        Some(i) => {
            let input_text: Vec<char> = chars_of(i.to_string().as_str());
            replace_all(&b, &chars_of("{{input_ip}}"), &input_text)
        },
        None => b,
    };
    let mut prefix: Vec<char> = original_text;
    push_all(&mut prefix, &chars_of("/64"));
    replace_all(&c, &chars_of("{{prefix}}"), &prefix)
}

/// The bits of an address that may be absent.
pub open spec fn bits_of(ip: Option<Ipv6Address>) -> Option<u128> {
    match ip {
        Some(i) => Some(i.bits),
        None => None,
    }
}

/// The template of a task's body, empty where the task has none.
pub open spec fn body_template(task: Task) -> Seq<char> {
    match task.webhook_body {
        Some(b) => b@,
        None => Seq::<char>::empty(),
    }
}

/// One HTTP request, ready to be sent.
#[derive(Clone, Debug)]
pub struct WebhookRequest {
    pub method: HttpMethod,
    pub url: String,
    pub headers: HashMap<String, String>,
    pub body: Option<String>,
}

/// `request` is the request of `task` for the given addresses: the task's
/// method, its URL with the tokens filled in, all its headers, and its
/// filled-in body where that is not empty and the method carries one.
pub open spec fn is_request_of(
    request: WebhookRequest,
    task: Task,
    original: u128,
    combined: u128,
    input: Option<u128>,
) -> bool {
    let body = rendered(body_template(task), combined, original, input);
    &&& request.method == method_named(uppercase(task.webhook_method@))
    &&& request.url@ == rendered(task.webhook_url@, combined, original, input)
    &&& request.headers@ == task.webhook_headers@
    &&& request.body is Some <==> body.len() > 0 && carries_body(request.method)
    &&& request.body matches Some(b) ==> b@ == body
}

/// The request of `task` for the observed address `original_ip` and the
/// task's address `combined_ip`; `input_ip` is the address of a manual
/// trigger, where the request comes from one.
pub fn build_request(
    task: &Task,
    original_ip: Ipv6Address,
    combined_ip: Ipv6Address,
    input_ip: Option<Ipv6Address>,
) -> (request: WebhookRequest)
    ensures
        is_request_of(request, *task, original_ip.bits, combined_ip.bits, bits_of(input_ip)),
{
    let method: HttpMethod = method_of(task.webhook_method.as_str());
    let url: Vec<char> = render_chars(task.webhook_url.as_str(), combined_ip, original_ip, input_ip);
    let body: Vec<char> = match &task.webhook_body {
        Some(b) => render_chars(b.as_str(), combined_ip, original_ip, input_ip),
        None => {
            proof {
                reveal_strlit("");
            }
            render_chars("", combined_ip, original_ip, input_ip)
        },
    };
    let attach: bool = body.len() > 0 && method != HttpMethod::Get;
    WebhookRequest {
        method,
        url: string_of(&url),
        headers: task.webhook_headers.clone(),
        body: if attach {
            Some(string_of(&body))
        } else {
            None
        },
    }
}

/// What came back from sending a request.
#[derive(Clone, Debug)]
pub enum Delivery {
    /// An answer arrived, with this status code.
    Answered(u16),
    /// No answer arrived; the text says why.
    Failed(String),
}

/// Why a webhook counts as failed.
#[derive(Clone, Debug)]
pub enum WebhookError {
    /// The answer's status is outside 200 to 299.
    Status(u16),
    /// The request could not be carried out.
    Transport(String),
}

/// A status from 200 to 299.
pub open spec fn is_success(status: u16) -> bool {
    200 <= status <= 299
}

/// The text of a webhook error: `HTTP` and the status, or the cause.
pub open spec fn error_text(e: WebhookError) -> Seq<char> {
    match e {
        WebhookError::Status(s) => "HTTP "@ + dec_text(s as int),
        WebhookError::Transport(cause) => cause@,
    }
}

impl WebhookError {
    /// The text under which the error is logged.
    pub fn message(&self) -> (m: String)
        ensures
            m@ == error_text(*self),
    {
        match self {
            WebhookError::Status(s) => {
                let mut out: Vec<char> = chars_of("HTTP ");
                push_decimal(&mut out, *s as u32);
                string_of(&out)
            },
            WebhookError::Transport(cause) => cause.clone(),
        }
    }
}

/// The outcome of a delivery: the status of an answer from 200 to 299, or
/// the error.
pub open spec fn outcome_of(delivery: Delivery) -> Result<u16, WebhookError> {
    match delivery {
        Delivery::Answered(s) => if is_success(s) {
            Ok(s)
        } else {
            Err(WebhookError::Status(s))
        },
        Delivery::Failed(cause) => Err(WebhookError::Transport(cause)),
    }
}

/// The outcome of one attempt. One delivery gives one outcome; nothing is
/// tried again.
pub fn send_outcome(delivery: Delivery) -> (r: Result<u16, WebhookError>)
    ensures
        r == outcome_of(delivery),
{
    match delivery {
        Delivery::Answered(s) => if 200 <= s && s <= 299 {
            Ok(s)
        } else {
            Err(WebhookError::Status(s))
        },
        Delivery::Failed(cause) => Err(WebhookError::Transport(cause)),
    }
}

} // verus!
