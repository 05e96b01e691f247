//! A task run by hand: for a named task and an address given as text.

use vstd::prelude::*;
use crate::address::Ipv6Address;
use crate::api::ApiResponse;
use crate::combine::{combine_ip, combine_result, AddressCombineError};
use crate::config::Task;
use crate::dispatch::{combine_error_text, is_line, running_text};
use crate::literal::{lemma_literal_groups_bound, literal_value, parse_literal};
use crate::logging::{Level, LogLine};
use crate::notation::{address_text, dec_text, push_decimal};
use crate::text::{push_str, same_text, string_of};
use crate::webhook::{build_request, error_text, is_request_of, WebhookError, WebhookRequest};

verus! {

/// What is to be done about a request to run a task.
#[derive(Clone, Debug)]
pub enum TriggerDecision {
    /// No task has the name.
    NotFound,
    /// The task does not allow to be run in this way.
    Forbidden,
    /// The address given is no IPv6 literal.
    InvalidAddress,
    /// The task's suffix gave no address.
    CombineFailed(AddressCombineError),
    /// The request is to be sent, and its outcome returned to the caller;
    /// `announce` is logged before.
    Send {
        task_index: usize,
        ip: Ipv6Address,
        combined: Ipv6Address,
        request: WebhookRequest,
        announce: LogLine,
    },
}

/// The index of the first task with the name, if any has it.
pub open spec fn first_named(tasks: Seq<Task>, name: Seq<char>) -> Option<int>
    decreases tasks.len(),
{
    if tasks.len() == 0 {
        None
    } else if tasks[0].name@ == name {
        Some(0)
    } else {
        match first_named(tasks.drop_first(), name) {
            Some(i) => Some(i + 1),
            None => None,
        }
    }
}

/// `decision` is what follows from asking to run the task `name` for the
/// address `ip_text`. The checks come in this order: the task exists, it
/// allows the trigger, the address reads, the suffix combines. The request
/// carries the given address as the observed one and as the input.
pub open spec fn is_decision_of(
    decision: TriggerDecision,
    tasks: Seq<Task>,
    name: Seq<char>,
    ip_text: Seq<char>,
) -> bool {
    match first_named(tasks, name) {
        None => decision is NotFound,
        Some(i) => if !tasks[i].allow_api_trigger {
            decision is Forbidden
        } else {
            match literal_value(ip_text) {
                None => decision is InvalidAddress,
                Some(v) => match combine_result(v as u128, tasks[i].suffix@) {
                    Err(e) => decision == TriggerDecision::CombineFailed(e),
                    Ok(c) => {
                        &&& decision matches TriggerDecision::Send {
                            task_index,
                            ip,
                            combined,
                            request,
                            announce,
                        }
                        &&& task_index == i
                        &&& ip@ == v
                        &&& combined@ == c
                        &&& is_request_of(request, tasks[i], ip.bits, combined.bits, Some(ip.bits))
                        &&& is_line(
                            announce,
                            Level::Info,
                            running_text(tasks[i].name@, address_text(ip.bits)),
                        )
                    },
                },
            }
        },
    }
}

/// The first task with the name.
pub fn find_task(tasks: &Vec<Task>, name: &str) -> (r: Option<usize>)
    ensures
        r is Some <==> first_named(tasks@, name@) is Some,
        r matches Some(i) ==> i < tasks@.len() && first_named(tasks@, name@) == Some(i as int),
{
    let mut i: usize = 0;
    proof {
        assert(tasks@.skip(0) == tasks@);
    }
    while i < tasks.len()
        invariant
            i <= tasks.len(),
            first_named(tasks@, name@) == match first_named(tasks@.skip(i as int), name@) {
                Some(k) => Some(k + i),
                None => None,
            },
        decreases tasks.len() - i,
    {
        let ghost rest = tasks@.skip(i as int);
        proof {
            assert(rest[0] == tasks@[i as int]);
            assert(rest.drop_first() == tasks@.skip(i + 1));
        }
        if same_text(tasks[i].name.as_str(), name) {
            return Some(i);
        }
        i += 1;
    }
    proof {
        assert(tasks@.skip(tasks@.len() as int).len() == 0);
    }
    None
}

/// Decides what to do about a request to run the task `task_name` for the
/// address written by `ip_text`.
pub fn plan_trigger(tasks: &Vec<Task>, task_name: &str, ip_text: &str) -> (decision:
    TriggerDecision)
    ensures
        is_decision_of(decision, tasks@, task_name@, ip_text@),
{
    let index: usize = match find_task(tasks, task_name) {
        Some(i) => i,
        None => {
            return TriggerDecision::NotFound;
        },
    };
    let task: &Task = &tasks[index];
    if !task.allow_api_trigger {
        return TriggerDecision::Forbidden;
    }
    let ip: Ipv6Address = match parse_literal(ip_text) {
        Some(ip) => ip,
        None => {
            return TriggerDecision::InvalidAddress;
        },
    };
    proof {
        lemma_literal_groups_bound(ip_text@);
    }
    let combined: Ipv6Address = match combine_ip(ip, task.suffix.as_str()) {
        Ok(c) => c,
        Err(e) => {
            return TriggerDecision::CombineFailed(e);
        },
    };
    let mut out: Vec<char> = Vec::new();
    push_str(&mut out, "Task [");
    push_str(&mut out, task.name.as_str());
    push_str(&mut out, "]: ");
    push_str(&mut out, "Running for ");
    push_str(&mut out, ip.to_string().as_str());
    proof {
        assert(out@ == running_text(task.name@, address_text(ip.bits)));
    }
    let announce: LogLine = LogLine { level: Level::Info, message: string_of(&out) };
    let request: WebhookRequest = build_request(task, ip, combined, Some(ip));
    TriggerDecision::Send { task_index: index, ip, combined, request, announce }
}

/// An answer to the caller of a trigger: the HTTP status and the body.
#[derive(Clone, Debug)]
pub struct TriggerReply {
    pub status: u16,
    pub body: ApiResponse<()>,
}

/// `reply` has the status `status` and reports an error with `message`.
pub open spec fn is_error_reply(reply: TriggerReply, status: u16, message: Seq<char>) -> bool {
    &&& reply.status == status
    &&& reply.body.status@ == "error"@
    &&& reply.body.message@ == message
    &&& reply.body.data is None
}

/// The answer for a decision that sends nothing: 404 where the task is
/// unknown, 403 where the trigger is not allowed, 400 for an unreadable
/// address, 500 where the suffix gave no address. A decision to send has no
/// answer yet.
pub fn rejection(decision: &TriggerDecision) -> (r: Option<TriggerReply>)
    ensures
        match *decision {
            TriggerDecision::NotFound => r matches Some(reply) && is_error_reply(
                reply,
                404,
                "Task not found"@,
            ),
            TriggerDecision::Forbidden => r matches Some(reply) && is_error_reply(
                reply,
                403,
                "API trigger disabled for the task"@,
            ),
            TriggerDecision::InvalidAddress => r matches Some(reply) && is_error_reply(
                reply,
                400,
                "Invalid IPv6 address"@,
            ),
            TriggerDecision::CombineFailed(e) => r matches Some(reply) && is_error_reply(
                reply,
                500,
                "IP combination error: "@ + combine_error_text(e),
            ),
            TriggerDecision::Send { .. } => r is None,
        },
{
    match decision {
        TriggerDecision::NotFound => Some(
            TriggerReply { status: 404, body: ApiResponse::error("Task not found") },
        ),
        TriggerDecision::Forbidden => Some(
            TriggerReply {
                status: 403,
                body: ApiResponse::error("API trigger disabled for the task"),
            },
        ),
        TriggerDecision::InvalidAddress => Some(
            TriggerReply { status: 400, body: ApiResponse::error("Invalid IPv6 address") },
        ),
        TriggerDecision::CombineFailed(e) => {
            let mut out: Vec<char> = Vec::new();
            push_str(&mut out, "IP combination error: ");
            push_str(&mut out, e.message().as_str());
            let message: String = string_of(&out);
            Some(TriggerReply { status: 500, body: ApiResponse::error(message.as_str()) })
        },
        TriggerDecision::Send { .. } => None,
    }
}

/// The answer once the request has been sent: 200 where it succeeded, 500
/// with the error where it did not.
pub fn outcome_reply(outcome: &Result<u16, WebhookError>) -> (reply: TriggerReply)
    ensures
        match *outcome {
            Ok(_) => {
                &&& reply.status == 200
                &&& reply.body.status@ == "success"@
                &&& reply.body.message@ == "Webhook triggered"@
                &&& reply.body.data is None
            },
            Err(e) => is_error_reply(reply, 500, "Webhook failed: "@ + error_text(e)),
        },
{
    match outcome {
        Ok(_) => TriggerReply { status: 200, body: ApiResponse::success("Webhook triggered", None) },
        Err(e) => {
            let mut out: Vec<char> = Vec::new();
            push_str(&mut out, "Webhook failed: ");
            push_str(&mut out, e.message().as_str());
            let message: String = string_of(&out);
            TriggerReply { status: 500, body: ApiResponse::error(message.as_str()) }
        },
    }
}

/// What is to be done about a request to try a task out.
#[derive(Clone, Debug)]
pub enum TrialDecision {
    /// The address given is no IPv6 literal.
    InvalidAddress,
    /// The task's suffix gave no address.
    CombineFailed(AddressCombineError),
    /// The request is to be sent, and its outcome returned to the caller.
    Send { ip: Ipv6Address, combined: Ipv6Address, request: WebhookRequest },
}

/// Decides what to do about a request to try `task` out with the address
/// written by `fake_ip`, which stands for the observed address and for the
/// input.
pub fn plan_trial(task: &Task, fake_ip: &str) -> (decision: TrialDecision)
    ensures
        match literal_value(fake_ip@) {
            None => decision is InvalidAddress,
            Some(v) => match combine_result(v as u128, task.suffix@) {
                Err(e) => decision == TrialDecision::CombineFailed(e),
                Ok(c) => {
                    &&& decision matches TrialDecision::Send { ip, combined, request }
                    &&& ip@ == v
                    &&& combined@ == c
                    &&& is_request_of(request, *task, ip.bits, combined.bits, Some(ip.bits))
                },
            },
        },
{
    let ip: Ipv6Address = match parse_literal(fake_ip) {
        Some(ip) => ip,
        None => {
            return TrialDecision::InvalidAddress;
        },
    };
    proof {
        lemma_literal_groups_bound(fake_ip@);
    }
    match combine_ip(ip, task.suffix.as_str()) {
        Ok(combined) => {
            let request: WebhookRequest = build_request(task, ip, combined, Some(ip));
            TrialDecision::Send { ip, combined, request }
        },
        Err(e) => TrialDecision::CombineFailed(e),
    }
}

/// The words for a trial that sent nothing; a decision to send has none
/// yet.
pub fn trial_rejection(decision: &TrialDecision) -> (r: Option<String>)
    ensures
        match *decision {
            TrialDecision::InvalidAddress => r matches Some(m) && m@ == "Invalid IPv6 address"@,
            TrialDecision::CombineFailed(e) => r matches Some(m) && m@ == "Error combining IP: "@
                + combine_error_text(e),
            TrialDecision::Send { .. } => r is None,
        },
{
    match decision {
        TrialDecision::InvalidAddress => Some("Invalid IPv6 address".to_owned()),
        TrialDecision::CombineFailed(e) => {
            let mut out: Vec<char> = Vec::new();
            push_str(&mut out, "Error combining IP: ");
            push_str(&mut out, e.message().as_str());
            Some(string_of(&out))
        },
        TrialDecision::Send { .. } => None,
    }
}

/// The words for a trial whose request was sent.
pub fn trial_report(outcome: &Result<u16, WebhookError>) -> (m: String)
    ensures
        match *outcome {
            Ok(status) => m@ == "Webhook sent! Status: "@ + dec_text(status as int),
            Err(e) => m@ == "Webhook failed: "@ + error_text(e),
        },
{
    let mut out: Vec<char> = Vec::new();
    match outcome {
        Ok(status) => {
            push_str(&mut out, "Webhook sent! Status: ");
            push_decimal(&mut out, *status as u32);
        },
        Err(e) => {
            push_str(&mut out, "Webhook failed: ");
            push_str(&mut out, e.message().as_str());
        },
    }
    string_of(&out)
}

} // verus!
