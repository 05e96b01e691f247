//! What a change of prefix sets off: one step for each enabled task, each
//! made from its own task alone.

use vstd::prelude::*;
use crate::address::Ipv6Address;
use crate::combine::{combine_ip, combine_result, AddressCombineError};
use crate::config::Task;
use crate::logging::{Level, LogLine};
use crate::notation::{address_text, dec_text, push_decimal};
use crate::template::push_all;
use crate::text::{push_str, string_of};
use crate::webhook::{
    build_request, error_text, is_request_of, outcome_of, Delivery, WebhookError, WebhookRequest,
};

verus! {

/// The text of a combine error.
pub open spec fn combine_error_text(e: AddressCombineError) -> Seq<char> {
    "invalid IPv6 address syntax"@
}

/// `Task [name]: ` and what follows.
pub open spec fn task_text(name: Seq<char>, rest: Seq<char>) -> Seq<char> {
    "Task ["@ + name + "]: "@ + rest
}

/// The line that announces an attempt for the address with text `addr`.
pub open spec fn running_text(name: Seq<char>, addr: Seq<char>) -> Seq<char> {
    task_text(name, "Running for "@ + addr)
}

/// The line for a task whose suffix gave no address.
pub open spec fn combine_failed_text(name: Seq<char>, e: AddressCombineError) -> Seq<char> {
    task_text(name, "IP combination failed: "@ + combine_error_text(e))
}

/// The line for an attempt that succeeded with `status`.
pub open spec fn success_text(name: Seq<char>, status: u16) -> Seq<char> {
    task_text(name, "Success (HTTP "@ + dec_text(status as int) + ")"@)
}

/// The line for an attempt that failed.
pub open spec fn failed_text(name: Seq<char>, e: WebhookError) -> Seq<char> {
    task_text(name, "Failed: "@ + error_text(e))
}

/// What is done for one enabled task.
#[derive(Clone, Debug)]
pub enum DispatchStep {
    /// The request is sent, once; `announce` is logged before.
    Attempt { task_index: usize, combined: Ipv6Address, request: WebhookRequest, announce: LogLine },
    /// Nothing is sent, because the suffix gave no address; `report` is
    /// logged.
    Skipped { task_index: usize, error: AddressCombineError, report: LogLine },
}

/// The index of the task that a step belongs to.
pub open spec fn step_index(step: DispatchStep) -> int {
    match step {
        DispatchStep::Attempt { task_index, .. } => task_index as int,
        DispatchStep::Skipped { task_index, .. } => task_index as int,
    }
}

/// `line` is an entry of `level` with the message `text`.
pub open spec fn is_line(line: LogLine, level: Level, text: Seq<char>) -> bool {
    line.level == level && line.message@ == text
}

/// `step` is the step of `task`, the `index`-th of its list, for the
/// observed address `ip`: an attempt with the task's address and request
/// where the suffix combines, a skip with the error where it does not.
pub open spec fn is_step_of(step: DispatchStep, task: Task, index: int, ip: u128) -> bool {
    match combine_result(ip, task.suffix@) {
        Ok(c) => {
            &&& step matches DispatchStep::Attempt { task_index, combined, request, announce }
            &&& task_index == index
            &&& combined@ == c
            &&& is_request_of(request, task, ip, combined.bits, None)
            &&& is_line(announce, Level::Info, running_text(task.name@, address_text(combined.bits)))
        },
        Err(e) => {
            &&& step matches DispatchStep::Skipped { task_index, error, report }
            &&& task_index == index
            &&& error == e
            &&& is_line(report, Level::Error, combine_failed_text(task.name@, e))
        },
    }
}

/// The indices of the enabled tasks, in their order.
pub open spec fn enabled_indices(tasks: Seq<Task>) -> Seq<int>
    decreases tasks.len(),
{
    if tasks.len() == 0 {
        Seq::<int>::empty()
    } else if tasks.last().enabled {
        enabled_indices(tasks.drop_last()).push(tasks.len() - 1)
    } else {
        enabled_indices(tasks.drop_last())
    }
}

/// `plan` is the plan for `tasks` and `ip`: the steps of the enabled tasks,
/// in the order of the tasks, and nothing else.
pub open spec fn is_plan_of(plan: Seq<DispatchStep>, tasks: Seq<Task>, ip: u128) -> bool {
    &&& plan.len() == enabled_indices(tasks).len()
    &&& forall|k: int|
        0 <= k < plan.len() ==> {
            &&& 0 <= (#[trigger] enabled_indices(tasks)[k]) < tasks.len()
            &&& is_step_of(plan[k], tasks[enabled_indices(tasks)[k]], enabled_indices(tasks)[k], ip)
        }
}

/// `Task [name]: ` followed by `rest`.
fn task_line(level: Level, name: &str, rest: &Vec<char>) -> (line: LogLine)
    ensures
        is_line(line, level, task_text(name@, rest@)),
{
    let mut out: Vec<char> = Vec::new();
    push_str(&mut out, "Task [");
    push_str(&mut out, name);
    push_str(&mut out, "]: ");
    push_all(&mut out, rest);
    proof {
        assert(out@ == "Task ["@ + name@ + "]: "@ + rest@);
    }
    LogLine { level, message: string_of(&out) }
}

/// The step of one task.
pub fn plan_step(task: &Task, index: usize, ip: Ipv6Address) -> (step: DispatchStep)
    ensures
        is_step_of(step, *task, index as int, ip.bits),
{
    match combine_ip(ip, task.suffix.as_str()) {
        Ok(combined) => {
            let mut rest: Vec<char> = Vec::new();
            push_str(&mut rest, "Running for ");
            push_str(&mut rest, combined.to_string().as_str());
            proof {
                assert(rest@ == "Running for "@ + address_text(combined.bits));
            }
            let announce: LogLine = task_line(Level::Info, task.name.as_str(), &rest);
            let request: WebhookRequest = build_request(task, ip, combined, None);
            DispatchStep::Attempt { task_index: index, combined, request, announce }
        },
        Err(e) => {
            let mut rest: Vec<char> = Vec::new();
            push_str(&mut rest, "IP combination failed: ");
            push_str(&mut rest, e.message().as_str());
            proof {
                assert(rest@ == "IP combination failed: "@ + combine_error_text(e));
            }
            let report: LogLine = task_line(Level::Error, task.name.as_str(), &rest);
            DispatchStep::Skipped { task_index: index, error: e, report }
        },
    }
}

/// The steps that the observed address `ip` sets off: one for each enabled
/// task, in the order of the tasks. A disabled task has none. Each step is
/// made from its task and `ip` alone, so that a task whose suffix is
/// invalid is skipped and the others stand as they would without it.
pub fn process_tasks(tasks: &Vec<Task>, ip: Ipv6Address) -> (plan: Vec<DispatchStep>)
    ensures
        is_plan_of(plan@, tasks@, ip.bits),
{
    let mut plan: Vec<DispatchStep> = Vec::new();
    let mut i: usize = 0;
    while i < tasks.len()
        invariant
            i <= tasks.len(),
            is_plan_of(plan@, tasks@.take(i as int), ip.bits),
        decreases tasks.len() - i,
    {
        let ghost before = tasks@.take(i as int);
        let ghost now = tasks@.take(i as int + 1);
        let ghost old_plan = plan@;
        proof {
            assert(now.drop_last() == before);
            assert(now.last() == tasks@[i as int]);
        }
        if tasks[i].enabled {
            let step: DispatchStep = plan_step(&tasks[i], i, ip);
            plan.push(step);
            proof {
                assert forall|k: int| 0 <= k < plan@.len() implies {
                    &&& 0 <= (#[trigger] enabled_indices(now)[k]) < now.len()
                    &&& is_step_of(plan@[k], now[enabled_indices(now)[k]], enabled_indices(now)[k], ip.bits)
                } by {
                    if k < old_plan.len() {
                        let j = enabled_indices(before)[k];
                        assert(enabled_indices(now)[k] == j);
                        assert(now[j] == before[j]);
                        assert(plan@[k] == old_plan[k]);
                    }
                }
            }
        } else {
            proof {
                assert forall|k: int| 0 <= k < plan@.len() implies {
                    &&& 0 <= (#[trigger] enabled_indices(now)[k]) < now.len()
                    &&& is_step_of(plan@[k], now[enabled_indices(now)[k]], enabled_indices(now)[k], ip.bits)
                } by {
                    let j = enabled_indices(before)[k];
                    assert(now[j] == before[j]);
                }
            }
        }
        i += 1;
    }
    proof {
        assert(tasks@.take(tasks@.len() as int) == tasks@);
    }
    plan
}

/// The line that reports how the attempt for the task `name` ended.
pub fn outcome_line(name: &str, outcome: &Result<u16, WebhookError>) -> (line: LogLine)
    ensures
        match *outcome {
            Ok(status) => is_line(line, Level::Success, success_text(name@, status)),
            Err(e) => is_line(line, Level::Error, failed_text(name@, e)),
        },
{
    match outcome {
        Ok(status) => {
            let mut rest: Vec<char> = Vec::new();
            push_str(&mut rest, "Success (HTTP ");
            push_decimal(&mut rest, *status as u32);
            push_str(&mut rest, ")");
            proof {
                assert(rest@ == "Success (HTTP "@ + dec_text(*status as int) + ")"@);
            }
            task_line(Level::Success, name, &rest)
        },
        Err(e) => {
            let mut rest: Vec<char> = Vec::new();
            push_str(&mut rest, "Failed: ");
            push_str(&mut rest, e.message().as_str());
            proof {
                assert(rest@ == "Failed: "@ + error_text(*e));
            }
            task_line(Level::Error, name, &rest)
        },
    }
}

/// The indices of the enabled tasks are exactly the indices of enabled
/// tasks, each once, in rising order.
pub proof fn lemma_enabled_indices(tasks: Seq<Task>)
    ensures
        forall|k: int|
            0 <= k < enabled_indices(tasks).len() ==> 0 <= (#[trigger] enabled_indices(tasks)[k])
                < tasks.len() && tasks[enabled_indices(tasks)[k]].enabled,
        forall|k: int, l: int|
            0 <= k < l < enabled_indices(tasks).len() ==> (#[trigger] enabled_indices(tasks)[k])
                < (#[trigger] enabled_indices(tasks)[l]),
        forall|i: int|
            0 <= i < tasks.len() && (#[trigger] tasks[i]).enabled ==> enabled_indices(
                tasks,
            ).contains(i),
    decreases tasks.len(),
{
    if tasks.len() > 0 {
        let init = tasks.drop_last();
        lemma_enabled_indices(init);
        let e = enabled_indices(tasks);
        let ei = enabled_indices(init);
        assert forall|k: int| 0 <= k < e.len() implies 0 <= (#[trigger] e[k]) < tasks.len()
            && tasks[e[k]].enabled by {
            if k < ei.len() {
                assert(e[k] == ei[k]);
                assert(init[ei[k]] == tasks[ei[k]]);
            }
        }
        assert forall|k: int, l: int| 0 <= k < l < e.len() implies (#[trigger] e[k]) < (
        #[trigger] e[l]) by {
            assert(e[k] == ei[k]);
            if l < ei.len() {
                assert(e[l] == ei[l]);
            }
        }
        assert forall|i: int| 0 <= i < tasks.len() && (#[trigger] tasks[i]).enabled implies e.contains(
            i,
        ) by {
            if i < init.len() {
                assert(init[i] == tasks[i]);
                assert(ei.contains(i));
                let k = choose|k: int| 0 <= k < ei.len() && ei[k] == i;
                assert(e[k] == i);
            } else {
                assert(e[e.len() - 1] == i);
            }
        }
    }
}

/// A disabled task has no step in any plan, whatever address was observed.
pub proof fn lemma_disabled_task_has_no_step(
    plan: Seq<DispatchStep>,
    tasks: Seq<Task>,
    ip: u128,
    i: int,
)
    requires
        is_plan_of(plan, tasks, ip),
        0 <= i < tasks.len(),
        !tasks[i].enabled,
    ensures
        forall|k: int| 0 <= k < plan.len() ==> step_index(#[trigger] plan[k]) != i,
{
    lemma_enabled_indices(tasks);
    assert forall|k: int| 0 <= k < plan.len() implies step_index(#[trigger] plan[k]) != i by {
        let j = enabled_indices(tasks)[k];
        assert(is_step_of(plan[k], tasks[j], j, ip));
        assert(tasks[j].enabled);
    }
}

/// Every enabled task has its step in the plan, and that step is made from
/// the task and the observed address alone: whether another task's suffix
/// combines has no part in it.
pub proof fn lemma_enabled_task_has_its_step(
    plan: Seq<DispatchStep>,
    tasks: Seq<Task>,
    ip: u128,
    i: int,
)
    requires
        is_plan_of(plan, tasks, ip),
        0 <= i < tasks.len(),
        tasks[i].enabled,
    ensures
        exists|k: int| 0 <= k < plan.len() && is_step_of(#[trigger] plan[k], tasks[i], i, ip),
{
    lemma_enabled_indices(tasks);
    let e = enabled_indices(tasks);
    assert(e.contains(i));
    let k = choose|k: int| 0 <= k < e.len() && e[k] == i;
    assert(is_step_of(plan[k], tasks[e[k]], e[k], ip));
}

/// No task has two steps in a plan: for one change there is one attempt
/// for each task, and no second one.
pub proof fn lemma_one_step_per_task(
    plan: Seq<DispatchStep>,
    tasks: Seq<Task>,
    ip: u128,
    k: int,
    l: int,
)
    requires
        is_plan_of(plan, tasks, ip),
        0 <= k < plan.len(),
        0 <= l < plan.len(),
        step_index(plan[k]) == step_index(plan[l]),
    ensures
        k == l,
{
    lemma_enabled_indices(tasks);
    let e = enabled_indices(tasks);
    assert(is_step_of(plan[k], tasks[e[k]], e[k], ip));
    assert(is_step_of(plan[l], tasks[e[l]], e[l], ip));
    assert(step_index(plan[k]) == e[k]);
    assert(step_index(plan[l]) == e[l]);
    if k < l {
        assert(e[k] < e[l]);
    } else if l < k {
        assert(e[l] < e[k]);
    }
}

/// The outcomes of the attempts of one plan, one for each delivery.
pub open spec fn outcomes_of(deliveries: Seq<Delivery>) -> Seq<Result<u16, WebhookError>> {
    Seq::new(deliveries.len(), |k: int| outcome_of(deliveries[k]))
}

/// The outcome of one attempt is that of its own delivery: where the
/// delivery of another attempt is replaced by a failure, it stays as it is.
pub proof fn lemma_failure_stays_with_its_task(
    deliveries: Seq<Delivery>,
    failed: int,
    failure: Delivery,
    other: int,
)
    requires
        0 <= failed < deliveries.len(),
        0 <= other < deliveries.len(),
        failed != other,
    ensures
        outcomes_of(deliveries.update(failed, failure))[other] == outcomes_of(deliveries)[other],
        outcomes_of(deliveries.update(failed, failure)).len() == deliveries.len(),
{
}

} // verus!
