use prefix_ddns::api::ApiResponse;
use prefix_ddns::combine::AddressCombineError;
use prefix_ddns::config::{default_true, AppConfig, Task};
use prefix_ddns::logging::Level;
use prefix_ddns::trigger::{
    find_task, outcome_reply, plan_trial, plan_trigger, rejection, trial_rejection, trial_report,
    TrialDecision, TriggerDecision,
};
use prefix_ddns::webhook::WebhookError;
use std::collections::HashMap;

fn task(name: &str, suffix: &str, allow: bool) -> Task {
    Task {
        id: name.to_string(),
        name: name.to_string(),
        suffix: suffix.to_string(),
        webhook_url: "http://hook/{{combined_ip}}?from={{input_ip}}&o={{original_ip}}".to_string(),
        webhook_method: "GET".to_string(),
        webhook_body: None,
        webhook_headers: HashMap::new(),
        enabled: false,
        allow_api_trigger: allow,
    }
}

fn tasks() -> Vec<Task> {
    vec![
        task("closed", "::1", false),
        task("open", "::2", true),
        task("broken", "nonsense", true),
        task("open", "::3", true),
    ]
}

#[test]
fn unknown_task_is_not_found() {
    let d = plan_trigger(&tasks(), "missing", "2001:db8::1");
    assert!(matches!(d, TriggerDecision::NotFound));
    let reply = rejection(&d).unwrap();
    assert_eq!(reply.status, 404);
    assert_eq!(reply.body.status, "error");
    assert_eq!(reply.body.message, "Task not found");
    assert!(reply.body.data.is_none());
    assert!(matches!(
        plan_trigger(&Vec::new(), "open", "2001:db8::1"),
        TriggerDecision::NotFound
    ));
}

#[test]
fn task_without_permission_is_forbidden() {
    let d = plan_trigger(&tasks(), "closed", "2001:db8::1");
    assert!(matches!(d, TriggerDecision::Forbidden));
    let reply = rejection(&d).unwrap();
    assert_eq!(reply.status, 403);
    assert_eq!(reply.body.status, "error");
    assert!(matches!(
        plan_trigger(&tasks(), "closed", "not an address"),
        TriggerDecision::Forbidden
    ));
}

#[test]
fn unreadable_address_is_a_bad_request() {
    let d = plan_trigger(&tasks(), "open", "2001:db8:::1");
    assert!(matches!(d, TriggerDecision::InvalidAddress));
    let reply = rejection(&d).unwrap();
    assert_eq!(reply.status, 400);
    assert_eq!(reply.body.message, "Invalid IPv6 address");
}

#[test]
fn unreadable_suffix_is_a_server_error() {
    let d = plan_trigger(&tasks(), "broken", "2001:db8::1");
    assert!(matches!(
        d,
        TriggerDecision::CombineFailed(AddressCombineError::InvalidSuffix)
    ));
    let reply = rejection(&d).unwrap();
    assert_eq!(reply.status, 500);
    assert_eq!(
        reply.body.message,
        "IP combination error: invalid IPv6 address syntax"
    );
}

#[test]
fn first_task_of_the_name_is_run() {
    assert_eq!(find_task(&tasks(), "open"), Some(1));
    assert_eq!(find_task(&tasks(), "broken"), Some(2));
    assert_eq!(find_task(&tasks(), "Open"), None);
    let d = plan_trigger(&tasks(), "open", "2001:db8:5:6::99");
    assert!(rejection(&d).is_none());
    match d {
        TriggerDecision::Send {
            task_index,
            ip,
            combined,
            request,
            announce,
        } => {
            assert_eq!(task_index, 1);
            assert_eq!(ip.to_string(), "2001:db8:5:6::99");
            assert_eq!(combined.to_string(), "2001:db8:5:6::2");
            assert_eq!(
                request.url,
                "http://hook/2001:db8:5:6::2?from=2001:db8:5:6::99&o=2001:db8:5:6::99"
            );
            assert_eq!(announce.level, Level::Info);
            assert_eq!(announce.message, "Task [open]: Running for 2001:db8:5:6::99");
        }
        other => panic!("got {:?}", other),
    }
}

#[test]
fn replies_after_sending() {
    let ok = outcome_reply(&Ok(204));
    assert_eq!(ok.status, 200);
    assert_eq!(ok.body.status, "success");
    assert_eq!(ok.body.message, "Webhook triggered");
    assert!(ok.body.data.is_none());
    let failed = outcome_reply(&Err(WebhookError::Status(502)));
    assert_eq!(failed.status, 500);
    assert_eq!(failed.body.status, "error");
    assert_eq!(failed.body.message, "Webhook failed: HTTP 502");
}

#[test]
fn trial_of_a_task() {
    let t = task("any", "::abcd", false);
    assert!(matches!(plan_trial(&t, "bogus"), TrialDecision::InvalidAddress));
    assert_eq!(
        trial_rejection(&plan_trial(&t, "bogus")).as_deref(),
        Some("Invalid IPv6 address")
    );
    let bad = task("any", "", false);
    let d = plan_trial(&bad, "2001:db8::1");
    assert!(matches!(d, TrialDecision::CombineFailed(_)));
    assert_eq!(
        trial_rejection(&d).as_deref(),
        Some("Error combining IP: invalid IPv6 address syntax")
    );
    let d = plan_trial(&t, "2001:db8:1:2:3:4:5:6");
    assert!(trial_rejection(&d).is_none());
    match d {
        TrialDecision::Send {
            ip,
            combined,
            request,
        } => {
            assert_eq!(ip.to_string(), "2001:db8:1:2:3:4:5:6");
            assert_eq!(combined.to_string(), "2001:db8:1:2::abcd");
            assert_eq!(
                request.url,
                "http://hook/2001:db8:1:2::abcd?from=2001:db8:1:2:3:4:5:6&o=2001:db8:1:2:3:4:5:6"
            );
        }
        other => panic!("got {:?}", other),
    }
    assert_eq!(trial_report(&Ok(200)), "Webhook sent! Status: 200");
    assert_eq!(
        trial_report(&Err(WebhookError::Transport("refused".to_string()))),
        "Webhook failed: refused"
    );
}

#[test]
fn api_responses() {
    let ok: ApiResponse<u32> = ApiResponse::success("done", Some(7));
    assert_eq!(ok.status, "success");
    assert_eq!(ok.message, "done");
    assert_eq!(ok.data, Some(7));
    let none: ApiResponse<u32> = ApiResponse::success("done", None);
    assert_eq!(none.data, None);
    let err: ApiResponse<u32> = ApiResponse::error("broken");
    assert_eq!(err.status, "error");
    assert_eq!(err.message, "broken");
    assert_eq!(err.data, None);
}

#[test]
fn configuration_defaults() {
    let c = AppConfig::default();
    assert_eq!(c.log_limit, 100);
    assert!(!c.run_on_startup);
    assert!(c.tasks.is_empty());
    assert!(default_true());
}
