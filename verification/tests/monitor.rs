use prefix_ddns::address::Ipv6Address;
use prefix_ddns::logging::{remember, Level, LogEntry, LogLine};
use prefix_ddns::monitor::{
    detected_line, duplicate_line, initial_line, on_channel_event, startup_line, ChannelEvent,
    MonitorSupervisor, ReaderStep, SourceEvent, SupervisorAction, RETRY_DELAY_SECONDS,
};
use prefix_ddns::record::{
    AcceptedAddress, AddressFamily, IpValue, Operation, RawAddressRecord, RecordAttribute,
    StatusFlag,
};
use std::collections::VecDeque;

fn record(bits: u128, index: u32, tentative: bool) -> SourceEvent {
    SourceEvent::Record(RawAddressRecord {
        operation: Operation::Added,
        family: AddressFamily::Inet6,
        interface_index: index,
        flags: if tentative {
            vec![StatusFlag::Tentative]
        } else {
            vec![]
        },
        attributes: vec![RecordAttribute::Address(IpValue::V6(
            Ipv6Address::from_bits(bits),
        ))],
    })
}

fn accepted(bits: u128, index: u32) -> AcceptedAddress {
    AcceptedAddress {
        address: Ipv6Address::from_bits(bits),
        interface_index: index,
    }
}

const A: u128 = 0x2001_0db8_0001_0001_0000_0000_0000_0100;
const A2: u128 = 0x2001_0db8_0001_0001_0000_0000_0000_0200;
const B: u128 = 0x2001_0db8_0009_0009_0000_0000_0000_0100;

#[test]
fn supervisor_dispatches_once_for_each_new_prefix() {
    let mut s = MonitorSupervisor::new(None);
    assert_eq!(
        s.handle(&record(A, 2, false)),
        SupervisorAction::Dispatch(accepted(A, 2))
    );
    assert_eq!(
        s.handle(&record(A2, 3, false)),
        SupervisorAction::Duplicate(accepted(A2, 3))
    );
    assert_eq!(
        s.handle(&record(B, 2, false)),
        SupervisorAction::Dispatch(accepted(B, 2))
    );
    assert_eq!(
        s.handle(&record(B, 2, false)),
        SupervisorAction::Duplicate(accepted(B, 2))
    );
}

#[test]
fn supervisor_ignores_rejected_records() {
    let mut s = MonitorSupervisor::new(Some(2));
    assert_eq!(s.handle(&record(A, 3, false)), SupervisorAction::Nothing);
    assert_eq!(s.handle(&record(A, 2, true)), SupervisorAction::Nothing);
    assert_eq!(
        s.handle(&record(0xfe80 << 112, 2, false)),
        SupervisorAction::Nothing
    );
    assert_eq!(s.detector.last_prefix(), None);
    assert_eq!(
        s.handle(&record(A, 2, false)),
        SupervisorAction::Dispatch(accepted(A, 2))
    );
}

#[test]
fn supervisor_reopens_a_failed_source_after_five_seconds() {
    let mut s = MonitorSupervisor::new(None);
    s.handle(&record(A, 2, false));
    assert_eq!(RETRY_DELAY_SECONDS, 5);
    assert_eq!(s.handle(&SourceEvent::Failed), SupervisorAction::Reopen(5));
    assert_eq!(s.handle(&SourceEvent::Failed), SupervisorAction::Reopen(5));
    assert_eq!(
        s.handle(&record(A2, 2, false)),
        SupervisorAction::Duplicate(accepted(A2, 2))
    );
}

#[test]
fn seeded_supervisor_takes_the_first_prefix_as_known() {
    let mut s = MonitorSupervisor::new(None);
    s.seed(Ipv6Address::from_bits(A));
    assert_eq!(
        s.handle(&record(A2, 2, false)),
        SupervisorAction::Duplicate(accepted(A2, 2))
    );
    assert_eq!(
        s.handle(&record(B, 2, false)),
        SupervisorAction::Dispatch(accepted(B, 2))
    );
}

#[test]
fn lag_is_no_reason_to_stop_reading() {
    assert_eq!(
        on_channel_event(ChannelEvent::Item(accepted(A, 1))),
        ReaderStep::Process(accepted(A, 1))
    );
    assert_eq!(on_channel_event(ChannelEvent::Lagged(3)), ReaderStep::Resume);
    assert_eq!(on_channel_event(ChannelEvent::Lagged(0)), ReaderStep::Resume);
    assert_eq!(on_channel_event(ChannelEvent::Closed), ReaderStep::Stop);
}

#[test]
fn lines_of_the_monitor() {
    let ip = Ipv6Address::from_bits(A);
    assert_eq!(detected_line(ip).message, "New IPv6 prefix from: 2001:db8:1:1::100");
    assert_eq!(detected_line(ip).level, Level::Info);
    assert_eq!(initial_line(ip).message, "Initial IP 2001:db8:1:1::100 detected.");
    assert_eq!(
        startup_line(ip).message,
        "Startup execution: IPv6 prefix detected: 2001:db8:1:1::100"
    );
    let dup = duplicate_line(ip);
    assert_eq!(dup.level, Level::Debug);
    assert_eq!(
        dup.message,
        "Duplicate IP: 2001:db8:1:1::100, Prefix: 20010db800010001"
    );
    assert_eq!(
        duplicate_line(Ipv6Address::from_bits(7)).message,
        "Duplicate IP: ::7, Prefix: 0"
    );
}

fn entry(n: u32) -> LogEntry {
    LogEntry::stamp(
        format!("2024-01-01 00:00:{:02}", n),
        "Netlink",
        &LogLine {
            level: Level::Info,
            message: format!("m{}", n),
        },
    )
}

fn messages(logs: &VecDeque<LogEntry>) -> Vec<String> {
    logs.iter().map(|e| e.message.clone()).collect()
}

#[test]
fn stamped_entry_carries_source_level_and_message() {
    let e = LogEntry::stamp(
        "2024-05-06 07:08:09".to_string(),
        "API",
        &LogLine {
            level: Level::Success,
            message: "done".to_string(),
        },
    );
    assert_eq!(e.timestamp, "2024-05-06 07:08:09");
    assert_eq!(e.source, "API");
    assert_eq!(e.level, "success");
    assert_eq!(e.message, "done");
    assert_eq!(Level::Info.as_str(), "info");
    assert_eq!(Level::Error.as_str(), "error");
    assert_eq!(Level::Debug.as_str(), "debug");
}

#[test]
fn recent_entries_are_kept_newest_first_up_to_the_limit() {
    let mut logs = VecDeque::new();
    remember(&mut logs, entry(1), 3);
    remember(&mut logs, entry(2), 3);
    remember(&mut logs, entry(3), 3);
    assert_eq!(messages(&logs), vec!["m3", "m2", "m1"]);
    remember(&mut logs, entry(4), 3);
    assert_eq!(messages(&logs), vec!["m4", "m3", "m2"]);
}

#[test]
fn a_limit_of_zero_keeps_nothing() {
    let mut logs = VecDeque::new();
    remember(&mut logs, entry(1), 0);
    assert!(logs.is_empty());
}

#[test]
fn a_lowered_limit_drops_one_entry_at_a_time() {
    let mut logs = VecDeque::new();
    for n in 1..=4 {
        remember(&mut logs, entry(n), 10);
    }
    remember(&mut logs, entry(5), 2);
    assert_eq!(messages(&logs), vec!["m5", "m4", "m3", "m2"]);
    remember(&mut logs, entry(6), 2);
    assert_eq!(messages(&logs), vec!["m6", "m5", "m4", "m3"]);
}
