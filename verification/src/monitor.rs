//! The supervisor of the pipeline: every record, whether from the first
//! reading of the address table or from the live stream, goes through the
//! same filter and the same detector; a failed source is opened again
//! after a fixed delay.

use vstd::prelude::*;
use crate::address::{upper_half, Ipv6Address};
use crate::detector::{
    observation, state_after, ChangeResult, PrefixChangeDetector, PrefixState,
};
use crate::logging::{Level, LogLine};
use crate::notation::{address_text, hex_text, push_hex};
use crate::record::{filtered, AcceptedAddress, AddressFilter, RawAddressRecord};
use crate::text::{push_str, string_of};

verus! {

/// The seconds to wait before a failed source is opened again.
pub const RETRY_DELAY_SECONDS: u64 = 5;

/// What the source of kernel records brought.
#[derive(Clone, Debug)]
pub enum SourceEvent {
    /// One record.
    Record(RawAddressRecord),
    /// The source failed and has ended.
    Failed,
}

/// What the caller is to do next.
#[derive(Clone, Copy, Debug, PartialEq, Eq, Structural)]
pub enum SupervisorAction {
    /// Nothing: the record was rejected.
    Nothing,
    /// Nothing but to note, where wanted, that the address came again: its
    /// prefix is the one seen last.
    Duplicate(AcceptedAddress),
    /// Run the tasks for this address: its prefix is new.
    Dispatch(AcceptedAddress),
    /// Wait this many seconds, then open the source again.
    Reopen(u64),
}

/// The supervisor's state: the filter it applies and the prefix it
/// remembers.
#[derive(Clone, Copy, Debug, PartialEq, Eq, Structural)]
pub struct MonitorSupervisor {
    pub filter: AddressFilter,
    pub detector: PrefixChangeDetector,
}

/// The action for an event in a given state.
pub open spec fn action_for(filter: AddressFilter, state: PrefixState, event: SourceEvent)
    -> SupervisorAction {
    match event {
        SourceEvent::Failed => SupervisorAction::Reopen(RETRY_DELAY_SECONDS),
        SourceEvent::Record(record) => match filtered(record, filter.interface_index) {
            None => SupervisorAction::Nothing,
            Some(addr) => match observation(state, addr.address.bits) {
                ChangeResult::Unchanged => SupervisorAction::Duplicate(addr),
                ChangeResult::Changed(_) => SupervisorAction::Dispatch(addr),
            },
        },
    }
}

/// The remembered prefix after an event.
pub open spec fn state_for(filter: AddressFilter, state: PrefixState, event: SourceEvent)
    -> PrefixState {
    match event {
        SourceEvent::Failed => state,
        SourceEvent::Record(record) => match filtered(record, filter.interface_index) {
            None => state,
            Some(addr) => state_after(state, addr.address.bits),
        },
    }
}

impl MonitorSupervisor {
    /// A supervisor for the interface `interface_index`, or for all where
    /// none is given, that has seen no prefix yet.
    pub fn new(interface_index: Option<u32>) -> (s: MonitorSupervisor)
        ensures
            s.filter.interface_index == interface_index,
            s.detector.state.last_prefix is None,
    {
        MonitorSupervisor {
            filter: AddressFilter::new(interface_index),
            detector: PrefixChangeDetector::new(),
        }
    }

    /// Takes the prefix of `addr` as the one seen last, without any action.
    pub fn seed(&mut self, addr: Ipv6Address)
        ensures
            final(self).filter == old(self).filter,
            final(self).detector.state == state_after(old(self).detector.state, addr.bits),
    {
        self.detector = PrefixChangeDetector::seeded(addr);
    }

    /// Handles one event of the source and says what is to be done: a
    /// record goes through the filter and then the detector; a failure asks
    /// for the source to be opened again after the delay, and leaves the
    /// remembered prefix as it is. There is no last state: after any event
    /// the supervisor takes the next.
    pub fn handle(&mut self, event: &SourceEvent) -> (action: SupervisorAction)
        ensures
            action == action_for(old(self).filter, old(self).detector.state, *event),
            final(self).detector.state == state_for(
                old(self).filter,
                old(self).detector.state,
                *event,
            ),
            final(self).filter == old(self).filter,
    {
        match event {
            SourceEvent::Failed => SupervisorAction::Reopen(RETRY_DELAY_SECONDS),
            SourceEvent::Record(record) => match self.filter.filter(record) {
                None => SupervisorAction::Nothing,
                Some(addr) => match self.detector.observe(addr) {
                    ChangeResult::Unchanged => SupervisorAction::Duplicate(addr),
                    ChangeResult::Changed(_) => SupervisorAction::Dispatch(addr),
                },
            },
        }
    }
}

/// A rejected record changes nothing and sets nothing off.
pub proof fn lemma_rejected_record_is_inert(
    filter: AddressFilter,
    state: PrefixState,
    record: RawAddressRecord,
)
    requires
        filtered(record, filter.interface_index) is None,
    ensures
        action_for(filter, state, SourceEvent::Record(record)) == SupervisorAction::Nothing,
        state_for(filter, state, SourceEvent::Record(record)) == state,
{
}

/// The same record twice in a row sets off at most one dispatch.
pub proof fn lemma_repeated_record_dispatches_once(
    filter: AddressFilter,
    state: PrefixState,
    record: RawAddressRecord,
)
    ensures
        !(action_for(
            filter,
            state_for(filter, state, SourceEvent::Record(record)),
            SourceEvent::Record(record),
        ) is Dispatch),
{
}

/// What a reader of a bounded channel got.
#[derive(Clone, Copy, Debug, PartialEq, Eq, Structural)]
pub enum ChannelEvent {
    /// An address arrived.
    Item(AcceptedAddress),
    /// The reader fell behind, and this many items were dropped unread.
    Lagged(u64),
    /// No sender is left.
    Closed,
}

/// What the reader does next.
#[derive(Clone, Copy, Debug, PartialEq, Eq, Structural)]
pub enum ReaderStep {
    /// Work on this address.
    Process(AcceptedAddress),
    /// Go on with the next item that is there; the gap is no failure.
    Resume,
    /// Stop reading.
    Stop,
}

/// The step of a reader for an event of its channel.
pub open spec fn reader_step(event: ChannelEvent) -> ReaderStep {
    match event {
        ChannelEvent::Item(a) => ReaderStep::Process(a),
        ChannelEvent::Lagged(_) => ReaderStep::Resume,
        ChannelEvent::Closed => ReaderStep::Stop,
    }
}

/// Decides what a reader does after an event of its channel. Only a closed
/// channel ends the reading.
pub fn on_channel_event(event: ChannelEvent) -> (step: ReaderStep)
    ensures
        step == reader_step(event),
        step is Stop <==> event is Closed,
{
    match event {
        ChannelEvent::Item(a) => ReaderStep::Process(a),
        ChannelEvent::Lagged(_) => ReaderStep::Resume,
        ChannelEvent::Closed => ReaderStep::Stop,
    }
}

/// The line that tells of a new prefix.
pub fn detected_line(ip: Ipv6Address) -> (line: LogLine)
    ensures
        line.level == Level::Info,
        line.message@ == "New IPv6 prefix from: "@ + address_text(ip.bits),
{
    let mut out: Vec<char> = Vec::new();
    push_str(&mut out, "New IPv6 prefix from: ");
    push_str(&mut out, ip.to_string().as_str());
    LogLine { level: Level::Info, message: string_of(&out) }
}

/// The line that tells of the address found when the table was first read.
pub fn initial_line(ip: Ipv6Address) -> (line: LogLine)
    ensures
        line.level == Level::Info,
        line.message@ == "Initial IP "@ + address_text(ip.bits) + " detected."@,
{
    let mut out: Vec<char> = Vec::new();
    push_str(&mut out, "Initial IP ");
    push_str(&mut out, ip.to_string().as_str());
    push_str(&mut out, " detected.");
    LogLine { level: Level::Info, message: string_of(&out) }
}

/// The line that tells of the tasks being run at startup.
pub fn startup_line(ip: Ipv6Address) -> (line: LogLine)
    ensures
        line.level == Level::Info,
        line.message@ == "Startup execution: IPv6 prefix detected: "@ + address_text(ip.bits),
{
    let mut out: Vec<char> = Vec::new();
    push_str(&mut out, "Startup execution: IPv6 prefix detected: ");
    push_str(&mut out, ip.to_string().as_str());
    LogLine { level: Level::Info, message: string_of(&out) }
}

/// The line that notes an address whose prefix is the one seen last: the
/// address, and the upper 64 bits of it in hexadecimal.
pub fn duplicate_line(ip: Ipv6Address) -> (line: LogLine)
    ensures
        line.level == Level::Debug,
        line.message@ == "Duplicate IP: "@ + address_text(ip.bits) + ", Prefix: "@ + hex_text(
            upper_half(ip.bits),
        ),
{
    let mut out: Vec<char> = Vec::new();
    push_str(&mut out, "Duplicate IP: ");
    push_str(&mut out, ip.to_string().as_str());
    push_str(&mut out, ", Prefix: ");
    let bits: u128 = ip.bits;
    let upper: u128 = bits >> 64u32;
    proof {
        assert(bits >> 64u32 == bits / 0x1_0000_0000_0000_0000u128) by (bit_vector);
    }
    push_hex(&mut out, upper);
    LogLine { level: Level::Debug, message: string_of(&out) }
}

} // verus!
