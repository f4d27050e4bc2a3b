//! The slot change monitor's decisions.
//!
//! The monitor holds one long-lived subscription to the ledger's slot-root
//! event stream.  The socket itself lives outside the crate; what stands
//! here is the shape of a root notification and the monitor's per-message
//! rule: a well-formed notification forwards its root slot number, anything
//! else — an unreadable message or one that does not parse — is skipped and
//! the loop goes on.  Only a failed connect is terminal, and it crashes the
//! monitor alone.

use vstd::prelude::*;

verus! {

/// The payload of a slot-root notification.
#[derive(Clone, Debug)]
pub struct SlotSubscribeResult {
    pub parent: i64,
    pub root: i64,
    pub slot: i64,
}

/// The parameters of a slot-root notification.
#[derive(Clone, Debug)]
pub struct SlotSubscribeParams {
    pub result: SlotSubscribeResult,
    pub subscription: i64,
}

/// One inbound slot-root notification.  Only `params.result.root` is
/// consumed.
#[derive(Clone, Debug)]
pub struct SlotSubscribeResponse {
    pub jsonrpc: String,
    pub method: String,
    pub params: SlotSubscribeParams,
}

/// The root slot number a notification carries, reinterpreted as the
/// unsigned slot type.
pub fn root_slot(resp: &SlotSubscribeResponse) -> (r: u64)
    ensures
        resp.params.result.root >= 0 ==> r == resp.params.result.root,
        r == resp.params.result.root as u64,
{
    #[verifier::truncate]
    (resp.params.result.root as u64)
}

/// What the monitor sees for one turn of its loop: a message that parsed
/// into a notification, a message that did not, or a failed socket read.
pub enum MonitorEvent {
    Notification(SlotSubscribeResponse),
    Unparseable,
    ReadFailed,
}

/// What the monitor does with one event.
#[derive(Clone, Copy, Debug, PartialEq, Eq, Structural)]
pub enum MonitorAction {
    /// Push this root slot number downstream.
    ForwardRoot(u64),
    /// Log and carry on; malformed input never crashes the loop.
    Skip,
}

/// The monitor's per-message rule: a parsed notification forwards its root;
/// everything else is skipped.
pub fn monitor_step(event: &MonitorEvent) -> (r: MonitorAction)
    ensures
        match *event {
            MonitorEvent::Notification(resp) => r == MonitorAction::ForwardRoot(
                resp.params.result.root as u64,
            ),
            MonitorEvent::Unparseable => r == MonitorAction::Skip,
            MonitorEvent::ReadFailed => r == MonitorAction::Skip,
        },
{
    match event {
        MonitorEvent::Notification(resp) => MonitorAction::ForwardRoot(root_slot(resp)),
        MonitorEvent::Unparseable => MonitorAction::Skip,
        MonitorEvent::ReadFailed => MonitorAction::Skip,
    }
}

} // verus!
