//! The control surface of a probe: what a command of the host does to the
//! state, what kind of query a message is, and what each request that a
//! peer or the host can make is answered with.

use vstd::prelude::*;

use crate::probe::{add_pending_peer_post, Probe};
use crate::types::{
    HostMessage, ProbeError, ProbeStatus, QueryBestEndpointRequest, QueryConnectedRequest,
    QueryEstimateRequest, QueryMessage,
};

verus! {

/// What is left to do after a command was handled.
#[derive(Clone, Copy, Debug, PartialEq, Eq, Structural)]
pub enum HostAction {
    /// Nothing: the command was carried out on the state.
    Done,
    /// The whole state is to be stored under `STATE_KEY`.
    SaveApp,
    /// The state is to be replaced by what is stored under `STATE_KEY`.
    LoadApp,
    /// Nothing: the command is not known.
    Unknown,
}

/// The kinds of query.
#[derive(Clone, Copy, Debug, PartialEq, Eq, Structural)]
pub enum QueryKind {
    Echo,
    Resolved,
    Estimate,
    Connected,
    BestEndpoint,
    Status,
    Unknown,
}

/// What a failed estimate is answered with: minus one.
pub const ESTIMATE_FAILED: i64 = -1_000_000_000;

/// What the action for a command is.
pub open spec fn spec_host_action(command: Seq<char>) -> HostAction {
    if command == "add_peer"@ || command == "start_optimize"@ || command == "stop_optimize"@ {
        HostAction::Done
    } else if command == "save_app"@ {
        HostAction::SaveApp
    } else if command == "load_app"@ {
        HostAction::LoadApp
    } else {
        HostAction::Unknown
    }
}

/// What kind of query a command is.
pub open spec fn spec_query_kind(command: Seq<char>) -> QueryKind {
    if command == "echo"@ {
        QueryKind::Echo
    } else if command == "resolved"@ {
        QueryKind::Resolved
    } else if command == "estimate"@ {
        QueryKind::Estimate
    } else if command == "connected"@ {
        QueryKind::Connected
    } else if command == "best_endpoint"@ {
        QueryKind::BestEndpoint
    } else if command == "status"@ {
        QueryKind::Status
    } else {
        QueryKind::Unknown
    }
}

fn is_text(s: &String, text: &str) -> (r: bool)
    ensures
        r == (s@ == text@),
{
    let other: String = String::from_str(text);
    *s == other
}

/// Carries out a command of the host. `add_peer` queues the identifier in
/// `data`; `start_optimize` and `stop_optimize` let the optimizer run or
/// hold it back; `save_app` and `load_app` leave the state as it is and tell
/// the caller to store or restore it; any other command changes nothing.
pub fn handle_host_message(probe: &mut Probe, message: &HostMessage) -> (action: HostAction)
    requires
        old(probe).wf(),
    ensures
        final(probe).wf(),
        action == spec_host_action(message.command@),
        if message.command@ == "add_peer"@ {
            add_pending_peer_post(old(probe), final(probe), message.data@)
        } else if message.command@ == "start_optimize"@ {
            &&& final(probe).status == (ProbeStatus { is_optimizing: true, ..old(probe).status })
            &&& final(probe).encoded_public_key == old(probe).encoded_public_key
            &&& final(probe).parameters == old(probe).parameters
            &&& final(probe).telemetry == old(probe).telemetry
            &&& final(probe).resolved == old(probe).resolved
            &&& final(probe).peers == old(probe).peers
            &&& final(probe).pending_peer_ids == old(probe).pending_peer_ids
        } else if message.command@ == "stop_optimize"@ {
            &&& final(probe).status == (ProbeStatus { is_optimizing: false, ..old(probe).status })
            &&& final(probe).encoded_public_key == old(probe).encoded_public_key
            &&& final(probe).parameters == old(probe).parameters
            &&& final(probe).telemetry == old(probe).telemetry
            &&& final(probe).resolved == old(probe).resolved
            &&& final(probe).peers == old(probe).peers
            &&& final(probe).pending_peer_ids == old(probe).pending_peer_ids
        } else {
            *final(probe) == *old(probe)
        },
{
    if is_text(&message.command, "add_peer") {
        probe.add_pending_peer(message.data.clone());
        HostAction::Done
    } else if is_text(&message.command, "start_optimize") {
        probe.start_optimize();
        HostAction::Done
    } else if is_text(&message.command, "stop_optimize") {
        probe.stop_optimize();
        HostAction::Done
    } else if is_text(&message.command, "save_app") {
        HostAction::SaveApp
    } else if is_text(&message.command, "load_app") {
        HostAction::LoadApp
    } else {
        HostAction::Unknown
    }
}

/// Replaces the state by a restored one, as `load_app` asks. Without a
/// stored state the result is `NotFound`; a stored state that does not
/// decode, or breaks the invariants, gives `DecodeFailed`. On an error the
/// state stays as it is.
pub fn load_app(probe: &mut Probe, restored: Option<Result<Probe, ProbeError>>) -> (r: Result<
    (),
    ProbeError,
>)
    requires
        old(probe).wf(),
    ensures
        final(probe).wf(),
        match restored {
            None => r == Err::<(), ProbeError>(ProbeError::NotFound) && *final(probe) == *old(probe),
            Some(Err(_)) => r == Err::<(), ProbeError>(ProbeError::DecodeFailed) && *final(probe)
                == *old(probe),
            Some(Ok(state)) => if state.wf() {
                r == Ok::<(), ProbeError>(()) && *final(probe) == state
            } else {
                r == Err::<(), ProbeError>(ProbeError::DecodeFailed) && *final(probe) == *old(probe)
            },
        },
{
    match restored {
        None => Err(ProbeError::NotFound),
        Some(Err(_)) => Err(ProbeError::DecodeFailed),
        Some(Ok(state)) => {
            if state.is_valid() {
                *probe = state;
                Ok(())
            } else {
                Err(ProbeError::DecodeFailed)
            }
        },
    }
}

/// What kind of query a message is.
pub fn query_kind(message: &QueryMessage) -> (kind: QueryKind)
    ensures
        kind == spec_query_kind(message.command@),
{
    if is_text(&message.command, "echo") {
        QueryKind::Echo
    } else if is_text(&message.command, "resolved") {
        QueryKind::Resolved
    } else if is_text(&message.command, "estimate") {
        QueryKind::Estimate
    } else if is_text(&message.command, "connected") {
        QueryKind::Connected
    } else if is_text(&message.command, "best_endpoint") {
        QueryKind::BestEndpoint
    } else if is_text(&message.command, "status") {
        QueryKind::Status
    } else {
        QueryKind::Unknown
    }
}

/// Answers `/echo/:msg`: the message, as it came.
pub fn echo_handler(msg: &String) -> (r: String)
    ensures
        r@ == msg@,
{
    msg.clone()
}

/// Answers `/estimate/:from/:to`: the estimated latency, or minus one where
/// there is none to give, whatever the reason.
pub fn estimate_handler(probe: &Probe, request: QueryEstimateRequest) -> (r: i64)
    requires
        probe.wf(),
    ensures
        match probe.spec_estimate(request.from@, request.to@) {
            Ok(d) => r == d,
            Err(_) => r == ESTIMATE_FAILED,
        },
{
    match probe.estimate(request.from, request.to) {
        Ok(d) => d,
        Err(_) => ESTIMATE_FAILED,
    }
}

/// Answers `/connected/:from`: queues the sender as a pending peer and hands
/// its identifier back.
pub fn connected_handler(probe: &mut Probe, request: QueryConnectedRequest) -> (r: String)
    requires
        old(probe).wf(),
    ensures
        final(probe).wf(),
        add_pending_peer_post(old(probe), final(probe), request.from@),
        r@ == request.from@,
{
    let from: String = request.from.clone();
    probe.add_pending_peer(request.from);
    from
}

/// Answers `/best_endpoint/:to`: the best endpoint of the peer, or why there
/// is none to give.
pub fn best_endpoint_handler(probe: &Probe, request: QueryBestEndpointRequest) -> (r: Result<
    String,
    ProbeError,
>)
    requires
        probe.wf(),
    ensures
        match r {
            Ok(endpoint) => probe.spec_best_endpoint(request.to@) == Ok::<Seq<char>, ProbeError>(
                endpoint@,
            ),
            Err(e) => probe.spec_best_endpoint(request.to@) == Err::<Seq<char>, ProbeError>(e),
        },
{
    probe.get_best_endpoint_to(request.to)
}

/// Answers `/status`: the runtime status.
pub fn status_handler(probe: &Probe) -> (r: ProbeStatus)
    ensures
        r == probe.status,
{
    probe.status
}

} // verus!
