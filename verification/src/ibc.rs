//! The packet-lifecycle handlers: the protocol surface the transport
//! drives.  Handshake completion is the only way a channel enters the
//! registry, and channel closure the only way it leaves; packet outcomes
//! (acknowledgement, timeout) touch nothing but the advisory counter.

use vstd::prelude::*;
use vstd::string::*;

use crate::error::ContractError;
use crate::msg::{Attribute, InterchainQueryPacketData, Response};
use crate::state::{ChannelInfo, ContractState, IbcEndpoint};

verus! {

/// How packets on a channel are delivered relative to each other.
#[derive(Clone, Copy, Debug, PartialEq, Eq, Structural)]
pub enum IbcOrder {
    Ordered,
    Unordered,
}

/// What the transport tells us about a channel under negotiation: both
/// ends, the proposed ordering and protocol version, and the connection it
/// would live on.
#[derive(Debug, PartialEq)]
pub struct IbcChannel {
    /// Our end: our port and the channel's local id.
    pub endpoint: IbcEndpoint,
    /// The remote end.
    pub counterparty_endpoint: IbcEndpoint,
    pub order: IbcOrder,
    pub version: String,
    pub connection_id: String,
}

/// The protocol version string this contract understands.
pub open spec fn icq_version() -> Seq<char> {
    "icq-1"@
}

/// The port the remote query service is expected to sit behind.
pub open spec fn expected_counterparty_port() -> Seq<char> {
    "icqhost"@
}

fn icq_version_string() -> (r: String)
    ensures
        r@ == icq_version(),
{
    String::from_str("icq-1")
}

fn expected_counterparty_port_string() -> (r: String)
    ensures
        r@ == expected_counterparty_port(),
{
    String::from_str("icqhost")
}

/// Why a proposed channel is rejected, if it is: the first failed check
/// among ordering, our version, the counterparty's version, and the
/// counterparty's port.
pub open spec fn handshake_reject_reason(
    chan: IbcChannel,
    counterparty_version: Option<Seq<char>>,
) -> Option<Seq<char>> {
    if chan.order != IbcOrder::Unordered {
        Some("only unordered channels are supported"@)
    } else if chan.version@ != icq_version() {
        Some("channel version does not match the interchain query version"@)
    } else if counterparty_version matches Some(v) && v != icq_version() {
        Some("counterparty version does not match the interchain query version"@)
    } else if chan.counterparty_endpoint.port_id@ != expected_counterparty_port() {
        Some("counterparty port is not the query service port"@)
    } else {
        None
    }
}

/// The view of an optional borrowed version string.
pub open spec fn opt_version_view(v: Option<&String>) -> Option<Seq<char>> {
    match v {
        Some(s) => Some(s@),
        None => None,
    }
}

fn enforce_order_and_version(chan: &IbcChannel, counterparty_version: Option<&String>) -> (r:
    Result<(), ContractError>)
    ensures
        match r {
            Ok(_) => handshake_reject_reason(*chan, opt_version_view(counterparty_version))
                is None,
            Err(e) => e matches ContractError::HandshakeRejected { reason } && Some(reason@)
                == handshake_reject_reason(*chan, opt_version_view(counterparty_version)),
        },
{
    if chan.order != IbcOrder::Unordered {
        return Err(
            ContractError::HandshakeRejected {
                reason: String::from_str("only unordered channels are supported"),
            },
        );
    }
    if chan.version != icq_version_string() {
        return Err(
            ContractError::HandshakeRejected {
                reason: String::from_str(
                    "channel version does not match the interchain query version",
                ),
            },
        );
    }
    match counterparty_version {
        Some(v) => {
            if *v != icq_version_string() {
                return Err(
                    ContractError::HandshakeRejected {
                        reason: String::from_str(
                            "counterparty version does not match the interchain query version",
                        ),
                    },
                );
            }
        },
        None => {},
    }
    if chan.counterparty_endpoint.port_id != expected_counterparty_port_string() {
        return Err(
            ContractError::HandshakeRejected {
                reason: String::from_str("counterparty port is not the query service port"),
            },
        );
    }
    Ok(())
}

/// First handshake step on the initiating side: only validates the
/// proposal; nothing is registered yet.
pub fn on_channel_open_init(chan: &IbcChannel) -> (r: Result<(), ContractError>)
    ensures
        match r {
            Ok(_) => handshake_reject_reason(*chan, None) is None,
            Err(e) => e matches ContractError::HandshakeRejected { reason } && Some(reason@)
                == handshake_reject_reason(*chan, None),
        },
{
    enforce_order_and_version(chan, None)
}

/// First handshake step on the responding side: validates the proposal
/// and the counterparty's version; nothing is registered yet.
pub fn on_channel_open_try(chan: &IbcChannel, counterparty_version: &String) -> (r: Result<
    (),
    ContractError,
>)
    ensures
        match r {
            Ok(_) => handshake_reject_reason(*chan, Some(counterparty_version@)) is None,
            Err(e) => e matches ContractError::HandshakeRejected { reason } && Some(reason@)
                == handshake_reject_reason(*chan, Some(counterparty_version@)),
        },
{
    enforce_order_and_version(chan, Some(counterparty_version))
}

/// The registry entry a confirmed channel gets.
pub open spec fn channel_info_of(chan: IbcChannel) -> ChannelInfo {
    ChannelInfo {
        id: chan.endpoint.channel_id,
        counterparty_endpoint: chan.counterparty_endpoint,
        connection_id: chan.connection_id,
    }
}

/// What completing a handshake promises: the channel is registered under
/// its local id, every other entry is untouched, and nothing else in the
/// state changes.
pub open spec fn channel_registered_post(
    pre: ContractState,
    post: ContractState,
    chan: IbcChannel,
) -> bool {
    &&& post.channels.has_spec(chan.endpoint.channel_id@)
    &&& post.channels.get_spec(chan.endpoint.channel_id@) == Some(channel_info_of(chan))
    &&& forall|x: Seq<char>|
        x != chan.endpoint.channel_id@ ==> post.channels.get_spec(x) == pre.channels.get_spec(x)
    &&& forall|x: Seq<char>|
        x != chan.endpoint.channel_id@ ==> post.channels.has_spec(x) == pre.channels.has_spec(x)
    &&& post.config == pre.config
    &&& post.admin == pre.admin
    &&& post.query_result_counter == pre.query_result_counter
}

/// Handshake completion on the initiating side: registers the channel.
pub fn on_channel_open_ack(state: &mut ContractState, chan: IbcChannel) -> (r: Response)
    requires
        old(state).wf(),
    ensures
        final(state).wf(),
        channel_registered_post(*old(state), *final(state), chan),
        r.messages@.len() == 0,
        r.attributes@.len() == 0,
{
    register_confirmed(state, chan)
}

/// Handshake completion on the responding side: registers the channel.
pub fn on_channel_open_confirm(state: &mut ContractState, chan: IbcChannel) -> (r: Response)
    requires
        old(state).wf(),
    ensures
        final(state).wf(),
        channel_registered_post(*old(state), *final(state), chan),
        r.messages@.len() == 0,
        r.attributes@.len() == 0,
{
    register_confirmed(state, chan)
}

fn register_confirmed(state: &mut ContractState, chan: IbcChannel) -> (r: Response)
    requires
        old(state).wf(),
    ensures
        final(state).wf(),
        channel_registered_post(*old(state), *final(state), chan),
        r.messages@.len() == 0,
        r.attributes@.len() == 0,
{
    let info = ChannelInfo {
        id: chan.endpoint.channel_id,
        counterparty_endpoint: chan.counterparty_endpoint,
        connection_id: chan.connection_id,
    };
    state.channels.register(info);
    Response::empty()
}

/// What closing a channel promises: the id is no longer registered, every
/// other entry is untouched, and nothing else in the state changes.
pub open spec fn channel_closed_post(
    pre: ContractState,
    post: ContractState,
    channel_id: Seq<char>,
) -> bool {
    &&& !post.channels.has_spec(channel_id)
    &&& forall|x: Seq<char>| x != channel_id ==> post.channels.get_spec(x) == pre.channels.get_spec(
        x,
    )
    &&& forall|x: Seq<char>| x != channel_id ==> post.channels.has_spec(x) == pre.channels.has_spec(
        x,
    )
    &&& post.config == pre.config
    &&& post.admin == pre.admin
    &&& post.query_result_counter == pre.query_result_counter
}

/// Channel closure initiated on our side: the registry entry is removed,
/// so later dispatches to this id fail with `NoSuchChannel`.
pub fn on_channel_close_init(state: &mut ContractState, channel_id: &String) -> (r: Response)
    requires
        old(state).wf(),
    ensures
        final(state).wf(),
        channel_closed_post(*old(state), *final(state), channel_id@),
        r.messages@.len() == 0,
        r.attributes@.len() == 0,
{
    state.channels.remove(channel_id);
    Response::empty()
}

/// Channel closure confirmed by the counterparty: the registry entry is
/// removed, so later dispatches to this id fail with `NoSuchChannel`.
pub fn on_channel_close_confirm(state: &mut ContractState, channel_id: &String) -> (r: Response)
    requires
        old(state).wf(),
    ensures
        final(state).wf(),
        channel_closed_post(*old(state), *final(state), channel_id@),
        r.messages@.len() == 0,
        r.attributes@.len() == 0,
{
    state.channels.remove(channel_id);
    Response::empty()
}

/// The advisory counter after one more observed packet outcome.
pub open spec fn bumped_counter(c: u64) -> u64 {
    if c == u64::MAX {
        c
    } else {
        (c + 1) as u64
    }
}

/// What observing a packet outcome promises: nothing changes but the
/// advisory counter, and no message is re-dispatched.
pub open spec fn packet_outcome_post(pre: ContractState, post: ContractState, r: Response) -> bool {
    &&& post.channels == pre.channels
    &&& post.config == pre.config
    &&& post.admin == pre.admin
    &&& post.query_result_counter == bumped_counter(pre.query_result_counter)
    &&& r.messages@.len() == 0
}

/// The remote side acknowledged a packet.  Purely observational: the
/// outcome is recorded, the original request is never re-dispatched, and
/// the registry is untouched.
pub fn on_packet_acknowledgement(
    state: &mut ContractState,
    _channel_id: &String,
    _original_payload: &InterchainQueryPacketData,
    success: bool,
) -> (r: Response)
    requires
        old(state).wf(),
    ensures
        final(state).wf(),
        packet_outcome_post(*old(state), *final(state), r),
        r.attributes@.len() == 2,
        r.attributes@[0].key@ == "action"@,
        r.attributes@[0].value@ == "acknowledge"@,
        r.attributes@[1].key@ == "success"@,
        r.attributes@[1].value@ == (if success {
            "true"@
        } else {
            "false"@
        }),
{
    if state.query_result_counter < u64::MAX {
        state.query_result_counter = state.query_result_counter + 1;
    }
    let mut attributes: Vec<Attribute> = Vec::new();
    attributes.push(
        Attribute { key: String::from_str("action"), value: String::from_str("acknowledge") },
    );
    attributes.push(
        Attribute {
            key: String::from_str("success"),
            value: if success {
                String::from_str("true")
            } else {
                String::from_str("false")
            },
        },
    );
    Response { messages: Vec::new(), attributes }
}

/// A packet expired undelivered.  Treated like a failed acknowledgement:
/// recorded, permanently dropped, never re-dispatched.
pub fn on_packet_timeout(
    state: &mut ContractState,
    _channel_id: &String,
    _original_payload: &InterchainQueryPacketData,
) -> (r: Response)
    requires
        old(state).wf(),
    ensures
        final(state).wf(),
        packet_outcome_post(*old(state), *final(state), r),
        r.attributes@.len() == 1,
        r.attributes@[0].key@ == "action"@,
        r.attributes@[0].value@ == "timeout"@,
{
    if state.query_result_counter < u64::MAX {
        state.query_result_counter = state.query_result_counter + 1;
    }
    let mut attributes: Vec<Attribute> = Vec::new();
    attributes.push(
        Attribute { key: String::from_str("action"), value: String::from_str("timeout") },
    );
    Response { messages: Vec::new(), attributes }
}

} // verus!
