//! Message and response types of the contract's command and query surface.

use vstd::prelude::*;

verus! {

/// Seeds the configuration and, optionally, the admin at instantiation.
#[derive(Debug, PartialEq)]
pub struct InitMsg {
    /// Default timeout for query packets, in seconds.
    pub default_timeout: u64,
    /// Address allowed to run admin-gated operations, if any.
    pub gov_contract: Option<String>,
    /// Default gas allowance for remote execution, if any.
    pub default_gas_limit: Option<u64>,
}

/// Placeholder for schema upgrades; carried through the no-op migration.
#[derive(Debug, PartialEq)]
pub struct MigrateMsg {
    pub default_gas_limit: Option<u64>,
}

/// The commands the contract executes.
#[derive(Debug, PartialEq)]
pub enum ExecuteMsg {
    /// Dispatch a batch of query requests over a registered channel.
    Query(ICQQueryMsg),
    /// Replace the admin; only the current admin may do this.
    UpdateAdmin { admin: String },
}

/// A dispatch request: which channel to use, what to ask, and for how long
/// the packet may stay in flight.
#[derive(Debug, PartialEq)]
pub struct ICQQueryMsg {
    /// The local channel to send the packet on.
    pub channel: String,
    /// The queries to evaluate on the remote chain, in order.
    pub requests: Vec<RequestQuery>,
    /// How long the packet lives, in seconds.  If not given, the configured
    /// default timeout applies.
    pub timeout: Option<u64>,
}

/// One read-only state query, as the caller supplies it.
#[derive(Debug, PartialEq)]
pub struct RequestQuery {
    /// Raw request payload handed to the remote query engine.
    pub data: Vec<u8>,
    /// Remote store path the query runs against.
    pub path: String,
    /// Block height to query at; `None` means the latest height.
    pub height: Option<i64>,
    /// Whether a proof is requested; defaults to `false`.
    pub prove: Option<bool>,
}

/// One query request in wire form: every optional field resolved to its
/// default (`height` 0 meaning latest, `prove` false).
#[derive(Debug, PartialEq)]
pub struct RequestQueryJSON {
    pub data: Vec<u8>,
    pub path: String,
    pub height: i64,
    pub prove: bool,
}

/// The fields of a remote query response that this contract cares about.
#[derive(Debug, PartialEq)]
pub struct ResponseQuery {
    pub key: Vec<u8>,
    pub value: String,
    pub height: i64,
}

/// The payload attached to an outbound packet: the canonical encoding of the
/// dispatched request batch, wrapped for outer transport framing.
#[derive(Debug, PartialEq)]
pub struct InterchainQueryPacketData {
    pub data: Vec<u8>,
}

/// The read-only queries the contract answers.
#[derive(Debug, PartialEq)]
pub enum QueryMsg {
    /// The port this contract is bound to.  Answered with [`PortResponse`].
    Port {},
    /// All channels registered for dispatch, ascending by id.  Answered with
    /// [`ListChannelsResponse`].
    ListChannels {},
    /// Details of one channel; fails with `NotFound` if it is not
    /// registered.  Answered with [`ChannelResponse`].
    Channel { id: String },
    /// The stored configuration.  Answered with [`ConfigResponse`].
    Config {},
    /// The current admin, if any.  Answered with [`AdminResponse`].
    Admin {},
}

/// One answer per [`QueryMsg`] variant.
#[derive(Debug, PartialEq)]
pub enum QueryAnswer {
    Port(PortResponse),
    ListChannels(ListChannelsResponse),
    Channel(ChannelResponse),
    Config(ConfigResponse),
    Admin(AdminResponse),
}

#[derive(Debug, PartialEq)]
pub struct ListChannelsResponse {
    pub channels: Vec<crate::state::ChannelInfo>,
}

#[derive(Debug, PartialEq)]
pub struct ChannelResponse {
    /// Information on the channel's connection.
    pub info: crate::state::ChannelInfo,
}

#[derive(Debug, PartialEq)]
pub struct PortResponse {
    pub port_id: String,
}

#[derive(Debug, PartialEq)]
pub struct ConfigResponse {
    pub default_timeout: u64,
    pub default_gas_limit: Option<u64>,
    pub gov_contract: Option<String>,
}

#[derive(Debug, PartialEq)]
pub struct AdminResponse {
    pub admin: Option<String>,
}

/// The one outbound instruction a successful dispatch produces: which
/// channel carries the packet, its payload, and the absolute timeout the
/// transport enforces, in nanoseconds since the epoch.
#[derive(Debug, PartialEq)]
pub struct IbcSendPacket {
    pub channel_id: String,
    pub data: InterchainQueryPacketData,
    pub timeout_timestamp_nanos: u64,
}

/// An observable key/value attribute emitted by an entry point.
#[derive(Debug, PartialEq)]
pub struct Attribute {
    pub key: String,
    pub value: String,
}

/// What a successful entry point hands back to the host: outbound packet
/// instructions to perform, and attributes to record.
#[derive(Debug, PartialEq)]
pub struct Response {
    pub messages: Vec<IbcSendPacket>,
    pub attributes: Vec<Attribute>,
}

impl Response {
    /// A response with no instructions and no attributes.
    pub fn empty() -> (r: Response)
        ensures
            r.messages@ =~= Seq::<IbcSendPacket>::empty(),
            r.attributes@ =~= Seq::<Attribute>::empty(),
    {
        Response { messages: Vec::new(), attributes: Vec::new() }
    }
}

} // verus!
