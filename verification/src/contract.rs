//! The contract's command and query entry points.
//!
//! `execute_query` is the dispatcher: it validates a dispatch request
//! against the channel registry and the configuration, computes the packet
//! timeout, builds the canonical payload, and produces exactly one outbound
//! packet instruction.  It never writes the registry; only the handshake
//! handlers in [`crate::ibc`] do.

use vstd::prelude::*;
use vstd::string::*;

use crate::codec::{default_records, encode, enc_packet, records_of, records_wf};
use crate::error::ContractError;
use crate::msg::{
    AdminResponse, Attribute, ChannelResponse, ConfigResponse, ExecuteMsg, IbcSendPacket,
    ICQQueryMsg, InitMsg, InterchainQueryPacketData, ListChannelsResponse, MigrateMsg,
    PortResponse, QueryAnswer, QueryMsg, Response,
};
use crate::state::{Config, ContractState};

verus! {

/// Nanoseconds in one second; timeouts are supplied in seconds and the
/// transport expects an absolute timestamp in nanoseconds.
pub const NANOS_PER_SECOND: u64 = 1_000_000_000;

/// The decimal digit character for `d`.
pub open spec fn dec_digit(d: int) -> char
    recommends
        0 <= d <= 9,
{
    ((48 + d) as u8) as char
}

/// The decimal numeral of `n`, most significant digit first.
pub open spec fn dec_str(n: nat) -> Seq<char>
    decreases n,
{
    if n < 10 {
        seq![dec_digit(n as int)]
    } else {
        dec_str(n / 10).push(dec_digit((n % 10) as int))
    }
}

fn push_u64_decimal(s: &mut String, n: u64)
    ensures
        final(s)@ == old(s)@ + dec_str(n as nat),
    decreases n,
{
    if n >= 10 {
        push_u64_decimal(s, n / 10);
    }
    let d = (n % 10) as u8;
    crate::codec::push_char(s, (48 + d) as char);
    proof {
        if n < 10 {
            assert(old(s)@ + dec_str(n as nat) =~= old(s)@.push(dec_digit((n % 10) as int)));
        } else {
            assert(old(s)@ + dec_str(n as nat) =~= (old(s)@ + dec_str((n / 10) as nat)).push(
                dec_digit((n % 10) as int),
            ));
        }
    }
}

/// The decimal numeral of `n` as a string.
pub fn u64_to_dec_string(n: u64) -> (r: String)
    ensures
        r@ == dec_str(n as nat),
{
    let mut s = String::new();
    push_u64_decimal(&mut s, n);
    proof {
        assert(Seq::<char>::empty() + dec_str(n as nat) =~= dec_str(n as nat));
    }
    s
}

/// The timeout a dispatch runs with: the caller's, or the configured
/// default when the caller names none.
pub open spec fn effective_timeout(msg_timeout: Option<u64>, cfg: Config) -> u64 {
    match msg_timeout {
        Some(t) => t,
        None => cfg.default_timeout,
    }
}

/// A timeout is usable when it is non-zero and the absolute timestamp it
/// yields still fits the transport's clock, so that the timestamp strictly
/// exceeds the current block time.
pub open spec fn timeout_ok(block_time_nanos: u64, secs: u64) -> bool {
    secs != 0 && block_time_nanos + secs * NANOS_PER_SECOND <= u64::MAX
}

/// Everything a dispatch promises: exactly one outbound instruction on the
/// named channel with the canonical payload and the computed timeout, or
/// the error that names the first failed check.
pub open spec fn dispatch_post(
    state: ContractState,
    block_time_nanos: u64,
    msg: ICQQueryMsg,
    r: Result<Response, ContractError>,
) -> bool {
    let secs = effective_timeout(msg.timeout, state.config);
    let registered = state.channels.has_spec(msg.channel@);
    match r {
        Ok(res) => {
            &&& registered
            &&& timeout_ok(block_time_nanos, secs)
            &&& msg.requests@.len() > 0
            &&& records_wf(records_of(msg.requests@))
            &&& res.messages@.len() == 1
            &&& res.messages@[0].channel_id@ == msg.channel@
            &&& res.messages@[0].timeout_timestamp_nanos == block_time_nanos + secs
                * NANOS_PER_SECOND
            &&& res.messages@[0].timeout_timestamp_nanos > block_time_nanos
            &&& res.messages@[0].data.data@ == enc_packet(records_of(msg.requests@))
            &&& res.attributes@.len() == 2
            &&& res.attributes@[0].key@ == "action"@
            &&& res.attributes@[0].value@ == "query"@
            &&& res.attributes@[1].key@ == "num_requests"@
            &&& res.attributes@[1].value@ == dec_str(msg.requests@.len())
        },
        Err(ContractError::NoSuchChannel { id }) => !registered && id@ == msg.channel@,
        Err(ContractError::InvalidTimeout) => registered && !timeout_ok(block_time_nanos, secs),
        Err(ContractError::EncodingError) => {
            &&& registered
            &&& timeout_ok(block_time_nanos, secs)
            &&& (msg.requests@.len() == 0 || !records_wf(records_of(msg.requests@)))
        },
        Err(_) => false,
    }
}

/// Sets up the initial state: the configuration, the optional admin, an
/// empty channel registry.
pub fn instantiate(msg: InitMsg) -> (r: (ContractState, Response))
    ensures
        r.0.wf(),
        r.0.config == (Config {
            default_timeout: msg.default_timeout,
            default_gas_limit: msg.default_gas_limit,
        }),
        r.0.admin == msg.gov_contract,
        r.0.channels@ == Seq::<crate::state::ChannelInfo>::empty(),
        r.0.query_result_counter == 0,
        r.1.messages@.len() == 0,
        r.1.attributes@.len() == 0,
{
    let state = ContractState {
        config: Config {
            default_timeout: msg.default_timeout,
            default_gas_limit: msg.default_gas_limit,
        },
        admin: msg.gov_contract,
        channels: crate::state::ChannelRegistry::new(),
        query_result_counter: 0,
    };
    (state, Response::empty())
}

/// Routes one command to its handler.  A dispatch never changes the state;
/// an admin update changes only the admin.
pub fn execute(
    state: &mut ContractState,
    block_time_nanos: u64,
    sender: &String,
    msg: ExecuteMsg,
) -> (r: Result<Response, ContractError>)
    requires
        old(state).wf(),
    ensures
        final(state).wf(),
        match msg {
            ExecuteMsg::Query(q) => *final(state) == *old(state) && dispatch_post(
                *old(state),
                block_time_nanos,
                q,
                r,
            ),
            ExecuteMsg::UpdateAdmin { admin } => update_admin_post(
                *old(state),
                *final(state),
                sender@,
                admin@,
                r,
            ),
        },
{
    match msg {
        ExecuteMsg::Query(q) => execute_query(state, block_time_nanos, q),
        ExecuteMsg::UpdateAdmin { admin } => update_admin(state, sender, admin),
    }
}

/// Dispatches a batch of query requests over a registered channel: checks
/// the registry, resolves and checks the timeout, encodes the payload, and
/// emits exactly one packet-send instruction.
pub fn execute_query(state: &ContractState, block_time_nanos: u64, msg: ICQQueryMsg) -> (r: Result<
    Response,
    ContractError,
>)
    requires
        state.wf(),
    ensures
        dispatch_post(*state, block_time_nanos, msg, r),
{
    if !state.channels.has(&msg.channel) {
        return Err(ContractError::NoSuchChannel { id: msg.channel });
    }
    let secs = match msg.timeout {
        Some(t) => t,
        None => state.config.default_timeout,
    };
    if secs == 0 {
        return Err(ContractError::InvalidTimeout);
    }
    proof {
        let s = secs as int;
        assert(s * 1_000_000_000 <= 0xFFFF_FFFF_FFFF_FFFF * 1_000_000_000) by (nonlinear_arith)
            requires
                0 <= s <= 0xFFFF_FFFF_FFFF_FFFF,
        ;
    }
    let t128 = block_time_nanos as u128 + (secs as u128) * (NANOS_PER_SECOND as u128);
    if t128 > u64::MAX as u128 {
        return Err(ContractError::InvalidTimeout);
    }
    let timeout_timestamp = t128 as u64;
    let num_requests = msg.requests.len();
    if num_requests == 0 {
        return Err(ContractError::EncodingError);
    }
    let records = default_records(&msg.requests);
    let payload = match encode(&records) {
        Some(b) => b,
        None => {
            return Err(ContractError::EncodingError);
        },
    };
    let packet = InterchainQueryPacketData { data: payload };
    let send = IbcSendPacket {
        channel_id: msg.channel,
        data: packet,
        timeout_timestamp_nanos: timeout_timestamp,
    };
    let mut messages: Vec<IbcSendPacket> = Vec::new();
    messages.push(send);
    let mut attributes: Vec<Attribute> = Vec::new();
    attributes.push(
        Attribute { key: String::from_str("action"), value: String::from_str("query") },
    );
    attributes.push(
        Attribute {
            key: String::from_str("num_requests"),
            value: u64_to_dec_string(num_requests as u64),
        },
    );
    Ok(Response { messages, attributes })
}

/// What replacing the admin promises: only the current admin may rotate
/// it, everything else is untouched, and the observable attributes record
/// the old and the new admin.
pub open spec fn update_admin_post(
    pre: ContractState,
    post: ContractState,
    caller: Seq<char>,
    new_admin: Seq<char>,
    r: Result<Response, ContractError>,
) -> bool {
    match r {
        Ok(res) => {
            &&& pre.admin matches Some(a) && a@ == caller && {
                &&& post.admin matches Some(na) && na@ == new_admin
                &&& post.config == pre.config
                &&& post.channels == pre.channels
                &&& post.query_result_counter == pre.query_result_counter
                &&& res.messages@.len() == 0
                &&& res.attributes@.len() == 3
                &&& res.attributes@[0].key@ == "action"@
                &&& res.attributes@[0].value@ == "update_admin"@
                &&& res.attributes@[1].key@ == "old_admin"@
                &&& res.attributes@[1].value@ == a@
                &&& res.attributes@[2].key@ == "new_admin"@
                &&& res.attributes@[2].value@ == new_admin
            }
        },
        Err(ContractError::Unauthorized) => {
            &&& match pre.admin {
                Some(a) => a@ != caller,
                None => true,
            }
            &&& post == pre
        },
        Err(_) => false,
    }
}

/// Replaces the admin singleton.  Fails with `Unauthorized`, changing
/// nothing, unless the caller is the current admin.
pub fn update_admin(state: &mut ContractState, caller: &String, new_admin: String) -> (r: Result<
    Response,
    ContractError,
>)
    requires
        old(state).wf(),
    ensures
        final(state).wf(),
        update_admin_post(*old(state), *final(state), caller@, new_admin@, r),
{
    let authorized = match &state.admin {
        Some(a) => *a == *caller,
        None => false,
    };
    if !authorized {
        return Err(ContractError::Unauthorized);
    }
    let old_admin = match &state.admin {
        Some(a) => a.clone(),
        None => {
            return Err(ContractError::Unauthorized);
        },
    };
    let mut attributes: Vec<Attribute> = Vec::new();
    attributes.push(
        Attribute { key: String::from_str("action"), value: String::from_str("update_admin") },
    );
    attributes.push(Attribute { key: String::from_str("old_admin"), value: old_admin });
    attributes.push(
        Attribute { key: String::from_str("new_admin"), value: new_admin.clone() },
    );
    state.admin = Some(new_admin);
    Ok(Response { messages: Vec::new(), attributes })
}

/// A no-op placeholder, reserved for schema upgrades.
pub fn migrate(state: &mut ContractState, _msg: MigrateMsg) -> (r: Response)
    requires
        old(state).wf(),
    ensures
        *final(state) == *old(state),
        r.messages@.len() == 0,
        r.attributes@.len() == 0,
{
    Response::empty()
}

/// Routes one read-only query to its handler.  `local_port` is the port
/// this contract is bound to, as the host reports it.
pub fn query(state: &ContractState, local_port: String, msg: QueryMsg) -> (r: Result<
    QueryAnswer,
    ContractError,
>)
    requires
        state.wf(),
    ensures
        match msg {
            QueryMsg::Port {} => r matches Ok(QueryAnswer::Port(p)) && p.port_id == local_port,
            QueryMsg::ListChannels {} => r matches Ok(QueryAnswer::ListChannels(l)) && l.channels@
                == state.channels@,
            QueryMsg::Channel { id } => match r {
                Ok(QueryAnswer::Channel(c)) => state.channels.get_spec(id@) == Some(c.info),
                Err(e) => e == ContractError::NotFound && !state.channels.has_spec(id@),
                _ => false,
            },
            QueryMsg::Config {} => r matches Ok(QueryAnswer::Config(c)) && c.default_timeout
                == state.config.default_timeout && c.default_gas_limit
                == state.config.default_gas_limit && c.gov_contract == state.admin,
            QueryMsg::Admin {} => r matches Ok(QueryAnswer::Admin(a)) && a.admin == state.admin,
        },
{
    match msg {
        QueryMsg::Port {} => Ok(QueryAnswer::Port(query_port(local_port))),
        QueryMsg::ListChannels {} => Ok(QueryAnswer::ListChannels(query_list(state))),
        QueryMsg::Channel { id } => match query_channel(state, id) {
            Ok(c) => Ok(QueryAnswer::Channel(c)),
            Err(e) => Err(e),
        },
        QueryMsg::Config {} => Ok(QueryAnswer::Config(query_config(state))),
        QueryMsg::Admin {} => Ok(QueryAnswer::Admin(query_admin(state))),
    }
}

/// The port this contract is bound to, as the host reports it.
pub fn query_port(local_port: String) -> (r: PortResponse)
    ensures
        r.port_id == local_port,
{
    PortResponse { port_id: local_port }
}

/// All registered channels, ascending by id.
pub fn query_list(state: &ContractState) -> (r: ListChannelsResponse)
    ensures
        r.channels@ == state.channels@,
{
    ListChannelsResponse { channels: state.channels.list() }
}

/// The details of one registered channel; `NotFound` if it is absent.
pub fn query_channel(state: &ContractState, id: String) -> (r: Result<
    ChannelResponse,
    ContractError,
>)
    requires
        state.wf(),
    ensures
        match r {
            Ok(resp) => state.channels.get_spec(id@) == Some(resp.info),
            Err(e) => e == ContractError::NotFound && !state.channels.has_spec(id@),
        },
{
    match state.channels.get(&id) {
        Some(info) => Ok(ChannelResponse { info: info.clone() }),
        None => Err(ContractError::NotFound),
    }
}

/// The stored configuration, together with the admin.
pub fn query_config(state: &ContractState) -> (r: ConfigResponse)
    ensures
        r.default_timeout == state.config.default_timeout,
        r.default_gas_limit == state.config.default_gas_limit,
        r.gov_contract == state.admin,
{
    let gov_contract = match &state.admin {
        Some(a) => Some(a.clone()),
        None => None,
    };
    ConfigResponse {
        default_timeout: state.config.default_timeout,
        default_gas_limit: state.config.default_gas_limit,
        gov_contract,
    }
}

/// The current admin, if any.
pub fn query_admin(state: &ContractState) -> (r: AdminResponse)
    ensures
        r.admin == state.admin,
{
    let admin = match &state.admin {
        Some(a) => Some(a.clone()),
        None => None,
    };
    AdminResponse { admin }
}

/// A channel that is no longer registered — as it is after
/// `on_channel_close_confirm` — cannot be dispatched to: every dispatch
/// naming it fails with `NoSuchChannel` and produces no outbound
/// instruction.
pub proof fn lemma_close_disables_dispatch(
    state: ContractState,
    block_time_nanos: u64,
    msg: ICQQueryMsg,
    r: Result<Response, ContractError>,
)
    requires
        !state.channels.has_spec(msg.channel@),
        dispatch_post(state, block_time_nanos, msg, r),
    ensures
        r matches Err(e) && e matches ContractError::NoSuchChannel { id } && id@ == msg.channel@,
{
}

} // verus!
