//! The packet-lifecycle handlers: handshake validation, registration
//! order, closure, and packet outcomes.

use icq::contract::{execute_query, instantiate, query_list};
use icq::error::ContractError;
use icq::ibc::{
    on_channel_close_confirm, on_channel_close_init, on_channel_open_ack, on_channel_open_confirm,
    on_channel_open_init, on_channel_open_try, on_packet_acknowledgement, on_packet_timeout,
    IbcChannel, IbcOrder,
};
use icq::msg::{ICQQueryMsg, InitMsg, InterchainQueryPacketData, RequestQuery};
use icq::state::{ContractState, IbcEndpoint};

const MOCK_BLOCK_TIME: u64 = 1_571_797_419_879_305_533;

fn mock_channel(id: &str) -> IbcChannel {
    IbcChannel {
        endpoint: IbcEndpoint {
            port_id: "icqsender".to_string(),
            channel_id: id.to_string(),
        },
        counterparty_endpoint: IbcEndpoint {
            port_id: "icqhost".to_string(),
            channel_id: format!("{}-counterpart", id),
        },
        order: IbcOrder::Unordered,
        version: "icq-1".to_string(),
        connection_id: "connection-2".to_string(),
    }
}

fn fresh_state() -> ContractState {
    let (state, _res) = instantiate(InitMsg {
        default_timeout: 60,
        gov_contract: None,
        default_gas_limit: None,
    });
    state
}

fn one_request(channel: &str) -> ICQQueryMsg {
    ICQQueryMsg {
        channel: channel.to_string(),
        requests: vec![RequestQuery {
            data: vec![1, 2, 3],
            path: "/p".to_string(),
            height: None,
            prove: None,
        }],
        timeout: None,
    }
}

#[test]
fn open_init_accepts_a_conforming_channel() {
    assert!(on_channel_open_init(&mock_channel("channel-1")).is_ok());
}

#[test]
fn open_init_rejects_ordered_channels() {
    let mut chan = mock_channel("channel-1");
    chan.order = IbcOrder::Ordered;
    let err = on_channel_open_init(&chan).unwrap_err();
    match err {
        ContractError::HandshakeRejected { reason } => {
            assert_eq!(reason, "only unordered channels are supported".to_string());
        }
        other => panic!("Unexpected error: {:?}", other),
    }
}

#[test]
fn open_init_rejects_a_wrong_version() {
    let mut chan = mock_channel("channel-1");
    chan.version = "ics20-1".to_string();
    let err = on_channel_open_init(&chan).unwrap_err();
    assert!(matches!(err, ContractError::HandshakeRejected { .. }));
}

#[test]
fn open_init_rejects_a_wrong_counterparty_port() {
    let mut chan = mock_channel("channel-1");
    chan.counterparty_endpoint.port_id = "transfer".to_string();
    let err = on_channel_open_init(&chan).unwrap_err();
    match err {
        ContractError::HandshakeRejected { reason } => {
            assert_eq!(reason, "counterparty port is not the query service port".to_string());
        }
        other => panic!("Unexpected error: {:?}", other),
    }
}

#[test]
fn open_try_checks_the_counterparty_version() {
    let chan = mock_channel("channel-1");
    assert!(on_channel_open_try(&chan, &"icq-1".to_string()).is_ok());
    let err = on_channel_open_try(&chan, &"ics20-1".to_string()).unwrap_err();
    match err {
        ContractError::HandshakeRejected { reason } => {
            assert_eq!(
                reason,
                "counterparty version does not match the interchain query version".to_string()
            );
        }
        other => panic!("Unexpected error: {:?}", other),
    }
}

#[test]
fn open_confirm_registers_in_sorted_position() {
    let mut state = fresh_state();
    on_channel_open_confirm(&mut state, mock_channel("channel-7"));
    on_channel_open_confirm(&mut state, mock_channel("channel-3"));
    let listed = query_list(&state).channels;
    assert_eq!(listed.len(), 2);
    assert_eq!(listed[0].id, "channel-3".to_string());
    assert_eq!(listed[1].id, "channel-7".to_string());

    on_channel_open_confirm(&mut state, mock_channel("channel-5"));
    let listed = query_list(&state).channels;
    assert_eq!(listed.len(), 3);
    assert_eq!(listed[0].id, "channel-3".to_string());
    assert_eq!(listed[1].id, "channel-5".to_string());
    assert_eq!(listed[2].id, "channel-7".to_string());
}

#[test]
fn open_ack_registers_too() {
    let mut state = fresh_state();
    on_channel_open_ack(&mut state, mock_channel("channel-7"));
    let listed = query_list(&state).channels;
    assert_eq!(listed.len(), 1);
    assert_eq!(listed[0].id, "channel-7".to_string());
    assert!(execute_query(&state, MOCK_BLOCK_TIME, one_request("channel-7")).is_ok());
}

#[test]
fn reregistering_a_channel_overwrites_it() {
    let mut state = fresh_state();
    on_channel_open_confirm(&mut state, mock_channel("channel-7"));
    let mut changed = mock_channel("channel-7");
    changed.connection_id = "connection-9".to_string();
    on_channel_open_confirm(&mut state, changed);
    let listed = query_list(&state).channels;
    assert_eq!(listed.len(), 1);
    assert_eq!(listed[0].connection_id, "connection-9".to_string());
}

#[test]
fn close_confirm_disables_dispatch() {
    let mut state = fresh_state();
    on_channel_open_confirm(&mut state, mock_channel("channel-7"));
    assert!(execute_query(&state, MOCK_BLOCK_TIME, one_request("channel-7")).is_ok());

    on_channel_close_confirm(&mut state, &"channel-7".to_string());
    let err = execute_query(&state, MOCK_BLOCK_TIME, one_request("channel-7")).unwrap_err();
    assert_eq!(
        err,
        ContractError::NoSuchChannel { id: "channel-7".to_string() }
    );
}

#[test]
fn close_init_removes_only_the_named_channel() {
    let mut state = fresh_state();
    on_channel_open_confirm(&mut state, mock_channel("channel-3"));
    on_channel_open_confirm(&mut state, mock_channel("channel-7"));
    on_channel_close_init(&mut state, &"channel-3".to_string());
    let listed = query_list(&state).channels;
    assert_eq!(listed.len(), 1);
    assert_eq!(listed[0].id, "channel-7".to_string());
}

#[test]
fn packet_outcomes_only_touch_the_counter() {
    let mut state = fresh_state();
    on_channel_open_confirm(&mut state, mock_channel("channel-7"));
    assert_eq!(state.query_result_counter, 0);

    let payload = InterchainQueryPacketData { data: vec![0, 0, 0, 0] };
    let res = on_packet_acknowledgement(&mut state, &"channel-7".to_string(), &payload, true);
    assert_eq!(state.query_result_counter, 1);
    assert!(res.messages.is_empty());
    assert_eq!(res.attributes[0].value, "acknowledge".to_string());
    assert_eq!(res.attributes[1].key, "success".to_string());
    assert_eq!(res.attributes[1].value, "true".to_string());

    let res = on_packet_timeout(&mut state, &"channel-7".to_string(), &payload);
    assert_eq!(state.query_result_counter, 2);
    assert!(res.messages.is_empty());
    assert_eq!(res.attributes[0].value, "timeout".to_string());

    // The registry is untouched either way.
    assert_eq!(query_list(&state).channels.len(), 1);
    assert!(execute_query(&state, MOCK_BLOCK_TIME, one_request("channel-7")).is_ok());
}
