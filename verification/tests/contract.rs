//! Command and query surface: setup, dispatch, admin rotation.

use icq::codec::decode;
use icq::contract::{execute, instantiate, query, query_admin, query_config, query_port, migrate};
use icq::error::ContractError;
use icq::ibc::{on_channel_open_confirm, IbcChannel, IbcOrder};
use icq::msg::{
    ExecuteMsg, ICQQueryMsg, InitMsg, MigrateMsg, QueryAnswer, QueryMsg, RequestQuery,
};
use icq::state::{ChannelInfo, ContractState, IbcEndpoint};

const DEFAULT_TIMEOUT: u64 = 60;
const MOCK_BLOCK_TIME: u64 = 1_571_797_419_879_305_533;
const NANOS_PER_SECOND: u64 = 1_000_000_000;

fn local_port() -> String {
    "icqsender".to_string()
}

fn mock_channel(id: &str) -> IbcChannel {
    IbcChannel {
        endpoint: IbcEndpoint {
            port_id: local_port(),
            channel_id: id.to_string(),
        },
        counterparty_endpoint: IbcEndpoint {
            port_id: "icqhost".to_string(),
            channel_id: format!("{}-counterpart", id),
        },
        order: IbcOrder::Unordered,
        version: "icq-1".to_string(),
        connection_id: "connection-2".to_string(),
    }
}

fn mock_channel_info(id: &str) -> ChannelInfo {
    ChannelInfo {
        id: id.to_string(),
        counterparty_endpoint: IbcEndpoint {
            port_id: "icqhost".to_string(),
            channel_id: format!("{}-counterpart", id),
        },
        connection_id: "connection-2".to_string(),
    }
}

fn setup(channels: &[&str]) -> ContractState {
    let (mut state, _res) = instantiate(InitMsg {
        default_timeout: DEFAULT_TIMEOUT,
        gov_contract: None,
        default_gas_limit: None,
    });
    for id in channels {
        on_channel_open_confirm(&mut state, mock_channel(id));
    }
    state
}

#[test]
fn setup_and_query() {
    let state = setup(&["channel-3", "channel-7"]);

    let list_res = match query(&state, local_port(), QueryMsg::ListChannels {}).unwrap() {
        QueryAnswer::ListChannels(l) => l,
        other => panic!("Unexpected query answer: {:?}", other),
    };
    assert_eq!(2, list_res.channels.len());
    assert_eq!(mock_channel_info("channel-3"), list_res.channels[0]);
    assert_eq!(mock_channel_info("channel-7"), list_res.channels[1]);

    let chan_res = match query(
        &state,
        local_port(),
        QueryMsg::Channel { id: "channel-3".to_string() },
    )
    .unwrap()
    {
        QueryAnswer::Channel(c) => c,
        other => panic!("Unexpected query answer: {:?}", other),
    };
    assert_eq!(chan_res.info, mock_channel_info("channel-3"));

    let err = query(
        &state,
        local_port(),
        QueryMsg::Channel { id: "channel-10".to_string() },
    )
    .unwrap_err();
    assert_eq!(err, ContractError::NotFound);
}

#[test]
fn execute_query_success() {
    let send_channel = "channel-5";
    let mut state = setup(&[send_channel, "channel-10"]);

    let requests = vec![RequestQuery {
        data: vec![0, 1, 0, 1],
        path: "/path".to_string(),
        height: None,
        prove: None,
    }];
    let q = ICQQueryMsg {
        channel: send_channel.to_string(),
        requests,
        timeout: None,
    };

    let msg = ExecuteMsg::Query(q);
    let info = "foobar".to_string();
    let res = execute(&mut state, MOCK_BLOCK_TIME, &info, msg).unwrap();
    assert_eq!(1, res.messages.len());
    let packet = &res.messages[0];
    let expected_timeout = MOCK_BLOCK_TIME + DEFAULT_TIMEOUT * NANOS_PER_SECOND;
    assert_eq!(packet.timeout_timestamp_nanos, expected_timeout);
    assert_eq!(packet.channel_id.as_str(), send_channel);
    let records = decode(&packet.data.data).expect("payload must decode");
    assert_eq!(1, records.len());
    assert_eq!(records[0].data, vec![0, 1, 0, 1]);
    assert_eq!(records[0].path, "/path".to_string());
    assert_eq!(records[0].height, 0);
    assert!(!records[0].prove);
    assert_eq!(res.attributes.len(), 2);
    assert_eq!(res.attributes[0].key, "action".to_string());
    assert_eq!(res.attributes[0].value, "query".to_string());
    assert_eq!(res.attributes[1].key, "num_requests".to_string());
    assert_eq!(res.attributes[1].value, "1".to_string());
}

#[test]
fn dispatch_to_unknown_channel_fails() {
    let state = setup(&["channel-3"]);
    let q = ICQQueryMsg {
        channel: "channel-9".to_string(),
        requests: vec![RequestQuery {
            data: vec![1],
            path: "/p".to_string(),
            height: None,
            prove: None,
        }],
        timeout: None,
    };
    let err = icq::contract::execute_query(&state, MOCK_BLOCK_TIME, q).unwrap_err();
    assert_eq!(
        err,
        ContractError::NoSuchChannel { id: "channel-9".to_string() }
    );
}

#[test]
fn dispatch_with_explicit_timeout() {
    let state = setup(&["channel-3"]);
    let q = ICQQueryMsg {
        channel: "channel-3".to_string(),
        requests: vec![RequestQuery {
            data: vec![1],
            path: "/p".to_string(),
            height: Some(11),
            prove: Some(true),
        }],
        timeout: Some(75),
    };
    let res = icq::contract::execute_query(&state, MOCK_BLOCK_TIME, q).unwrap();
    assert_eq!(
        res.messages[0].timeout_timestamp_nanos,
        MOCK_BLOCK_TIME + 75 * NANOS_PER_SECOND
    );
    let records = decode(&res.messages[0].data.data).unwrap();
    assert_eq!(records[0].height, 11);
    assert!(records[0].prove);
}

#[test]
fn dispatch_with_zero_timeout_fails() {
    let state = setup(&["channel-3"]);
    let q = ICQQueryMsg {
        channel: "channel-3".to_string(),
        requests: vec![RequestQuery {
            data: vec![1],
            path: "/p".to_string(),
            height: None,
            prove: None,
        }],
        timeout: Some(0),
    };
    let err = icq::contract::execute_query(&state, MOCK_BLOCK_TIME, q).unwrap_err();
    assert_eq!(err, ContractError::InvalidTimeout);
}

#[test]
fn dispatch_with_overflowing_timeout_fails() {
    let state = setup(&["channel-3"]);
    let q = ICQQueryMsg {
        channel: "channel-3".to_string(),
        requests: vec![RequestQuery {
            data: vec![1],
            path: "/p".to_string(),
            height: None,
            prove: None,
        }],
        timeout: Some(u64::MAX),
    };
    let err = icq::contract::execute_query(&state, MOCK_BLOCK_TIME, q).unwrap_err();
    assert_eq!(err, ContractError::InvalidTimeout);
}

#[test]
fn dispatch_with_no_requests_fails() {
    let state = setup(&["channel-3"]);
    let q = ICQQueryMsg {
        channel: "channel-3".to_string(),
        requests: vec![],
        timeout: None,
    };
    let err = icq::contract::execute_query(&state, MOCK_BLOCK_TIME, q).unwrap_err();
    assert_eq!(err, ContractError::EncodingError);
}

#[test]
fn update_admin_by_non_admin_fails() {
    let (mut state, _res) = instantiate(InitMsg {
        default_timeout: DEFAULT_TIMEOUT,
        gov_contract: Some("gov".to_string()),
        default_gas_limit: None,
    });
    let err = execute(
        &mut state,
        MOCK_BLOCK_TIME,
        &"mallory".to_string(),
        ExecuteMsg::UpdateAdmin { admin: "mallory".to_string() },
    )
    .unwrap_err();
    assert_eq!(err, ContractError::Unauthorized);
    assert_eq!(query_admin(&state).admin, Some("gov".to_string()));
}

#[test]
fn update_admin_without_admin_fails() {
    let (mut state, _res) = instantiate(InitMsg {
        default_timeout: DEFAULT_TIMEOUT,
        gov_contract: None,
        default_gas_limit: None,
    });
    let err = execute(
        &mut state,
        MOCK_BLOCK_TIME,
        &"anyone".to_string(),
        ExecuteMsg::UpdateAdmin { admin: "anyone".to_string() },
    )
    .unwrap_err();
    assert_eq!(err, ContractError::Unauthorized);
    assert_eq!(query_admin(&state).admin, None);
}

#[test]
fn update_admin_by_admin_succeeds() {
    let (mut state, _res) = instantiate(InitMsg {
        default_timeout: DEFAULT_TIMEOUT,
        gov_contract: Some("gov".to_string()),
        default_gas_limit: None,
    });
    let res = execute(
        &mut state,
        MOCK_BLOCK_TIME,
        &"gov".to_string(),
        ExecuteMsg::UpdateAdmin { admin: "gov2".to_string() },
    )
    .unwrap();
    assert_eq!(query_admin(&state).admin, Some("gov2".to_string()));
    assert_eq!(res.attributes[0].value, "update_admin".to_string());
    assert_eq!(res.attributes[1].key, "old_admin".to_string());
    assert_eq!(res.attributes[1].value, "gov".to_string());
    assert_eq!(res.attributes[2].key, "new_admin".to_string());
    assert_eq!(res.attributes[2].value, "gov2".to_string());
}

#[test]
fn query_config_reports_all_fields() {
    let (state, _res) = instantiate(InitMsg {
        default_timeout: 77,
        gov_contract: Some("gov".to_string()),
        default_gas_limit: Some(500_000),
    });
    let cfg = query_config(&state);
    assert_eq!(cfg.default_timeout, 77);
    assert_eq!(cfg.default_gas_limit, Some(500_000));
    assert_eq!(cfg.gov_contract, Some("gov".to_string()));
}

#[test]
fn query_port_echoes_bound_port() {
    let res = query_port("icqsender".to_string());
    assert_eq!(res.port_id, "icqsender".to_string());
    let state = setup(&[]);
    match query(&state, local_port(), QueryMsg::Port {}).unwrap() {
        QueryAnswer::Port(p) => assert_eq!(p.port_id, "icqsender".to_string()),
        other => panic!("Unexpected query answer: {:?}", other),
    }
}

#[test]
fn migrate_is_a_no_op() {
    let mut state = setup(&["channel-3"]);
    let res = migrate(&mut state, MigrateMsg { default_gas_limit: None });
    assert!(res.messages.is_empty());
    assert!(res.attributes.is_empty());
    match query(&state, local_port(), QueryMsg::ListChannels {}).unwrap() {
        QueryAnswer::ListChannels(l) => assert_eq!(l.channels.len(), 1),
        other => panic!("Unexpected query answer: {:?}", other),
    }
}

#[test]
fn num_requests_attribute_counts_requests() {
    let state = setup(&["channel-3"]);
    let mut requests = Vec::new();
    for i in 0..12u8 {
        requests.push(RequestQuery {
            data: vec![i],
            path: format!("/p/{}", i),
            height: None,
            prove: None,
        });
    }
    let q = ICQQueryMsg {
        channel: "channel-3".to_string(),
        requests,
        timeout: None,
    };
    let res = icq::contract::execute_query(&state, MOCK_BLOCK_TIME, q).unwrap();
    assert_eq!(res.attributes[1].value, "12".to_string());
}

#[test]
fn decimal_formatting_is_exact() {
    assert_eq!(icq::contract::u64_to_dec_string(0), "0".to_string());
    assert_eq!(icq::contract::u64_to_dec_string(7), "7".to_string());
    assert_eq!(icq::contract::u64_to_dec_string(10), "10".to_string());
    assert_eq!(
        icq::contract::u64_to_dec_string(18_446_744_073_709_551_615),
        "18446744073709551615".to_string()
    );
}
