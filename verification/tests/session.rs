//! Scenario tests for the connection session: sequence allocation, in-order
//! and out-of-order reply delivery, timeout handling, and the buffer bound.

use admin_session::connection_handler::AdminConnectionHandler;
use admin_session::messages::{
    AdminMsg, AdminReq, AdminRpy, ConnectionMsg, CorrelationId, Envelope, Msg, NodeId, Pid,
    TransportMsg,
};

fn node() -> NodeId {
    NodeId { name: "node1".to_string(), addr: "127.0.0.1:2001".to_string() }
}

fn pid(name: &str) -> Pid {
    Pid { name: name.to_string(), group: None, node: node() }
}

fn session() -> AdminConnectionHandler {
    AdminConnectionHandler::new(pid("admin_server"), 7)
}

/// A reply envelope as the messaging substrate would deliver it back to the
/// connection, echoing the correlation identity of request `seq`.
fn reply_envelope(seq: u64, rpy: AdminRpy) -> Envelope {
    Envelope {
        to: pid("admin_server"),
        from: pid("namespace_mgr"),
        msg: TransportMsg::User(Msg::AdminRpy(rpy)),
        correlation_id: Some(CorrelationId::request(pid("admin_server"), 7, seq)),
    }
}

/// A timeout event for request `seq`, as the timer fires it.
fn timeout_envelope(seq: u64) -> Envelope {
    Envelope {
        to: pid("admin_server"),
        from: pid("admin_server"),
        msg: TransportMsg::Timeout,
        correlation_id: Some(CorrelationId::request(pid("admin_server"), 7, seq)),
    }
}

fn client_reply(msg: ConnectionMsg) -> (AdminRpy, CorrelationId) {
    match msg {
        ConnectionMsg::Client(AdminMsg::Rpy(rpy), c_id) => (rpy, c_id),
        other => panic!("expected a client-bound reply, got {:?}", other),
    }
}

#[test]
fn new_session_starts_empty() {
    let mut h = session();
    assert_eq!(h.requests_dispatched(), 0);
    assert_eq!(h.next_expected(), 0);
    assert_eq!(h.pending_count(), 0);
    assert!(h.take_output().is_empty());
}

#[test]
fn submit_stamps_consecutive_sequence_numbers() {
    let mut h = session();
    h.handle_network_msg(AdminMsg::Req(AdminReq::GetConfig));
    h.handle_network_msg(AdminMsg::Req(AdminReq::GetNamespaces));
    assert_eq!(h.requests_dispatched(), 2);
    let out = h.take_output();
    assert_eq!(out.len(), 2);
    for (i, item) in out.into_iter().enumerate() {
        match item {
            ConnectionMsg::Envelope(env) => {
                let c_id = env.correlation_id.expect("request envelope must carry an identity");
                assert_eq!(c_id.pid, pid("admin_server"));
                assert_eq!(c_id.connection, Some(7));
                assert_eq!(c_id.request, Some(i as u64));
                assert_eq!(env.from, pid("admin_server"));
            }
            other => panic!("expected an outbound envelope, got {:?}", other),
        }
    }
}

#[test]
fn make_envelope_consumes_one_sequence_slot() {
    let mut h = session();
    let env = h.make_envelope(pid("target"), AdminReq::GetNamespaces);
    assert_eq!(env.to, pid("target"));
    assert_eq!(env.from, pid("admin_server"));
    assert_eq!(env.msg, TransportMsg::User(Msg::AdminReq(AdminReq::GetNamespaces)));
    assert_eq!(
        env.correlation_id,
        Some(CorrelationId::request(pid("admin_server"), 7, 0))
    );
    assert_eq!(h.requests_dispatched(), 1);
    let env2 = h.make_envelope(pid("target"), AdminReq::GetConfig);
    assert_eq!(env2.correlation_id.unwrap().request, Some(1));
    assert_eq!(h.requests_dispatched(), 2);
}

#[test]
fn in_order_replies_are_emitted_immediately() {
    let mut h = session();
    h.handle_network_msg(AdminMsg::Req(AdminReq::GetConfig));
    h.handle_network_msg(AdminMsg::Req(AdminReq::GetNamespaces));
    h.take_output();

    h.handle_envelope(reply_envelope(0, AdminRpy::Config("cfg".to_string())));
    let out = h.take_output();
    assert_eq!(out.len(), 1);
    let (rpy, c_id) = client_reply(out.into_iter().next().unwrap());
    assert_eq!(rpy, AdminRpy::Config("cfg".to_string()));
    assert_eq!(c_id.request, Some(0));

    h.handle_envelope(reply_envelope(1, AdminRpy::Okay));
    let out = h.take_output();
    assert_eq!(out.len(), 1);
    let (rpy, c_id) = client_reply(out.into_iter().next().unwrap());
    assert_eq!(rpy, AdminRpy::Okay);
    assert_eq!(c_id.request, Some(1));
    assert_eq!(h.next_expected(), 2);
    assert_eq!(h.pending_count(), 0);
}

#[test]
fn reversed_arrival_order_is_resequenced() {
    let mut h = session();
    for _ in 0..3 {
        h.handle_network_msg(AdminMsg::Req(AdminReq::GetConfig));
    }
    h.take_output();

    h.handle_envelope(reply_envelope(2, AdminRpy::Config("two".to_string())));
    assert!(h.take_output().is_empty());
    h.handle_envelope(reply_envelope(1, AdminRpy::Config("one".to_string())));
    assert!(h.take_output().is_empty());

    h.handle_envelope(reply_envelope(0, AdminRpy::Config("zero".to_string())));
    let out = h.take_output();
    assert_eq!(out.len(), 3);
    let expected = ["zero", "one", "two"];
    for (i, item) in out.into_iter().enumerate() {
        let (rpy, c_id) = client_reply(item);
        assert_eq!(rpy, AdminRpy::Config(expected[i].to_string()));
        assert_eq!(c_id.request, Some(i as u64));
    }
    assert_eq!(h.next_expected(), 3);
    assert_eq!(h.pending_count(), 0);
}

#[test]
fn timeout_resolves_a_sequence_number_like_a_reply() {
    let mut h = session();
    for _ in 0..3 {
        h.handle_network_msg(AdminMsg::Req(AdminReq::GetConfig));
    }
    h.take_output();

    h.handle_envelope(reply_envelope(2, AdminRpy::Config("two".to_string())));
    assert!(h.take_output().is_empty());
    h.handle_envelope(timeout_envelope(1));
    assert!(h.take_output().is_empty());

    h.handle_envelope(reply_envelope(0, AdminRpy::Config("zero".to_string())));
    let out = h.take_output();
    assert_eq!(out.len(), 3);
    let replies: Vec<AdminRpy> = out.into_iter().map(|m| client_reply(m).0).collect();
    assert_eq!(replies[0], AdminRpy::Config("zero".to_string()));
    assert_eq!(replies[1], AdminRpy::Timeout);
    assert_eq!(replies[2], AdminRpy::Config("two".to_string()));
}

#[test]
fn first_emitted_reply_echoes_the_arriving_correlation_identity() {
    let mut h = session();
    h.handle_network_msg(AdminMsg::Req(AdminReq::GetConfig));
    h.take_output();

    let mut echoed = CorrelationId::request(pid("admin_server"), 7, 0);
    echoed.pid.name = "relay".to_string();
    let env = Envelope {
        to: pid("admin_server"),
        from: pid("namespace_mgr"),
        msg: TransportMsg::User(Msg::AdminRpy(AdminRpy::Okay)),
        correlation_id: Some(echoed.clone()),
    };
    h.handle_envelope(env);
    let out = h.take_output();
    assert_eq!(out.len(), 1);
    let (_, c_id) = client_reply(out.into_iter().next().unwrap());
    assert_eq!(c_id, echoed);
}

#[test]
fn buffer_never_exceeds_outstanding_gap() {
    let mut h = session();
    for _ in 0..4 {
        h.handle_network_msg(AdminMsg::Req(AdminReq::GetConfig));
    }
    h.take_output();

    h.handle_envelope(reply_envelope(3, AdminRpy::Okay));
    h.handle_envelope(reply_envelope(2, AdminRpy::Okay));
    h.handle_envelope(reply_envelope(1, AdminRpy::Okay));
    // Highest allocated sequence number is 3 and the cursor still waits for
    // 0, so the buffer may hold at most 3 entries — and holds exactly 3.
    assert_eq!(h.pending_count(), 3);
    assert!(h.pending_count() as u64 <= h.requests_dispatched() - h.next_expected() - 1);

    h.handle_envelope(reply_envelope(0, AdminRpy::Okay));
    assert_eq!(h.take_output().len(), 4);
    assert_eq!(h.pending_count(), 0);
    assert_eq!(h.next_expected(), 4);
}

#[test]
fn write_successive_replies_advances_past_emitted_reply() {
    let mut h = session();
    h.handle_network_msg(AdminMsg::Req(AdminReq::GetConfig));
    h.handle_network_msg(AdminMsg::Req(AdminReq::GetConfig));
    h.take_output();

    // Buffer the reply for sequence number 1, then advance the cursor past
    // sequence number 0 by hand: the buffered successor drains as well.
    h.handle_envelope(reply_envelope(1, AdminRpy::Okay));
    assert_eq!(h.pending_count(), 1);
    h.write_successive_replies();
    let out = h.take_output();
    assert_eq!(out.len(), 1);
    let (rpy, c_id) = client_reply(out.into_iter().next().unwrap());
    assert_eq!(rpy, AdminRpy::Okay);
    assert_eq!(c_id.request, Some(1));
    assert_eq!(h.next_expected(), 2);
    assert_eq!(h.pending_count(), 0);
}

#[test]
fn varied_reply_payloads_survive_resequencing() {
    let mut h = session();
    for _ in 0..5 {
        h.handle_network_msg(AdminMsg::Req(AdminReq::GetConfig));
    }
    h.take_output();

    let expected = vec![
        AdminRpy::ReplicaNotFound(pid("r1")),
        AdminRpy::Primary(Some(pid("r2"))),
        AdminRpy::Metrics(vec![("depth".to_string(), 3)]),
        AdminRpy::Namespaces(vec![admin_session::messages::NamespaceId("ns1".to_string())]),
        AdminRpy::Error("boom".to_string()),
    ];
    for seq in [4u64, 1, 3, 0, 2] {
        h.handle_envelope(reply_envelope(seq, dup(&expected[seq as usize])));
    }
    let out = h.take_output();
    let replies: Vec<AdminRpy> = out.into_iter().map(|m| client_reply(m).0).collect();
    assert_eq!(replies, expected);
}

/// Test-side duplication of reply values, so the expected list can be kept.
fn dup(rpy: &AdminRpy) -> AdminRpy {
    match rpy {
        AdminRpy::Okay => AdminRpy::Okay,
        AdminRpy::Timeout => AdminRpy::Timeout,
        AdminRpy::Error(e) => AdminRpy::Error(e.clone()),
        AdminRpy::Config(c) => AdminRpy::Config(c.clone()),
        AdminRpy::NamespaceId(n) => {
            AdminRpy::NamespaceId(admin_session::messages::NamespaceId(n.0.clone()))
        }
        AdminRpy::Namespaces(ns) => AdminRpy::Namespaces(
            ns.iter().map(|n| admin_session::messages::NamespaceId(n.0.clone())).collect(),
        ),
        AdminRpy::ReplicaState(s) => AdminRpy::ReplicaState(s.clone()),
        AdminRpy::ReplicaNotFound(p) => AdminRpy::ReplicaNotFound(p.clone()),
        AdminRpy::Primary(p) => AdminRpy::Primary(p.clone()),
        AdminRpy::ClusterStatus(s) => AdminRpy::ClusterStatus(s.clone()),
        AdminRpy::Metrics(m) => AdminRpy::Metrics(m.clone()),
    }
}
