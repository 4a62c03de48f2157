//! The connection session for administrative clients: assigns each request a
//! sequence number, routes it to the backend responsible for it, and feeds
//! arriving replies through the resequencing buffer so the client sees them in
//! issuance order.

use vstd::prelude::*;

use std::collections::HashMap;

use crate::messages::{
    AdminMsg, AdminReq, AdminRpy, ConnectionMsg, CorrelationId, Envelope, Msg, Pid, TransportMsg,
};
use crate::resequencer::{
    advance_emitted, advance_state, lemma_run_len_exact, lemma_run_len_props, run_len,
    step_emitted, step_state, ReseqState,
};

verus! {

broadcast use vstd::std_specs::hash::group_hash_axioms;

/// The backend service a request is routed to: a replica-state query goes to
/// the replica named in its payload, cluster-status and metrics queries go to
/// the status server, and every other request goes to the namespace manager.
pub open spec fn route_dest(req: AdminReq, namespace_mgr: Pid, status_server: Pid) -> Pid {
    match req {
        AdminReq::GetReplicaState(pid) => pid,
        AdminReq::GetClusterStatus => status_server,
        AdminReq::GetMetrics(_) => status_server,
        _ => namespace_mgr,
    }
}

/// The reply carried by a substrate message: the user-level reply itself, or
/// the distinguished timeout reply for a fired timeout event.
pub open spec fn reply_of(msg: TransportMsg) -> AdminRpy {
    match msg {
        TransportMsg::User(m) => match m {
            Msg::AdminRpy(rpy) => rpy,
            _ => AdminRpy::Timeout,
        },
        TransportMsg::Timeout => AdminRpy::Timeout,
    }
}

/// The message shapes the substrate may deliver to a connection: a reply to
/// an administrative request, or a fired timeout event. Anything else is a
/// broken contract with the substrate.
pub open spec fn valid_reply_shape(msg: TransportMsg) -> bool {
    msg matches TransportMsg::User(Msg::AdminRpy(_)) || msg is Timeout
}

/// The connection handler for admin clients. It owns all per-connection state:
/// the connection's identity, the sequence counter, the expectation cursor,
/// the buffer of replies that arrived early, and the outbound items not yet
/// drained by the transport.
pub struct AdminConnectionHandler {
    pid: Pid,
    id: u64,
    namespace_mgr: Pid,
    status_server: Pid,
    total_requests: u64,
    output: Vec<ConnectionMsg>,
    waiting_for: u64,
    out_of_order_replies: HashMap<u64, AdminRpy>,
}

impl AdminConnectionHandler {
    /// The actor identity owning this connection.
    pub closed spec fn conn_pid(self) -> Pid {
        self.pid
    }

    /// The numeric id of this connection.
    pub closed spec fn conn_id(self) -> u64 {
        self.id
    }

    /// The well-known identity of the namespace manager.
    pub closed spec fn namespace_mgr_pid(self) -> Pid {
        self.namespace_mgr
    }

    /// The well-known identity of the status server.
    pub closed spec fn status_server_pid(self) -> Pid {
        self.status_server
    }

    /// How many requests this connection has dispatched; also the next
    /// unassigned sequence number.
    pub closed spec fn dispatched(self) -> u64 {
        self.total_requests
    }

    /// The expectation cursor: the sequence number whose reply the session is
    /// waiting to emit next.
    pub closed spec fn cursor(self) -> u64 {
        self.waiting_for
    }

    /// The pending reply buffer: replies that arrived before their turn.
    pub closed spec fn pending(self) -> Map<u64, AdminRpy> {
        self.out_of_order_replies@
    }

    /// The outbound items produced so far and not yet drained.
    pub closed spec fn outputs(self) -> Seq<ConnectionMsg> {
        self.output@
    }

    /// The resequencing state this handler realizes.
    pub open spec fn abs(self) -> ReseqState {
        ReseqState { cursor: self.cursor(), total: self.dispatched(), pending: self.pending() }
    }

    /// Internal consistency of the session.
    pub open spec fn wf(self) -> bool {
        self.abs().wf()
    }

    /// The correlation identity this connection stamps on sequence number
    /// `seq`.
    pub open spec fn cid_for(self, seq: u64) -> CorrelationId {
        CorrelationId {
            pid: self.conn_pid(),
            connection: Some(self.conn_id()),
            request: Some(seq),
        }
    }

    /// The parts of the session that no event ever changes: the connection's
    /// identity and the two well-known backend identities.
    pub open spec fn same_identity(self, other: AdminConnectionHandler) -> bool {
        &&& other.conn_pid() == self.conn_pid()
        &&& other.conn_id() == self.conn_id()
        &&& other.namespace_mgr_pid() == self.namespace_mgr_pid()
        &&& other.status_server_pid() == self.status_server_pid()
    }

    /// Opens a session: the cursor and the sequence counter start at zero, the
    /// buffer and the outbound queue are empty, and the two well-known backend
    /// identities are fixed on the connection's own node.
    pub fn new(pid: Pid, id: u64) -> (h: AdminConnectionHandler)
        ensures
            h.wf(),
            h.conn_pid() == pid,
            h.conn_id() == id,
            h.abs() == (ReseqState { cursor: 0, total: 0, pending: Map::<u64, AdminRpy>::empty() }),
            h.outputs() == Seq::<ConnectionMsg>::empty(),
            h.namespace_mgr_pid().name@ == "namespace_mgr"@,
            h.namespace_mgr_pid().group is None,
            h.namespace_mgr_pid().node == pid.node,
            h.status_server_pid().name@ == "status_server"@,
            h.status_server_pid().group is None,
            h.status_server_pid().node == pid.node,
    {
        let namespace_mgr = Pid {
            name: "namespace_mgr".to_owned(),
            group: None,
            node: pid.node.clone(),
        };
        let status_server = Pid {
            name: "status_server".to_owned(),
            group: None,
            node: pid.node.clone(),
        };
        AdminConnectionHandler {
            pid,
            id,
            namespace_mgr,
            status_server,
            total_requests: 0,
            output: Vec::new(),
            waiting_for: 0,
            out_of_order_replies: HashMap::new(),
        }
    }

    /// The client-bound messages that wrap `rpys` with this connection's own
    /// correlation identities, for consecutive sequence numbers starting at
    /// `start`.
    pub open spec fn wrapped_from(self, start: u64, rpys: Seq<AdminRpy>) -> Seq<ConnectionMsg> {
        Seq::new(
            rpys.len(),
            |i: int|
                ConnectionMsg::Client(AdminMsg::Rpy(rpys[i]), self.cid_for((start + i) as u64)),
        )
    }

    /// Stamps `req` with this connection's next correlation identity and
    /// wraps it in an envelope addressed to `pid`. Consumes one sequence slot
    /// permanently; the slot is never released, even if the request is never
    /// answered.
    pub fn make_envelope(&mut self, pid: Pid, req: AdminReq) -> (env: Envelope)
        requires
            old(self).dispatched() < u64::MAX,
        ensures
            old(self).same_identity(*final(self)),
            final(self).dispatched() == old(self).dispatched() + 1,
            final(self).cursor() == old(self).cursor(),
            final(self).pending() == old(self).pending(),
            final(self).outputs() == old(self).outputs(),
            env == (Envelope {
                to: pid,
                from: old(self).conn_pid(),
                msg: TransportMsg::User(Msg::AdminReq(req)),
                correlation_id: Some(old(self).cid_for(old(self).dispatched())),
            }),
    {
        let c_id = CorrelationId::request(self.pid.clone(), self.id, self.total_requests);
        self.total_requests = self.total_requests + 1;
        Envelope {
            to: pid,
            from: self.pid.clone(),
            msg: TransportMsg::User(Msg::AdminReq(req)),
            correlation_id: Some(c_id),
        }
    }

    /// Advances the expectation cursor past the reply just emitted, then
    /// drains every consecutively buffered reply: each one is removed from
    /// the buffer, wrapped with its own correlation identity, and appended to
    /// the outbound queue, until the next expected reply is missing.
    pub fn write_successive_replies(&mut self)
        requires
            old(self).wf(),
            old(self).cursor() < old(self).dispatched(),
        ensures
            old(self).same_identity(*final(self)),
            final(self).wf(),
            final(self).abs() == advance_state(old(self).abs()),
            final(self).outputs() == old(self).outputs() + old(self).wrapped_from(
                (old(self).cursor() + 1) as u64,
                advance_emitted(old(self).abs()),
            ),
    {
        let ghost h0 = *self;
        let ghost s0 = self.abs();
        proof {
            lemma_run_len_props(s0.pending, (s0.cursor + 1) as u64, s0.total);
        }
        self.waiting_for = self.waiting_for + 1;
        while self.waiting_for != self.total_requests
            invariant
                self.pid == h0.pid,
                self.id == h0.id,
                self.namespace_mgr == h0.namespace_mgr,
                self.status_server == h0.status_server,
                self.total_requests == s0.total,
                s0.wf(),
                s0.cursor < s0.total,
                s0.cursor + 1 <= self.waiting_for <= s0.total,
                forall|j: u64| s0.cursor + 1 <= j < self.waiting_for ==> s0.pending.contains_key(j),
                self.out_of_order_replies@ == s0.pending.remove_keys(
                    Set::new(|k: u64| s0.cursor + 1 <= k < self.waiting_for),
                ),
                self.output@ == h0.output@ + h0.wrapped_from(
                    (s0.cursor + 1) as u64,
                    Seq::new(
                        (self.waiting_for - s0.cursor - 1) as nat,
                        |i: int| s0.pending[(s0.cursor + 1 + i) as u64],
                    ),
                ),
            ensures
                self.waiting_for == s0.total || !s0.pending.contains_key(self.waiting_for),
            decreases self.total_requests - self.waiting_for,
        {
            let ghost m_before = self.out_of_order_replies@;
            let rpy_opt = self.out_of_order_replies.remove(&self.waiting_for);
            match rpy_opt {
                Some(rpy) => {
                    proof {
                        assert(m_before.contains_key(self.waiting_for));
                        assert(s0.pending.contains_key(self.waiting_for));
                    }
                    let ghost out_before = self.output@;
                    let c_id = CorrelationId::request(self.pid.clone(), self.id, self.waiting_for);
                    self.output.push(ConnectionMsg::Client(AdminMsg::Rpy(rpy), c_id));
                    let ghost w_before = self.waiting_for;
                    self.waiting_for = self.waiting_for + 1;
                    proof {
                        assert(self.out_of_order_replies@ =~= s0.pending.remove_keys(
                            Set::new(|k: u64| s0.cursor + 1 <= k < self.waiting_for),
                        ));
                        assert(rpy == s0.pending[w_before]);
                        assert(self.output@ =~= h0.output@ + h0.wrapped_from(
                            (s0.cursor + 1) as u64,
                            Seq::new(
                                (self.waiting_for - s0.cursor - 1) as nat,
                                |i: int| s0.pending[(s0.cursor + 1 + i) as u64],
                            ),
                        ));
                    }
                }
                None => {
                    proof {
                        assert(!m_before.contains_key(self.waiting_for));
                        assert(!s0.pending.contains_key(self.waiting_for));
                        assert(self.out_of_order_replies@ =~= s0.pending.remove_keys(
                            Set::new(|k: u64| s0.cursor + 1 <= k < self.waiting_for),
                        ));
                    }
                    break ;
                }
            }
        }
        proof {
            let wf_end = self.waiting_for;
            lemma_run_len_exact(s0.pending, (s0.cursor + 1) as u64, s0.total, wf_end);
            let n = run_len(s0.pending, (s0.cursor + 1) as u64, s0.total);
            assert(wf_end == s0.cursor + 1 + n);
            assert(self.out_of_order_replies@ =~= advance_state(s0).pending);
            assert(self.abs() == advance_state(s0));
            assert(self.output@ =~= h0.output@ + h0.wrapped_from(
                (s0.cursor + 1) as u64,
                advance_emitted(s0),
            ));
        }
    }

    /// The client-bound messages one reply arrival produces: nothing when the
    /// reply is early; when its turn has come, the reply itself under its
    /// echoed correlation identity, followed by the drained run under this
    /// connection's own correlation identities.
    pub open spec fn emitted_for(self, cid: CorrelationId, seq: u64, rpy: AdminRpy) -> Seq<
        ConnectionMsg,
    > {
        if seq == self.cursor() {
            seq![ConnectionMsg::Client(AdminMsg::Rpy(rpy), cid)] + self.wrapped_from(
                (seq + 1) as u64,
                advance_emitted(self.abs()),
            )
        } else {
            Seq::empty()
        }
    }

    /// Feeds one arriving reply envelope into the session: the reply for the
    /// sequence number the cursor expects is emitted at once together with
    /// the consecutive run buffered above it, and an early reply is buffered
    /// and emits nothing. The preconditions are the contract the messaging
    /// substrate must uphold — a correlation identity this connection issued
    /// and has not resolved, on a reply-shaped message; their violation is
    /// the internal consistency fault the session treats as fatal.
    pub fn handle_envelope(&mut self, envelope: Envelope)
        requires
            old(self).wf(),
            valid_reply_shape(envelope.msg),
            envelope.correlation_id matches Some(cid) && cid.request matches Some(seq)
                && old(self).cursor() <= seq < old(self).dispatched(),
        ensures
            old(self).same_identity(*final(self)),
            final(self).wf(),
            final(self).abs() == step_state(
                old(self).abs(),
                envelope.correlation_id.unwrap().request.unwrap(),
                reply_of(envelope.msg),
            ),
            final(self).outputs() == old(self).outputs() + old(self).emitted_for(
                envelope.correlation_id.unwrap(),
                envelope.correlation_id.unwrap().request.unwrap(),
                reply_of(envelope.msg),
            ),
    {
        let Envelope { msg, correlation_id, to: _, from: _ } = envelope;
        let correlation_id = match correlation_id {
            Some(c) => c,
            None => vstd::pervasive::unreached(),
        };
        let rpy = match msg {
            TransportMsg::User(m) => match m {
                Msg::AdminRpy(r) => r,
                _ => vstd::pervasive::unreached(),
            },
            TransportMsg::Timeout => AdminRpy::Timeout,
        };
        let seq = match correlation_id.request {
            Some(s) => s,
            None => vstd::pervasive::unreached(),
        };
        if seq == self.waiting_for {
            self.output.push(ConnectionMsg::Client(AdminMsg::Rpy(rpy), correlation_id));
            self.write_successive_replies();
        } else {
            self.out_of_order_replies.insert(seq, rpy);
        }
    }

    /// The immediate error reply the session synthesizes for a malformed
    /// client message: an `Error` reply carrying the fixed text, under a
    /// correlation identity that names only the connection's owning actor.
    pub open spec fn is_malformed_reply(self, m: ConnectionMsg) -> bool {
        &&& m matches ConnectionMsg::Client(am, c)
        &&& am matches AdminMsg::Rpy(r)
        &&& r matches AdminRpy::Error(e)
        &&& e@ == "Invalid Admin Request"@
        &&& c == (CorrelationId { pid: self.conn_pid(), connection: None, request: None })
    }

    /// Handles one inbound client message. A recognized request consumes the
    /// next sequence number, is routed to its backend, and leaves as one
    /// outbound envelope. Anything else is malformed: it yields exactly one
    /// immediate error reply to the client, consumes no sequence number, and
    /// never touches the cursor or the buffer.
    pub fn handle_network_msg(&mut self, msg: AdminMsg)
        requires
            old(self).wf(),
            msg is Req ==> old(self).dispatched() < u64::MAX,
        ensures
            old(self).same_identity(*final(self)),
            final(self).wf(),
            final(self).cursor() == old(self).cursor(),
            final(self).pending() == old(self).pending(),
            msg matches AdminMsg::Req(req) ==> ({
                &&& final(self).dispatched() == old(self).dispatched() + 1
                &&& final(self).outputs() == old(self).outputs().push(
                    ConnectionMsg::Envelope(
                        (Envelope {
                            to: route_dest(
                                req,
                                old(self).namespace_mgr_pid(),
                                old(self).status_server_pid(),
                            ),
                            from: old(self).conn_pid(),
                            msg: TransportMsg::User(Msg::AdminReq(req)),
                            correlation_id: Some(old(self).cid_for(old(self).dispatched())),
                        }),
                    ),
                )
            }),
            msg is Rpy ==> ({
                &&& final(self).dispatched() == old(self).dispatched()
                &&& final(self).outputs().len() == old(self).outputs().len() + 1
                &&& final(self).outputs().take(old(self).outputs().len() as int) == old(
                    self,
                ).outputs()
                &&& old(self).is_malformed_reply(final(self).outputs().last())
            }),
    {
        match msg {
            AdminMsg::Req(req) => {
                let env = match req {
                    AdminReq::GetReplicaState(pid) => {
                        let dest = pid.clone();
                        self.make_envelope(dest, AdminReq::GetReplicaState(pid))
                    },
                    AdminReq::GetClusterStatus => {
                        let dest = self.status_server.clone();
                        self.make_envelope(dest, AdminReq::GetClusterStatus)
                    },
                    AdminReq::GetMetrics(pid) => {
                        let dest = self.status_server.clone();
                        self.make_envelope(dest, AdminReq::GetMetrics(pid))
                    },
                    other => {
                        let dest = self.namespace_mgr.clone();
                        self.make_envelope(dest, other)
                    },
                };
                self.output.push(ConnectionMsg::Envelope(env));
                proof {
                    assert(self.output@.drop_last() =~= old(self).output@);
                }
            },
            AdminMsg::Rpy(_) => {
                let reply = AdminMsg::Rpy(AdminRpy::Error("Invalid Admin Request".to_owned()));
                let c_id = CorrelationId::pid(self.pid.clone());
                self.output.push(ConnectionMsg::Client(reply, c_id));
                proof {
                    assert(self.output@.take(old(self).output@.len() as int) =~= old(
                        self,
                    ).output@);
                }
            },
        }
    }

    /// Hands the accumulated outbound items to the surrounding transport, in
    /// production order, leaving the outbound queue empty.
    pub fn take_output(&mut self) -> (out: Vec<ConnectionMsg>)
        ensures
            old(self).same_identity(*final(self)),
            final(self).abs() == old(self).abs(),
            out@ == old(self).outputs(),
            final(self).outputs() == Seq::<ConnectionMsg>::empty(),
    {
        let mut out: Vec<ConnectionMsg> = Vec::new();
        core::mem::swap(&mut out, &mut self.output);
        out
    }

    /// How many requests this connection has dispatched so far; also the
    /// next unassigned sequence number.
    pub fn requests_dispatched(&self) -> (n: u64)
        ensures
            n == self.dispatched(),
    {
        self.total_requests
    }

    /// The sequence number whose reply the session is waiting to emit next.
    pub fn next_expected(&self) -> (n: u64)
        ensures
            n == self.cursor(),
    {
        self.waiting_for
    }

    /// How many early replies the pending reply buffer holds right now.
    pub fn pending_count(&self) -> (n: usize)
        ensures
            n == self.pending().len(),
    {
        self.out_of_order_replies.len()
    }
}

/// Routing determinism: a replica-state query always routes to the very
/// replica named in its payload, cluster-status and metrics queries always
/// route to the status server, and every other request kind always routes to
/// the namespace manager.
pub proof fn lemma_routing_determinism(req: AdminReq, namespace_mgr: Pid, status_server: Pid)
    ensures
        req matches AdminReq::GetReplicaState(p) ==> route_dest(req, namespace_mgr, status_server)
            == p,
        req is GetClusterStatus || req is GetMetrics ==> route_dest(
            req,
            namespace_mgr,
            status_server,
        ) == status_server,
        !(req is GetReplicaState) && !(req is GetClusterStatus) && !(req is GetMetrics)
            ==> route_dest(req, namespace_mgr, status_server) == namespace_mgr,
{
}

/// What one arrival appends to the outbound queue carries exactly the replies
/// the abstract step emits, in emission order: the first under the echoed
/// correlation identity, the rest under the connection's own.
pub proof fn lemma_emitted_replies(
    h: AdminConnectionHandler,
    cid: CorrelationId,
    seq: u64,
    rpy: AdminRpy,
)
    requires
        seq < h.dispatched(),
    ensures
        h.emitted_for(cid, seq, rpy).len() == step_emitted(h.abs(), seq, rpy).len(),
        forall|i: int|
            0 <= i < step_emitted(h.abs(), seq, rpy).len() ==> h.emitted_for(cid, seq, rpy)[i]
                == ConnectionMsg::Client(
                AdminMsg::Rpy(step_emitted(h.abs(), seq, rpy)[i]),
                if i == 0 {
                    cid
                } else {
                    h.cid_for((seq + i) as u64)
                },
            ),
{
}

/// Buffer bound, at the session: the pending reply buffer never holds more
/// entries than the distance from the expectation cursor to the highest
/// allocated sequence number; with no requests outstanding it is empty.
pub proof fn lemma_handler_buffer_bound(h: AdminConnectionHandler)
    requires
        h.wf(),
    ensures
        h.cursor() == h.dispatched() ==> h.pending().len() == 0,
        h.cursor() < h.dispatched() ==> h.pending().len() <= h.dispatched() - h.cursor() - 1,
{
    crate::resequencer::lemma_buffer_bound(h.abs());
}

} // verus!
