//! The message schema of the administrative protocol: identities, correlation
//! identities, requests, replies, and the envelopes the messaging substrate
//! carries. Payloads that only the backend services interpret are carried as
//! opaque plain values; the engine never looks inside them.

use vstd::prelude::*;

verus! {

/// Identity of a node in the cluster: a name plus a host address.
#[derive(Debug, PartialEq, Eq)]
pub struct NodeId {
    pub name: String,
    pub addr: String,
}

impl Clone for NodeId {
    fn clone(&self) -> (res: NodeId)
        ensures
            res == *self,
    {
        NodeId { name: self.name.clone(), addr: self.addr.clone() }
    }
}

/// Identity of an addressable actor: a process name, an optional group, and
/// the node the actor lives on.
#[derive(Debug, PartialEq, Eq)]
pub struct Pid {
    pub name: String,
    pub group: Option<String>,
    pub node: NodeId,
}

impl Clone for Pid {
    fn clone(&self) -> (res: Pid)
        ensures
            res == *self,
    {
        let group: Option<String> = match &self.group {
            Some(g) => Some(g.clone()),
            None => None,
        };
        Pid { name: self.name.clone(), group, node: self.node.clone() }
    }
}

/// Ties one outstanding request to its eventual reply: the owning actor, the
/// numeric connection id, and the request's sequence number within the
/// connection. A correlation identity attached to an outgoing request must be
/// echoed unchanged on the matching reply.
#[derive(Debug, PartialEq, Eq)]
pub struct CorrelationId {
    pub pid: Pid,
    pub connection: Option<u64>,
    pub request: Option<u64>,
}

impl Clone for CorrelationId {
    fn clone(&self) -> (res: CorrelationId)
        ensures
            res == *self,
    {
        CorrelationId { pid: self.pid.clone(), connection: self.connection, request: self.request }
    }
}

impl CorrelationId {
    /// The correlation identity of one request on one connection.
    pub fn request(pid: Pid, connection: u64, request: u64) -> (r: CorrelationId)
        ensures
            r == (CorrelationId { pid, connection: Some(connection), request: Some(request) }),
    {
        CorrelationId { pid, connection: Some(connection), request: Some(request) }
    }

    /// A correlation identity that names only the owning actor, for messages
    /// tied to no particular request.
    pub fn pid(pid: Pid) -> (r: CorrelationId)
        ensures
            r == (CorrelationId { pid, connection: None, request: None }),
    {
        CorrelationId { pid, connection: None, request: None }
    }
}

/// Name of a namespace managed by the cluster.
#[derive(Debug, PartialEq, Eq)]
pub struct NamespaceId(pub String);

/// One administrative operation a client can ask for.
#[derive(Debug, PartialEq, Eq)]
pub enum AdminReq {
    GetConfig,
    Join(NodeId),
    CreateNamespace(Vec<Pid>),
    GetNamespaces,
    GetReplicaState(Pid),
    GetPrimary(NamespaceId),
    GetClusterStatus,
    GetMetrics(Pid),
}

/// The answer to one administrative request: a successful result, a domain
/// error, or the distinguished timeout indicator.
#[derive(Debug, PartialEq, Eq)]
pub enum AdminRpy {
    Okay,
    Timeout,
    Error(String),
    Config(String),
    NamespaceId(NamespaceId),
    Namespaces(Vec<NamespaceId>),
    ReplicaState(String),
    ReplicaNotFound(Pid),
    Primary(Option<Pid>),
    ClusterStatus(String),
    Metrics(Vec<(String, u64)>),
}

/// A client-facing administrative message: a request from the client or a
/// reply back to it.
#[derive(Debug, PartialEq, Eq)]
pub enum AdminMsg {
    Req(AdminReq),
    Rpy(AdminRpy),
}

/// A user-level message between actors of the cluster.
#[derive(Debug, PartialEq, Eq)]
pub enum Msg {
    AdminReq(AdminReq),
    AdminRpy(AdminRpy),
}

/// What the messaging substrate can deliver to a connection: a user-level
/// message, or a timeout event fired for a request that went unanswered.
#[derive(Debug, PartialEq, Eq)]
pub enum TransportMsg {
    User(Msg),
    Timeout,
}

/// An addressed message on the substrate, tagged with the correlation identity
/// of the request it belongs to.
#[derive(Debug, PartialEq, Eq)]
pub struct Envelope {
    pub to: Pid,
    pub from: Pid,
    pub msg: TransportMsg,
    pub correlation_id: Option<CorrelationId>,
}

/// One item a connection hands to the surrounding transport: an envelope bound
/// for a backend service, or a message bound for the connected client.
#[derive(Debug, PartialEq, Eq)]
pub enum ConnectionMsg {
    Envelope(Envelope),
    Client(AdminMsg, CorrelationId),
}

} // verus!
