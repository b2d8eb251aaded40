//! The cluster side of the service: finding the leader, deciding where a
//! write goes, how requests to other nodes are addressed and retried, and
//! what a node answers for itself when no transport is configured.
use vstd::prelude::*;

use crate::codec::{decimal_of, push_char, u64_to_decimal};
use crate::types::{BasicNode, LeaderId, LogId, Vote};

verus! {

/// Why the leader could not be found.
#[derive(Clone, Copy, Debug, PartialEq, Eq, Structural)]
pub enum LeaderError {
    /// No leader has been elected yet.
    NoLeader,
    /// The leader is not among the membership's nodes.
    NotInMembership(u64),
}

/// The text of a leader error.
pub open spec fn leader_error_message(e: LeaderError) -> Seq<char> {
    match e {
        LeaderError::NoLeader => "No leader elected yet"@,
        LeaderError::NotInMembership(id) => "Leader node "@ + decimal_of(id as nat) + " not found in membership"@,
    }
}

impl LeaderError {
    /// The text of the error.
    pub fn message(&self) -> (r: String)
        ensures
            r@ == leader_error_message(*self),
    {
        match self {
            LeaderError::NoLeader => String::from_str("No leader elected yet"),
            LeaderError::NotInMembership(id) => {
                let mut s = String::from_str("Leader node ");
                s.append(u64_to_decimal(*id).as_str());
                s.append(" not found in membership");
                s
            },
        }
    }
}

/// Finds the current leader among the membership's nodes (listed by id):
/// the first node whose id is the leader's.
pub fn find_leader(current_leader: Option<u64>, nodes: &Vec<(u64, BasicNode)>) -> (r: Result<(u64, BasicNode), LeaderError>)
    ensures
        match current_leader {
            None => r == Err::<(u64, BasicNode), LeaderError>(LeaderError::NoLeader),
            Some(id) => match r {
                Ok((lid, node)) => lid == id && exists|j: int| {
                    &&& 0 <= j < nodes@.len()
                    &&& #[trigger] nodes@[j].0 == id
                    &&& node.addr@ == nodes@[j].1.addr@
                    &&& forall|k: int| 0 <= k < j ==> nodes@[k].0 != id
                },
                Err(e) => e == LeaderError::NotInMembership(id) && forall|j: int| 0 <= j < nodes@.len() ==> #[trigger] nodes@[j].0 != id,
            },
        },
{
    let id = match current_leader {
        None => { return Err(LeaderError::NoLeader); },
        Some(id) => id,
    };
    let mut i: usize = 0;
    while i < nodes.len()
        invariant
            i <= nodes@.len(),
            current_leader == Some(id),
            forall|k: int| 0 <= k < i ==> nodes@[k].0 != id,
        decreases nodes@.len() - i,
    {
        if nodes[i].0 == id {
            let addr = nodes[i].1.addr.clone();
            proof {
                assert(nodes@[i as int].0 == id);
            }
            return Ok((id, BasicNode { addr }));
        }
        i = i + 1;
    }
    Err(LeaderError::NotInMembership(id))
}

/// Where a write goes.
#[derive(Clone, Debug)]
pub enum WriteRoute {
    /// This node leads: write to the log here.
    Local,
    /// Another node leads: send the request to this address.
    Forward(String),
    /// The leader is unknown.
    NoLeader(LeaderError),
}

/// The endpoint of a node that creates short URLs: `http://{addr}/submit`.
pub open spec fn submit_endpoint(addr: Seq<char>) -> Seq<char> {
    "http://"@ + addr + "/submit"@
}

/// The address at which a node answers requests: `http://{addr}`.
pub fn node_base_url(addr: &str) -> (r: String)
    ensures
        r@ == "http://"@ + addr@,
{
    let mut s = String::from_str("http://");
    s.append(addr);
    s
}

/// The endpoint of a node that creates short URLs.
pub fn forward_endpoint(addr: &str) -> (r: String)
    ensures
        r@ == submit_endpoint(addr@),
{
    let mut s = node_base_url(addr);
    s.append("/submit");
    s
}

/// Decides where a write goes: here when this node leads, to the leader's
/// endpoint when another node leads.
pub fn route_write(self_id: u64, leader: &Result<(u64, BasicNode), LeaderError>) -> (r: WriteRoute)
    ensures
        match leader {
            Ok((id, node)) => if *id == self_id {
                r is Local
            } else {
                r matches WriteRoute::Forward(e) && e@ == submit_endpoint(node.addr@)
            },
            Err(e) => r == WriteRoute::NoLeader(*e),
        },
{
    match leader {
        Ok((id, node)) => {
            if *id == self_id {
                WriteRoute::Local
            } else {
                WriteRoute::Forward(forward_endpoint(node.addr.as_str()))
            }
        },
        Err(e) => WriteRoute::NoLeader(*e),
    }
}

/// The address of a request to another node: `{base}/{endpoint}`.
pub fn request_url(base_url: &str, endpoint: &str) -> (r: String)
    ensures
        r@ == base_url@ + seq!['/'] + endpoint@,
{
    let mut s = String::from_str(base_url);
    push_char(&mut s, '/');
    s.append(endpoint);
    s
}

/// The HTTP methods a node sends requests with.
#[derive(Clone, Copy, Debug, PartialEq, Eq, Structural)]
pub enum HttpMethod {
    Get,
    Post,
}

/// The method a request is sent with: `GET` or `POST`, nothing else.
pub fn http_method(m: &str) -> (r: Option<HttpMethod>)
    ensures
        r == (if m@ == "GET"@ {
            Some(HttpMethod::Get)
        } else if m@ == "POST"@ {
            Some(HttpMethod::Post)
        } else {
            None
        }),
{
    if crate::ordered::text_equal(m, "GET") {
        Some(HttpMethod::Get)
    } else if crate::ordered::text_equal(m, "POST") {
        Some(HttpMethod::Post)
    } else {
        None
    }
}

/// The longest a `Duration` can be, in milliseconds.
pub open spec fn duration_max_ms() -> int {
    u64::MAX as int * 1000 + 999
}

/// How far a request has got through its retries.
#[derive(Clone, Copy, Debug, PartialEq, Eq, Structural)]
pub struct RetryState {
    /// The retries made so far.
    pub retries: usize,
    /// How long to wait before the next retry, in milliseconds.
    pub delay_ms: u128,
}

/// What to do after a failed attempt.
#[derive(Clone, Copy, Debug, PartialEq, Eq, Structural)]
pub enum RetryStep {
    /// Stop and report the last failure.
    GiveUp,
    /// Wait this many milliseconds, then try again.
    RetryAfter(u128),
}

/// Two to the power `n`.
pub open spec fn pow2(n: nat) -> nat
    decreases n,
{
    if n == 0 { 1 } else { 2 * pow2((n - 1) as nat) }
}

/// One failed attempt: give up once `max` retries are spent, leaving the
/// state; otherwise count a retry, wait the current delay, double it.
pub open spec fn retry_step(a: RetryState, b: RetryState, step: RetryStep, max: usize) -> bool {
    if a.retries >= max {
        step == RetryStep::GiveUp && b == a
    } else {
        &&& step == RetryStep::RetryAfter(a.delay_ms)
        &&& b.retries == a.retries + 1
        &&& b.delay_ms == 2 * a.delay_ms
    }
}

impl RetryState {
    /// Before the first attempt: no retry made, a first wait of 5 ms.
    pub fn start() -> (r: Self)
        ensures
            r.retries == 0,
            r.delay_ms == 5,
    {
        RetryState { retries: 0, delay_ms: 5 }
    }

    /// After a failed attempt: give up once `max_retries` retries are
    /// spent; otherwise count a retry, wait the current delay, and double
    /// it for the next time.
    pub fn on_failure(&mut self, max_retries: usize) -> (r: RetryStep)
        requires
            old(self).retries < max_retries ==> 2 * old(self).delay_ms <= duration_max_ms(),
        ensures
            retry_step(*old(self), *final(self), r, max_retries),
    {
        if self.retries >= max_retries {
            return RetryStep::GiveUp;
        }
        self.retries = self.retries + 1;
        let wait = self.delay_ms;
        self.delay_ms = self.delay_ms * 2;
        RetryStep::RetryAfter(wait)
    }
}

/// The retry schedule: from `start`, after `n` retries the next wait is
/// `5 * 2^n` milliseconds, and a request that keeps failing gives up at its
/// attempt number `max_retries + 1`, never before and never after.
pub proof fn lemma_retry_schedule(a: RetryState, b: RetryState, step: RetryStep, max_retries: usize)
    requires
        a.delay_ms == 5 * pow2(a.retries as nat),
        a.retries <= max_retries,
        retry_step(a, b, step, max_retries),
    ensures
        step == RetryStep::GiveUp <==> a.retries == max_retries,
        step matches RetryStep::RetryAfter(w) ==> {
            &&& w == 5 * pow2(a.retries as nat)
            &&& b.delay_ms == 5 * pow2(b.retries as nat)
            &&& b.retries <= max_retries
        },
{
    if a.retries < max_retries {
        assert(pow2((a.retries + 1) as nat) == 2 * pow2(a.retries as nat));
    }
}

/// A vote request: the candidate's vote and its last log entry.
#[derive(Clone, Copy, Debug, PartialEq, Eq, Structural)]
pub struct VoteRequest {
    pub vote: Vote,
    pub last_log_id: Option<LogId>,
}

/// The answer to a vote request.
#[derive(Clone, Copy, Debug, PartialEq, Eq, Structural)]
pub struct VoteResponse {
    pub vote: Vote,
    pub vote_granted: bool,
    pub last_log_id: Option<LogId>,
}

/// The vote a node reports when no transport is configured: the request's
/// leader with its node id taken as the term and its term as the node id,
/// as `LeaderId::new(node_id, term)` builds it, and committed.
pub fn local_vote(req: &Vote) -> (r: Vote)
    ensures
        r.leader_id.term == req.leader_id.node_id,
        r.leader_id.node_id == req.leader_id.term,
        r.committed,
{
    Vote { leader_id: LeaderId { term: req.leader_id.node_id, node_id: req.leader_id.term }, committed: true }
}

/// The answer to a vote request when no transport is configured: the
/// local vote, granted, with no last log entry.
pub fn local_vote_response(req: &VoteRequest) -> (r: VoteResponse)
    ensures
        r.vote == local_vote_spec(req.vote),
        r.vote_granted,
        r.last_log_id is None,
{
    VoteResponse { vote: local_vote(&req.vote), vote_granted: true, last_log_id: None }
}

/// The local vote as a value.
pub open spec fn local_vote_spec(v: Vote) -> Vote {
    Vote { leader_id: LeaderId { term: v.leader_id.node_id, node_id: v.leader_id.term }, committed: true }
}

/// The vote a standalone node reports for every request: term 1, node 1,
/// committed.
pub fn standalone_vote() -> (r: Vote)
    ensures
        r.leader_id.term == 1,
        r.leader_id.node_id == 1,
        r.committed,
{
    Vote { leader_id: LeaderId { term: 1, node_id: 1 }, committed: true }
}

} // verus!
