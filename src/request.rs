use crate::cache::{
    lookup, remaining_secs, ttl_left, upserted, Cache, CacheEntry, CacheKey, MILLIS_PER_SEC,
    NANOS_PER_MILLI,
};
use crate::message::{duplicate_answers, same_answers, DnsAnswer, DnsMessage};
use crate::wire::{answers_fit, encode_reply, name_at, reply_bytes, HEADER_LEN};
use vstd::prelude::*;

verus! {

/// Where a request stands. `Complete` and `Error` are final.
#[derive(Clone, Copy, Debug, PartialEq, Eq, Structural)]
pub enum RequestState {
    New,
    Accepted,
    Forwarded,
    ResponseReceived,
    Complete,
    Error,
}

/// A notification for one request: one of its sockets is ready, or its deadline fired.
#[derive(Clone, Copy, Debug, PartialEq, Eq, Structural)]
pub enum Event {
    Readable,
    Writable,
    Timeout,
}

/// The one step of outside work that a request asks for after an event.
#[derive(Clone, Copy, Debug, PartialEq, Eq, Structural)]
pub enum Action {
    /// Nothing to do for this event.
    Idle,
    /// Open a socket towards the upstream resolver.
    OpenUpstream,
    /// Send the buffered query upstream, once, without blocking.
    SendQuery,
    /// Receive from the upstream socket, once, without blocking.
    ReceiveResponse,
    /// Send the answer to the client.
    Reply,
    /// Drop the upstream socket, its registrations and the deadline.
    Release,
}

/// What came of the outside work that an action asked for.
#[derive(Debug)]
pub enum IoOutcome {
    UpstreamOpened,
    UpstreamFailed,
    /// A send that wrote this many bytes; 0 means the socket was not ready.
    Sent(usize),
    SendFailed,
    /// The bytes that arrived from upstream.
    Received(Vec<u8>),
    NothingReceived,
    ReceiveFailed,
    Replied,
    ReplyFailed,
}

/// Bookkeeping with the event source that a completed step calls for.
#[derive(Clone, Copy, Debug, PartialEq, Eq, Structural)]
pub struct Followup {
    /// Ask to hear when the upstream socket can be written.
    pub register_writable: bool,
    /// Ask to hear when the upstream socket can be read.
    pub register_readable: bool,
    /// Arm the response deadline.
    pub arm_deadline: bool,
    /// Cancel the response deadline.
    pub cancel_deadline: bool,
    /// Drop the upstream socket and every registration of the request.
    pub release: bool,
}

pub open spec fn followup(
    register_writable: bool,
    register_readable: bool,
    arm_deadline: bool,
    cancel_deadline: bool,
    release: bool,
) -> Followup {
    Followup { register_writable, register_readable, arm_deadline, cancel_deadline, release }
}

/// The state after `event` in `state`, and the action it calls for; `hit` is whether the cache
/// holds an answer to the question.
pub open spec fn on_event(state: RequestState, event: Event, hit: bool) -> (RequestState, Action) {
    match event {
        Event::Timeout => match state {
            RequestState::Accepted | RequestState::Forwarded => (RequestState::Error, Action::Release),
            _ => (state, Action::Idle),
        },
        _ => match state {
            RequestState::New => if hit {
                (RequestState::ResponseReceived, Action::Reply)
            } else {
                (RequestState::New, Action::OpenUpstream)
            },
            RequestState::Accepted => (state, Action::SendQuery),
            RequestState::Forwarded => (state, Action::ReceiveResponse),
            RequestState::ResponseReceived => (state, Action::Reply),
            _ => (state, Action::Idle),
        },
    }
}

/// The state after `outcome` in `state`, and the bookkeeping it calls for. An outcome that does
/// not belong to the state changes nothing.
pub open spec fn on_outcome(state: RequestState, outcome: IoOutcome) -> (RequestState, Followup) {
    let none = followup(false, false, false, false, false);
    match (state, outcome) {
        (RequestState::New, IoOutcome::UpstreamOpened) => (
            RequestState::Accepted,
            followup(true, false, false, false, false),
        ),
        (RequestState::New, IoOutcome::UpstreamFailed) => (RequestState::Error, none),
        (RequestState::Accepted, IoOutcome::Sent(n)) => if n == 0 {
            (RequestState::Accepted, none)
        } else {
            (RequestState::Forwarded, followup(false, true, true, false, false))
        },
        (RequestState::Accepted, IoOutcome::SendFailed) => (
            RequestState::Error,
            followup(false, false, false, false, true),
        ),
        (RequestState::Forwarded, IoOutcome::Received(_)) => (
            RequestState::ResponseReceived,
            followup(false, false, false, true, false),
        ),
        (RequestState::Forwarded, IoOutcome::NothingReceived) => (RequestState::Forwarded, none),
        (RequestState::Forwarded, IoOutcome::ReceiveFailed) => (
            RequestState::Error,
            followup(false, false, false, true, true),
        ),
        (RequestState::ResponseReceived, IoOutcome::Replied)
        | (RequestState::ResponseReceived, IoOutcome::ReplyFailed) => (
            RequestState::Complete,
            followup(false, false, false, false, true),
        ),
        _ => (state, none),
    }
}

/// One client query on its way through the forwarder.
pub struct TcpRequest {
    pub state: RequestState,
    /// The question asked.
    pub key: CacheKey,
    /// The query as it came from the client.
    pub query: Vec<u8>,
    /// The upstream's response, once received.
    pub response: Option<Vec<u8>>,
    /// The cached answers, when the cache held the question.
    pub cached: Option<Vec<DnsAnswer>>,
    /// When the cached answers lapse, in monotonic milliseconds.
    pub cached_expiry: u64,
}

impl TcpRequest {
    /// A new request for the question `key`, with the client's query bytes.
    pub fn new_with(key: CacheKey, query: Vec<u8>) -> (r: TcpRequest)
        ensures
            r.state == RequestState::New,
            r.key == key,
            r.query == query,
            r.response is None,
            r.cached is None,
    {
        TcpRequest {
            state: RequestState::New,
            key,
            query,
            response: None,
            cached: None,
            cached_expiry: 0,
        }
    }

    /// Whether the request has reached a final state.
    pub fn is_done(&self) -> (r: bool)
        ensures
            r == (self.state == RequestState::Complete || self.state == RequestState::Error),
    {
        match self.state {
            RequestState::Complete | RequestState::Error => true,
            _ => false,
        }
    }

    /// Takes an event for this request and says which one step of outside work to do. A new
    /// request whose question the cache holds takes the cached answers and goes straight to
    /// replying; a deadline that fires while the request waits on upstream ends it in `Error`.
    pub fn ready(&mut self, event: Event, cache: &Cache) -> (a: Action)
        requires
            cache.wf(),
        ensures
            ({
                let hit = lookup(cache.stored(), old(self).key@) is Some;
                let (s, act) = on_event(old(self).state, event, hit);
                &&& final(self).state == s
                &&& a == act
                &&& (old(self).state == RequestState::New && event != Event::Timeout && hit)
                    ==> final(self).cached is Some && same_answers(
                    final(self).cached.unwrap()@,
                    lookup(cache.stored(), old(self).key@).unwrap().answers@,
                ) && final(self).cached_expiry == lookup(cache.stored(), old(self).key@).unwrap().expiry
                &&& !(old(self).state == RequestState::New && event != Event::Timeout && hit)
                    ==> final(self).cached == old(self).cached && final(self).cached_expiry == old(
                    self,
                ).cached_expiry
                &&& final(self).key == old(self).key
                &&& final(self).query == old(self).query
                &&& final(self).response == old(self).response
            }),
    {
        match event {
            Event::Timeout => match self.state {
                RequestState::Accepted | RequestState::Forwarded => {
                    self.state = RequestState::Error;
                    Action::Release
                },
                _ => Action::Idle,
            },
            _ => match self.state {
                RequestState::New => match cache.get(&self.key) {
                    Some(entry) => {
                        self.cached = Some(duplicate_answers(&entry.answers));
                        self.cached_expiry = entry.expiry;
                        self.state = RequestState::ResponseReceived;
                        Action::Reply
                    },
                    None => Action::OpenUpstream,
                },
                RequestState::Accepted => Action::SendQuery,
                RequestState::Forwarded => Action::ReceiveResponse,
                RequestState::ResponseReceived => Action::Reply,
                _ => Action::Idle,
            },
        }
    }

    /// Takes what came of the last action and moves the request on; says what to tell the
    /// event source. Bytes received from upstream are kept as the response.
    pub fn complete(&mut self, outcome: IoOutcome) -> (f: Followup)
        ensures
            ({
                let (s, fu) = on_outcome(old(self).state, outcome);
                &&& final(self).state == s
                &&& f == fu
                &&& final(self).response == match (old(self).state, outcome) {
                    (RequestState::Forwarded, IoOutcome::Received(bytes)) => Some(bytes),
                    _ => old(self).response,
                }
                &&& final(self).key == old(self).key
                &&& final(self).query == old(self).query
                &&& final(self).cached == old(self).cached
                &&& final(self).cached_expiry == old(self).cached_expiry
            }),
    {
        let none = Followup {
            register_writable: false,
            register_readable: false,
            arm_deadline: false,
            cancel_deadline: false,
            release: false,
        };
        match self.state {
            RequestState::New => match outcome {
                IoOutcome::UpstreamOpened => {
                    self.state = RequestState::Accepted;
                    Followup { register_writable: true, ..none }
                },
                IoOutcome::UpstreamFailed => {
                    self.state = RequestState::Error;
                    none
                },
                _ => none,
            },
            RequestState::Accepted => match outcome {
                IoOutcome::Sent(n) => if n == 0 {
                    none
                } else {
                    self.state = RequestState::Forwarded;
                    Followup { register_readable: true, arm_deadline: true, ..none }
                },
                IoOutcome::SendFailed => {
                    self.state = RequestState::Error;
                    Followup { release: true, ..none }
                },
                _ => none,
            },
            RequestState::Forwarded => match outcome {
                IoOutcome::Received(bytes) => {
                    self.response = Some(bytes);
                    self.state = RequestState::ResponseReceived;
                    Followup { cancel_deadline: true, ..none }
                },
                IoOutcome::NothingReceived => none,
                IoOutcome::ReceiveFailed => {
                    self.state = RequestState::Error;
                    Followup { cancel_deadline: true, release: true, ..none }
                },
                _ => none,
            },
            RequestState::ResponseReceived => match outcome {
                IoOutcome::Replied | IoOutcome::ReplyFailed => {
                    self.state = RequestState::Complete;
                    Followup { release: true, ..none }
                },
                _ => none,
            },
            _ => none,
        }
    }

    /// The bytes to send to the client at `now`: the upstream's response once it is buffered,
    /// else the reply built from the cached answers with the seconds they have left. None where
    /// there is neither, or the cached answers cannot be written (see `encode_reply`).
    pub fn reply_at(&self, now: u64) -> (r: Option<Vec<u8>>)
        ensures
            self.response is Some ==> r is Some && r.unwrap()@ == self.response.unwrap()@,
            self.response is None && self.cached is None ==> r is None,
            self.response is None && self.cached is Some ==> ({
                let s = self.query@;
                let answers = self.cached.unwrap()@;
                let ttl = remaining_secs(self.cached_expiry, now);
                if s.len() < HEADER_LEN {
                    r is None
                } else {
                    match name_at(s, HEADER_LEN as int) {
                        Some((n, q)) => if q + 4 <= s.len() && answers_fit(n, answers) {
                            r is Some && r.unwrap()@ == reply_bytes(s, q + 4, answers, ttl)
                        } else {
                            r is None
                        },
                        None => r is None,
                    }
                }
            }),
    {
        match &self.response {
            Some(bytes) => {
                let mut out: Vec<u8> = Vec::new();
                let mut i: usize = 0;
                while i < bytes.len()
                    invariant
                        i <= bytes@.len(),
                        out@ == bytes@.subrange(0, i as int),
                    decreases bytes@.len() - i,
                {
                    out.push(bytes[i]);
                    i += 1;
                    assert(out@ =~= bytes@.subrange(0, i as int));
                }
                assert(out@ =~= bytes@);
                Some(out)
            },
            None => match &self.cached {
                Some(answers) => encode_reply(&self.query, answers, ttl_left(self.cached_expiry, now)),
                None => None,
            },
        }
    }

    /// The upstream's response to hand to the client, once it is buffered.
    pub fn send(&self) -> (r: Option<&Vec<u8>>)
        ensures
            r is Some == self.response is Some,
            r is Some ==> *r.unwrap() == self.response.unwrap(),
    {
        match &self.response {
            Some(bytes) => Some(bytes),
            None => None,
        }
    }
}

/// Caches the answers of an upstream message at `now`, under its first answer's name, type and
/// class, for as long as that answer's time to live. A message without answers changes nothing.
/// Returns whether anything was cached.
pub fn store_answers(cache: &mut Cache, msg: &DnsMessage, now: u64) -> (r: bool)
    requires
        old(cache).wf(),
        now <= u64::MAX / NANOS_PER_MILLI,
    ensures
        final(cache).wf(),
        r == (msg.answers@.len() > 0),
        !r ==> *final(cache) == *old(cache),
        r ==> exists|e: CacheEntry|
            {
                let a = msg.answers@[0];
                &&& e.key@ == (a.name@, a.atype, a.aclass)
                &&& same_answers(e.answers@, msg.answers@)
                &&& e.ttl == a.ttl
                &&& e.expiry == now + a.ttl * MILLIS_PER_SEC
                &&& #[trigger] upserted(*old(cache), *final(cache), e.key, e, now)
            },
{
    match CacheEntry::from_at(msg, now) {
        Some(entry) => {
            let key = entry.key.duplicate();
            cache.upsert_at(key, entry, now);
            true
        },
        None => false,
    }
}

} // verus!
