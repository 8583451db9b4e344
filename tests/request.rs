use dns_forwarder::cache::{Cache, CacheKey};
use dns_forwarder::message::{DnsAnswer, DnsMessage, DnsQuestion};
use dns_forwarder::request::{store_answers, Action, Event, IoOutcome, RequestState, TcpRequest};

fn example_key() -> CacheKey {
    CacheKey::new(String::from("example.com"), 1, 1)
}

fn example_reply() -> DnsMessage {
    let q = DnsQuestion::new(String::from("example.com"), 1, 1);
    let a = DnsAnswer::new(String::from("example.com"), 1, 1, 10, 4, vec![93, 184, 216, 34]);
    DnsMessage::new(vec![q], vec![a])
}

#[test]
fn forwarded_then_answered_from_cache() {
    let mut cache = Cache::default();
    let mut req = TcpRequest::new_with(example_key(), vec![1, 2, 3]);

    assert_eq!(req.ready(Event::Readable, &cache), Action::OpenUpstream);
    let f = req.complete(IoOutcome::UpstreamOpened);
    assert_eq!(req.state, RequestState::Accepted);
    assert!(f.register_writable);

    assert_eq!(req.ready(Event::Writable, &cache), Action::SendQuery);
    let f = req.complete(IoOutcome::Sent(3));
    assert_eq!(req.state, RequestState::Forwarded);
    assert!(f.register_readable && f.arm_deadline);

    assert_eq!(req.ready(Event::Readable, &cache), Action::ReceiveResponse);
    let f = req.complete(IoOutcome::Received(vec![9, 9]));
    assert_eq!(req.state, RequestState::ResponseReceived);
    assert!(f.cancel_deadline);
    assert_eq!(req.send(), Some(&vec![9, 9]));
    assert!(store_answers(&mut cache, &example_reply(), 1_000));

    assert_eq!(req.ready(Event::Writable, &cache), Action::Reply);
    let f = req.complete(IoOutcome::Replied);
    assert_eq!(req.state, RequestState::Complete);
    assert!(f.release);
    assert!(req.is_done());

    let entry = cache.get(&example_key()).unwrap();
    assert_eq!(entry.calc_ttl_at(1_000), 10);
    assert_eq!(entry.calc_ttl_at(1_500), 9);

    let mut again = TcpRequest::new_with(example_key(), example_query());
    assert_eq!(again.ready(Event::Readable, &cache), Action::Reply);
    assert_eq!(again.state, RequestState::ResponseReceived);
    assert_eq!(again.cached.as_ref().unwrap()[0].rdata, vec![93, 184, 216, 34]);
    assert!(again.send().is_none());
    let reply = again.reply_at(4_000).unwrap();
    assert_eq!(&reply[0..4], &[0xab, 0xcd, 0x81, 0x80]);
    assert_eq!(&reply[reply.len() - 10..reply.len() - 4], &[0, 0, 0, 7, 0, 4]);
    again.complete(IoOutcome::Replied);
    assert_eq!(again.state, RequestState::Complete);
}

fn example_query() -> Vec<u8> {
    let mut q = vec![0xab, 0xcd, 0x01, 0x00, 0, 1, 0, 0, 0, 0, 0, 0];
    q.extend_from_slice(&[7, b'e', b'x', b'a', b'm', b'p', b'l', b'e', 3, b'c', b'o', b'm', 0]);
    q.extend_from_slice(&[0, 1, 0, 1]);
    q
}

#[test]
fn reply_relays_upstream_bytes() {
    let cache = Cache::default();
    let mut req = TcpRequest::new_with(example_key(), example_query());
    req.ready(Event::Readable, &cache);
    req.complete(IoOutcome::UpstreamOpened);
    req.complete(IoOutcome::Sent(1));
    assert!(req.reply_at(0).is_none());
    req.complete(IoOutcome::Received(vec![5, 6, 7]));
    assert_eq!(req.reply_at(0), Some(vec![5, 6, 7]));
}

#[test]
fn deadline_ends_forwarded_request() {
    let cache = Cache::default();
    let mut req = TcpRequest::new_with(example_key(), vec![1]);
    req.ready(Event::Readable, &cache);
    req.complete(IoOutcome::UpstreamOpened);
    req.ready(Event::Writable, &cache);
    req.complete(IoOutcome::Sent(1));
    assert_eq!(req.ready(Event::Readable, &cache), Action::ReceiveResponse);
    req.complete(IoOutcome::NothingReceived);
    assert_eq!(req.state, RequestState::Forwarded);
    assert_eq!(req.ready(Event::Timeout, &cache), Action::Release);
    assert_eq!(req.state, RequestState::Error);
    assert!(req.is_done());
    assert!(cache.is_empty());
    assert_eq!(req.ready(Event::Readable, &cache), Action::Idle);
}

#[test]
fn deadline_ends_accepted_request() {
    let cache = Cache::default();
    let mut req = TcpRequest::new_with(example_key(), vec![1]);
    req.ready(Event::Readable, &cache);
    req.complete(IoOutcome::UpstreamOpened);
    assert_eq!(req.ready(Event::Timeout, &cache), Action::Release);
    assert_eq!(req.state, RequestState::Error);
}

#[test]
fn timeout_ignored_when_not_waiting() {
    let cache = Cache::default();
    let mut req = TcpRequest::new_with(example_key(), vec![1]);
    assert_eq!(req.ready(Event::Timeout, &cache), Action::Idle);
    assert_eq!(req.state, RequestState::New);
}

#[test]
fn zero_byte_send_waits() {
    let cache = Cache::default();
    let mut req = TcpRequest::new_with(example_key(), vec![1]);
    req.ready(Event::Readable, &cache);
    req.complete(IoOutcome::UpstreamOpened);
    let f = req.complete(IoOutcome::Sent(0));
    assert_eq!(req.state, RequestState::Accepted);
    assert!(!f.register_readable && !f.arm_deadline);
}

#[test]
fn failures_end_in_error() {
    let cache = Cache::default();
    let mut a = TcpRequest::new_with(example_key(), vec![1]);
    a.complete(IoOutcome::UpstreamFailed);
    assert_eq!(a.state, RequestState::Error);

    let mut b = TcpRequest::new_with(example_key(), vec![1]);
    b.complete(IoOutcome::UpstreamOpened);
    let f = b.complete(IoOutcome::SendFailed);
    assert_eq!(b.state, RequestState::Error);
    assert!(f.release);

    let mut c = TcpRequest::new_with(example_key(), vec![1]);
    c.complete(IoOutcome::UpstreamOpened);
    c.complete(IoOutcome::Sent(1));
    let f = c.complete(IoOutcome::ReceiveFailed);
    assert_eq!(c.state, RequestState::Error);
    assert!(f.cancel_deadline && f.release);
    assert_eq!(c.ready(Event::Writable, &cache), Action::Idle);
}

#[test]
fn failed_reply_still_completes() {
    let mut req = TcpRequest::new_with(example_key(), vec![1]);
    req.complete(IoOutcome::UpstreamOpened);
    req.complete(IoOutcome::Sent(1));
    req.complete(IoOutcome::Received(vec![4]));
    req.complete(IoOutcome::ReplyFailed);
    assert_eq!(req.state, RequestState::Complete);
}

#[test]
fn message_without_answers_is_not_cached() {
    let mut cache = Cache::default();
    let msg = DnsMessage::new(vec![DnsQuestion::new(String::from("example.com"), 1, 1)], vec![]);
    assert!(!store_answers(&mut cache, &msg, 0));
    assert!(cache.is_empty());
}
