use dns_forwarder::cache::{Cache, CacheKey};
use dns_forwarder::request::store_answers;
use dns_forwarder::wire::{decode_message, encode_reply, first_question};

fn query_for(labels: &[&str], qtype: u16, qclass: u16) -> Vec<u8> {
    let mut q = vec![0x12, 0x34, 0x01, 0x00, 0x00, 0x01, 0, 0, 0, 0, 0, 0];
    for l in labels {
        q.push(l.len() as u8);
        q.extend_from_slice(l.as_bytes());
    }
    q.push(0);
    q.extend_from_slice(&qtype.to_be_bytes());
    q.extend_from_slice(&qclass.to_be_bytes());
    q
}

#[test]
fn decodes_question() {
    let q = first_question(query_for(&["example", "com"], 1, 1)).unwrap();
    assert_eq!(q.qname, String::from("example.com"));
    assert_eq!(q.qtype, 1);
    assert_eq!(q.qclass, 1);
}

#[test]
fn decodes_type_and_class_big_endian() {
    let q = first_question(query_for(&["a", "b", "c"], 0x001c, 0x00ff)).unwrap();
    assert_eq!(q.qname, String::from("a.b.c"));
    assert_eq!(q.qtype, 28);
    assert_eq!(q.qclass, 255);
}

#[test]
fn root_name_is_empty() {
    let q = first_question(query_for(&[], 2, 1)).unwrap();
    assert_eq!(q.qname, String::new());
    assert_eq!(q.qtype, 2);
}

#[test]
fn rejects_short_header() {
    assert!(first_question(vec![0, 1, 2, 3, 4, 5, 6]).is_none());
}

#[test]
fn rejects_zero_questions() {
    let mut q = query_for(&["example", "com"], 1, 1);
    q[5] = 0;
    assert!(first_question(q).is_none());
}

#[test]
fn rejects_truncated_question() {
    let mut q = query_for(&["example", "com"], 1, 1);
    q.truncate(q.len() - 1);
    assert!(first_question(q).is_none());
    let mut q = query_for(&["example", "com"], 1, 1);
    q.truncate(15);
    assert!(first_question(q).is_none());
}

#[test]
fn rejects_compressed_name() {
    let mut q = vec![0x12, 0x34, 0x01, 0x00, 0x00, 0x01, 0, 0, 0, 0, 0, 0];
    q.extend_from_slice(&[0xc0, 0x0c, 0, 1, 0, 1]);
    assert!(first_question(q).is_none());
}

fn reply_with_pointer() -> Vec<u8> {
    let mut r = query_for(&["example", "com"], 1, 1);
    r[7] = 2;
    r.extend_from_slice(&[0xc0, 0x0c, 0, 1, 0, 1, 0, 0, 0, 10, 0, 4, 93, 184, 216, 34]);
    r.extend_from_slice(&[3, b'w', b'w', b'w', 0, 0, 1, 0, 1, 0, 0, 1, 0, 0, 1, 7]);
    r
}

#[test]
fn decodes_answers() {
    let m = decode_message(reply_with_pointer()).unwrap();
    assert_eq!(m.questions.len(), 1);
    assert_eq!(m.questions[0].qname, String::from("example.com"));
    assert_eq!(m.answers.len(), 2);
    let a = &m.answers[0];
    assert_eq!(a.name, String::from("example.com"));
    assert_eq!((a.atype, a.aclass, a.ttl, a.rdlength), (1, 1, 10, 4));
    assert_eq!(a.rdata, vec![93, 184, 216, 34]);
    let b = &m.answers[1];
    assert_eq!(b.name, String::from("www"));
    assert_eq!(b.ttl, 256);
    assert_eq!(b.rdata, vec![7]);
}

#[test]
fn decoded_reply_fills_cache() {
    let m = decode_message(reply_with_pointer()).unwrap();
    let mut cache = Cache::default();
    assert!(store_answers(&mut cache, &m, 0));
    let e = cache.get(&CacheKey::new(String::from("example.com"), 1, 1)).unwrap();
    assert_eq!(e.calc_ttl_at(0), 10);
    assert_eq!(e.answers.len(), 2);
}

#[test]
fn rejects_truncated_answer() {
    let mut r = reply_with_pointer();
    r.truncate(r.len() - 1);
    assert!(decode_message(r).is_none());
    let mut r = reply_with_pointer();
    r[7] = 3;
    assert!(decode_message(r).is_none());
}

#[test]
fn rejects_pointer_past_end() {
    let mut r = query_for(&["example", "com"], 1, 1);
    r[7] = 1;
    r.extend_from_slice(&[0xc0, 0xff, 0, 1, 0, 1, 0, 0, 0, 10, 0, 0]);
    assert!(decode_message(r).is_none());
}

#[test]
fn decodes_header_only() {
    let m = decode_message(vec![0, 1, 0x81, 0x80, 0, 0, 0, 0, 0, 0, 0, 0]).unwrap();
    assert!(m.questions.is_empty());
    assert!(m.answers.is_empty());
    assert!(decode_message(vec![0; 11]).is_none());
}

#[test]
fn encodes_reply_from_answers() {
    let query = query_for(&["example", "com"], 1, 1);
    let answers = vec![dns_forwarder::message::DnsAnswer::new(
        String::from("example.com"),
        1,
        1,
        300,
        4,
        vec![93, 184, 216, 34],
    )];
    let r = encode_reply(&query, &answers, 0x01020304).unwrap();
    let mut expected = vec![0x12, 0x34, 0x81, 0x80, 0, 1, 0, 1, 0, 0, 0, 0];
    expected.extend_from_slice(&query[12..]);
    expected.extend_from_slice(&[0xc0, 0x0c, 0, 1, 0, 1, 1, 2, 3, 4, 0, 4, 93, 184, 216, 34]);
    assert_eq!(r, expected);
    let back = decode_message(r).unwrap();
    assert_eq!(back.answers[0].name, String::from("example.com"));
    assert_eq!(back.answers[0].ttl, 0x01020304);
}

#[test]
fn reply_needs_matching_names_and_lengths() {
    let query = query_for(&["example", "com"], 1, 1);
    let other = vec![dns_forwarder::message::DnsAnswer::new(String::from("other.org"), 1, 1, 5, 1, vec![1])];
    assert!(encode_reply(&query, &other, 5).is_none());
    let short = vec![dns_forwarder::message::DnsAnswer::new(String::from("example.com"), 1, 1, 5, 2, vec![1])];
    assert!(encode_reply(&query, &short, 5).is_none());
    assert!(encode_reply(&vec![0; 5], &vec![], 5).is_none());
    let empty = encode_reply(&query, &vec![], 5).unwrap();
    assert_eq!(empty.len(), query.len());
    assert_eq!(&empty[6..8], &[0, 0]);
}
