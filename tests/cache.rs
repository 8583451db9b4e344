use dns_forwarder::cache::{Cache, CacheEntry, CacheKey};
use dns_forwarder::message::{DnsAnswer, DnsMessage, DnsQuestion};

fn test_key_with(name: String) -> CacheKey {
    CacheKey::new(name, 1, 1)
}

fn test_key() -> CacheKey {
    test_key_with(String::from("yahoo.com"))
}

fn test_answer_with(domain: String) -> DnsAnswer {
    DnsAnswer::new(domain, 1, 1, 10, 4, vec![200, 200, 200, 200])
}

fn test_answers() -> Vec<DnsAnswer> {
    vec![test_answer_with(String::from("yahoo.com"))]
}

fn test_answers_with(domain: String) -> Vec<DnsAnswer> {
    vec![test_answer_with(domain)]
}

fn test_cache() -> Cache {
    let mut cache = Cache::default();
    let key = CacheKey::new(String::from("yahoo.com"), 1, 1);
    let val = CacheEntry::new(key.clone(), test_answers(), 5);
    cache.upsert(key.clone(), val);
    cache
}

#[test]
fn upsert() {
    let cache = test_cache();
    let key = test_key();
    assert_eq!(cache.get(&key).unwrap().answers[0].name, String::from("yahoo.com"));
}

#[test]
fn expiry() {
    let mut cache = Cache::default();
    let key = test_key();
    cache.upsert_at(key.clone(), CacheEntry::new_at(key.clone(), test_answers(), 5, 0), 0);
    let key2 = CacheKey::new(String::from("lycos.com"), 1, 1);
    let val2 = CacheEntry::new_at(key2.clone(), test_answers_with(String::from("lycos.com")), 1, 0);
    cache.upsert_at(key2, val2, 0);

    assert_eq!(2, cache.len());
    assert_eq!(1, cache.remove_expired_at(1010));
    assert_eq!(1, cache.len());
}

#[test]
fn len() {
    let cache = test_cache();
    assert_eq!(cache.len(), 1);
}

#[test]
fn contains() {
    let cache = test_cache();
    let key = CacheKey::new(String::from("yahoo.com"), 1, 1);
    assert!(cache.contains(&key));
}

#[test]
fn contains_needs_type_and_class() {
    let cache = test_cache();
    assert!(!cache.contains(&CacheKey::new(String::from("yahoo.com"), 28, 1)));
    assert!(!cache.contains(&CacheKey::new(String::from("yahoo.com"), 1, 3)));
    assert!(!cache.contains(&CacheKey::new(String::from("yahoo.co"), 1, 1)));
}

#[test]
fn empty_cache() {
    let mut cache = Cache::default();
    assert!(cache.is_empty());
    assert_eq!(cache.len(), 0);
    assert!(cache.get(&test_key()).is_none());
    assert_eq!(cache.remove_expired(), 0);
}

#[test]
fn lookup_after_insert() {
    let mut cache = Cache::default();
    let key = test_key();
    cache.upsert_at(key.clone(), CacheEntry::new_at(key.clone(), test_answers(), 30, 100), 100);
    let e = cache.get(&key).unwrap();
    assert_eq!(e.ttl, 30);
    assert_eq!(e.expiry, 30_100);
    assert_eq!(e.answers[0].rdata, vec![200, 200, 200, 200]);
}

#[test]
fn no_overwrite_on_collision() {
    let mut cache = Cache::default();
    let key = test_key();
    cache.upsert_at(key.clone(), CacheEntry::new_at(key.clone(), test_answers(), 30, 0), 0);
    let other = test_answers_with(String::from("other.org"));
    cache.upsert_at(key.clone(), CacheEntry::new_at(key.clone(), other, 60, 10), 10);
    let e = cache.get(&key).unwrap();
    assert_eq!(e.ttl, 30);
    assert_eq!(e.answers[0].name, String::from("yahoo.com"));
    assert_eq!(cache.len(), 1);
}

#[test]
fn eviction_by_expiry() {
    let mut cache = Cache::default();
    let k1 = test_key_with(String::from("a.com"));
    let k2 = test_key_with(String::from("b.com"));
    let k3 = test_key_with(String::from("c.com"));
    cache.upsert_at(k3.clone(), CacheEntry::new_at(k3.clone(), test_answers(), 30, 0), 0);
    cache.upsert_at(k1.clone(), CacheEntry::new_at(k1.clone(), test_answers(), 10, 0), 0);
    cache.upsert_at(k2.clone(), CacheEntry::new_at(k2.clone(), test_answers(), 20, 0), 0);
    assert_eq!(cache.remove_expired_at(15_000), 1);
    assert!(cache.get(&k1).is_none());
    assert!(cache.get(&k2).is_some());
    assert!(cache.get(&k3).is_some());
    assert_eq!(cache.len(), 2);
}

#[test]
fn expiry_is_inclusive() {
    let mut cache = Cache::default();
    let k1 = test_key();
    cache.upsert_at(k1.clone(), CacheEntry::new_at(k1.clone(), test_answers(), 10, 0), 0);
    assert_eq!(cache.remove_expired_at(9_999), 0);
    assert_eq!(cache.remove_expired_at(10_000), 1);
    assert!(cache.is_empty());
}

#[test]
fn upsert_sweeps_first() {
    let mut cache = Cache::default();
    let k1 = test_key_with(String::from("a.com"));
    let k2 = test_key_with(String::from("b.com"));
    cache.upsert_at(k1.clone(), CacheEntry::new_at(k1.clone(), test_answers(), 1, 0), 0);
    cache.upsert_at(k2.clone(), CacheEntry::new_at(k2.clone(), test_answers(), 1, 5_000), 5_000);
    assert!(!cache.contains(&k1));
    assert!(cache.contains(&k2));
}

#[test]
fn calc_ttl_counts_whole_seconds() {
    let key = test_key();
    let e = CacheEntry::new_at(key, test_answers(), 10, 1_000);
    assert_eq!(e.calc_ttl_at(1_000), 10);
    assert_eq!(e.calc_ttl_at(1_500), 9);
    assert_eq!(e.calc_ttl_at(10_999), 0);
    assert_eq!(e.calc_ttl_at(11_000), 0);
    assert_eq!(e.calc_ttl_at(50_000), 0);
}

#[test]
fn calc_ttl_of_fresh_entry() {
    let e = CacheEntry::new(test_key(), test_answers(), 10);
    let t = e.calc_ttl();
    assert!(t == 9 || t == 10);
}

#[test]
fn entry_from_message() {
    let q = DnsQuestion::new(String::from("example.com"), 1, 1);
    let a = DnsAnswer::new(String::from("example.com"), 1, 1, 10, 4, vec![93, 184, 216, 34]);
    let msg = DnsMessage::new(vec![q], vec![a]);
    let e = CacheEntry::from_at(&msg, 2_000).unwrap();
    assert_eq!(e.key, CacheKey::new(String::from("example.com"), 1, 1));
    assert_eq!(e.ttl, 10);
    assert_eq!(e.expiry, 12_000);
    assert_eq!(e.answers.len(), 1);
    assert_eq!(e.answers[0].rdata, vec![93, 184, 216, 34]);
    assert!(CacheEntry::from(&msg).is_some());
}

#[test]
fn entry_from_message_without_answers() {
    let q = DnsQuestion::new(String::from("example.com"), 1, 1);
    let msg = DnsMessage::new(vec![q], vec![]);
    assert!(CacheEntry::from_at(&msg, 0).is_none());
    assert!(CacheEntry::from(&msg).is_none());
}

#[test]
fn key_from_question() {
    let q = DnsQuestion::new(String::from("example.com"), 28, 1);
    assert_eq!(CacheKey::from(&q), CacheKey::new(String::from("example.com"), 28, 1));
}

#[test]
fn index_matches_entries_for_distinct_keys() {
    let mut cache = Cache::default();
    let names = ["a.com", "b.com", "c.com", "d.com"];
    let ttls = [5u32, 1, 9, 3];
    for i in 0..4 {
        let k = test_key_with(String::from(names[i]));
        cache.upsert_at(k.clone(), CacheEntry::new_at(k, test_answers(), ttls[i], 0), 0);
        assert_eq!(cache.len(), cache.projections());
    }
    assert_eq!(cache.remove_expired_at(4_000), 2);
    assert_eq!(cache.len(), 2);
    assert_eq!(cache.len(), cache.projections());
}

#[test]
fn colliding_upsert_adds_a_projection() {
    let mut cache = Cache::default();
    let key = test_key();
    cache.upsert_at(key.clone(), CacheEntry::new_at(key.clone(), test_answers(), 30, 0), 0);
    cache.upsert_at(key.clone(), CacheEntry::new_at(key.clone(), test_answers(), 60, 0), 0);
    assert_eq!(cache.len(), 1);
    assert_eq!(cache.projections(), 2);
    assert_eq!(cache.remove_expired_at(30_000), 1);
    assert_eq!(cache.len(), 0);
    assert_eq!(cache.projections(), 1);
}
