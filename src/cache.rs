use crate::message::{duplicate_answers, same_answers, DnsAnswer, DnsMessage, DnsQuestion};
use vstd::prelude::*;

verus! {

/// Milliseconds in a second: cache times are monotonic milliseconds.
pub const MILLIS_PER_SEC: u64 = 1000;

/// Nanoseconds in a millisecond.
pub const NANOS_PER_MILLI: u64 = 1000000;

/// Relies on time::precise_time_ns: a reading of a monotonic clock in nanoseconds,
/// from an unspecified start.
#[verifier::external_body]
fn precise_time_ns() -> (r: u64) {
    time::precise_time_ns()
}

/// The monotonic clock in milliseconds.
pub fn now_millis() -> (r: u64)
    ensures
        r <= u64::MAX / NANOS_PER_MILLI,
{
    precise_time_ns() / NANOS_PER_MILLI
}

/// The question a cached answer belongs to: name, type and class.
#[derive(Clone, Debug, PartialEq, Eq, Hash)]
pub struct CacheKey {
    qname: String,
    qtype: u16,
    qclass: u16,
}

impl View for CacheKey {
    type V = (Seq<char>, u16, u16);

    closed spec fn view(&self) -> (Seq<char>, u16, u16) {
        (self.qname@, self.qtype, self.qclass)
    }
}

impl CacheKey {
    pub fn new(qname: String, qtype: u16, qclass: u16) -> (r: CacheKey)
        ensures
            r@ == (qname@, qtype, qclass),
    {
        CacheKey { qname, qtype, qclass }
    }

    /// The key of a question.
    pub fn from(query: &DnsQuestion) -> (r: CacheKey)
        ensures
            r@ == (query.qname@, query.qtype, query.qclass),
    {
        CacheKey::new(query.qname.clone(), query.qtype, query.qclass)
    }

    /// A copy of this key.
    pub fn duplicate(&self) -> (r: CacheKey)
        ensures
            r == *self,
    {
        CacheKey { qname: self.qname.clone(), qtype: self.qtype, qclass: self.qclass }
    }

    /// Whether both keys name the same question.
    pub fn same(&self, other: &CacheKey) -> (r: bool)
        ensures
            r == (self@ == other@),
    {
        self.qtype == other.qtype && self.qclass == other.qclass && self.qname == other.qname
    }
}

/// Something that lapses at a point of the monotonic clock.
pub trait Expires {
    spec fn spec_expiry(&self) -> u64;

    /// When it lapses, in monotonic milliseconds.
    fn expiry(&self) -> (r: u64)
        ensures
            r == self.spec_expiry(),
    ;
}

/// The answers to one question, with their time to live and when they lapse.
#[derive(Debug)]
pub struct CacheEntry {
    pub key: CacheKey,
    pub answers: Vec<DnsAnswer>,
    pub ttl: u32,
    pub expiry: u64,
}

impl CacheEntry {
    /// An entry made at `now` that lapses `ttl` seconds later.
    pub fn new_at(key: CacheKey, answers: Vec<DnsAnswer>, ttl: u32, now: u64) -> (r: CacheEntry)
        requires
            now + ttl * MILLIS_PER_SEC <= u64::MAX,
        ensures
            r.key == key,
            r.answers == answers,
            r.ttl == ttl,
            r.spec_expiry() == now + ttl * MILLIS_PER_SEC,
    {
        CacheEntry { key, answers, ttl, expiry: now + ttl as u64 * MILLIS_PER_SEC }
    }

    /// An entry made now that lapses `ttl` seconds from now.
    pub fn new(key: CacheKey, answers: Vec<DnsAnswer>, ttl: u32) -> (r: CacheEntry)
        ensures
            r.key == key,
            r.answers == answers,
            r.ttl == ttl,
            r.expiry >= ttl * MILLIS_PER_SEC,
    {
        let now = now_millis();
        CacheEntry::new_at(key, answers, ttl, now)
    }

    /// The entry for a message made at `now`: keyed by its first answer's name, type and class,
    /// holding all its answers, and living as long as the first answer's time to live.
    /// None when the message has no answer.
    pub fn from_at(msg: &DnsMessage, now: u64) -> (r: Option<CacheEntry>)
        requires
            now <= u64::MAX / NANOS_PER_MILLI,
        ensures
            msg.answers@.len() == 0 <==> r is None,
            r is Some ==> ({
                let e = r.unwrap();
                let a = msg.answers@[0];
                &&& e.key@ == (a.name@, a.atype, a.aclass)
                &&& same_answers(e.answers@, msg.answers@)
                &&& e.ttl == a.ttl
                &&& e.spec_expiry() == now + a.ttl * MILLIS_PER_SEC
            }),
    {
        match msg.first_answer() {
            Some(answer) => {
                let key = CacheKey::new(answer.name.clone(), answer.atype, answer.aclass);
                let answers = duplicate_answers(&msg.answers);
                Some(CacheEntry::new_at(key, answers, answer.ttl, now))
            },
            None => None,
        }
    }

    /// The entry for a message, made now; None when the message has no answer.
    pub fn from(msg: &DnsMessage) -> (r: Option<CacheEntry>)
        ensures
            msg.answers@.len() == 0 <==> r is None,
            r is Some ==> ({
                let e = r.unwrap();
                let a = msg.answers@[0];
                &&& e.key@ == (a.name@, a.atype, a.aclass)
                &&& same_answers(e.answers@, msg.answers@)
                &&& e.ttl == a.ttl
                &&& e.expiry >= a.ttl * MILLIS_PER_SEC
            }),
    {
        let now = now_millis();
        CacheEntry::from_at(msg, now)
    }

    /// Whole seconds left at `now` until the entry lapses; 0 once it has.
    pub fn calc_ttl_at(&self, now: u64) -> (r: u32)
        ensures
            r == remaining_secs(self.spec_expiry(), now),
    {
        ttl_left(self.expiry, now)
    }

    /// Whole seconds left until the entry lapses; 0 once it has.
    pub fn calc_ttl(&self) -> (r: u32)
        ensures
            r <= remaining_secs(self.spec_expiry(), 0),
    {
        let now = now_millis();
        self.calc_ttl_at(now)
    }
}

/// Whole seconds from `now` to `expiry`; see `remaining_secs`.
pub fn ttl_left(expiry: u64, now: u64) -> (r: u32)
    ensures
        r == remaining_secs(expiry, now),
{
    if expiry > now {
        let secs = (expiry - now) / MILLIS_PER_SEC;
        if secs > u32::MAX as u64 {
            u32::MAX
        } else {
            secs as u32
        }
    } else {
        0
    }
}

/// Whole seconds from `now` to `expiry`, 0 when `expiry` is not later, at most `u32::MAX`.
pub open spec fn remaining_secs(expiry: u64, now: u64) -> u32 {
    if expiry > now {
        let secs = (expiry - now) / MILLIS_PER_SEC as int;
        if secs > u32::MAX {
            u32::MAX
        } else {
            secs as u32
        }
    } else {
        0
    }
}

impl Expires for CacheEntry {
    open spec fn spec_expiry(&self) -> u64 {
        self.expiry
    }

    fn expiry(&self) -> (r: u64) {
        self.expiry
    }
}

/// Where one key stands in the order of expiry.
#[derive(Debug)]
pub struct CacheExpiry {
    pub key: CacheKey,
    pub expiry: u64,
}

impl CacheExpiry {
    pub fn new(key: CacheKey, expiry: u64) -> (r: CacheExpiry)
        ensures
            r.key == key,
            r.expiry == expiry,
    {
        CacheExpiry { key, expiry }
    }
}

/// The entry stored under `k`, if any.
pub open spec fn lookup(s: Seq<(CacheKey, CacheEntry)>, k: (Seq<char>, u16, u16)) -> Option<
    CacheEntry,
> {
    if exists|i: int| 0 <= i < s.len() && (#[trigger] s[i]).0@ == k {
        Some(s[choose|i: int| 0 <= i < s.len() && (#[trigger] s[i]).0@ == k].1)
    } else {
        None
    }
}

/// No two entries have the same key.
pub open spec fn unique_keys(s: Seq<(CacheKey, CacheEntry)>) -> bool {
    forall|i: int, j: int| 0 <= i < s.len() && 0 <= j < s.len() && i != j ==> (#[trigger] s[i]).0@
        != (#[trigger] s[j]).0@
}

/// The index is in ascending order of expiry.
pub open spec fn sorted_by_expiry(idx: Seq<CacheExpiry>) -> bool {
    forall|i: int, j: int| 0 <= i <= j < idx.len() ==> (#[trigger] idx[i]).expiry <= (
    #[trigger] idx[j]).expiry
}

/// Some projection of `k` in the index has lapsed at `now`.
pub open spec fn expired_key(idx: Seq<CacheExpiry>, k: (Seq<char>, u16, u16), now: u64) -> bool {
    exists|j: int| 0 <= j < idx.len() && (#[trigger] idx[j]).key@ == k && idx[j].expiry <= now
}

/// Whether an entry survives a sweep at `now` over `idx`.
pub open spec fn keeps_entry(idx: Seq<CacheExpiry>, now: u64) -> spec_fn(
    (CacheKey, CacheEntry),
) -> bool {
    |kv: (CacheKey, CacheEntry)| !expired_key(idx, kv.0@, now)
}

/// Whether a projection survives a sweep at `now`.
pub open spec fn keeps_projection(now: u64) -> spec_fn(CacheExpiry) -> bool {
    |p: CacheExpiry| p.expiry > now
}

/// An answer cache: entries by key, and their projections in ascending order of expiry.
pub struct Cache {
    map: Vec<(CacheKey, CacheEntry)>,
    keys: Vec<CacheExpiry>,
}

impl Default for Cache {
    fn default() -> (r: Cache)
        ensures
            r.wf(),
            r.stored().len() == 0,
            r.index().len() == 0,
    {
        Cache { map: Vec::new(), keys: Vec::new() }
    }
}

/// `new` is `old` swept at `now`: every entry with a lapsed projection of its key is gone,
/// and so is every lapsed projection.
pub open spec fn swept(old: Cache, new: Cache, now: u64) -> bool {
    &&& new.stored() == old.stored().filter(keeps_entry(old.index(), now))
    &&& new.index() == old.index().filter(keeps_projection(now))
}

/// `new` is `old` after an upsert of `val` under `key` at `now`: `old` is swept, the projection
/// of `val` is put before the first projection that lapses no earlier, and `val` is stored
/// unless the swept cache holds `key` already.
pub open spec fn upserted(old: Cache, new: Cache, key: CacheKey, val: CacheEntry, now: u64) -> bool {
    let mid_s = old.stored().filter(keeps_entry(old.index(), now));
    let mid_i = old.index().filter(keeps_projection(now));
    &&& new.stored() == if lookup(mid_s, key@) is Some {
        mid_s
    } else {
        mid_s.push((key, val))
    }
    &&& exists|pos: int|
        0 <= pos <= mid_i.len() && new.index() == mid_i.insert(
            pos,
            (CacheExpiry { key, expiry: val.expiry }),
        ) && (forall|j: int| 0 <= j < pos ==> (#[trigger] mid_i[j]).expiry < val.expiry) && (
        forall|j: int| pos <= j < mid_i.len() ==> (#[trigger] mid_i[j]).expiry >= val.expiry)
}

impl Cache {
    /// The entries, each under its key.
    pub closed spec fn stored(&self) -> Seq<(CacheKey, CacheEntry)> {
        self.map@
    }

    /// The projections, in the order of the index.
    pub closed spec fn index(&self) -> Seq<CacheExpiry> {
        self.keys@
    }

    /// Keys are unique among the entries and the index is in order of expiry.
    pub open spec fn wf(&self) -> bool {
        &&& unique_keys(self.stored())
        &&& sorted_by_expiry(self.index())
    }

    /// The entry stored under `key`, whether or not it has lapsed.
    pub fn get(&self, key: &CacheKey) -> (r: Option<&CacheEntry>)
        requires
            self.wf(),
        ensures
            r is Some == lookup(self.stored(), key@) is Some,
            r is Some ==> *r.unwrap() == lookup(self.stored(), key@).unwrap(),
    {
        match self.position(key) {
            Some(i) => Some(&self.map[i].1),
            None => None,
        }
    }

    /// Where `key` is stored.
    fn position(&self, key: &CacheKey) -> (r: Option<usize>)
        requires
            self.wf(),
        ensures
            r is Some == lookup(self.stored(), key@) is Some,
            r is Some ==> r.unwrap() < self.stored().len() && self.stored()[r.unwrap() as int].0@
                == key@ && self.stored()[r.unwrap() as int].1 == lookup(
                self.stored(),
                key@,
            ).unwrap(),
    {
        let mut i: usize = 0;
        while i < self.map.len()
            invariant
                self.wf(),
                i <= self.map@.len(),
                forall|j: int| 0 <= j < i ==> (#[trigger] self.map@[j]).0@ != key@,
            decreases self.map@.len() - i,
        {
            if self.map[i].0.same(key) {
                proof {
                    let s = self.map@;
                    assert(s[i as int].0@ == key@);
                    let c = choose|c: int| 0 <= c < s.len() && (#[trigger] s[c]).0@ == key@;
                    assert(0 <= c < s.len() && s[c].0@ == key@);
                    if c != i as int {
                        assert(s[c].0@ != s[i as int].0@);
                    }
                }
                return Some(i);
            }
            i += 1;
        }
        None
    }

    /// Whether an entry is stored under `key`.
    pub fn contains(&self, key: &CacheKey) -> (r: bool)
        requires
            self.wf(),
        ensures
            r == lookup(self.stored(), key@) is Some,
    {
        self.position(key).is_some()
    }

    /// How many projections at the front of the index have lapsed at `now`.
    fn lapsed_prefix(&self, now: u64) -> (r: usize)
        requires
            self.wf(),
        ensures
            r <= self.index().len(),
            forall|j: int| 0 <= j < r ==> (#[trigger] self.index()[j]).expiry <= now,
            forall|j: int| r <= j < self.index().len() ==> (#[trigger] self.index()[j]).expiry > now,
    {
        let mut k: usize = 0;
        while k < self.keys.len() && self.keys[k].expiry <= now
            invariant
                self.wf(),
                k <= self.keys@.len(),
                forall|j: int| 0 <= j < k ==> (#[trigger] self.keys@[j]).expiry <= now,
            decreases self.keys@.len() - k,
        {
            k += 1;
        }
        proof {
            if k < self.keys@.len() {
                assert forall|j: int| k <= j < self.keys@.len() implies (
                #[trigger] self.keys@[j]).expiry > now by {
                    assert(self.keys@[k as int].expiry <= self.keys@[j].expiry);
                }
            }
        }
        k
    }

    /// Whether a projection of `key` in the lapsed prefix of length `k` exists.
    fn has_lapsed(&self, k: usize, key: &CacheKey, now: u64) -> (r: bool)
        requires
            k <= self.index().len(),
            forall|j: int| 0 <= j < k ==> (#[trigger] self.index()[j]).expiry <= now,
            forall|j: int| k <= j < self.index().len() ==> (#[trigger] self.index()[j]).expiry > now,
        ensures
            r == expired_key(self.index(), key@, now),
    {
        let mut j: usize = 0;
        while j < k
            invariant
                j <= k,
                k <= self.keys@.len(),
                forall|t: int| 0 <= t < k ==> (#[trigger] self.keys@[t]).expiry <= now,
                forall|t: int| k <= t < self.keys@.len() ==> (#[trigger] self.keys@[t]).expiry > now,
                forall|t: int| 0 <= t < j ==> (#[trigger] self.keys@[t]).key@ != key@,
            decreases k - j,
        {
            if self.keys[j].key.same(key) {
                assert(self.keys@[j as int].expiry <= now);
                return true;
            }
            j += 1;
        }
        false
    }

    /// Sweeps the cache at `now`: removes every entry whose key has a lapsed projection, then
    /// every lapsed projection. Returns how many projections went.
    pub fn remove_expired_at(&mut self, now: u64) -> (r: usize)
        requires
            old(self).wf(),
        ensures
            final(self).wf(),
            swept(*old(self), *final(self), now),
            r == old(self).index().len() - final(self).index().len(),
    {
        let k = self.lapsed_prefix(now);
        let ghost s0 = self.map@;
        let ghost idx = self.keys@;
        let ghost pred = keeps_entry(idx, now);
        let mut i: usize = 0;
        let ghost mut j: int = 0;
        while i < self.map.len()
            invariant
                pred == keeps_entry(idx, now),
                self.keys@ == idx,
                k <= idx.len(),
                forall|t: int| 0 <= t < k ==> (#[trigger] idx[t]).expiry <= now,
                forall|t: int| k <= t < idx.len() ==> (#[trigger] idx[t]).expiry > now,
                sorted_by_expiry(idx),
                0 <= j <= s0.len(),
                i == s0.subrange(0, j).filter(pred).len(),
                self.map@ == s0.subrange(0, j).filter(pred) + s0.subrange(j, s0.len() as int),
                unique_keys(self.map@),
            decreases self.map@.len() - i,
        {
            let lapsed = self.has_lapsed(k, &self.map[i].0, now);
            let ghost done = s0.subrange(0, j).filter(pred);
            let ghost before = self.map@;
            proof {
                assert(self.map@[i as int] == s0[j]);
                assert(s0.subrange(0, j + 1) =~= s0.subrange(0, j).push(s0[j]));
                s0.subrange(0, j).lemma_filter_push(s0[j], pred);
                assert(pred(s0[j]) == !lapsed);
                assert(before =~= done + seq![s0[j]] + s0.subrange(j + 1, s0.len() as int));
            }
            if lapsed {
                self.map.remove(i);
                proof {
                    assert forall|a: int, b: int|
                        0 <= a < self.map@.len() && 0 <= b < self.map@.len() && a != b implies (
                    #[trigger] self.map@[a]).0@ != (#[trigger] self.map@[b]).0@ by {
                        let a0 = if a < i { a } else { a + 1 };
                        let b0 = if b < i { b } else { b + 1 };
                        assert(self.map@[a] == before[a0]);
                        assert(self.map@[b] == before[b0]);
                    }
                }
            } else {
                i += 1;
            }
            proof {
                j = j + 1;
                if lapsed {
                    assert(self.map@ =~= done + s0.subrange(j, s0.len() as int));
                } else {
                    assert(self.map@ =~= done.push(s0[j - 1]) + s0.subrange(j, s0.len() as int));
                }
            }
        }
        proof {
            assert(s0.subrange(0, s0.len() as int) =~= s0);
        }
        let ghost idx0 = self.keys@;
        let ghost live = keeps_projection(now);
        let mut i: usize = 0;
        let ghost mut j: int = 0;
        let mut removed: usize = 0;
        let n0 = self.keys.len();
        while i < self.keys.len()
            invariant
                live == keeps_projection(now),
                n0 == idx0.len(),
                self.map@ == s0.filter(pred),
                unique_keys(self.map@),
                idx0 == idx,
                0 <= j <= idx0.len(),
                i == idx0.subrange(0, j).filter(live).len(),
                self.keys@ == idx0.subrange(0, j).filter(live) + idx0.subrange(j, idx0.len() as int),
                removed + self.keys@.len() == idx0.len(),
                sorted_by_expiry(self.keys@),
            decreases self.keys@.len() - i,
        {
            let lapsed = self.keys[i].expiry <= now;
            let ghost done = idx0.subrange(0, j).filter(live);
            let ghost before = self.keys@;
            proof {
                assert(self.keys@[i as int] == idx0[j]);
                assert(idx0.subrange(0, j + 1) =~= idx0.subrange(0, j).push(idx0[j]));
                idx0.subrange(0, j).lemma_filter_push(idx0[j], live);
                assert(live(idx0[j]) == !lapsed);
                assert(before =~= done + seq![idx0[j]] + idx0.subrange(j + 1, idx0.len() as int));
            }
            if lapsed {
                self.keys.remove(i);
                removed += 1;
                proof {
                    assert forall|a: int, b: int| 0 <= a <= b < self.keys@.len() implies (
                    #[trigger] self.keys@[a]).expiry <= (#[trigger] self.keys@[b]).expiry by {
                        let a0 = if a < i { a } else { a + 1 };
                        let b0 = if b < i { b } else { b + 1 };
                        assert(self.keys@[a] == before[a0]);
                        assert(self.keys@[b] == before[b0]);
                    }
                }
            } else {
                i += 1;
            }
            proof {
                j = j + 1;
                if lapsed {
                    assert(self.keys@ =~= done + idx0.subrange(j, idx0.len() as int));
                } else {
                    assert(self.keys@ =~= done.push(idx0[j - 1]) + idx0.subrange(j, idx0.len() as int));
                }
            }
        }
        proof {
            assert(idx0.subrange(0, idx0.len() as int) =~= idx0);
        }
        removed
    }

    /// Sweeps the cache at the current time; see `remove_expired_at`.
    pub fn remove_expired(&mut self) -> (r: usize)
        requires
            old(self).wf(),
        ensures
            final(self).wf(),
            exists|now: u64| swept(*old(self), *final(self), now),
            r == old(self).index().len() - final(self).index().len(),
    {
        let now = now_millis();
        self.remove_expired_at(now)
    }

    /// Sweeps the cache at `now`, adds the projection of `val` to the index in order of expiry,
    /// and stores `val` under `key` unless an entry for `key` is left after the sweep: that entry
    /// is kept as it is.
    pub fn upsert_at(&mut self, key: CacheKey, val: CacheEntry, now: u64)
        requires
            old(self).wf(),
        ensures
            final(self).wf(),
            upserted(*old(self), *final(self), key, val, now),
    {
        self.remove_expired_at(now);
        let ghost mid_s = self.map@;
        let ghost mid_i = self.keys@;
        let expiry = val.expiry();
        let projection = CacheExpiry::new(key.duplicate(), expiry);
        let mut pos: usize = 0;
        while pos < self.keys.len() && self.keys[pos].expiry < expiry
            invariant
                self.keys@ == mid_i,
                sorted_by_expiry(mid_i),
                pos <= mid_i.len(),
                forall|j: int| 0 <= j < pos ==> (#[trigger] mid_i[j]).expiry < expiry,
            decreases mid_i.len() - pos,
        {
            pos += 1;
        }
        proof {
            if pos < mid_i.len() {
                assert forall|j: int| pos <= j < mid_i.len() implies (#[trigger] mid_i[j]).expiry
                    >= expiry by {
                    assert(mid_i[pos as int].expiry <= mid_i[j].expiry);
                }
            }
        }
        self.keys.insert(pos, projection);
        proof {
            assert forall|a: int, b: int| 0 <= a <= b < self.keys@.len() implies (
            #[trigger] self.keys@[a]).expiry <= (#[trigger] self.keys@[b]).expiry by {
                if a < pos {
                    assert(self.keys@[a] == mid_i[a]);
                }
                if b > pos {
                    assert(self.keys@[b] == mid_i[b - 1]);
                }
                if a > pos {
                    assert(self.keys@[a] == mid_i[a - 1]);
                }
            }
        }
        if !self.contains(&key) {
            self.map.push((key, val));
            proof {
                assert forall|a: int, b: int|
                    0 <= a < self.map@.len() && 0 <= b < self.map@.len() && a != b implies (
                #[trigger] self.map@[a]).0@ != (#[trigger] self.map@[b]).0@ by {
                    if a < mid_s.len() && b < mid_s.len() {
                        assert(mid_s[a] == self.map@[a]);
                        assert(mid_s[b] == self.map@[b]);
                    } else if a < mid_s.len() {
                        assert(self.map@[a] == mid_s[a]);
                    } else {
                        assert(self.map@[b] == mid_s[b]);
                    }
                }
            }
        }
        proof {
            assert(self.keys@ == mid_i.insert(pos as int, (CacheExpiry { key, expiry: val.expiry })));
        }
    }

    /// Upserts at the current time; see `upsert_at`.
    pub fn upsert(&mut self, key: CacheKey, val: CacheEntry)
        requires
            old(self).wf(),
        ensures
            final(self).wf(),
            exists|now: u64| upserted(*old(self), *final(self), key, val, now),
    {
        let now = now_millis();
        self.upsert_at(key, val, now);
    }

    /// The number of stored entries.
    pub fn len(&self) -> (r: usize)
        ensures
            r == self.stored().len(),
    {
        self.map.len()
    }

    /// The number of projections in the index.
    pub fn projections(&self) -> (r: usize)
        ensures
            r == self.index().len(),
    {
        self.keys.len()
    }

    pub fn is_empty(&self) -> (r: bool)
        ensures
            r == (self.stored().len() == 0),
    {
        self.map.len() == 0
    }
}

/// The entry found under a key is one stored under it.
pub(crate) proof fn lemma_lookup_found(s: Seq<(CacheKey, CacheEntry)>, i: int)
    requires
        unique_keys(s),
        0 <= i < s.len(),
    ensures
        lookup(s, s[i].0@) == Some(s[i].1),
{
    let k = s[i].0@;
    let c = choose|c: int| 0 <= c < s.len() && (#[trigger] s[c]).0@ == k;
    assert(0 <= c < s.len() && s[c].0@ == k);
    if c != i {
        assert(s[c].0@ != s[i].0@);
    }
}

/// Nothing is found in a sweep's result under a key that the swept entries do not hold.
pub(crate) proof fn lemma_sweep_lookup_none(
    s: Seq<(CacheKey, CacheEntry)>,
    idx: Seq<CacheExpiry>,
    now: u64,
    k: (Seq<char>, u16, u16),
)
    requires
        lookup(s, k) is None,
    ensures
        lookup(s.filter(keeps_entry(idx, now)), k) is None,
{
    let f = s.filter(keeps_entry(idx, now));
    if exists|i: int| 0 <= i < f.len() && (#[trigger] f[i]).0@ == k {
        let i = choose|i: int| 0 <= i < f.len() && (#[trigger] f[i]).0@ == k;
        assert(f.contains(f[i]));
        s.lemma_filter_contains_rev(keeps_entry(idx, now), f[i]);
        let t = choose|t: int| 0 <= t < s.len() && s[t] == f[i];
        assert(s[t].0@ == k);
    }
}

/// After an upsert of `val` under a key that the cache did not hold, `get` of that key gives
/// `val`.
pub proof fn lemma_lookup_after_insert(
    c0: Cache,
    c1: Cache,
    key: CacheKey,
    val: CacheEntry,
    now: u64,
)
    requires
        c0.wf(),
        lookup(c0.stored(), key@) is None,
        upserted(c0, c1, key, val, now),
    ensures
        lookup(c1.stored(), key@) == Some(val),
{
    let mid = c0.stored().filter(keeps_entry(c0.index(), now));
    lemma_sweep_lookup_none(c0.stored(), c0.index(), now, key@);
    let s = c1.stored();
    assert(s == mid.push((key, val)));
    let n = mid.len() as int;
    assert(s[n].0@ == key@);
    let c = choose|c: int| 0 <= c < s.len() && (#[trigger] s[c]).0@ == key@;
    assert(0 <= c < s.len() && s[c].0@ == key@);
    if c < n {
        assert(mid[c].0@ == key@);
    }
}

/// An upsert under a key whose entry is stored and has no lapsed projection at the time of the
/// upsert leaves that entry in place: `get` of the key still gives it.
pub proof fn lemma_upsert_keeps_present(
    c1: Cache,
    c2: Cache,
    key: CacheKey,
    val: CacheEntry,
    now: u64,
)
    requires
        c1.wf(),
        c2.wf(),
        lookup(c1.stored(), key@) is Some,
        !expired_key(c1.index(), key@, now),
        upserted(c1, c2, key, val, now),
    ensures
        lookup(c2.stored(), key@) == lookup(c1.stored(), key@),
{
    let s = c1.stored();
    let pred = keeps_entry(c1.index(), now);
    let mid = s.filter(pred);
    let i = choose|i: int| 0 <= i < s.len() && (#[trigger] s[i]).0@ == key@;
    assert(0 <= i < s.len() && s[i].0@ == key@);
    lemma_lookup_found(s, i);
    assert(pred(s[i]));
    s.lemma_filter_contains(pred, i);
    assert(mid.contains(s[i]));
    let t = choose|t: int| 0 <= t < mid.len() && mid[t] == s[i];
    assert(mid[t].0@ == key@);
    assert(lookup(mid, key@) is Some);
    assert(c2.stored() == mid);
    lemma_lookup_found(mid, t);
}

} // verus!
