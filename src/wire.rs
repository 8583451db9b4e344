use crate::buf::{be_u16, be_u32, u16_be_bytes, u32_be_bytes, BufRead, DirectAccessBuf, WireBuffer};
use crate::message::{DnsAnswer, DnsMessage, DnsQuestion};
use vstd::prelude::*;

verus! {

/// Bytes before the question section of a message.
pub const HEADER_LEN: usize = 12;

/// Relies on String::push: appends one character to the end of the string.
#[verifier::external_body]
fn push_char(s: &mut String, c: char)
    ensures
        final(s)@ == old(s)@.push(c),
{
    s.push(c)
}

/// The characters of a label, one for each byte.
pub open spec fn label_chars(s: Seq<u8>) -> Seq<char> {
    s.map_values(|b: u8| b as char)
}

/// `a` and `b` joined by a dot, or whichever is not empty.
pub open spec fn join(a: Seq<char>, b: Seq<char>) -> Seq<char> {
    if a.len() == 0 {
        b
    } else if b.len() == 0 {
        a
    } else {
        a + seq!['.'] + b
    }
}

/// The dotted name whose labels start at `p`, and the position after its closing zero byte.
/// None where the labels run past the end or a length byte has either of its top two bits set
/// (a compressed or reserved form).
pub open spec fn name_at(s: Seq<u8>, p: int) -> Option<(Seq<char>, int)>
    decreases s.len() - p,
{
    if p < 0 || p >= s.len() {
        None
    } else if s[p] == 0 {
        Some((Seq::empty(), p + 1))
    } else if s[p] >= 64 || p + 1 + s[p] > s.len() {
        None
    } else {
        let q = p + 1 + s[p] as int;
        match name_at(s, q) {
            Some((rest, r)) => Some((join(label_chars(s.subrange(p + 1, q)), rest), r)),
            None => None,
        }
    }
}

/// A name ends after where it starts and within the bytes.
proof fn lemma_name_end(s: Seq<u8>, p: int)
    requires
        name_at(s, p) is Some,
    ensures
        p < name_at(s, p).unwrap().1 <= s.len(),
    decreases s.len() - p,
{
    if s[p] != 0 {
        lemma_name_end(s, p + 1 + s[p] as int);
    }
}

/// `o` with `acc` put in front of its name.
pub open spec fn prefixed(acc: Seq<char>, o: Option<(Seq<char>, int)>) -> Option<(Seq<char>, int)> {
    match o {
        Some((rest, q)) => Some((join(acc, rest), q)),
        None => None,
    }
}

/// Reads the name at the cursor. On success the cursor ends after the closing zero byte.
pub fn read_name(buf: &mut WireBuffer) -> (r: Option<String>)
    requires
        old(buf).wf(),
    ensures
        final(buf).wf(),
        final(buf).spec_bytes() == old(buf).spec_bytes(),
        match name_at(old(buf).spec_bytes(), old(buf).spec_pos()) {
            Some((n, q)) => r is Some && r.unwrap()@ == n && final(buf).spec_pos() == q,
            None => r is None,
        },
{
    let ghost s = buf.spec_bytes();
    let ghost pos0 = buf.spec_pos();
    let mut name = String::new();
    let mut first = true;
    loop
        invariant
            first == (name@.len() == 0),
            s == old(buf).spec_bytes(),
            pos0 == old(buf).spec_pos(),
            buf.spec_bytes() == s,
            0 <= buf.spec_pos() <= s.len(),
            name_at(s, pos0) == prefixed(name@, name_at(s, buf.spec_pos())),
        decreases s.len() - buf.spec_pos(),
    {
        let ghost start = buf.spec_pos();
        let len = match buf.next_u8() {
            Some(n) => n,
            None => {
                return None;
            },
        };
        if len == 0 {
            assert(join(name@, Seq::empty()) =~= name@);
            return Some(name);
        }
        if len >= 64 {
            return None;
        }
        let ghost acc = name@;
        if !first {
            push_char(&mut name, '.');
        }
        let ghost sep = name@;
        let mut i: u8 = 0;
        while i < len
            invariant
                s == old(buf).spec_bytes(),
                pos0 == old(buf).spec_pos(),
                name_at(s, pos0) == prefixed(acc, name_at(s, start)),
                buf.spec_bytes() == s,
                0 <= start < s.len(),
                s[start] == len,
                0 < len < 64,
                i <= len,
                start + 1 + i <= s.len(),
                buf.spec_pos() == start + 1 + i,
                name@ == sep + label_chars(s.subrange(start + 1, start + 1 + i)),
            decreases len - i,
        {
            match buf.next_u8() {
                Some(b) => {
                    push_char(&mut name, b as char);
                },
                None => {
                    return None;
                },
            }
            i += 1;
            assert(label_chars(s.subrange(start + 1, start + 1 + i)) =~= label_chars(
                s.subrange(start + 1, start + i),
            ).push(s[start + i] as char));
        }
        first = false;
        proof {
            let q = start + 1 + len;
            let label = label_chars(s.subrange(start + 1, q));
            assert(name@ == sep + label);
            assert(label.len() > 0);
            match name_at(s, q) {
                Some((rest, r)) => {
                    if acc.len() > 0 {
                        assert(join(acc, join(label, rest)) =~= join(name@, rest));
                    } else {
                        assert(sep =~= acc);
                        assert(join(acc, join(label, rest)) =~= join(name@, rest));
                    }
                },
                None => {},
            }
        }
    }
}

/// The first question of a query, decoded from the bytes that came from the client. None where
/// the header claims no question or the question does not decode.
pub fn first_question(query: Vec<u8>) -> (r: Option<DnsQuestion>)
    ensures
        ({
            let s = query@;
            if s.len() < HEADER_LEN || s[4] as int * 256 + s[5] as int == 0 {
                r is None
            } else {
                match name_at(s, HEADER_LEN as int) {
                    Some((n, q)) => if q + 4 <= s.len() {
                        r is Some && r.unwrap().qname@ == n && r.unwrap().qtype == s[q] as int * 256
                            + s[q + 1] as int && r.unwrap().qclass == s[q + 2] as int * 256 + s[q
                            + 3] as int
                    } else {
                        r is None
                    },
                    None => r is None,
                }
            }
        }),
{
    let mut buf = WireBuffer::new(query);
    if buf.len() < HEADER_LEN {
        return None;
    }
    buf.seek(4);
    match buf.next_u16() {
        Some(0u16) => {
            return None;
        },
        _ => {},
    }
    buf.seek(HEADER_LEN);
    let qname = match read_name(&mut buf) {
        Some(n) => {
            proof {
                lemma_name_end(buf.spec_bytes(), HEADER_LEN as int);
            }
            n
        },
        None => {
            return None;
        },
    };
    let qtype = match buf.next_u16() {
        Some(t) => t,
        None => {
            return None;
        },
    };
    let qclass = match buf.next_u16() {
        Some(c) => c,
        None => {
            return None;
        },
    };
    Some(DnsQuestion::new(qname, qtype, qclass))
}

/// A question as values: name, type and class.
pub type QuestionModel = (Seq<char>, u16, u16);

/// An answer record as values: name, type, class, time to live, data length and data.
pub type AnswerModel = (Seq<char>, u16, u16, u32, u16, Seq<u8>);

pub open spec fn question_model(q: DnsQuestion) -> QuestionModel {
    (q.qname@, q.qtype, q.qclass)
}

pub open spec fn answer_model(a: DnsAnswer) -> AnswerModel {
    (a.name@, a.atype, a.aclass, a.ttl, a.rdlength, a.rdata@)
}

/// The big-endian `u16` at `p`.
pub open spec fn u16_at(s: Seq<u8>, p: int) -> int {
    be_u16(s[p], s[p + 1])
}

/// The name at `p`, which is either labels in place or a two-byte pointer (top bits set) to
/// labels elsewhere, and the position after it.
pub open spec fn name_ref_at(s: Seq<u8>, p: int) -> Option<(Seq<char>, int)> {
    if 0 <= p && p + 2 <= s.len() && s[p] >= 192 {
        match name_at(s, u16_at(s, p) - 49152) {
            Some((n, _)) => Some((n, p + 2)),
            None => None,
        }
    } else {
        name_at(s, p)
    }
}

/// The question at `p` and the position after it.
pub open spec fn question_at(s: Seq<u8>, p: int) -> Option<(QuestionModel, int)> {
    match name_ref_at(s, p) {
        Some((n, q)) => if q + 4 <= s.len() {
            Some(((n, u16_at(s, q) as u16, u16_at(s, q + 2) as u16), q + 4))
        } else {
            None
        },
        None => None,
    }
}

/// The answer record at `p` and the position after it.
pub open spec fn answer_at(s: Seq<u8>, p: int) -> Option<(AnswerModel, int)> {
    match name_ref_at(s, p) {
        Some((n, q)) => if q + 10 <= s.len() && q + 10 + u16_at(s, q + 8) <= s.len() {
            let len = u16_at(s, q + 8);
            Some(
                (
                    (
                        n,
                        u16_at(s, q) as u16,
                        u16_at(s, q + 2) as u16,
                        be_u32(s[q + 4], s[q + 5], s[q + 6], s[q + 7]) as u32,
                        len as u16,
                        s.subrange(q + 10, q + 10 + len),
                    ),
                    q + 10 + len,
                ),
            )
        } else {
            None
        },
        None => None,
    }
}

/// `count` questions from `p` on, and the position after them.
pub open spec fn questions_at(s: Seq<u8>, p: int, count: nat) -> Option<(Seq<QuestionModel>, int)>
    decreases count,
{
    if count == 0 {
        Some((Seq::empty(), p))
    } else {
        match question_at(s, p) {
            Some((x, q)) => match questions_at(s, q, (count - 1) as nat) {
                Some((xs, r)) => Some((seq![x] + xs, r)),
                None => None,
            },
            None => None,
        }
    }
}

/// `count` answer records from `p` on, and the position after them.
pub open spec fn answers_at(s: Seq<u8>, p: int, count: nat) -> Option<(Seq<AnswerModel>, int)>
    decreases count,
{
    if count == 0 {
        Some((Seq::empty(), p))
    } else {
        match answer_at(s, p) {
            Some((x, q)) => match answers_at(s, q, (count - 1) as nat) {
                Some((xs, r)) => Some((seq![x] + xs, r)),
                None => None,
            },
            None => None,
        }
    }
}

/// `o` with `acc` put in front of its run.
pub open spec fn after<T>(acc: Seq<T>, o: Option<(Seq<T>, int)>) -> Option<(Seq<T>, int)> {
    match o {
        Some((xs, r)) => Some((acc + xs, r)),
        None => None,
    }
}

/// Reads the name at the cursor, following a pointer once.
pub fn read_name_ref(buf: &mut WireBuffer) -> (r: Option<String>)
    requires
        old(buf).wf(),
    ensures
        final(buf).wf(),
        final(buf).spec_bytes() == old(buf).spec_bytes(),
        match name_ref_at(old(buf).spec_bytes(), old(buf).spec_pos()) {
            Some((n, q)) => r is Some && r.unwrap()@ == n && final(buf).spec_pos() == q,
            None => r is None,
        },
{
    let ghost s = buf.spec_bytes();
    let ghost p = buf.spec_pos();
    match buf.peek_u8() {
        Some(b) => {
            if b >= 192 {
                let ptr = match buf.next_u16() {
                    Some(v) => v,
                    None => {
                        return None;
                    },
                };
                let after_ptr = buf.pos();
                if !buf.seek((ptr - 49152) as usize) {
                    return None;
                }
                let n = match read_name(buf) {
                    Some(n) => n,
                    None => {
                        return None;
                    },
                };
                buf.seek(after_ptr);
                return Some(n);
            }
        },
        None => {},
    }
    let r = read_name(buf);
    proof {
        if r is Some {
            lemma_name_end(s, p);
        }
    }
    r
}

/// Reads the question at the cursor.
pub fn read_question(buf: &mut WireBuffer) -> (r: Option<DnsQuestion>)
    requires
        old(buf).wf(),
    ensures
        final(buf).wf(),
        final(buf).spec_bytes() == old(buf).spec_bytes(),
        match question_at(old(buf).spec_bytes(), old(buf).spec_pos()) {
            Some((x, q)) => r is Some && question_model(r.unwrap()) == x && final(buf).spec_pos()
                == q,
            None => r is None,
        },
{
    let qname = match read_name_ref(buf) {
        Some(n) => n,
        None => {
            return None;
        },
    };
    let qtype = match buf.next_u16() {
        Some(t) => t,
        None => {
            return None;
        },
    };
    let qclass = match buf.next_u16() {
        Some(c) => c,
        None => {
            return None;
        },
    };
    Some(DnsQuestion::new(qname, qtype, qclass))
}

/// Reads the answer record at the cursor.
pub fn read_answer(buf: &mut WireBuffer) -> (r: Option<DnsAnswer>)
    requires
        old(buf).wf(),
    ensures
        final(buf).wf(),
        final(buf).spec_bytes() == old(buf).spec_bytes(),
        match answer_at(old(buf).spec_bytes(), old(buf).spec_pos()) {
            Some((x, q)) => r is Some && answer_model(r.unwrap()) == x && final(buf).spec_pos() == q,
            None => r is None,
        },
{
    let ghost s = buf.spec_bytes();
    let name = match read_name_ref(buf) {
        Some(n) => n,
        None => {
            return None;
        },
    };
    let ghost q = buf.spec_pos();
    let atype = match buf.next_u16() {
        Some(t) => t,
        None => {
            return None;
        },
    };
    let aclass = match buf.next_u16() {
        Some(c) => c,
        None => {
            return None;
        },
    };
    let ttl = match buf.next_u32() {
        Some(t) => t,
        None => {
            return None;
        },
    };
    let rdlength = match buf.next_u16() {
        Some(l) => l,
        None => {
            return None;
        },
    };
    let rdata = buf.next_bytes(rdlength as usize);
    if rdata.len() != rdlength as usize {
        return None;
    }
    proof {
        if rdlength == 0 {
            assert(rdata@ =~= s.subrange(q + 10, q + 10));
        }
    }
    Some(DnsAnswer::new(name, atype, aclass, ttl, rdlength, rdata))
}

/// Decodes a message's questions and answer records, as many of each as the header counts.
/// The sections after the answers are not read. None where the header or a record does not fit.
pub fn decode_message(bytes: Vec<u8>) -> (r: Option<DnsMessage>)
    ensures
        ({
            let s = bytes@;
            if s.len() < HEADER_LEN {
                r is None
            } else {
                match questions_at(s, HEADER_LEN as int, u16_at(s, 4) as nat) {
                    Some((qs, p)) => match answers_at(s, p, u16_at(s, 6) as nat) {
                        Some((ans, _)) => r is Some && r.unwrap().questions@.map_values(
                            |q: DnsQuestion| question_model(q),
                        ) == qs && r.unwrap().answers@.map_values(|a: DnsAnswer| answer_model(a))
                            == ans,
                        None => r is None,
                    },
                    None => r is None,
                }
            }
        }),
{
    let mut buf = WireBuffer::new(bytes);
    let ghost s = buf.spec_bytes();
    if buf.len() < HEADER_LEN {
        return None;
    }
    buf.seek(4);
    let qdcount = match buf.next_u16() {
        Some(n) => n,
        None => {
            return None;
        },
    };
    let ancount = match buf.next_u16() {
        Some(n) => n,
        None => {
            return None;
        },
    };
    buf.seek(HEADER_LEN);
    let ghost qm = |q: DnsQuestion| question_model(q);
    let mut questions: Vec<DnsQuestion> = Vec::new();
    let mut i: u16 = 0;
    while i < qdcount
        invariant
            s == bytes@,
            s.len() >= HEADER_LEN,
            qdcount == u16_at(s, 4),
            ancount == u16_at(s, 6),
            qm == (|q: DnsQuestion| question_model(q)),
            buf.wf(),
            buf.spec_bytes() == s,
            i <= qdcount,
            questions_at(s, HEADER_LEN as int, qdcount as nat) == after(
                questions@.map_values(qm),
                questions_at(s, buf.spec_pos(), (qdcount - i) as nat),
            ),
        decreases qdcount - i,
    {
        let ghost before = questions@.map_values(qm);
        let ghost pos = buf.spec_pos();
        match read_question(&mut buf) {
            Some(q) => {
                questions.push(q);
                proof {
                    let n = (qdcount - i) as nat;
                    let x = question_at(s, pos).unwrap().0;
                    assert(questions@.map_values(qm) =~= before.push(x));
                    match questions_at(s, buf.spec_pos(), (n - 1) as nat) {
                        Some((xs, r)) => {
                            assert(before + (seq![x] + xs) =~= before.push(x) + xs);
                        },
                        None => {},
                    }
                }
            },
            None => {
                return None;
            },
        }
        i += 1;
    }
    let ghost am = |a: DnsAnswer| answer_model(a);
    let ghost answers_start = buf.spec_pos();
    assert(questions_at(s, HEADER_LEN as int, qdcount as nat) == Some(
        (questions@.map_values(qm), answers_start),
    )) by {
        assert(questions@.map_values(qm) + Seq::empty() =~= questions@.map_values(qm));
    }
    let mut answers: Vec<DnsAnswer> = Vec::new();
    let mut j: u16 = 0;
    while j < ancount
        invariant
            s == bytes@,
            s.len() >= HEADER_LEN,
            qdcount == u16_at(s, 4),
            ancount == u16_at(s, 6),
            qm == (|q: DnsQuestion| question_model(q)),
            am == (|a: DnsAnswer| answer_model(a)),
            questions_at(s, HEADER_LEN as int, qdcount as nat) == Some(
                (questions@.map_values(qm), answers_start),
            ),
            buf.wf(),
            buf.spec_bytes() == s,
            j <= ancount,
            answers_at(s, answers_start, ancount as nat) == after(
                answers@.map_values(am),
                answers_at(s, buf.spec_pos(), (ancount - j) as nat),
            ),
        decreases ancount - j,
    {
        let ghost before = answers@.map_values(am);
        let ghost pos = buf.spec_pos();
        match read_answer(&mut buf) {
            Some(a) => {
                answers.push(a);
                proof {
                    let n = (ancount - j) as nat;
                    let x = answer_at(s, pos).unwrap().0;
                    assert(answers@.map_values(am) =~= before.push(x));
                    match answers_at(s, buf.spec_pos(), (n - 1) as nat) {
                        Some((xs, r)) => {
                            assert(before + (seq![x] + xs) =~= before.push(x) + xs);
                        },
                        None => {},
                    }
                }
            },
            None => {
                return None;
            },
        }
        j += 1;
    }
    assert(answers@.map_values(am) + Seq::empty() =~= answers@.map_values(am));
    Some(DnsMessage::new(questions, answers))
}

/// Flags of a reply: a response, recursion desired and available, no error.
pub const REPLY_FLAGS: u16 = 0x8180;

/// A pointer to the name at the start of the question section.
pub const QUESTION_NAME_POINTER: u16 = 0xc00c;

/// One answer record of a reply, its name a pointer to the question's name, living `ttl`.
pub open spec fn answer_bytes(a: DnsAnswer, ttl: u32) -> Seq<u8> {
    u16_be_bytes(QUESTION_NAME_POINTER) + u16_be_bytes(a.atype) + u16_be_bytes(a.aclass)
        + u32_be_bytes(ttl) + u16_be_bytes(a.rdlength) + a.rdata@
}

/// The answer records of a reply, one after the other.
pub open spec fn answers_bytes(s: Seq<DnsAnswer>, ttl: u32) -> Seq<u8>
    decreases s.len(),
{
    if s.len() == 0 {
        Seq::empty()
    } else {
        answers_bytes(s.drop_last(), ttl) + answer_bytes(s.last(), ttl)
    }
}

/// The reply to a query whose question ends at `qend`: the query's id, reply flags, the
/// question as the query had it, and `answers`, each living `ttl`.
pub open spec fn reply_bytes(query: Seq<u8>, qend: int, answers: Seq<DnsAnswer>, ttl: u32) -> Seq<
    u8,
> {
    query.subrange(0, 2) + u16_be_bytes(REPLY_FLAGS) + u16_be_bytes(1) + u16_be_bytes(
        answers.len() as u16,
    ) + u16_be_bytes(0) + u16_be_bytes(0) + query.subrange(HEADER_LEN as int, qend)
        + answers_bytes(answers, ttl)
}

/// Whether `answers` can be written after a question for `name`: each is for that name, holds
/// as many data bytes as it says, and there are few enough to count in a header.
pub open spec fn answers_fit(name: Seq<char>, answers: Seq<DnsAnswer>) -> bool {
    &&& answers.len() <= u16::MAX
    &&& forall|i: int|
        0 <= i < answers.len() ==> (#[trigger] answers[i]).name@ == name && answers[i].rdata@.len()
            == answers[i].rdlength
}

fn push_u16(out: &mut Vec<u8>, v: u16)
    ensures
        final(out)@ == old(out)@ + u16_be_bytes(v),
{
    out.push((v / 256) as u8);
    out.push((v % 256) as u8);
    assert(final(out)@ =~= old(out)@ + u16_be_bytes(v));
}

fn push_u32(out: &mut Vec<u8>, v: u32)
    ensures
        final(out)@ == old(out)@ + u32_be_bytes(v),
{
    out.push((v / 16777216) as u8);
    out.push(((v / 65536) % 256) as u8);
    out.push(((v / 256) % 256) as u8);
    out.push((v % 256) as u8);
    assert(final(out)@ =~= old(out)@ + u32_be_bytes(v));
}

/// Appends `bytes[from..to]`.
fn push_range(out: &mut Vec<u8>, bytes: &Vec<u8>, from: usize, to: usize)
    requires
        from <= to <= bytes@.len(),
    ensures
        final(out)@ == old(out)@ + bytes@.subrange(from as int, to as int),
{
    let mut i = from;
    while i < to
        invariant
            from <= i <= to <= bytes@.len(),
            out@ == old(out)@ + bytes@.subrange(from as int, i as int),
        decreases to - i,
    {
        out.push(bytes[i]);
        i += 1;
        assert(out@ =~= old(out)@ + bytes@.subrange(from as int, i as int));
    }
}

/// The reply to `query` from cached `answers`, each living `ttl` seconds. None where the query's
/// question does not decode or the answers cannot follow it (see `answers_fit`).
pub fn encode_reply(query: &Vec<u8>, answers: &Vec<DnsAnswer>, ttl: u32) -> (r: Option<Vec<u8>>)
    ensures
        ({
            let s = query@;
            if s.len() < HEADER_LEN {
                r is None
            } else {
                match name_at(s, HEADER_LEN as int) {
                    Some((n, q)) => if q + 4 <= s.len() && answers_fit(n, answers@) {
                        r is Some && r.unwrap()@ == reply_bytes(s, q + 4, answers@, ttl)
                    } else {
                        r is None
                    },
                    None => r is None,
                }
            }
        }),
{
    if query.len() < HEADER_LEN {
        return None;
    }
    let mut copy: Vec<u8> = Vec::new();
    push_range(&mut copy, query, 0, query.len());
    assert(copy@ =~= query@);
    let mut buf = WireBuffer::new(copy);
    buf.seek(HEADER_LEN);
    let qname = match read_name(&mut buf) {
        Some(n) => n,
        None => {
            return None;
        },
    };
    proof {
        lemma_name_end(query@, HEADER_LEN as int);
    }
    let q = buf.pos();
    if q > query.len() || query.len() - q < 4 {
        return None;
    }
    let qend = q + 4;
    if answers.len() > u16::MAX as usize {
        return None;
    }
    let mut k: usize = 0;
    while k < answers.len()
        invariant
            query@.len() >= HEADER_LEN,
            name_at(query@, HEADER_LEN as int) == Some((qname@, q as int)),
            q + 4 <= query@.len(),
            k <= answers@.len(),
            forall|i: int|
                0 <= i < k ==> (#[trigger] answers@[i]).name@ == qname@ && answers@[i].rdata@.len()
                    == answers@[i].rdlength,
        decreases answers@.len() - k,
    {
        if !(answers[k].name == qname) || answers[k].rdata.len() != answers[k].rdlength as usize {
            assert(!answers_fit(qname@, answers@)) by {
                assert(answers@[k as int] == answers[k as int]);
            }
            return None;
        }
        k += 1;
    }
    let mut out: Vec<u8> = Vec::new();
    push_range(&mut out, query, 0, 2);
    push_u16(&mut out, REPLY_FLAGS);
    push_u16(&mut out, 1);
    push_u16(&mut out, answers.len() as u16);
    push_u16(&mut out, 0);
    push_u16(&mut out, 0);
    push_range(&mut out, query, HEADER_LEN, qend);
    let ghost head = out@;
    let mut i: usize = 0;
    while i < answers.len()
        invariant
            i <= answers@.len(),
            answers_fit(qname@, answers@),
            out@ == head + answers_bytes(answers@.subrange(0, i as int), ttl),
        decreases answers@.len() - i,
    {
        let a = &answers[i];
        let ghost before = out@;
        push_u16(&mut out, QUESTION_NAME_POINTER);
        push_u16(&mut out, a.atype);
        push_u16(&mut out, a.aclass);
        push_u32(&mut out, ttl);
        push_u16(&mut out, a.rdlength);
        push_range(&mut out, &a.rdata, 0, a.rdata.len());
        proof {
            assert(a.rdata@.subrange(0, a.rdata@.len() as int) =~= a.rdata@);
            assert(answers@.subrange(0, i + 1).drop_last() =~= answers@.subrange(0, i as int));
            assert(out@ =~= before + answer_bytes(*a, ttl));
        }
        i += 1;
    }
    assert(answers@.subrange(0, answers@.len() as int) =~= answers@);
    assert(out@ =~= reply_bytes(query@, qend as int, answers@, ttl));
    Some(out)
}

} // verus!
