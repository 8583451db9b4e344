use vstd::prelude::*;

verus! {

/// A decoded question: the name, type and class that were asked for.
#[derive(Debug)]
pub struct DnsQuestion {
    pub qname: String,
    pub qtype: u16,
    pub qclass: u16,
}

/// A decoded answer record.
#[derive(Debug)]
pub struct DnsAnswer {
    pub name: String,
    pub atype: u16,
    pub aclass: u16,
    pub ttl: u32,
    pub rdlength: u16,
    pub rdata: Vec<u8>,
}

/// A decoded message: its questions and its answers.
#[derive(Debug)]
pub struct DnsMessage {
    pub questions: Vec<DnsQuestion>,
    pub answers: Vec<DnsAnswer>,
}

/// Two answer records hold the same values.
pub open spec fn same_answer(a: DnsAnswer, b: DnsAnswer) -> bool {
    &&& a.name@ == b.name@
    &&& a.atype == b.atype
    &&& a.aclass == b.aclass
    &&& a.ttl == b.ttl
    &&& a.rdlength == b.rdlength
    &&& a.rdata@ == b.rdata@
}

/// Two runs of answer records hold the same values, in the same order.
pub open spec fn same_answers(a: Seq<DnsAnswer>, b: Seq<DnsAnswer>) -> bool {
    &&& a.len() == b.len()
    &&& forall|i: int| 0 <= i < a.len() ==> same_answer(#[trigger] a[i], b[i])
}

impl DnsQuestion {
    pub fn new(qname: String, qtype: u16, qclass: u16) -> (r: DnsQuestion)
        ensures
            r.qname@ == qname@,
            r.qtype == qtype,
            r.qclass == qclass,
    {
        DnsQuestion { qname, qtype, qclass }
    }
}

impl DnsAnswer {
    pub fn new(name: String, atype: u16, aclass: u16, ttl: u32, rdlength: u16, rdata: Vec<u8>) -> (r:
        DnsAnswer)
        ensures
            r.name@ == name@,
            r.atype == atype,
            r.aclass == aclass,
            r.ttl == ttl,
            r.rdlength == rdlength,
            r.rdata@ == rdata@,
    {
        DnsAnswer { name, atype, aclass, ttl, rdlength, rdata }
    }

    /// A copy of this record.
    pub fn duplicate(&self) -> (r: DnsAnswer)
        ensures
            same_answer(r, *self),
    {
        let mut rdata: Vec<u8> = Vec::new();
        let mut i: usize = 0;
        while i < self.rdata.len()
            invariant
                i <= self.rdata@.len(),
                rdata@ == self.rdata@.subrange(0, i as int),
            decreases self.rdata@.len() - i,
        {
            rdata.push(self.rdata[i]);
            i += 1;
            assert(rdata@ =~= self.rdata@.subrange(0, i as int));
        }
        assert(rdata@ =~= self.rdata@);
        DnsAnswer {
            name: self.name.clone(),
            atype: self.atype,
            aclass: self.aclass,
            ttl: self.ttl,
            rdlength: self.rdlength,
            rdata,
        }
    }
}

/// A copy of a run of answer records.
pub fn duplicate_answers(answers: &Vec<DnsAnswer>) -> (r: Vec<DnsAnswer>)
    ensures
        same_answers(r@, answers@),
{
    let mut out: Vec<DnsAnswer> = Vec::new();
    let mut i: usize = 0;
    while i < answers.len()
        invariant
            i <= answers@.len(),
            out@.len() == i,
            forall|j: int| 0 <= j < i ==> same_answer(#[trigger] out@[j], answers@[j]),
        decreases answers@.len() - i,
    {
        out.push(answers[i].duplicate());
        i += 1;
    }
    out
}

impl DnsMessage {
    pub fn new(questions: Vec<DnsQuestion>, answers: Vec<DnsAnswer>) -> (r: DnsMessage)
        ensures
            r.questions == questions,
            r.answers == answers,
    {
        DnsMessage { questions, answers }
    }

    /// The first answer record, if there is one.
    pub fn first_answer(&self) -> (r: Option<&DnsAnswer>)
        ensures
            self.answers@.len() == 0 ==> r is None,
            self.answers@.len() > 0 ==> r is Some && *r.unwrap() == self.answers@[0],
    {
        if self.answers.len() == 0 {
            None
        } else {
            Some(&self.answers[0])
        }
    }
}

} // verus!
