use vstd::arithmetic::div_mod::{lemma_div_denominator, lemma_fundamental_div_mod};
use vstd::prelude::*;

verus! {

/// Big-endian value of two bytes.
pub open spec fn be_u16(b0: u8, b1: u8) -> int {
    b0 as int * 256 + b1 as int
}

/// Big-endian value of four bytes.
pub open spec fn be_u32(b0: u8, b1: u8, b2: u8, b3: u8) -> int {
    b0 as int * 16777216 + b1 as int * 65536 + b2 as int * 256 + b3 as int
}

/// The two bytes of `v`, most significant first.
pub open spec fn u16_be_bytes(v: u16) -> Seq<u8> {
    seq![(v / 256) as u8, (v % 256) as u8]
}

/// The four bytes of `v`, most significant first.
pub open spec fn u32_be_bytes(v: u32) -> Seq<u8> {
    seq![(v / 16777216) as u8, ((v / 65536) % 256) as u8, ((v / 256) % 256) as u8, (v % 256) as u8]
}

/// `s` with the run starting at `p` replaced by `w`.
pub open spec fn overwrite(s: Seq<u8>, p: int, w: Seq<u8>) -> Seq<u8> {
    s.subrange(0, p) + w + s.subrange(p + w.len(), s.len() as int)
}

/// Writing `v` big-endian at `p` and then reading four bytes big-endian at `p` gives `v` back,
/// and leaves the buffer's length as it was.
pub proof fn lemma_u32_round_trip(s: Seq<u8>, p: int, v: u32)
    requires
        0 <= p,
        p + 4 <= s.len(),
    ensures
        ({
            let t = overwrite(s, p, u32_be_bytes(v));
            &&& t.len() == s.len()
            &&& be_u32(t[p], t[p + 1], t[p + 2], t[p + 3]) == v
        }),
{
    let t = overwrite(s, p, u32_be_bytes(v));
    assert(t[p] == u32_be_bytes(v)[0]);
    assert(t[p + 1] == u32_be_bytes(v)[1]);
    assert(t[p + 2] == u32_be_bytes(v)[2]);
    assert(t[p + 3] == u32_be_bytes(v)[3]);
    lemma_u32_bytes_value(v);
}

/// The four big-endian bytes of `v` spell `v`.
proof fn lemma_u32_bytes_value(v: u32)
    ensures
        be_u32(
            u32_be_bytes(v)[0],
            u32_be_bytes(v)[1],
            u32_be_bytes(v)[2],
            u32_be_bytes(v)[3],
        ) == v,
{
    let x = v as int;
    lemma_fundamental_div_mod(x, 256);
    lemma_fundamental_div_mod(x / 256, 256);
    lemma_fundamental_div_mod(x / 65536, 256);
    lemma_div_denominator(x, 256, 256);
    lemma_div_denominator(x, 65536, 256);
}

/// A byte buffer with a cursor.
pub trait DirectAccessBuf {
    /// The cursor position.
    spec fn spec_pos(&self) -> int;

    /// The buffer's contents.
    spec fn spec_bytes(&self) -> Seq<u8>;

    fn pos(&self) -> (r: usize)
        ensures
            r == self.spec_pos(),
    ;

    fn set_pos(&mut self, pos: usize)
        requires
            pos <= old(self).spec_bytes().len(),
        ensures
            final(self).spec_pos() == pos,
            final(self).spec_bytes() == old(self).spec_bytes(),
    ;

    fn len(&self) -> (r: usize)
        ensures
            r == self.spec_bytes().len(),
    ;

    fn is_empty(&self) -> (r: bool)
        ensures
            r == (self.spec_bytes().len() == 0),
    ;

    /// Moves the cursor to `pos` if it lies within the buffer (the end included).
    fn seek(&mut self, pos: usize) -> (r: bool)
        ensures
            r == (pos <= old(self).spec_bytes().len()),
            final(self).spec_pos() == if r { pos as int } else { old(self).spec_pos() },
            final(self).spec_bytes() == old(self).spec_bytes(),
    ;

    /// Moves the cursor `count` bytes on, if that stays within the buffer.
    fn advance(&mut self, count: usize) -> (r: bool)
        ensures
            r == (old(self).spec_pos() + count <= old(self).spec_bytes().len()),
            final(self).spec_pos() == if r {
                old(self).spec_pos() + count
            } else {
                old(self).spec_pos()
            },
            final(self).spec_bytes() == old(self).spec_bytes(),
    ;

    /// Moves the cursor to the start.
    fn reset(&mut self)
        ensures
            final(self).spec_pos() == 0,
            final(self).spec_bytes() == old(self).spec_bytes(),
    ;
}

/// Reading from a buffer at its cursor. A read that does not fit leaves the cursor unchanged.
pub trait BufRead: DirectAccessBuf {
    fn buf(&self) -> (r: &[u8])
        ensures
            r@ == self.spec_bytes(),
    ;

    /// The byte at the cursor, if there is one; the cursor stays.
    fn peek_u8(&self) -> (r: Option<u8>)
        ensures
            0 <= self.spec_pos() < self.spec_bytes().len() ==> r == Some(
                self.spec_bytes()[self.spec_pos()],
            ),
            !(0 <= self.spec_pos() < self.spec_bytes().len()) ==> r is None,
    ;

    /// Up to `count` bytes from the cursor on, fewer where the buffer ends first.
    fn next_bytes(&mut self, count: usize) -> (r: Vec<u8>)
        ensures
            ({
                let p = old(self).spec_pos();
                let s = old(self).spec_bytes();
                let n = if 0 <= p <= s.len() {
                    if p + count <= s.len() {
                        count as int
                    } else {
                        s.len() - p
                    }
                } else {
                    0
                };
                &&& r@.len() == n
                &&& n > 0 ==> r@ == s.subrange(p, p + n)
            }),
            final(self).spec_pos() == old(self).spec_pos() + r@.len(),
            final(self).spec_bytes() == old(self).spec_bytes(),
    ;

    fn next_u8(&mut self) -> (r: Option<u8>)
        ensures
            0 <= old(self).spec_pos() < old(self).spec_bytes().len() ==> r == Some(
                old(self).spec_bytes()[old(self).spec_pos()],
            ) && final(self).spec_pos() == old(self).spec_pos() + 1,
            !(0 <= old(self).spec_pos() < old(self).spec_bytes().len()) ==> r is None
                && final(self).spec_pos() == old(self).spec_pos(),
            final(self).spec_bytes() == old(self).spec_bytes(),
    ;

    /// The big-endian `u16` at the cursor, only if two bytes remain.
    fn next_u16(&mut self) -> (r: Option<u16>)
        ensures
            ({
                let p = old(self).spec_pos();
                let s = old(self).spec_bytes();
                if 0 <= p && p + 2 <= s.len() {
                    &&& r == Some(be_u16(s[p], s[p + 1]) as u16)
                    &&& final(self).spec_pos() == p + 2
                } else {
                    &&& r is None
                    &&& final(self).spec_pos() == p
                }
            }),
            final(self).spec_bytes() == old(self).spec_bytes(),
    ;

    /// The big-endian `u32` at the cursor, only if four bytes remain.
    fn next_u32(&mut self) -> (r: Option<u32>)
        ensures
            ({
                let p = old(self).spec_pos();
                let s = old(self).spec_bytes();
                if 0 <= p && p + 4 <= s.len() {
                    &&& r == Some(be_u32(s[p], s[p + 1], s[p + 2], s[p + 3]) as u32)
                    &&& final(self).spec_pos() == p + 4
                } else {
                    &&& r is None
                    &&& final(self).spec_pos() == p
                }
            }),
            final(self).spec_bytes() == old(self).spec_bytes(),
    ;
}


/// Writing into a buffer at its cursor. A write that does not fit changes nothing.
pub trait BufWrite: BufRead {
    fn set_byte(&mut self, i: usize, byte: u8)
        requires
            i < old(self).spec_bytes().len(),
        ensures
            final(self).spec_bytes() == old(self).spec_bytes().update(i as int, byte),
            final(self).spec_pos() == old(self).spec_pos(),
    ;

    /// Writes one byte at the cursor, unless the cursor is at the end.
    fn write_u8(&mut self, byte: u8) -> (r: bool)
        ensures
            ({
                let p = old(self).spec_pos();
                let s = old(self).spec_bytes();
                &&& r == (0 <= p < s.len())
                &&& r ==> final(self).spec_bytes() == s.update(p, byte)
                    && final(self).spec_pos() == p + 1
                &&& !r ==> final(self).spec_bytes() == s && final(self).spec_pos() == p
            }),
    ;

    /// Writes `v` big-endian at the cursor, only if both bytes fit.
    fn write_u16(&mut self, v: u16) -> (r: bool)
        ensures
            ({
                let p = old(self).spec_pos();
                let s = old(self).spec_bytes();
                &&& r == (0 <= p && p + 2 <= s.len())
                &&& r ==> final(self).spec_bytes() == overwrite(s, p, u16_be_bytes(v))
                    && final(self).spec_pos() == p + 2
                &&& !r ==> final(self).spec_bytes() == s && final(self).spec_pos() == p
            }),
    ;

    /// Writes `v` big-endian at the cursor, only if all four bytes fit.
    fn write_u32(&mut self, v: u32) -> (r: bool)
        ensures
            ({
                let p = old(self).spec_pos();
                let s = old(self).spec_bytes();
                &&& r == (0 <= p && p + 4 <= s.len())
                &&& r ==> final(self).spec_bytes() == overwrite(s, p, u32_be_bytes(v))
                    && final(self).spec_pos() == p + 4
                &&& !r ==> final(self).spec_bytes() == s && final(self).spec_pos() == p
            }),
    ;

    /// Writes all of `bytes` at the cursor, only if they all fit.
    fn write_bytes(&mut self, bytes: &[u8]) -> (r: bool)
        ensures
            ({
                let p = old(self).spec_pos();
                let s = old(self).spec_bytes();
                &&& r == (0 <= p && p + bytes@.len() <= s.len())
                &&& r ==> final(self).spec_bytes() == overwrite(s, p, bytes@)
                    && final(self).spec_pos() == p + bytes@.len()
                &&& !r ==> final(self).spec_bytes() == s && final(self).spec_pos() == p
            }),
    ;
}

/// An owned byte buffer with a cursor that never passes its end.
pub struct WireBuffer {
    bytes: Vec<u8>,
    pos: usize,
}

impl WireBuffer {
    pub open spec fn wf(&self) -> bool {
        0 <= self.spec_pos() <= self.spec_bytes().len()
    }

    /// A buffer over `bytes` with the cursor at the start.
    pub fn new(bytes: Vec<u8>) -> (r: WireBuffer)
        ensures
            r.wf(),
            r.spec_pos() == 0,
            r.spec_bytes() == bytes@,
    {
        WireBuffer { bytes, pos: 0 }
    }

    /// A buffer of `len` zero bytes with the cursor at the start.
    pub fn zeroed(len: usize) -> (r: WireBuffer)
        ensures
            r.wf(),
            r.spec_pos() == 0,
            r.spec_bytes() == Seq::new(len as nat, |_i: int| 0u8),
    {
        let mut bytes: Vec<u8> = Vec::new();
        let mut i: usize = 0;
        while i < len
            invariant
                i <= len,
                bytes@ == Seq::new(i as nat, |_i: int| 0u8),
            decreases len - i,
        {
            bytes.push(0u8);
            i += 1;
        }
        WireBuffer { bytes, pos: 0 }
    }

    /// The buffer's contents.
    pub fn into_bytes(self) -> (r: Vec<u8>)
        ensures
            r@ == self.spec_bytes(),
    {
        self.bytes
    }
}

impl DirectAccessBuf for WireBuffer {
    closed spec fn spec_pos(&self) -> int {
        self.pos as int
    }

    closed spec fn spec_bytes(&self) -> Seq<u8> {
        self.bytes@
    }

    fn pos(&self) -> (r: usize) {
        self.pos
    }

    fn set_pos(&mut self, pos: usize) {
        self.pos = pos;
    }

    fn len(&self) -> (r: usize) {
        self.bytes.len()
    }

    fn is_empty(&self) -> (r: bool) {
        self.len() == 0
    }

    fn seek(&mut self, pos: usize) -> (r: bool) {
        if pos > self.len() {
            return false;
        }
        self.set_pos(pos);
        true
    }

    fn advance(&mut self, count: usize) -> (r: bool) {
        let len = self.len();
        let pos = self.pos();
        if pos > len || count > len - pos {
            return false;
        }
        self.seek(pos + count)
    }

    fn reset(&mut self) {
        self.seek(0);
    }
}

impl BufRead for WireBuffer {
    fn buf(&self) -> (r: &[u8]) {
        self.bytes.as_slice()
    }

    fn peek_u8(&self) -> (r: Option<u8>) {
        if self.pos() >= self.len() {
            return None;
        }
        Some(self.buf()[self.pos()])
    }

    fn next_bytes(&mut self, count: usize) -> (r: Vec<u8>) {
        let mut out: Vec<u8> = Vec::new();
        let ghost pos0 = self.spec_pos();
        let ghost s0 = self.spec_bytes();
        let mut i: usize = 0;
        let mut ended = false;
        while i < count && !ended
            invariant
                i <= count,
                self.spec_bytes() == s0,
                self.spec_pos() == pos0 + i,
                out@.len() == i,
                i > 0 ==> 0 <= pos0 && pos0 + i <= s0.len() && out@ == s0.subrange(pos0, pos0 + i),
                ended ==> !(0 <= pos0 + i < s0.len()),
            decreases count - i, if ended { 0int } else { 1int },
        {
            match self.next_u8() {
                Some(b) => {
                    out.push(b);
                    i += 1;
                    assert(out@ =~= s0.subrange(pos0, pos0 + i));
                },
                None => {
                    ended = true;
                },
            }
        }
        out
    }

    fn next_u8(&mut self) -> (r: Option<u8>) {
        match self.peek_u8() {
            Some(byte) => {
                self.advance(1);
                Some(byte)
            },
            None => None,
        }
    }

    fn next_u16(&mut self) -> (r: Option<u16>) {
        let len = self.len();
        let pos = self.pos();
        if pos > len || len - pos < 2 {
            return None;
        }
        let b0 = self.buf()[pos];
        let b1 = self.buf()[pos + 1];
        self.advance(2);
        Some(b0 as u16 * 256 + b1 as u16)
    }

    fn next_u32(&mut self) -> (r: Option<u32>) {
        let len = self.len();
        let pos = self.pos();
        if pos > len || len - pos < 4 {
            return None;
        }
        let b0 = self.buf()[pos];
        let b1 = self.buf()[pos + 1];
        let b2 = self.buf()[pos + 2];
        let b3 = self.buf()[pos + 3];
        self.advance(4);
        Some(b0 as u32 * 16777216 + b1 as u32 * 65536 + b2 as u32 * 256 + b3 as u32)
    }
}

impl BufWrite for WireBuffer {
    fn set_byte(&mut self, i: usize, byte: u8) {
        self.bytes.set(i, byte);
    }

    fn write_u8(&mut self, byte: u8) -> (r: bool) {
        let pos = self.pos();
        if pos >= self.len() {
            return false;
        }
        self.set_byte(pos, byte);
        self.advance(1);
        true
    }

    fn write_u16(&mut self, v: u16) -> (r: bool) {
        let len = self.len();
        let pos = self.pos();
        if pos > len || len - pos < 2 {
            return false;
        }
        let ghost s = self.spec_bytes();
        self.set_byte(pos, (v / 256) as u8);
        self.set_byte(pos + 1, (v % 256) as u8);
        self.advance(2);
        assert(self.spec_bytes() =~= overwrite(s, pos as int, u16_be_bytes(v)));
        true
    }

    fn write_u32(&mut self, v: u32) -> (r: bool) {
        let len = self.len();
        let pos = self.pos();
        if pos > len || len - pos < 4 {
            return false;
        }
        let ghost s = self.spec_bytes();
        self.set_byte(pos, (v / 16777216) as u8);
        self.set_byte(pos + 1, ((v / 65536) % 256) as u8);
        self.set_byte(pos + 2, ((v / 256) % 256) as u8);
        self.set_byte(pos + 3, (v % 256) as u8);
        self.advance(4);
        assert(self.spec_bytes() =~= overwrite(s, pos as int, u32_be_bytes(v)));
        true
    }

    fn write_bytes(&mut self, bytes: &[u8]) -> (r: bool) {
        let len = self.len();
        let pos = self.pos();
        if pos > len || len - pos < bytes.len() {
            return false;
        }
        let ghost s = self.spec_bytes();
        let mut i: usize = 0;
        while i < bytes.len()
            invariant
                pos + bytes@.len() <= len,
                len == s.len(),
                i <= bytes@.len(),
                self.spec_pos() == pos + i,
                self.spec_bytes() == s.subrange(0, pos as int) + bytes@.subrange(0, i as int)
                    + s.subrange(pos + i, s.len() as int),
            decreases bytes@.len() - i,
        {
            let ok = self.write_u8(bytes[i]);
            assert(ok);
            i += 1;
            assert(self.spec_bytes() =~= s.subrange(0, pos as int) + bytes@.subrange(0, i as int)
                + s.subrange(pos + i, s.len() as int));
        }
        assert(bytes@.subrange(0, i as int) =~= bytes@);
        true
    }
}

} // verus!
