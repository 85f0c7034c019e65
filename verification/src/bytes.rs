//! Byte-level building blocks: big-endian integers, fixed-size arrays, and a
//! bounds-checked reader.

use vstd::prelude::*;

verus! {

/// The two low-order bytes of `n`, most significant first.
pub open spec fn be16(n: int) -> Seq<u8> {
    seq![((n / 256) % 256) as u8, (n % 256) as u8]
}

/// The three low-order bytes of `n`, most significant first.
pub open spec fn be24(n: int) -> Seq<u8> {
    seq![((n / 0x1_0000) % 256) as u8, ((n / 256) % 256) as u8, (n % 256) as u8]
}

/// The four low-order bytes of `n`, most significant first.
pub open spec fn be32(n: int) -> Seq<u8> {
    be16(n / 0x1_0000) + be16(n)
}

/// The eight low-order bytes of `n`, most significant first.
pub open spec fn be64(n: int) -> Seq<u8> {
    be32(n / 0x1_0000_0000) + be32(n)
}

/// The big-endian 16-bit integer at offset `i` of `s`.
pub open spec fn u16_at(s: Seq<u8>, i: int) -> int {
    s[i] as int * 256 + s[i + 1] as int
}

/// The big-endian 24-bit integer at offset `i` of `s`.
pub open spec fn u24_at(s: Seq<u8>, i: int) -> int {
    s[i] as int * 0x1_0000 + s[i + 1] as int * 256 + s[i + 2] as int
}

/// The big-endian 32-bit integer at offset `i` of `s`.
pub open spec fn u32_at(s: Seq<u8>, i: int) -> int {
    u16_at(s, i) * 0x1_0000 + u16_at(s, i + 2)
}

/// `n` bytes, all zero.
pub open spec fn zeros(n: int) -> Seq<u8> {
    Seq::new(n as nat, |i: int| 0u8)
}

/// The bytes of an ASCII text.
pub open spec fn ascii(text: Seq<char>) -> Seq<u8> {
    text.map_values(|c: char| c as u8)
}

/// Law: the encodings are big-endian: the bytes of a number, weighted by falling
/// powers of 256, add up to the number.
pub proof fn law_big_endian(n: int)
    ensures
        0 <= n < 0x1_0000 ==> be16(n).len() == 2 && be16(n)[0] * 0x100 + be16(n)[1] == n,
        0 <= n < 0x100_0000 ==> be24(n).len() == 3 && be24(n)[0] * 0x1_0000 + be24(n)[1] * 0x100
            + be24(n)[2] == n,
        0 <= n < 0x1_0000_0000 ==> be32(n).len() == 4 && be32(n)[0] * 0x100_0000 + be32(n)[1]
            * 0x1_0000 + be32(n)[2] * 0x100 + be32(n)[3] == n,
        0 <= n < 0x1_0000_0000_0000_0000 ==> be64(n).len() == 8 && be64(n)[0]
            * 0x100_0000_0000_0000 + be64(n)[1] * 0x1_0000_0000_0000 + be64(n)[2]
            * 0x100_0000_0000 + be64(n)[3] * 0x1_0000_0000 + be64(n)[4] * 0x100_0000 + be64(n)[5]
            * 0x1_0000 + be64(n)[6] * 0x100 + be64(n)[7] == n,
{
    if 0 <= n < 0x1_0000_0000 {
        lemma_be32_round_trip(n);
    }
    if 0 <= n < 0x1_0000_0000_0000_0000 {
        let h = n / 0x1_0000_0000;
        let l = n % 0x1_0000_0000;
        lemma_be32_round_trip(h);
        lemma_be32_round_trip(l);
        lemma_be32_low(n);
        let w = be32(h) + be32(l);
        assert(be64(n) =~= w);
        assert(w[0] == be32(h)[0] && w[1] == be32(h)[1] && w[2] == be32(h)[2] && w[3]
            == be32(h)[3]);
        assert(w[4] == be32(l)[0] && w[5] == be32(l)[1] && w[6] == be32(l)[2] && w[7]
            == be32(l)[3]);
    }
}

/// Law: the readings are big-endian too, at any offset: each gives the weighted
/// sum of the bytes that stand there.
pub proof fn law_big_endian_reading(s: Seq<u8>, i: int)
    ensures
        u16_at(s, i) == s[i] * 0x100 + s[i + 1],
        u24_at(s, i) == s[i] * 0x1_0000 + s[i + 1] * 0x100 + s[i + 2],
        u32_at(s, i) == s[i] * 0x100_0000 + s[i + 1] * 0x1_0000 + s[i + 2] * 0x100 + s[i + 3],
{
}

/// Reading back a 16-bit integer gives what was written.
pub proof fn lemma_be16_round_trip(n: int)
    requires
        0 <= n < 0x1_0000,
    ensures
        be16(n).len() == 2,
        u16_at(be16(n), 0) == n,
{
}

/// The two-byte encoding sees only the low 16 bits.
pub proof fn lemma_be16_low(n: int)
    requires
        0 <= n,
    ensures
        be16(n) == be16(n % 0x1_0000),
{
    assert(((n % 0x1_0000) / 256) % 256 == (n / 256) % 256);
    assert(be16(n) =~= be16(n % 0x1_0000));
}

/// Reducing a summand to its low 16 bits does not change the two-byte encoding
/// of a sum.
pub proof fn lemma_be16_sum(n: int, m: int)
    requires
        0 <= n,
        0 <= m,
    ensures
        be16(n % 0x1_0000 + m) == be16(n + m),
{
    vstd::arithmetic::div_mod::lemma_add_mod_noop(n % 0x1_0000, m, 0x1_0000);
    vstd::arithmetic::div_mod::lemma_add_mod_noop(n, m, 0x1_0000);
    vstd::arithmetic::div_mod::lemma_mod_twice(n, 0x1_0000);
    lemma_be16_low(n % 0x1_0000 + m);
    lemma_be16_low(n + m);
}

/// Reading back a 32-bit integer gives what was written.
pub proof fn lemma_be32_round_trip(n: int)
    requires
        0 <= n < 0x1_0000_0000,
    ensures
        be32(n).len() == 4,
        u32_at(be32(n), 0) == n,
{
    let h = n / 0x1_0000;
    let l = n % 0x1_0000;
    lemma_be16_round_trip(h);
    lemma_be16_round_trip(l);
    lemma_be16_low(n);
    let w = be16(h) + be16(l);
    assert(be32(n) =~= w);
    assert(w[0] == be16(h)[0] && w[1] == be16(h)[1] && w[2] == be16(l)[0] && w[3] == be16(l)[1]);
    assert(u32_at(w, 0) == h * 0x1_0000 + l);
}

/// The eight-byte encoding tells 64-bit integers apart.
pub proof fn lemma_be64_injective(a: int, b: int)
    requires
        0 <= a < 0x1_0000_0000_0000_0000,
        0 <= b < 0x1_0000_0000_0000_0000,
        be64(a) == be64(b),
    ensures
        a == b,
{
    let ah = a / 0x1_0000_0000;
    let bh = b / 0x1_0000_0000;
    let al = a % 0x1_0000_0000;
    let bl = b % 0x1_0000_0000;
    lemma_be32_low(a);
    lemma_be32_low(b);
    assert(be64(a).subrange(0, 4) =~= be32(ah));
    assert(be64(b).subrange(0, 4) =~= be32(bh));
    assert(be64(a).subrange(4, 8) =~= be32(al));
    assert(be64(b).subrange(4, 8) =~= be32(bl));
    lemma_be32_round_trip(ah);
    lemma_be32_round_trip(bh);
    lemma_be32_round_trip(al);
    lemma_be32_round_trip(bl);
}

proof fn lemma_be32_low(n: int)
    requires
        0 <= n,
    ensures
        be32(n) == be32(n % 0x1_0000_0000),
{
    let m = n % 0x1_0000_0000;
    assert(m % 256 == n % 256);
    assert((m / 256) % 256 == (n / 256) % 256);
    assert(((m / 0x1_0000) % 256) == ((n / 0x1_0000) % 256));
    assert(((m / 0x1_0000) / 256) % 256 == ((n / 0x1_0000) / 256) % 256);
    assert(be32(n) =~= be32(m));
}

/// Appends `n` as two big-endian bytes.
pub fn push_u16(out: &mut Vec<u8>, n: u16)
    ensures
        final(out)@ == old(out)@ + be16(n as int),
{
    out.push((n / 256) as u8);
    out.push((n % 256) as u8);
    assert(out@ =~= old(out)@ + be16(n as int));
}

/// Appends the low 24 bits of `n` as three big-endian bytes.
pub fn push_u24(out: &mut Vec<u8>, n: usize)
    ensures
        final(out)@ == old(out)@ + be24(n as int),
{
    out.push(((n / 0x1_0000) % 256) as u8);
    out.push(((n / 256) % 256) as u8);
    out.push((n % 256) as u8);
    assert(out@ =~= old(out)@ + be24(n as int));
}

/// Appends `n` as four big-endian bytes.
pub fn push_u32(out: &mut Vec<u8>, n: u32)
    ensures
        final(out)@ == old(out)@ + be32(n as int),
{
    push_u16(out, (n / 0x1_0000) as u16);
    push_u16(out, (n % 0x1_0000) as u16);
    assert(be16(n as int) =~= be16(n as int % 0x1_0000));
    assert(out@ =~= old(out)@ + be32(n as int));
}

/// Appends `n` as eight big-endian bytes.
pub fn push_u64(out: &mut Vec<u8>, n: u64)
    ensures
        final(out)@ == old(out)@ + be64(n as int),
{
    push_u32(out, (n / 0x1_0000_0000) as u32);
    push_u32(out, (n % 0x1_0000_0000) as u32);
    proof {
        lemma_be32_low(n as int);
    }
    assert(out@ =~= old(out)@ + be64(n as int));
}

/// The low 16 bits of `n`.
pub fn low16(n: usize) -> (r: u16)
    ensures
        r == n as int % 0x1_0000,
        be16(r as int) == be16(n as int),
{
    let r = (n % 0x1_0000) as u16;
    assert(be16(r as int) =~= be16(n as int));
    r
}

/// The low 8 bits of `n`.
pub fn low8(n: usize) -> (r: u8)
    ensures
        r == n as int % 256,
{
    (n % 256) as u8
}

/// A copy of `s[from..to]`.
pub fn copy_range(s: &[u8], from: usize, to: usize) -> (r: Vec<u8>)
    requires
        from <= to <= s@.len(),
    ensures
        r@ == s@.subrange(from as int, to as int),
{
    let mut r: Vec<u8> = Vec::new();
    r.extend_from_slice(&s[from..to]);
    assert(r@ =~= s@.subrange(from as int, to as int));
    r
}

/// A copy of the whole slice.
pub fn copy_slice(s: &[u8]) -> (r: Vec<u8>)
    ensures
        r@ == s@,
{
    let mut r: Vec<u8> = Vec::new();
    r.extend_from_slice(s);
    assert(r@ =~= s@);
    r
}

/// Whether two byte strings are equal.
pub fn bytes_eq(a: &[u8], b: &[u8]) -> (r: bool)
    ensures
        r == (a@ == b@),
{
    if a.len() != b.len() {
        return false;
    }
    let mut i: usize = 0;
    while i < a.len()
        invariant
            i <= a@.len(),
            a@.len() == b@.len(),
            forall|k: int| 0 <= k < i ==> a@[k] == b@[k],
        decreases a@.len() - i,
    {
        if a[i] != b[i] {
            return false;
        }
        i += 1;
    }
    assert(a@ =~= b@);
    true
}

/// Whether every byte is zero.
pub fn all_zero(a: &[u8]) -> (r: bool)
    ensures
        r == (a@ == zeros(a@.len() as int)),
{
    let mut i: usize = 0;
    while i < a.len()
        invariant
            i <= a@.len(),
            forall|k: int| 0 <= k < i ==> a@[k] == 0,
        decreases a@.len() - i,
    {
        if a[i] != 0 {
            assert(zeros(a@.len() as int)[i as int] == 0);
            return false;
        }
        i += 1;
    }
    assert(a@ =~= zeros(a@.len() as int));
    true
}

/// The 32 bytes of `s` as an array.
pub fn array32(s: &[u8]) -> (r: [u8; 32])
    requires
        s@.len() == 32,
    ensures
        r@ == s@,
{
    let mut a = [0u8; 32];
    let mut i: usize = 0;
    while i < 32
        invariant
            i <= 32,
            s@.len() == 32,
            forall|k: int| 0 <= k < i ==> a@[k] == s@[k],
        decreases 32 - i,
    {
        a[i] = s[i];
        i += 1;
    }
    assert(a@ =~= s@);
    a
}

/// The 16 bytes of `s` as an array.
pub fn array16(s: &[u8]) -> (r: [u8; 16])
    requires
        s@.len() == 16,
    ensures
        r@ == s@,
{
    let mut a = [0u8; 16];
    let mut i: usize = 0;
    while i < 16
        invariant
            i <= 16,
            s@.len() == 16,
            forall|k: int| 0 <= k < i ==> a@[k] == s@[k],
        decreases 16 - i,
    {
        a[i] = s[i];
        i += 1;
    }
    assert(a@ =~= s@);
    a
}

/// The 12 bytes of `s` as an array.
pub fn array12(s: &[u8]) -> (r: [u8; 12])
    requires
        s@.len() == 12,
    ensures
        r@ == s@,
{
    let mut a = [0u8; 12];
    let mut i: usize = 0;
    while i < 12
        invariant
            i <= 12,
            s@.len() == 12,
            forall|k: int| 0 <= k < i ==> a@[k] == s@[k],
        decreases 12 - i,
    {
        a[i] = s[i];
        i += 1;
    }
    assert(a@ =~= s@);
    a
}

/// Minimal bounds-checked reader over a byte slice.
pub struct Reader<'a> {
    pub buf: &'a [u8],
    pub pos: usize,
}

impl<'a> Reader<'a> {
    /// The position never passes the end of the buffer.
    pub open spec fn wf(&self) -> bool {
        self.pos <= self.buf@.len()
    }

    /// The bytes not read yet.
    pub open spec fn rest(&self) -> Seq<u8> {
        self.buf@.skip(self.pos as int)
    }

    /// A reader at the start of `buf`.
    pub fn new(buf: &'a [u8]) -> (r: Reader<'a>)
        ensures
            r.wf(),
            r.buf == buf,
            r.pos == 0,
            r.rest() == buf@,
    {
        let r = Reader { buf, pos: 0 };
        assert(r.rest() =~= buf@);
        r
    }

    /// The number of bytes not read yet.
    pub fn remaining(&self) -> (r: usize)
        requires
            self.wf(),
        ensures
            r == self.rest().len(),
    {
        self.buf.len() - self.pos
    }

    /// Takes the next `n` bytes, or nothing when fewer remain.
    pub fn take(&mut self, n: usize) -> (r: Option<&'a [u8]>)
        requires
            old(self).wf(),
        ensures
            final(self).wf(),
            final(self).buf == old(self).buf,
            r is Some <==> n <= old(self).rest().len(),
            r is None ==> final(self).pos == old(self).pos,
            r matches Some(s) ==> s@ == old(self).rest().take(n as int) && final(self).rest()
                == old(self).rest().skip(n as int) && final(self).pos == old(self).pos + n,
    {
        if self.buf.len() - self.pos < n {
            return None;
        }
        let start = self.pos;
        let out = &self.buf[start..start + n];
        self.pos = start + n;
        assert(out@ =~= old(self).rest().take(n as int));
        assert(self.rest() =~= old(self).rest().skip(n as int));
        Some(out)
    }

    /// Reads one byte.
    pub fn u8(&mut self) -> (r: Option<u8>)
        requires
            old(self).wf(),
        ensures
            final(self).wf(),
            final(self).buf == old(self).buf,
            r is Some <==> 1 <= old(self).rest().len(),
            r is None ==> final(self).pos == old(self).pos,
            r matches Some(v) ==> v == old(self).rest()[0] && final(self).rest()
                == old(self).rest().skip(1) && final(self).pos == old(self).pos + 1,
    {
        match self.take(1) {
            Some(b) => Some(b[0]),
            None => None,
        }
    }

    /// Reads a big-endian 16-bit integer.
    pub fn u16(&mut self) -> (r: Option<u16>)
        requires
            old(self).wf(),
        ensures
            final(self).wf(),
            final(self).buf == old(self).buf,
            r is Some <==> 2 <= old(self).rest().len(),
            r is None ==> final(self).pos == old(self).pos,
            r matches Some(v) ==> v == u16_at(old(self).rest(), 0) && final(self).rest()
                == old(self).rest().skip(2) && final(self).pos == old(self).pos + 2,
    {
        match self.take(2) {
            Some(b) => Some(b[0] as u16 * 256 + b[1] as u16),
            None => None,
        }
    }

    /// Reads a big-endian 24-bit integer.
    pub fn u24(&mut self) -> (r: Option<usize>)
        requires
            old(self).wf(),
        ensures
            final(self).wf(),
            final(self).buf == old(self).buf,
            r is Some <==> 3 <= old(self).rest().len(),
            r is None ==> final(self).pos == old(self).pos,
            r matches Some(v) ==> v == u24_at(old(self).rest(), 0) && final(self).rest()
                == old(self).rest().skip(3) && final(self).pos == old(self).pos + 3,
    {
        match self.take(3) {
            Some(b) => Some(b[0] as usize * 0x1_0000 + b[1] as usize * 256 + b[2] as usize),
            None => None,
        }
    }

    /// Whether everything has been read.
    pub fn exhausted(&self) -> (r: bool)
        requires
            self.wf(),
        ensures
            r == (self.rest().len() == 0),
    {
        self.pos == self.buf.len()
    }
}

} // verus!
