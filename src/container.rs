//! The binary container: a 10-byte magic, a little-endian 64-bit total
//! length, then the resource payloads in the order they were appended.
use vstd::prelude::*;

verus! {

/// Bytes before the first payload: the magic and the length field.
pub const HEADER_LEN: usize = 18;

/// `ANDES` followed by five spaces, in ASCII.
pub open spec fn magic() -> Seq<u8> {
    seq![65u8, 78u8, 68u8, 69u8, 83u8, 32u8, 32u8, 32u8, 32u8, 32u8]
}

/// The low `k` bytes of `n`, least significant first.
pub open spec fn le_bytes(n: nat, k: nat) -> Seq<u8>
    decreases k,
{
    if k == 0 {
        Seq::<u8>::empty()
    } else {
        seq![(n % 256) as u8] + le_bytes(n / 256, (k - 1) as nat)
    }
}

/// The encoding of `n` in `k` bytes has `k` bytes.
pub proof fn lemma_le_bytes_len(n: nat, k: nat)
    ensures
        le_bytes(n, k).len() == k,
    decreases k,
{
    if k > 0 {
        lemma_le_bytes_len(n / 256, (k - 1) as nat);
    }
}

/// The number that bytes `b` encode, least significant first.
pub open spec fn le_value(b: Seq<u8>) -> nat
    decreases b.len(),
{
    if b.len() == 0 {
        0
    } else {
        b[0] as nat + 256 * le_value(b.drop_first())
    }
}

/// A finished container holding `payload`.
pub open spec fn container_bytes(payload: Seq<u8>) -> Seq<u8> {
    magic() + le_bytes((HEADER_LEN + payload.len()) as nat, 8) + payload
}

/// The encoding of a 64-bit number reads back as that number.
pub proof fn lemma_le_round_trip(n: nat)
    requires
        n <= u64::MAX,
    ensures
        le_value(le_bytes(n, 8)) == n,
{
    reveal_with_fuel(le_bytes, 9);
    let b = le_bytes(n, 8);
    assert(b.len() == 8);
    reveal_with_fuel(le_value, 9);
    assert(b.drop_first().drop_first().drop_first().drop_first().drop_first().drop_first().drop_first().drop_first().len() == 0);
}

/// The framing every finished container has: the magic first, then the
/// little-endian length field, which equals the container's total length.
pub proof fn lemma_container_framing(payload: Seq<u8>)
    requires
        HEADER_LEN + payload.len() <= u64::MAX,
    ensures
        container_bytes(payload).len() == HEADER_LEN + payload.len(),
        container_bytes(payload).subrange(0, 10) == magic(),
        le_value(container_bytes(payload).subrange(10, 18)) == container_bytes(payload).len(),
        container_bytes(payload).skip(18) == payload,
{
    let n = (HEADER_LEN + payload.len()) as nat;
    reveal_with_fuel(le_bytes, 9);
    let c = container_bytes(payload);
    assert(c.subrange(0, 10) =~= magic());
    assert(c.subrange(10, 18) =~= le_bytes(n, 8));
    assert(c.skip(18) =~= payload);
    lemma_le_round_trip(n);
}


/// The low `k` bytes of `n`, least significant first.
fn le_bytes_of(n: u64, k: usize) -> (r: Vec<u8>)
    ensures
        r@ == le_bytes(n as nat, k as nat),
    decreases k,
{
    if k == 0 {
        Vec::new()
    } else {
        let mut r: Vec<u8> = Vec::new();
        r.push((n % 256) as u8);
        let mut rest = le_bytes_of(n / 256, k - 1);
        r.append(&mut rest);
        assert(r@ =~= le_bytes(n as nat, k as nat));
        r
    }
}

/// A container being written: the preamble with a zero placeholder for the
/// length, then the payloads appended so far.
pub struct Container {
    bytes: Vec<u8>,
}

impl View for Container {
    type V = Seq<u8>;

    /// The payloads appended so far.
    closed spec fn view(&self) -> Seq<u8> {
        self.bytes@.skip(HEADER_LEN as int)
    }
}

impl Container {
    /// Starts with the magic and an 8-byte placeholder.
    pub closed spec fn wf(&self) -> bool {
        &&& self.bytes.len() >= HEADER_LEN
        &&& self.bytes@.subrange(0, 10) == magic()
    }

    /// Writes the preamble: the magic and a zeroed length field.
    pub fn new() -> (c: Container)
        ensures
            c.wf(),
            c@ == Seq::<u8>::empty(),
    {
        let bytes: Vec<u8> = vec![65u8, 78u8, 68u8, 69u8, 83u8, 32u8, 32u8, 32u8, 32u8, 32u8,
            0u8, 0u8, 0u8, 0u8, 0u8, 0u8, 0u8, 0u8];
        let c = Container { bytes };
        assert(c.bytes@.subrange(0, 10) =~= magic());
        assert(c@ =~= Seq::<u8>::empty());
        c
    }

    /// Number of payload bytes appended so far.
    pub fn payload_len(&self) -> (n: usize)
        requires
            self.wf(),
        ensures
            n == self@.len(),
    {
        self.bytes.len() - HEADER_LEN
    }

    /// Appends one payload after those already written.
    pub fn append(&mut self, payload: &Vec<u8>)
        requires
            old(self).wf(),
            HEADER_LEN + old(self)@.len() + payload.len() <= usize::MAX,
        ensures
            final(self).wf(),
            final(self)@ == old(self)@ + payload@,
    {
        let ghost start = self.bytes@;
        let mut i: usize = 0;
        while i < payload.len()
            invariant
                i <= payload.len(),
                self.bytes@ == start + payload@.take(i as int),
                start.len() >= HEADER_LEN,
                start.len() + payload.len() <= usize::MAX,
            decreases payload.len() - i,
        {
            self.bytes.push(payload[i]);
            i = i + 1;
            assert(self.bytes@ =~= start + payload@.take(i as int));
        }
        assert(payload@.take(i as int) =~= payload@);
        assert(self.bytes@.subrange(0, 10) =~= start.subrange(0, 10));
        assert(self@ =~= old(self)@ + payload@);
    }

    /// Patches the length field with the total length and hands out the
    /// finished bytes.
    pub fn finish(self) -> (r: Vec<u8>)
        requires
            self.wf(),
        ensures
            r@ == container_bytes(self@),
    {
        let mut bytes = self.bytes;
        let total = bytes.len() as u64;
        let field = le_bytes_of(total, 8);
        let ghost start = bytes@;
        proof {
            lemma_le_bytes_len(total as nat, 8);
        }
        let mut k: usize = 0;
        while k < 8
            invariant
                k <= 8,
                field@ == le_bytes(total as nat, 8),
                field.len() == 8,
                bytes.len() == start.len(),
                start.len() >= HEADER_LEN,
                forall|j: int| 0 <= j < bytes.len() && !(10 <= j < 10 + k) ==> bytes@[j] == start[j],
                forall|j: int| 10 <= j < 10 + k ==> bytes@[j] == field@[j - 10],
            decreases 8 - k,
        {
            bytes.set(10 + k, field[k]);
            k = k + 1;
        }
        assert(start.subrange(0, 10) == magic());
        assert forall|j: int| 0 <= j < 10 implies bytes@[j] == magic()[j] by {
            assert(start.subrange(0, 10)[j] == start[j]);
        }
        assert forall|j: int| 18 <= j < bytes.len() implies bytes@[j] == self@[j - 18] by {
            assert(self@ == start.skip(18));
        }
        assert(bytes@ =~= container_bytes(self@));
        bytes
    }
}

} // verus!
