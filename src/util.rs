use vstd::prelude::*;

verus! {

/// The little-endian byte layout of a sequence of 16-bit code units: unit `k`
/// occupies bytes `2k` (low half) and `2k + 1` (high half).
pub open spec fn le_bytes_of_units(u: Seq<u16>) -> Seq<u8> {
    Seq::new(
        (2 * u.len()) as nat,
        |i: int|
            if i % 2 == 0 {
                (u[i / 2] % 256) as u8
            } else {
                (u[i / 2] / 256) as u8
            },
    )
}

/// The code units read from byte pairs, low byte first. A trailing odd byte
/// is not part of any unit.
pub open spec fn units_of_le_bytes(b: Seq<u8>) -> Seq<u16> {
    Seq::new(b.len() / 2, |i: int| (b[2 * i] + 256 * b[2 * i + 1]) as u16)
}

/// A byte sequence extended by one zero byte when its length is odd.
pub open spec fn padded_to_even(b: Seq<u8>) -> Seq<u8> {
    if b.len() % 2 == 1 {
        b.push(0)
    } else {
        b
    }
}

/// Reading back the bytes of a code-unit sequence gives the same units.
pub proof fn lemma_units_of_le_bytes_inverse(u: Seq<u16>)
    ensures
        units_of_le_bytes(le_bytes_of_units(u)) == u,
{
    let b = le_bytes_of_units(u);
    assert forall|k: int| 0 <= k < u.len() implies #[trigger] units_of_le_bytes(b)[k] == u[k] by {
        assert((2 * k) % 2 == 0 && (2 * k) / 2 == k);
        assert((2 * k + 1) % 2 == 1 && (2 * k + 1) / 2 == k);
    }
    assert(units_of_le_bytes(b) =~= u);
}

/// A byte buffer meant to be read as 16-bit code units.
///
/// The bytes are kept in an ordinary vector; turning them into code units
/// copies them pair by pair (low byte first), so no alignment of the storage
/// is relied upon.
#[derive(Debug, Clone)]
pub struct U16AlignedU8Vec(pub Vec<u8>);

impl U16AlignedU8Vec {
    /// A buffer of `size` zero bytes.
    pub fn new(size: usize) -> (r: U16AlignedU8Vec)
        ensures
            r.0@ == Seq::new(size as nat, |i: int| 0u8),
    {
        let mut buf: Vec<u8> = Vec::with_capacity(size);
        let mut i: usize = 0;
        while i < size
            invariant
                i <= size,
                buf@ == Seq::new(i as nat, |j: int| 0u8),
            decreases size - i,
        {
            buf.push(0);
            i = i + 1;
            assert(buf@ =~= Seq::new(i as nat, |j: int| 0u8));
        }
        U16AlignedU8Vec(buf)
    }

    /// The buffer as code units: an odd length is first padded with one zero
    /// byte, then each byte pair becomes one unit, low byte first.
    pub fn into_u16_vec(self) -> (r: Vec<u16>)
        ensures
            r@ == units_of_le_bytes(padded_to_even(self.0@)),
    {
        let mut bytes = self.0;
        if bytes.len() % 2 == 1 {
            bytes.push(0);
        }
        let ghost b = bytes@;
        assert(b == padded_to_even(self.0@));
        let len: usize = bytes.len();
        let n: usize = len / 2;
        let mut out: Vec<u16> = Vec::with_capacity(n);
        let mut k: usize = 0;
        while k < n
            invariant
                n == b.len() / 2,
                len == b.len(),
                b.len() % 2 == 0,
                bytes@ == b,
                k <= n,
                out@ == units_of_le_bytes(b).take(k as int),
            decreases n - k,
        {
            assert(2 * k + 1 < b.len());
            let lo = bytes[2 * k];
            let hi = bytes[2 * k + 1];
            out.push(lo as u16 + (hi as u16) * 256);
            k = k + 1;
            assert(out@ =~= units_of_le_bytes(b).take(k as int));
        }
        assert(out@ =~= units_of_le_bytes(b));
        out
    }
}

} // verus!
