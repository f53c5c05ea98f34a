use vstd::prelude::*;
use crate::outside::{bloom_mark, bloom_mark_of};

verus! {

/// Number of bytes in a log filter (2048 bits).
pub const BLOOM_BYTES: usize = 256;

/// The empty filter: 256 zero bytes.
pub open spec fn empty_bloom() -> Seq<u8> {
    Seq::new(256, |i: int| 0u8)
}

/// Bytewise OR of two filters of equal length.
pub open spec fn or_bytes(a: Seq<u8>, b: Seq<u8>) -> Seq<u8> {
    Seq::new(a.len(), |i: int| a[i] | b[i])
}

/// A 2048-bit log filter.
#[derive(Clone, Debug, PartialEq, Eq)]
pub struct Bloom {
    pub bytes: Vec<u8>,
}

impl Bloom {
    pub open spec fn wf(&self) -> bool {
        self.bytes@.len() == 256
    }

    /// A filter with no bit set.
    pub fn new() -> (r: Bloom)
        ensures
            r.bytes@ == empty_bloom(),
            r.wf(),
    {
        let mut v: Vec<u8> = Vec::new();
        let mut i: usize = 0;
        while i < BLOOM_BYTES
            invariant
                i <= 256,
                v@.len() == i,
                forall|j: int| 0 <= j < i ==> v@[j] == 0u8,
            decreases 256 - i,
        {
            v.push(0u8);
            i = i + 1;
        }
        assert(v@ =~= empty_bloom());
        Bloom { bytes: v }
    }

    /// The bitwise OR of two filters.
    pub fn or(&self, other: &Bloom) -> (r: Bloom)
        requires
            self.wf(),
            other.wf(),
        ensures
            r.bytes@ == or_bytes(self.bytes@, other.bytes@),
            r.wf(),
    {
        let mut v: Vec<u8> = Vec::new();
        let mut i: usize = 0;
        while i < BLOOM_BYTES
            invariant
                self.wf(),
                other.wf(),
                i <= 256,
                v@.len() == i,
                forall|j: int| 0 <= j < i ==> v@[j] == self.bytes@[j] | other.bytes@[j],
            decreases 256 - i,
        {
            v.push(self.bytes[i] | other.bytes[i]);
            i = i + 1;
        }
        assert(v@ =~= or_bytes(self.bytes@, other.bytes@));
        Bloom { bytes: v }
    }

    /// Sets the bits that `item` marks.
    pub fn accrue(&mut self, item: &[u8])
        requires
            old(self).wf(),
        ensures
            final(self).bytes@ == or_bytes(old(self).bytes@, bloom_mark_of(item@)),
            final(self).wf(),
    {
        let mark = Bloom { bytes: bloom_mark(item) };
        let r = self.or(&mark);
        *self = r;
    }
}

} // verus!
