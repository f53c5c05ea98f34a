use vstd::prelude::*;

verus! {

/// 2^128, the weight of the high half of a 256-bit word.
pub open spec fn half() -> nat {
    0x1_0000_0000_0000_0000_0000_0000_0000_0000nat
}

/// 2^256, one past the largest 256-bit word.
pub open spec fn word_modulus() -> nat {
    half() * half()
}

/// An unsigned 256-bit integer, held as two 128-bit halves.
#[derive(Clone, Copy, PartialEq, Eq, Structural, Debug)]
pub struct U256 {
    pub hi: u128,
    pub lo: u128,
}

/// A 32-byte hash, held as two 128-bit halves (big-endian).
#[derive(Clone, Copy, PartialEq, Eq, Structural, Debug, Hash)]
pub struct H256 {
    pub hi: u128,
    pub lo: u128,
}

/// A 20-byte account address, held as a 32-bit and a 128-bit part (big-endian).
#[derive(Clone, Copy, PartialEq, Eq, Structural, Debug)]
pub struct Address {
    pub hi: u32,
    pub lo: u128,
}

impl U256 {
    /// The number this word stands for.
    pub open spec fn value(self) -> nat {
        self.hi as nat * half() + self.lo as nat
    }

    pub fn zero() -> (r: U256)
        ensures
            r.value() == 0,
    {
        U256 { hi: 0, lo: 0 }
    }

    pub fn from_u128(v: u128) -> (r: U256)
        ensures
            r.value() == v as nat,
    {
        U256 { hi: 0, lo: v }
    }

    /// The sum, or `None` where it does not fit in 256 bits.
    pub fn checked_add(self, other: U256) -> (r: Option<U256>)
        ensures
            r.is_some() <==> self.value() + other.value() < word_modulus(),
            r.is_some() ==> r.unwrap().value() == self.value() + other.value(),
    {
        let ghost h = half();
        assert(word_modulus() == (u128::MAX as nat + 1) * h) by (nonlinear_arith)
            requires h == u128::MAX as nat + 1;
        let lo: u128;
        let carry: u128;
        if self.lo <= u128::MAX - other.lo {
            lo = self.lo + other.lo;
            carry = 0;
        } else {
            lo = self.lo - (u128::MAX - other.lo) - 1;
            carry = 1;
        }
        assert(self.lo as nat + other.lo as nat == lo as nat + carry as nat * h);
        if self.hi > u128::MAX - other.hi {
            assert(self.value() + other.value() >= word_modulus()) by (nonlinear_arith)
                requires
                    h == u128::MAX as nat + 1,
                    self.hi as nat + other.hi as nat >= h,
                    word_modulus() == (u128::MAX as nat + 1) * h,
                    self.value() == self.hi as nat * h + self.lo as nat,
                    other.value() == other.hi as nat * h + other.lo as nat,
            ;
            return None;
        }
        let hi_sum: u128 = self.hi + other.hi;
        if hi_sum > u128::MAX - carry {
            assert(self.value() + other.value() >= word_modulus()) by (nonlinear_arith)
                requires
                    h == u128::MAX as nat + 1,
                    hi_sum as nat == self.hi as nat + other.hi as nat,
                    hi_sum as nat + carry as nat >= h,
                    self.lo as nat + other.lo as nat == lo as nat + carry as nat * h,
                    word_modulus() == (u128::MAX as nat + 1) * h,
                    self.value() == self.hi as nat * h + self.lo as nat,
                    other.value() == other.hi as nat * h + other.lo as nat,
            ;
            return None;
        }
        let r = U256 { hi: hi_sum + carry, lo };
        assert(r.value() == self.value() + other.value() && r.value() < word_modulus())
            by (nonlinear_arith)
            requires
                h == u128::MAX as nat + 1,
                r.hi as nat == self.hi as nat + other.hi as nat + carry as nat,
                r.hi as nat <= u128::MAX as nat,
                r.lo == lo,
                lo as nat <= u128::MAX as nat,
                self.lo as nat + other.lo as nat == lo as nat + carry as nat * h,
                word_modulus() == (u128::MAX as nat + 1) * h,
                r.value() == r.hi as nat * h + r.lo as nat,
                self.value() == self.hi as nat * h + self.lo as nat,
                other.value() == other.hi as nat * h + other.lo as nat,
        ;
        Some(r)
    }

    /// The difference, or `None` where `other` is larger than `self`.
    pub fn checked_sub(self, other: U256) -> (r: Option<U256>)
        ensures
            r.is_some() <==> other.value() <= self.value(),
            r.is_some() ==> r.unwrap().value() == self.value() - other.value(),
    {
        let ghost h = half();
        let lo: u128;
        let borrow: u128;
        if self.lo >= other.lo {
            lo = self.lo - other.lo;
            borrow = 0;
        } else {
            lo = u128::MAX - (other.lo - self.lo) + 1;
            borrow = 1;
        }
        assert(self.lo as nat + borrow as nat * h == lo as nat + other.lo as nat);
        if self.hi < other.hi || self.hi - other.hi < borrow {
            assert(self.value() < other.value()) by (nonlinear_arith)
                requires
                    h == u128::MAX as nat + 1,
                    (self.hi as nat) < other.hi as nat + borrow as nat,
                    self.lo as nat + borrow as nat * h == lo as nat + other.lo as nat,
                    lo as nat <= u128::MAX as nat,
                    borrow == 0 ==> self.lo >= other.lo,
                    self.value() == self.hi as nat * h + self.lo as nat,
                    other.value() == other.hi as nat * h + other.lo as nat,
            ;
            return None;
        }
        let r = U256 { hi: self.hi - other.hi - borrow, lo };
        assert(r.value() + other.value() == self.value()) by (nonlinear_arith)
            requires
                h == u128::MAX as nat + 1,
                r.hi as nat + other.hi as nat + borrow as nat == self.hi as nat,
                r.lo == lo,
                self.lo as nat + borrow as nat * h == lo as nat + other.lo as nat,
                r.value() == r.hi as nat * h + r.lo as nat,
                self.value() == self.hi as nat * h + self.lo as nat,
                other.value() == other.hi as nat * h + other.lo as nat,
        ;
        Some(r)
    }
}

impl H256 {
    pub fn zero() -> (r: H256)
        ensures
            r.hi == 0 && r.lo == 0,
    {
        H256 { hi: 0, lo: 0 }
    }
}

/// Byte `k` of `x`, counting from the least significant.
pub open spec fn byte_of128(x: u128, k: int) -> u8 {
    ((x >> ((8 * k) as u128)) & 0xff) as u8
}

/// Byte `k` of `x`, counting from the least significant.
pub open spec fn byte_of32(x: u32, k: int) -> u8 {
    ((x >> ((8 * k) as u32)) & 0xff) as u8
}

/// The 20 bytes of an address, most significant first.
pub open spec fn address_bytes(a: Address) -> Seq<u8> {
    Seq::new(20, |i: int| if i < 4 { byte_of32(a.hi, 3 - i) } else { byte_of128(a.lo, 19 - i) })
}

/// The 32 bytes of a hash, most significant first.
pub open spec fn hash_bytes(h: H256) -> Seq<u8> {
    Seq::new(32, |i: int| if i < 16 { byte_of128(h.hi, 15 - i) } else { byte_of128(h.lo, 31 - i) })
}

impl Address {
    /// The address as 20 bytes, most significant first.
    pub fn to_bytes(self) -> (r: Vec<u8>)
        ensures
            r@ == address_bytes(self),
    {
        let mut v: Vec<u8> = Vec::new();
        let mut i: usize = 0;
        while i < 20
            invariant
                i <= 20,
                v@.len() == i,
                forall|j: int| 0 <= j < i ==> v@[j] == address_bytes(self)[j],
            decreases 20 - i,
        {
            if i < 4 {
                let k: u32 = (3 - i) as u32;
                v.push(((self.hi >> (8 * k)) & 0xff) as u8);
            } else {
                let k: u128 = (19 - i) as u128;
                v.push(((self.lo >> (8 * k)) & 0xff) as u8);
            }
            i = i + 1;
        }
        assert(v@ =~= address_bytes(self));
        v
    }
}

/// The 32 bytes of a word, most significant first.
pub open spec fn word_bytes(w: U256) -> Seq<u8> {
    Seq::new(32, |i: int| if i < 16 { byte_of128(w.hi, 15 - i) } else { byte_of128(w.lo, 31 - i) })
}

impl U256 {
    /// The word as 32 bytes, most significant first.
    pub fn to_bytes(self) -> (r: Vec<u8>)
        ensures
            r@ == word_bytes(self),
    {
        let mut v: Vec<u8> = Vec::new();
        let mut i: usize = 0;
        while i < 32
            invariant
                i <= 32,
                v@.len() == i,
                forall|j: int| 0 <= j < i ==> v@[j] == word_bytes(self)[j],
            decreases 32 - i,
        {
            if i < 16 {
                let k: u128 = (15 - i) as u128;
                v.push(((self.hi >> (8 * k)) & 0xff) as u8);
            } else {
                let k: u128 = (31 - i) as u128;
                v.push(((self.lo >> (8 * k)) & 0xff) as u8);
            }
            i = i + 1;
        }
        assert(v@ =~= word_bytes(self));
        v
    }
}

impl H256 {
    /// The hash as 32 bytes, most significant first.
    pub fn to_bytes(self) -> (r: Vec<u8>)
        ensures
            r@ == hash_bytes(self),
    {
        let mut v: Vec<u8> = Vec::new();
        let mut i: usize = 0;
        while i < 32
            invariant
                i <= 32,
                v@.len() == i,
                forall|j: int| 0 <= j < i ==> v@[j] == hash_bytes(self)[j],
            decreases 32 - i,
        {
            if i < 16 {
                let k: u128 = (15 - i) as u128;
                v.push(((self.hi >> (8 * k)) & 0xff) as u8);
            } else {
                let k: u128 = (31 - i) as u128;
                v.push(((self.lo >> (8 * k)) & 0xff) as u8);
            }
            i = i + 1;
        }
        assert(v@ =~= hash_bytes(self));
        v
    }
}

} // verus!
