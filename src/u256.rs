use vstd::prelude::*;

verus! {

/// The low nibble of a byte.
pub open spec fn low_nibble(b: u8) -> u8 {
    (b as int % 16) as u8
}

/// The high nibble of a byte.
pub open spec fn high_nibble(b: u8) -> u8 {
    (b as int / 16) as u8
}

/// A 256-bit unsigned integer, held as 32 big-endian bytes.
#[derive(Clone, Copy, Debug, Hash)]
pub struct U256 {
    pub be: [u8; 32],
}

impl U256 {
    /// The nibble at position `p`, counted from the least significant end
    /// (`0 <= p < 64`).
    pub open spec fn nib(self, p: int) -> u8 {
        let b = self.be[31 - p / 2];
        if p % 2 == 0 {
            low_nibble(b)
        } else {
            high_nibble(b)
        }
    }

    /// Every nibble at position `c` or above is zero.
    pub open spec fn zero_from(self, c: int) -> bool {
        forall|p: int| c <= p < 64 ==> #[trigger] self.nib(p) == 0
    }

    /// Two integers with the same nibbles are the same integer.
    pub proof fn lemma_nibs_determine(a: U256, b: U256)
        requires
            forall|p: int| 0 <= p < 64 ==> #[trigger] a.nib(p) == b.nib(p),
        ensures
            a == b,
    {
        assert forall|i: int| 0 <= i < 32 implies a.be[i] == b.be[i] by {
            let p = 2 * (31 - i);
            assert(a.nib(p) == b.nib(p));
            assert(a.nib(p + 1) == b.nib(p + 1));
            let x = a.be[i] as int;
            let y = b.be[i] as int;
            assert(x == (x / 16) * 16 + x % 16) by (nonlinear_arith);
            assert(y == (y / 16) * 16 + y % 16) by (nonlinear_arith);
        }
        assert(a.be =~= b.be);
    }

    /// The integer zero.
    pub fn zero() -> (r: U256)
        ensures
            r.zero_from(0),
            forall|i: int| 0 <= i < 32 ==> r.be[i] == 0,
    {
        U256 { be: [0u8; 32] }
    }

    /// Whether every byte is zero.
    pub fn is_zero(&self) -> (r: bool)
        ensures
            r == (forall|i: int| 0 <= i < 32 ==> self.be[i] == 0),
            r == self.zero_from(0),
    {
        let mut i: usize = 0;
        while i < 32
            invariant
                i <= 32,
                forall|j: int| 0 <= j < i ==> self.be[j] == 0,
            decreases 32 - i,
        {
            if self.be[i] != 0 {
                assert(self.nib(2 * (31 - i as int)) != 0 || self.nib(2 * (31 - i as int) + 1) != 0);
                return false;
            }
            i = i + 1;
        }
        true
    }

    /// The byte at index `i`, counted from the least significant end.
    pub fn byte(&self, i: usize) -> (r: u8)
        requires
            i < 32,
        ensures
            r == self.be[31 - i as int],
    {
        self.be[31 - i]
    }

    /// The nibble at position `p`, counted from the least significant end.
    pub fn nibble(&self, p: usize) -> (r: u8)
        requires
            p < 64,
        ensures
            r == self.nib(p as int),
            r < 16,
    {
        let b = self.be[31 - p / 2];
        if p % 2 == 0 {
            b % 16
        } else {
            b / 16
        }
    }

    /// Sets the nibble at position `p`, leaving every other nibble as it was.
    pub fn set_nibble(&mut self, p: usize, v: u8)
        requires
            p < 64,
            v < 16,
        ensures
            final(self).nib(p as int) == v,
            forall|q: int| 0 <= q < 64 && q != p ==> #[trigger] final(self).nib(q) == old(self).nib(q),
    {
        let i = 31 - p / 2;
        let b = self.be[i];
        let hi = b / 16;
        let lo = b % 16;
        if p % 2 == 0 {
            self.be[i] = hi * 16 + v;
            assert((hi * 16 + v) as int / 16 == hi as int && (hi * 16 + v) as int % 16 == v as int) by (nonlinear_arith)
                requires hi < 16, v < 16;
        } else {
            self.be[i] = v * 16 + lo;
            assert((v * 16 + lo) as int / 16 == v as int && (v * 16 + lo) as int % 16 == lo as int) by (nonlinear_arith)
                requires lo < 16, v < 16;
        }
    }
}

impl PartialEq for U256 {
    fn eq(&self, other: &U256) -> (r: bool) {
        let mut i: usize = 0;
        while i < 32
            invariant
                i <= 32,
                forall|j: int| 0 <= j < i ==> self.be[j] == other.be[j],
            decreases 32 - i,
        {
            if self.be[i] != other.be[i] {
                return false;
            }
            i = i + 1;
        }
        assert(self.be =~= other.be);
        true
    }
}

impl vstd::std_specs::cmp::PartialEqSpecImpl for U256 {
    open spec fn obeys_eq_spec() -> bool {
        true
    }

    open spec fn eq_spec(&self, other: &U256) -> bool {
        *self == *other
    }
}

impl Eq for U256 {}

impl From<u64> for U256 {
    fn from(v: u64) -> (r: U256)
        ensures
            is_u64_bytes(r.be, v),
    {
        let mut be = [0u8; 32];
        let mut j: u64 = 0;
        while j < 8
            invariant
                j <= 8,
                forall|i: int| 0 <= i < 32 - j ==> be[i] == 0,
                forall|i: int| 32 - j <= i < 32 ==> #[trigger] be[i] == u64_byte(v, 31 - i),
            decreases 8 - j,
        {
            be[31 - j as usize] = (v >> (8 * j)) as u8;
            j = j + 1;
        }
        assert(is_u64_bytes(be, v));
        let r = U256 { be };
        proof {
            let c = from_u64_bytes(v);
            assert(is_u64_bytes(c, v));
            assert(c =~= be);
        }
        r
    }
}

impl vstd::std_specs::convert::FromSpecImpl<u64> for U256 {
    open spec fn obeys_from_spec() -> bool {
        true
    }

    open spec fn from_spec(v: u64) -> U256 {
        U256 { be: from_u64_bytes(v) }
    }
}

/// The 32 big-endian bytes of a 64-bit integer.
pub open spec fn from_u64_bytes(v: u64) -> [u8; 32] {
    choose|be: [u8; 32]| is_u64_bytes(be, v)
}

/// `be` holds `v` as 32 big-endian bytes.
pub open spec fn is_u64_bytes(be: [u8; 32], v: u64) -> bool {
    forall|i: int| 0 <= i < 32 ==> #[trigger] be[i] == u64_byte(v, 31 - i)
}

/// Byte `k` of `v`, counted from the least significant end; zero from 8 on.
pub open spec fn u64_byte(v: u64, k: int) -> u8 {
    if 0 <= k < 8 {
        (v >> (8 * k) as u64) as u8
    } else {
        0
    }
}

} // verus!
