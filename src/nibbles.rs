use std::ops::Range;
use vstd::prelude::*;
use vstd::string::StrSliceExecFns;
use vstd::string::StringExecFns;

use crate::codec::{
    bytes_contents, bytes_from_vec, encode_hex, hex_digit, hex_of, holds_hex_key, is_hex_key,
    parse_hex_key,
};
use crate::u256::{high_nibble, low_nibble, U256};

verus! {

/// A string that is not a hex literal of at most 256 bits.
#[derive(Debug)]
pub struct StrToNibblesError(pub uint::FromHexError);

/// A single nibble, `0..16`.
pub type Nibble = u8;

/// A sequence of nibbles.
///
/// Every operation asks, in its precondition, for a well-formed value
/// (`wf`: at most 64 nibbles, no set bit above them) and for indices,
/// counts and merged lengths within range; none of them checks at run time
/// or wraps. Every operation that builds a value keeps it well-formed.
#[derive(Clone, Copy, Debug, Hash)]
pub struct Nibbles {
    /// The number of nibbles in this sequence.
    pub count: usize,
    /// A packed encoding of these nibbles. Only the first (least significant)
    /// `4 * count` bits are used. The rest are zero.
    pub packed: U256,
}

impl View for Nibbles {
    type V = Seq<Nibble>;

    /// The nibbles in order, the most significant first.
    open spec fn view(&self) -> Seq<Nibble> {
        Seq::new(self.count as nat, |i: int| self.packed.nib(self.count - 1 - i))
    }
}

impl PartialEq for Nibbles {
    fn eq(&self, other: &Nibbles) -> (r: bool) {
        self.count == other.count && self.packed == other.packed
    }
}

impl vstd::std_specs::cmp::PartialEqSpecImpl for Nibbles {
    open spec fn obeys_eq_spec() -> bool {
        true
    }

    open spec fn eq_spec(&self, other: &Nibbles) -> bool {
        *self == *other
    }
}

impl Eq for Nibbles {}

impl From<Nibbles> for U256 {
    fn from(n: Nibbles) -> (r: U256) {
        n.packed
    }
}

impl vstd::std_specs::convert::FromSpecImpl<Nibbles> for U256 {
    open spec fn obeys_from_spec() -> bool {
        true
    }

    open spec fn from_spec(n: Nibbles) -> U256 {
        n.packed
    }
}

/// A full 256-bit trie key: always 64 nibbles, leading zeros included.
impl From<U256> for Nibbles {
    fn from(k: U256) -> (r: Nibbles) {
        Nibbles { count: 64, packed: k }
    }
}

impl vstd::std_specs::convert::FromSpecImpl<U256> for Nibbles {
    open spec fn obeys_from_spec() -> bool {
        true
    }

    open spec fn from_spec(k: U256) -> Nibbles {
        Nibbles { count: 64, packed: k }
    }
}

/// A hex literal, its length the number of nibbles needed to write its value.
impl std::str::FromStr for Nibbles {
    type Err = StrToNibblesError;

    fn from_str(s: &str) -> (r: Result<Nibbles, StrToNibblesError>)
        ensures
            r is Ok <==> is_hex_key(s@),
            r is Ok ==> holds_hex_key(r->Ok_0.packed, s@),
            r is Ok ==> r->Ok_0.wf() && r->Ok_0.count == num_nibbles_in_key(r->Ok_0.packed),
    {
        match parse_hex_key(s) {
            Ok(packed) => {
                let count = Self::get_num_nibbles_in_key(&packed);
                Ok(Nibbles { count, packed })
            },
            Err(e) => Err(StrToNibblesError(e)),
        }
    }
}

/// The nibbles of `k` taken as a sequence of `count` nibbles.
pub open spec fn key_nibbles(k: U256, count: int) -> Seq<Nibble> {
    Seq::new(count as nat, |i: int| k.nib(count - 1 - i))
}

impl Nibbles {
    /// At most 64 nibbles, and no set bit above them.
    pub open spec fn wf(self) -> bool {
        self.count <= 64 && self.packed.zero_from(self.count as int)
    }

    /// Two well-formed sequences with the same nibbles are the same value.
    pub proof fn lemma_view_determines(a: Nibbles, b: Nibbles)
        requires
            a.wf(),
            b.wf(),
            a@ == b@,
        ensures
            a == b,
    {
        assert(a@.len() == a.count && b@.len() == b.count);
        assert forall|p: int| 0 <= p < 64 implies #[trigger] a.packed.nib(p) == b.packed.nib(p) by {
            if p < a.count {
                let i = a.count - 1 - p;
                assert(a@[i] == a.packed.nib(p));
                assert(b@[i] == b.packed.nib(p));
            } else {
                assert(a.packed.zero_from(a.count as int));
                assert(b.packed.zero_from(b.count as int));
            }
        }
        U256::lemma_nibs_determine(a.packed, b.packed);
    }

    pub fn get_nibble(&self, idx: usize) -> (r: Nibble)
        requires
            self.wf(),
            idx < self.count,
        ensures
            r == self@[idx as int],
            r < 16,
    {
        Self::get_nibble_common(&self.packed, idx, self.count)
    }

    fn get_nibble_common(k: &U256, idx: usize, count: usize) -> (r: Nibble)
        requires
            idx < count <= 64,
        ensures
            r == key_nibbles(*k, count as int)[idx as int],
            r < 16,
    {
        let nib_idx = count - idx - 1;
        let byte = k.byte(nib_idx / 2);
        if is_even(nib_idx) {
            byte % 16
        } else {
            byte / 16
        }
    }

    pub fn get_nibble_range(&self, range: Range<usize>) -> (r: Nibbles)
        requires
            self.wf(),
            range.start <= range.end <= self.count,
        ensures
            r.wf(),
            r@ == self@.subrange(range.start as int, range.end as int),
    {
        Self::get_nibble_range_common(&self.packed, range.start, range.end, self.count)
    }

    fn get_nibble_range_common(k: &U256, start: usize, end: usize, count: usize) -> (r: Nibbles)
        requires
            start <= end <= count <= 64,
        ensures
            r.wf(),
            r@ == key_nibbles(*k, count as int).subrange(start as int, end as int),
    {
        let range_count = end - start;
        let shift = count - end;
        let mut packed = U256::zero();
        let mut p: usize = 0;
        while p < range_count
            invariant
                p <= range_count == end - start,
                shift == count - end,
                end <= count <= 64,
                forall|q: int| 0 <= q < p ==> #[trigger] packed.nib(q) == k.nib(shift + q),
                packed.zero_from(p as int),
            decreases range_count - p,
        {
            let v = k.nibble(shift + p);
            packed.set_nibble(p, v);
            p = p + 1;
        }
        let r = Nibbles { count: range_count, packed };
        assert(r@ =~= key_nibbles(*k, count as int).subrange(start as int, end as int));
        r
    }

    /// Removes the first nibble and returns it.
    pub fn pop_next_nibble(&mut self) -> (r: Nibble)
        requires
            old(self).wf(),
            old(self).count >= 1,
        ensures
            final(self).wf(),
            r == old(self)@[0],
            final(self)@ == old(self)@.subrange(1, old(self)@.len() as int),
    {
        let n = self.get_nibble(0);
        self.truncate_n_nibbles_mut(1);
        n
    }

    /// The first `n` nibbles.
    pub fn get_next_nibbles(&self, n: usize) -> (r: Nibbles)
        requires
            self.wf(),
            n <= self.count,
        ensures
            r.wf(),
            r@ == self@.subrange(0, n as int),
    {
        self.get_nibble_range(0..n)
    }

    /// Pops the next `n` proceeding nibbles.
    pub fn pop_next_nibbles(&mut self, n: usize) -> (r: Nibbles)
        requires
            old(self).wf(),
            n <= old(self).count,
        ensures
            r.wf(),
            final(self).wf(),
            r@ == old(self)@.subrange(0, n as int),
            final(self)@ == old(self)@.subrange(n as int, old(self)@.len() as int),
    {
        let r = self.get_nibble_range(0..n);
        self.truncate_n_nibbles_mut(n);
        r
    }

    /// The nibble at `idx` of a key whose length is its number of significant
    /// nibbles.
    pub fn get_nibble_of_key(k: &U256, idx: usize) -> (r: Nibble)
        requires
            idx < num_nibbles_in_key(*k),
        ensures
            r == key_nibbles(*k, num_nibbles_in_key(*k) as int)[idx as int],
    {
        let count = Self::get_num_nibbles_in_key(k);
        Self::get_nibble_common(k, idx, count)
    }

    pub fn is_empty(&self) -> (r: bool)
        ensures
            r == (self.count == 0),
            r == (self@.len() == 0),
    {
        self.count == 0
    }

    /// Whether the two sequences agree on every position that both have.
    pub fn nibbles_are_identical_up_to_smallest_count(&self, other: &Nibbles) -> (r: bool)
        requires
            self.wf(),
            other.wf(),
        ensures
            r == (forall|i: int|
                0 <= i < self@.len() && i < other@.len() ==> #[trigger] self@[i] == other@[i]),
    {
        let smaller_count = if self.count < other.count {
            self.count
        } else {
            other.count
        };
        let mut i: usize = 0;
        while i < smaller_count
            invariant
                i <= smaller_count,
                smaller_count <= self.count,
                smaller_count <= other.count,
                smaller_count == self.count || smaller_count == other.count,
                self.wf(),
                other.wf(),
                forall|j: int| 0 <= j < i ==> #[trigger] self@[j] == other@[j],
            decreases smaller_count - i,
        {
            if self.get_nibble(i) != other.get_nibble(i) {
                return false;
            }
            i = i + 1;
        }
        true
    }

    /// Drops the next `n` proceeding nibbles.
    pub fn truncate_n_nibbles(&self, n: usize) -> (r: Nibbles)
        requires
            self.wf(),
            n <= self.count,
        ensures
            r.wf(),
            r@ == self@.subrange(n as int, self@.len() as int),
    {
        let mut nib = *self;
        nib.truncate_n_nibbles_mut(n);
        nib
    }

    /// Drops the next `n` proceeding nibbles in place.
    pub fn truncate_n_nibbles_mut(&mut self, n: usize)
        requires
            old(self).wf(),
            n <= old(self).count,
        ensures
            final(self).wf(),
            final(self)@ == old(self)@.subrange(n as int, old(self)@.len() as int),
    {
        *self = Self::get_nibble_range_common(&self.packed, n, self.count, self.count);
    }

    /// Splits the `Nibbles` at the given index, returning two `Nibbles`.
    /// Specifically, if `0x1234` is split at `1`, we get `0x1` and `0x234`.
    pub fn split_at_idx(&self, idx: usize) -> (r: (Nibbles, Nibbles))
        requires
            self.wf(),
            idx <= self.count,
        ensures
            r.0.wf(),
            r.1.wf(),
            r.0@ == self@.subrange(0, idx as int),
            r.1@ == self@.subrange(idx as int, self@.len() as int),
    {
        let post = self.split_at_idx_postfix(idx);
        let pre = self.split_at_idx_prefix(idx);
        (pre, post)
    }

    /// The nibbles before `idx`.
    pub fn split_at_idx_prefix(&self, idx: usize) -> (r: Nibbles)
        requires
            self.wf(),
            idx <= self.count,
        ensures
            r.wf(),
            r@ == self@.subrange(0, idx as int),
    {
        Self::get_nibble_range_common(&self.packed, 0, idx, self.count)
    }

    /// The nibbles from `idx` on.
    pub fn split_at_idx_postfix(&self, idx: usize) -> (r: Nibbles)
        requires
            self.wf(),
            idx <= self.count,
        ensures
            r.wf(),
            r@ == self@.subrange(idx as int, self@.len() as int),
    {
        Self::get_nibble_range_common(&self.packed, idx, self.count, self.count)
    }

    /// Finds the nibble idx that differs between two nibbles.
    /// If there is no difference, returns 1 + the last index.
    pub fn find_nibble_idx_that_differs_between_nibbles(n1: &Nibbles, n2: &Nibbles) -> (r: usize)
        requires
            n1.wf(),
            n2.wf(),
            n1.count == n2.count,
        ensures
            is_first_difference(n1@, n2@, r as int),
    {
        let mut i: usize = 0;
        while i < n1.count
            invariant
                i <= n1.count == n2.count,
                n1.wf(),
                n2.wf(),
                forall|j: int| 0 <= j < i ==> #[trigger] n1@[j] == n2@[j],
            decreases n1.count - i,
        {
            if n1.get_nibble(i) != n2.get_nibble(i) {
                return i;
            }
            i = i + 1;
        }
        n1.count
    }

    /// The number of nibbles needed to write `k`; zero for zero.
    pub fn get_num_nibbles_in_key(k: &U256) -> (r: usize)
        ensures
            r == num_nibbles_in_key(*k),
            r <= 64,
            k.zero_from(r as int),
            r == 0 || k.nib(r - 1) != 0,
    {
        let mut c: usize = 64;
        while c > 0 && k.nibble(c - 1) == 0
            invariant
                c <= 64,
                significant_nibbles(*k, 64) == significant_nibbles(*k, c as nat),
                k.zero_from(c as int),
            decreases c,
        {
            c = c - 1;
        }
        c
    }

    /// The minimum number of bytes needed to hold these nibbles.
    pub fn min_bytes(&self) -> (r: usize)
        ensures
            r == (self.count + 1) / 2,
    {
        self.count / 2 + self.count % 2
    }

    /// The last `min_bytes` bytes of the big-endian form of `packed`.
    pub fn bytes(&self) -> (r: Vec<u8>)
        requires
            self.wf(),
        ensures
            r@ == self.packed.be@.subrange(32 - (self.count + 1) / 2, 32),
    {
        let start = 32 - self.min_bytes();
        let mut out: Vec<u8> = Vec::new();
        let mut i = start;
        while i < 32
            invariant
                start <= i <= 32,
                out@ == self.packed.be@.subrange(start as int, i as int),
            decreases 32 - i,
        {
            out.push(self.packed.be[i]);
            i = i + 1;
        }
        out
    }

    /// The nibbles as a `0x`-prefixed string of lowercase hex digits, one
    /// per nibble; `0x0` where `packed` is zero.
    pub fn as_hex_str(&self) -> (r: String)
        requires
            self.wf(),
        ensures
            self.packed.zero_from(0) ==> r@ == seq!['0', 'x', '0'],
            !self.packed.zero_from(0) ==> r@ == seq!['0', 'x'] + self@.map_values(
                |d: Nibble| hex_digit(d),
            ),
    {
        if self.packed.is_zero() {
            proof {
                reveal_strlit("0x0");
            }
            return String::from_str("0x0");
        }
        let raw = self.bytes();
        let hex_string_raw = encode_hex(raw.as_slice());
        let mb = self.min_bytes();
        let skip: usize = if is_even(self.count) {
            0
        } else {
            1
        };
        proof {
            assert forall|i: int| 0 <= i < hex_string_raw@.len() implies '\0' <= #[trigger] hex_string_raw@[i]
                <= '\u{7f}' by {
                let b = raw@[i / 2];
                let d = if i % 2 == 0 {
                    high_nibble(b)
                } else {
                    low_nibble(b)
                };
                assert(d < 16);
                assert(hex_string_raw@[i] == hex_digit(d));
            }
        }
        let raw_str = hex_string_raw.as_str();
        assert(vstd::string::is_ascii(raw_str));
        let digits = raw_str.substring_ascii(skip, 2 * mb);
        let mut hex_string = String::from_str("0x");
        proof {
            reveal_strlit("0x");
            assert forall|i: int| 0 <= i < self.count implies #[trigger] digits@[i] == hex_digit(self@[i]) by {
                let j = i + skip;
                let p = self.count - 1 - i;
                assert(2 * mb - 1 - j == p);
                assert(raw@[j / 2] == self.packed.be[31 - p / 2]);
            }
        }
        hex_string.append(digits);
        assert(hex_string@ =~= seq!['0', 'x'] + self@.map_values(|d: Nibble| hex_digit(d)));
        hex_string
    }

    /// Converts `Nibbles` to hex-prefix encoding.
    /// This prepends an extra nibble which encodes if the length is odd and
    /// if the node is a leaf (terminator) or not.
    pub fn to_hex_prefix_encoding(&self, is_leaf: bool) -> (r: bytes::Bytes)
        requires
            self.wf(),
        ensures
            bytes_contents(r) == hex_prefix_encoding(self@, is_leaf),
    {
        bytes_from_vec(self.hex_prefix_bytes(is_leaf))
    }

    fn hex_prefix_bytes(&self, is_leaf: bool) -> (r: Vec<u8>)
        requires
            self.wf(),
        ensures
            r@ == hex_prefix_encoding(self@, is_leaf),
    {
        let odd = !is_even(self.count);
        let odd_bit: u8 = if odd {
            1
        } else {
            0
        };
        let term_bit: u8 = if is_leaf {
            2
        } else {
            0
        };
        let flag: u8 = odd_bit + term_bit;
        let num_bytes = (self.count + 2) / 2;
        let skip: usize = if odd {
            1
        } else {
            2
        };
        let ghost h = hex_prefix_nibbles(self@, is_leaf);
        assert(h.len() == 2 * num_bytes);
        let first: u8 = if odd {
            flag * 16 + self.get_nibble(0)
        } else {
            flag * 16
        };
        let mut out: Vec<u8> = Vec::new();
        out.push(first);
        let mut j: usize = 1;
        while j < num_bytes
            invariant
                self.wf(),
                1 <= j <= num_bytes,
                num_bytes == (self.count + 2) / 2,
                skip == (if odd { 1usize } else { 2usize }),
                odd == (self.count % 2 == 1),
                h == hex_prefix_nibbles(self@, is_leaf),
                h.len() == 2 * num_bytes,
                out@ == pack_nibble_pairs(h).subrange(0, j as int),
            decreases num_bytes - j,
        {
            let hi = self.get_nibble(2 * j - skip);
            let lo = self.get_nibble(2 * j + 1 - skip);
            assert(h[2 * j] == hi && h[2 * j + 1] == lo);
            out.push(hi * 16 + lo);
            assert(out@ =~= pack_nibble_pairs(h).subrange(0, j + 1));
            j = j + 1;
        }
        assert(out@ =~= pack_nibble_pairs(h));
        out
    }

    /// Merge two `Nibbles` together. `self` will be the prefix.
    pub fn merge(&self, post: &Nibbles) -> (r: Nibbles)
        requires
            self.wf(),
            post.wf(),
            self.count + post.count <= 64,
        ensures
            r.wf(),
            r@ == self@ + post@,
    {
        let mut packed = post.packed;
        let mut p: usize = 0;
        while p < self.count
            invariant
                p <= self.count,
                self.count + post.count <= 64,
                self.wf(),
                post.wf(),
                forall|q: int| 0 <= q < post.count ==> #[trigger] packed.nib(q) == post.packed.nib(q),
                forall|q: int|
                    post.count <= q < post.count + p ==> #[trigger] packed.nib(q) == self.packed.nib(
                        q - post.count,
                    ),
                packed.zero_from(post.count + p),
            decreases self.count - p,
        {
            let v = self.packed.nibble(p);
            packed.set_nibble(post.count + p, v);
            p = p + 1;
        }
        let r = Nibbles { count: self.count + post.count, packed };
        assert(r@ =~= self@ + post@);
        r
    }
}

/// The number of nibbles at or below position `c` up to the highest
/// non-zero one.
pub open spec fn significant_nibbles(k: U256, c: nat) -> nat
    decreases c,
{
    if c == 0 {
        0
    } else if k.nib(c - 1) != 0 {
        c
    } else {
        significant_nibbles(k, (c - 1) as nat)
    }
}

/// The number of nibbles needed to write `k`: a quarter of its bit length,
/// rounded up. Zero has none.
pub open spec fn num_nibbles_in_key(k: U256) -> nat {
    significant_nibbles(k, 64)
}

/// The flag nibble of the hex-prefix encoding: bit 0 for an odd length,
/// bit 1 for a leaf.
pub open spec fn hex_prefix_flag(odd: bool, is_leaf: bool) -> Nibble {
    ((if odd { 1int } else { 0 }) + (if is_leaf { 2int } else { 0 })) as u8
}

/// The nibbles of the hex-prefix encoding: the flag, a zero filler where the
/// length is even, then the sequence itself.
pub open spec fn hex_prefix_nibbles(s: Seq<Nibble>, is_leaf: bool) -> Seq<Nibble> {
    let odd = s.len() % 2 == 1;
    if odd {
        seq![hex_prefix_flag(odd, is_leaf)] + s
    } else {
        seq![hex_prefix_flag(odd, is_leaf), 0u8] + s
    }
}

/// Nibbles read two at a time as bytes, the first of each pair high.
pub open spec fn pack_nibble_pairs(h: Seq<Nibble>) -> Seq<u8> {
    Seq::new(h.len() / 2, |j: int| (h[2 * j] * 16 + h[2 * j + 1]) as u8)
}

/// The hex-prefix (compact) encoding of a nibble path.
pub open spec fn hex_prefix_encoding(s: Seq<Nibble>, is_leaf: bool) -> Seq<u8> {
    pack_nibble_pairs(hex_prefix_nibbles(s, is_leaf))
}

/// `r` is the first index at which `a` and `b` differ, or their common
/// length where they agree everywhere.
pub open spec fn is_first_difference(a: Seq<Nibble>, b: Seq<Nibble>, r: int) -> bool {
    &&& 0 <= r <= a.len()
    &&& forall|i: int| 0 <= i < r ==> #[trigger] a[i] == b[i]
    &&& r < a.len() ==> a[r] != b[r]
}

/// Splitting a sequence at any index and merging the two halves gives the
/// sequence back.
pub proof fn lemma_split_then_merge(n: Nibbles, idx: usize)
    requires
        n.wf(),
        idx <= n.count,
    ensures
        forall|pre: Nibbles, post: Nibbles, m: Nibbles|
            #![trigger pre@, post@, m@]
            pre.wf() && post.wf() && m.wf() && pre@ == n@.subrange(0, idx as int) && post@ == n@.subrange(
                idx as int,
                n@.len() as int,
            ) && m@ == pre@ + post@ ==> m == n,
{
    assert forall|pre: Nibbles, post: Nibbles, m: Nibbles|
        #![trigger pre@, post@, m@]
        pre.wf() && post.wf() && m.wf() && pre@ == n@.subrange(0, idx as int) && post@ == n@.subrange(
            idx as int,
            n@.len() as int,
        ) && m@ == pre@ + post@ implies m == n by {
        assert(m@ =~= n@);
        Nibbles::lemma_view_determines(m, n);
    }
}

/// Popping `k` nibbles and merging them back in front of what is left gives
/// the sequence it started from.
pub proof fn lemma_pop_then_merge(n: Nibbles, k: usize)
    requires
        n.wf(),
        k <= n.count,
    ensures
        forall|popped: Nibbles, rest: Nibbles, m: Nibbles|
            #![trigger popped@, rest@, m@]
            popped.wf() && rest.wf() && m.wf() && popped@ == n@.subrange(0, k as int) && rest@
                == n@.subrange(k as int, n@.len() as int) && m@ == popped@ + rest@ ==> m == n,
{
    lemma_split_then_merge(n, k);
}

/// The first differing index does not depend on the order of the two
/// sequences, and it is the full length exactly when they are equal.
pub proof fn lemma_first_difference_symmetric(a: Nibbles, b: Nibbles, r1: int, r2: int)
    requires
        a.wf(),
        b.wf(),
        a.count == b.count,
        is_first_difference(a@, b@, r1),
        is_first_difference(b@, a@, r2),
    ensures
        r1 == r2,
        r1 == a.count <==> a == b,
{
    if r1 < r2 {
        assert(b@[r1] == a@[r1]);
    } else if r2 < r1 {
        assert(a@[r2] == b@[r2]);
    }
    if r1 == a.count {
        assert(a@ =~= b@);
        Nibbles::lemma_view_determines(a, b);
    }
}

/// Whether `n` is even.
pub fn is_even(n: usize) -> (r: bool)
    ensures
        r == (n % 2 == 0),
{
    n % 2 == 0
}

} // verus!
