use vstd::prelude::*;

use crate::nibbles::Nibbles;

verus! {

broadcast use vstd::std_specs::vec::group_vec_axioms;

/// A 256-bit digest, as 32 bytes.
#[derive(Clone, Copy, Debug, Hash)]
pub struct H256(pub [u8; 32]);

impl PartialEq for H256 {
    fn eq(&self, other: &H256) -> (r: bool) {
        let mut i: usize = 0;
        while i < 32
            invariant
                i <= 32,
                forall|j: int| 0 <= j < i ==> self.0[j] == other.0[j],
            decreases 32 - i,
        {
            if self.0[i] != other.0[i] {
                return false;
            }
            i = i + 1;
        }
        assert(self.0 =~= other.0);
        true
    }
}

impl vstd::std_specs::cmp::PartialEqSpecImpl for H256 {
    open spec fn obeys_eq_spec() -> bool {
        true
    }

    open spec fn eq_spec(&self, other: &H256) -> bool {
        *self == *other
    }
}

impl Eq for H256 {}

/// A partial trie, or a sub-trie thereof. This mimics the structure of an
/// Ethereum trie, except with an additional `Hash` node type, representing a
/// node whose data is not needed to process our transaction.
#[derive(Debug)]
pub enum PartialTrie {
    /// An empty trie.
    Empty,
    /// The digest of trie whose data does not need to be stored.
    Hash(H256),
    /// A branch node, which consists of 16 children, one per nibble, and an
    /// optional value (empty for none).
    Branch { children: Vec<Box<PartialTrie>>, value: Vec<u8> },
    /// An extension node, which consists of a list of nibbles and a single
    /// child.
    Extension { nibbles: Nibbles, child: Box<PartialTrie> },
    /// A leaf node, which consists of a list of nibbles and a value.
    Leaf { nibbles: Nibbles, value: Vec<u8> },
}

/// Structural equality: the same variant, equal digests, nibbles and value
/// bytes, and children equal slot by slot.
pub open spec fn same_trie(a: PartialTrie, b: PartialTrie) -> bool
    decreases a,
{
    match a {
        PartialTrie::Empty => b is Empty,
        PartialTrie::Hash(h1) => b is Hash && h1 == b->Hash_0,
        PartialTrie::Branch { children: c1, value: v1 } => {
            &&& b is Branch
            &&& v1@ == b->Branch_value@
            &&& same_children(c1@, b->Branch_children@)
        },
        PartialTrie::Extension { nibbles: n1, child: c1 } => {
            &&& b is Extension
            &&& n1 == b->Extension_nibbles
            &&& same_trie(*c1, *b->Extension_child)
        },
        PartialTrie::Leaf { nibbles: n1, value: v1 } => {
            &&& b is Leaf
            &&& n1 == b->Leaf_nibbles
            &&& v1@ == b->Leaf_value@
        },
    }
}

/// Two lists of children of the same length, equal slot by slot.
pub open spec fn same_children(c1: Seq<Box<PartialTrie>>, c2: Seq<Box<PartialTrie>>) -> bool
    decreases c1,
{
    if c1.len() == 0 {
        c2.len() == 0
    } else {
        &&& c2.len() > 0
        &&& same_trie(*c1[0], *c2[0])
        &&& same_children(c1.drop_first(), c2.drop_first())
    }
}

/// Lists that are the same slot by slot have the same length.
proof fn lemma_same_children_len(c1: Seq<Box<PartialTrie>>, c2: Seq<Box<PartialTrie>>)
    requires
        same_children(c1, c2),
    ensures
        c1.len() == c2.len(),
    decreases c1.len(),
{
    if c1.len() > 0 {
        lemma_same_children_len(c1.drop_first(), c2.drop_first());
    }
}

/// Lists that are the same slot by slot are the same from any index on.
proof fn lemma_same_children_suffix(c1: Seq<Box<PartialTrie>>, c2: Seq<Box<PartialTrie>>, k: int)
    requires
        0 <= k <= c1.len(),
        c1.len() == c2.len(),
        same_children(c1, c2),
    ensures
        same_children(c1.subrange(k, c1.len() as int), c2.subrange(k, c2.len() as int)),
    decreases k,
{
    if k > 0 {
        lemma_same_children_suffix(c1.drop_first(), c2.drop_first(), k - 1);
        assert(c1.drop_first().subrange(k - 1, c1.len() - 1) =~= c1.subrange(k, c1.len() as int));
        assert(c2.drop_first().subrange(k - 1, c2.len() - 1) =~= c2.subrange(k, c2.len() as int));
    } else {
        assert(c1.subrange(0, c1.len() as int) =~= c1);
        assert(c2.subrange(0, c2.len() as int) =~= c2);
    }
}

/// Byte-for-byte equality of two values.
fn same_bytes(a: &Vec<u8>, b: &Vec<u8>) -> (r: bool)
    ensures
        r == (a@ == b@),
{
    if a.len() != b.len() {
        return false;
    }
    let mut i: usize = 0;
    while i < a.len()
        invariant
            i <= a.len() == b.len(),
            forall|j: int| 0 <= j < i ==> a@[j] == b@[j],
        decreases a.len() - i,
    {
        if a[i] != b[i] {
            return false;
        }
        i = i + 1;
    }
    assert(a@ =~= b@);
    true
}

impl PartialTrie {
    /// Every branch, here and below, has exactly 16 children.
    pub open spec fn wf(self) -> bool
        decreases self,
    {
        match self {
            PartialTrie::Branch { children, value } => children.len() == 16 && forall|i: int|
                0 <= i < children.len() ==> #[trigger] children[i].wf(),
            PartialTrie::Extension { nibbles, child } => child.wf(),
            _ => true,
        }
    }
}

/// Structural equality of two tries, node by node.
fn trie_eq(a: &PartialTrie, b: &PartialTrie) -> (r: bool)
    ensures
        r == same_trie(*a, *b),
    decreases *a,
{
    match a {
        PartialTrie::Empty => matches!(b, PartialTrie::Empty),
        PartialTrie::Hash(h1) => match b {
            PartialTrie::Hash(h2) => h1 == h2,
            _ => false,
        },
        PartialTrie::Branch { children: c1, value: v1 } => match b {
            PartialTrie::Branch { children: c2, value: v2 } => {
                if !same_bytes(v1, v2) || c1.len() != c2.len() {
                    proof {
                        if same_children(c1@, c2@) {
                            lemma_same_children_len(c1@, c2@);
                        }
                    }
                    return false;
                }
                let mut i: usize = c1.len();
                while i > 0
                    invariant
                        *a == (PartialTrie::Branch { children: *c1, value: *v1 }),
                        *b == (PartialTrie::Branch { children: *c2, value: *v2 }),
                        v1@ == v2@,
                        i <= c1.len() == c2.len(),
                        same_children(c1@.subrange(i as int, c1.len() as int), c2@.subrange(i as int, c2.len() as int)),
                    decreases i,
                {
                    let k = i - 1;
                    proof {
                        assert(decreases_to!(*a => a->Branch_children));
                        assert(decreases_to!(a->Branch_children => a->Branch_children[k as int]));
                    }
                    let same = trie_eq(&c1[k], &c2[k]);
                    proof {
                        let s1 = c1@.subrange(k as int, c1.len() as int);
                        let s2 = c2@.subrange(k as int, c2.len() as int);
                        assert(s1.drop_first() =~= c1@.subrange(i as int, c1.len() as int));
                        assert(s2.drop_first() =~= c2@.subrange(i as int, c2.len() as int));
                        assert(same_children(s1, s2) == same);
                    }
                    if !same {
                        assert(c1@.subrange(0, c1.len() as int) =~= c1@);
                        assert(!same_children(c1@, c2@)) by {
                            if same_children(c1@, c2@) {
                                lemma_same_children_suffix(c1@, c2@, k as int);
                            }
                        }
                        return false;
                    }
                    i = k;
                }
                assert(c1@.subrange(0, c1.len() as int) =~= c1@);
                assert(c2@.subrange(0, c2.len() as int) =~= c2@);
                true
            },
            _ => false,
        },
        PartialTrie::Extension { nibbles: n1, child: c1 } => match b {
            PartialTrie::Extension { nibbles: n2, child: c2 } => n1 == n2 && trie_eq(c1, c2),
            _ => false,
        },
        PartialTrie::Leaf { nibbles: n1, value: v1 } => match b {
            PartialTrie::Leaf { nibbles: n2, value: v2 } => n1 == n2 && same_bytes(v1, v2),
            _ => false,
        },
    }
}

/// A copy of a list of children, each copied node by node.
fn clone_children(c: &Vec<Box<PartialTrie>>, Ghost(parent): Ghost<PartialTrie>) -> (r: Vec<Box<PartialTrie>>)
    requires
        parent is Branch && parent->Branch_children == *c,
    ensures
        same_children(c@, r@),
    decreases parent, 0nat,
{
    let mut out: Vec<Box<PartialTrie>> = Vec::new();
    let mut i: usize = 0;
    while i < c.len()
        invariant
            i <= c.len(),
            parent is Branch && parent->Branch_children == *c,
            out@.len() == i,
            forall|m: int| 0 <= m < out@.len() ==> #[trigger] same_trie(*c@[m], *out@[m]),
        decreases c.len() - i,
    {
        proof {
            assert(decreases_to!(parent => parent->Branch_children));
            assert(decreases_to!(parent->Branch_children => parent->Branch_children[i as int]));
        }
        let t = clone_trie(&c[i]);
        out.push(Box::new(t));
        i = i + 1;
    }
    proof {
        lemma_same_children_pointwise(c@, out@);
    }
    out
}

/// Lists of one length whose slots are the same one by one are the same.
proof fn lemma_same_children_pointwise(c1: Seq<Box<PartialTrie>>, c2: Seq<Box<PartialTrie>>)
    requires
        c1.len() == c2.len(),
        forall|m: int| 0 <= m < c1.len() ==> #[trigger] same_trie(*c1[m], *c2[m]),
    ensures
        same_children(c1, c2),
    decreases c1.len(),
{
    if c1.len() > 0 {
        assert forall|m: int| 0 <= m < c1.len() - 1 implies #[trigger] same_trie(*c1.drop_first()[m], *c2.drop_first()[m]) by {
            assert(same_trie(*c1[m + 1], *c2[m + 1]));
        }
        lemma_same_children_pointwise(c1.drop_first(), c2.drop_first());
        assert(same_trie(*c1[0], *c2[0]));
    }
}

/// A copy of a trie, node by node.
fn clone_trie(t: &PartialTrie) -> (r: PartialTrie)
    ensures
        same_trie(*t, r),
    decreases *t, 1nat,
{
    match t {
        PartialTrie::Empty => PartialTrie::Empty,
        PartialTrie::Hash(h) => PartialTrie::Hash(*h),
        PartialTrie::Branch { children, value } => {
            let copied = clone_children(children, Ghost(*t));
            PartialTrie::Branch { children: copied, value: value.clone() }
        },
        PartialTrie::Extension { nibbles, child } => {
            PartialTrie::Extension { nibbles: *nibbles, child: Box::new(clone_trie(child)) }
        },
        PartialTrie::Leaf { nibbles, value } => {
            PartialTrie::Leaf { nibbles: *nibbles, value: value.clone() }
        },
    }
}

impl Clone for PartialTrie {
    fn clone(&self) -> (r: Self)
        ensures
            same_trie(*self, r),
    {
        clone_trie(self)
    }
}

/// `PartialTrie` equality means all nodes through the trie are equivalent.
impl PartialEq for PartialTrie {
    fn eq(&self, other: &Self) -> (r: bool) {
        trie_eq(self, other)
    }
}

impl vstd::std_specs::cmp::PartialEqSpecImpl for PartialTrie {
    open spec fn obeys_eq_spec() -> bool {
        true
    }

    open spec fn eq_spec(&self, other: &PartialTrie) -> bool {
        same_trie(*self, *other)
    }
}

impl Eq for PartialTrie {}

impl Default for PartialTrie {
    fn default() -> (r: Self)
        ensures
            r == PartialTrie::Empty,
    {
        PartialTrie::Empty
    }
}

/// Two leaves are equal exactly when their nibbles are equal and their
/// values hold the same bytes.
pub proof fn lemma_leaf_equality(n1: Nibbles, v1: Vec<u8>, n2: Nibbles, v2: Vec<u8>)
    ensures
        same_trie(
            PartialTrie::Leaf { nibbles: n1, value: v1 },
            PartialTrie::Leaf { nibbles: n2, value: v2 },
        ) <==> (n1 == n2 && v1@ == v2@),
{
}

/// An empty trie never equals a digest, not even the zero digest.
pub proof fn lemma_empty_is_not_hash(h: H256)
    ensures
        !same_trie(PartialTrie::Empty, PartialTrie::Hash(h)),
        !same_trie(PartialTrie::Hash(h), PartialTrie::Empty),
{
}

} // verus!
