//! An append-only Merkle tree over 32-byte commitments.
//!
//! A tree over `n` leaves is a single leaf for `n == 1`. For more leaves its
//! left child is the tree over the first `k` leaves and its right child the
//! tree over the others, where `k` is the largest power of two below `n`. An
//! inner node's hash is the SHA-256 digest of its children's hashes, the left
//! one first. A leaf's hash is the commitment itself.

use vstd::arithmetic::power2::{lemma2_to64, lemma_pow2_unfold, pow2};
use vstd::prelude::*;

verus! {

pub const HASH_LENGTH: usize = 32;

/// The most leaves that a tree takes: 2^29.
pub const MAX_LEAVES: u32 = 536870912;

/// The SHA-256 digest of `data`, as OpenSSL computes it.
pub uninterp spec fn sha256_digest(data: Seq<u8>) -> Seq<u8>;

/// The sixteen digits of lowercase hexadecimal.
pub open spec fn hex_digits() -> Seq<char> {
    seq!['0', '1', '2', '3', '4', '5', '6', '7', '8', '9', 'a', 'b', 'c', 'd', 'e', 'f']
}

/// The lowercase hexadecimal spelling of `data`: two digits for each byte, the
/// high half first.
pub open spec fn hex_chars(data: Seq<u8>) -> Seq<char> {
    Seq::new(
        2 * data.len(),
        |i: int|
            if i % 2 == 0 {
                hex_digits()[data[i / 2] as int / 16]
            } else {
                hex_digits()[data[i / 2] as int % 16]
            },
    )
}

/// Trusted: `openssl::sha::sha256`. The array that comes back is the SHA-256
/// digest of the input.
#[verifier::external_body]
fn sha256_bytes(data: &[u8]) -> (h: [u8; 32])
    ensures
        h@ == sha256_digest(data@),
{
    openssl::sha::sha256(data)
}

/// Trusted: `hex::encode`. The string spells each byte with two lowercase
/// hexadecimal digits, in order.
#[verifier::external_body]
fn hex_encode(data: &[u8]) -> (s: String)
    ensures
        s@ == hex_chars(data@),
{
    hex::encode(data)
}

/// The largest power of two below `n`, for `n` of 2 and more.
pub open spec fn split_point(n: nat) -> nat
    decreases n,
{
    if n <= 2 {
        1
    } else {
        2 * split_point(((n + 1) / 2) as nat)
    }
}

/// The root hash of the tree over `leaves`.
pub open spec fn merkle_root(leaves: Seq<Seq<u8>>) -> Seq<u8>
    decreases leaves.len(),
{
    if leaves.len() <= 1 {
        leaves[0]
    } else {
        let k = split_point(leaves.len()) as int;
        if 0 < k < leaves.len() {
            sha256_digest(merkle_root(leaves.take(k)) + merkle_root(leaves.skip(k)))
        } else {
            leaves[0]
        }
    }
}

/// The hashes of all nodes of the tree over `leaves`: those of the left
/// subtree, those of the right subtree, then the root's.
pub open spec fn merkle_hashes(leaves: Seq<Seq<u8>>) -> Seq<Seq<u8>>
    decreases leaves.len(),
{
    if leaves.len() <= 1 {
        seq![leaves[0]]
    } else {
        let k = split_point(leaves.len()) as int;
        if 0 < k < leaves.len() {
            merkle_hashes(leaves.take(k)) + merkle_hashes(leaves.skip(k)) + seq![
                merkle_root(leaves),
            ]
        } else {
            seq![leaves[0]]
        }
    }
}

/// `split_point(n)` is a power of two, and the largest one below `n`.
pub proof fn lemma_split_point(n: nat)
    requires
        n >= 2,
    ensures
        exists|e: nat| split_point(n) == pow2(e),
        split_point(n) < n <= 2 * split_point(n),
    decreases n,
{
    if n <= 2 {
        lemma2_to64();
        assert(split_point(n) == pow2(0));
    } else {
        let h = ((n + 1) / 2) as nat;
        lemma_split_point(h);
        let e = choose|e: nat| split_point(h) == pow2(e);
        lemma_pow2_unfold(e + 1);
        assert(split_point(n) == pow2(e + 1));
    }
}

/// A tree over `n` leaves has `2n - 1` nodes, and the last hash of its nodes
/// is the root hash. A tree over one leaf has that leaf as its only node.
pub proof fn lemma_merkle_hashes(leaves: Seq<Seq<u8>>)
    requires
        leaves.len() >= 1,
    ensures
        merkle_hashes(leaves).len() == 2 * leaves.len() - 1,
        merkle_hashes(leaves).last() == merkle_root(leaves),
        leaves.len() == 1 ==> merkle_hashes(leaves) == leaves,
    decreases leaves.len(),
{
    if leaves.len() >= 2 {
        lemma_split_point(leaves.len());
        let k = split_point(leaves.len()) as int;
        lemma_merkle_hashes(leaves.take(k));
        lemma_merkle_hashes(leaves.skip(k));
    } else {
        assert(merkle_hashes(leaves) =~= leaves);
    }
}

/// Between a power of two and its double, the split point is that power.
pub proof fn lemma_split_point_above_pow2(e: nat, y: nat)
    requires
        0 < y <= pow2(e),
    ensures
        split_point(pow2(e) + y) == pow2(e),
    decreases e,
{
    if e == 0 {
        lemma2_to64();
    } else {
        lemma_pow2_unfold(e);
        let q = pow2((e - 1) as nat);
        let n = pow2(e) + y;
        let y1 = ((y + 1) / 2) as nat;
        assert(((n + 1) / 2) as nat == q + y1);
        lemma_split_point_above_pow2((e - 1) as nat, y1);
    }
}

pub struct Node {
    hash: [u8; HASH_LENGTH],
    l: Option<Box<Node>>,
    r: Option<Box<Node>>,
}

pub struct Head {
    leaf_cnt: u32,
    pow_of_two_ind: usize,
    root: Node,
}

/// Two to the power `i`.
fn pow_of_two(i: usize) -> (p: u32)
    requires
        i <= 30,
    ensures
        p == pow2(i as nat),
{
    let mut p: u32 = 1;
    let mut j: usize = 0;
    proof {
        lemma2_to64();
    }
    while j < i
        invariant
            j <= i <= 30,
            p == pow2(j as nat),
            pow2(30) == 0x40000000,
        decreases i - j,
    {
        proof {
            lemma_pow2_unfold((j + 1) as nat);
            lemma_pow2_grows((j + 1) as nat, 30);
        }
        p = p * 2;
        j += 1;
    }
    p
}

/// Powers of two grow with the exponent.
pub proof fn lemma_pow2_grows(a: nat, b: nat)
    requires
        a <= b,
    ensures
        pow2(a) <= pow2(b),
        pow2(a) >= 1,
    decreases b,
{
    if a == 0 {
        lemma2_to64();
    }
    if a < b {
        lemma_pow2_grows(a, (b - 1) as nat);
        lemma_pow2_unfold(b);
    } else if a > 0 {
        lemma_pow2_grows((a - 1) as nat, (a - 1) as nat);
        lemma_pow2_unfold(a);
    }
}

impl Node {
    /// The hash that the node holds.
    pub closed spec fn hash_bytes(self) -> Seq<u8> {
        self.hash@
    }

    /// Whether the node has no children.
    pub closed spec fn is_leaf(self) -> bool {
        self.l is None && self.r is None
    }

    /// The commitments at the leaves below the node, from left to right.
    pub closed spec fn leaves(self) -> Seq<Seq<u8>>
        decreases self,
    {
        match (self.l, self.r) {
            (Some(l), Some(r)) => l.leaves() + r.leaves(),
            _ => seq![self.hash@],
        }
    }

    /// The hashes of the nodes of the subtree: those of the left subtree,
    /// those of the right subtree, then the node's own.
    pub closed spec fn postorder(self) -> Seq<Seq<u8>>
        decreases self,
    {
        (match self.l {
            Some(l) => l.postorder(),
            None => Seq::empty(),
        }) + (match self.r {
            Some(r) => r.postorder(),
            None => Seq::empty(),
        }) + seq![self.hash@]
    }

    /// Whether the subtree is the tree over its leaves: every inner node has
    /// two children, splits its leaves at the split point, and holds the
    /// digest of its children's hashes.
    pub closed spec fn well_formed(self) -> bool
        decreases self,
    {
        match (self.l, self.r) {
            (None, None) => true,
            (Some(l), Some(r)) => {
                &&& l.well_formed()
                &&& r.well_formed()
                &&& l.leaves().len() == split_point(l.leaves().len() + r.leaves().len())
                &&& self.hash@ == sha256_digest(l.hash@ + r.hash@)
            },
            _ => false,
        }
    }

    /// A subtree has at least one leaf, and only a leaf has exactly one.
    pub proof fn lemma_leaf_count(self)
        requires
            self.well_formed(),
        ensures
            self.leaves().len() >= 1,
            self.leaves().len() == 1 <==> self.is_leaf(),
        decreases self,
    {
        match (self.l, self.r) {
            (Some(l), Some(r)) => {
                l.lemma_leaf_count();
                r.lemma_leaf_count();
            },
            _ => {},
        }
    }

    /// The hash of a well-formed subtree is the root hash of its leaves.
    pub proof fn lemma_root(self)
        requires
            self.well_formed(),
        ensures
            self.hash_bytes() == merkle_root(self.leaves()),
        decreases self,
    {
        match (self.l, self.r) {
            (Some(l), Some(r)) => {
                l.lemma_leaf_count();
                r.lemma_leaf_count();
                l.lemma_root();
                r.lemma_root();
                let all = self.leaves();
                let k = l.leaves().len() as int;
                assert(all.take(k) =~= l.leaves());
                assert(all.skip(k) =~= r.leaves());
            },
            _ => {},
        }
    }

    /// The hashes of the nodes of a well-formed subtree are those of the tree
    /// over its leaves.
    pub proof fn lemma_postorder(self)
        requires
            self.well_formed(),
        ensures
            self.postorder() == merkle_hashes(self.leaves()),
        decreases self,
    {
        match (self.l, self.r) {
            (Some(l), Some(r)) => {
                l.lemma_leaf_count();
                r.lemma_leaf_count();
                l.lemma_postorder();
                r.lemma_postorder();
                self.lemma_root();
                let all = self.leaves();
                let k = l.leaves().len() as int;
                assert(all.take(k) =~= l.leaves());
                assert(all.skip(k) =~= r.leaves());
            },
            _ => {},
        }
    }

    fn new_leaf(hash_value: [u8; HASH_LENGTH]) -> (n: Node)
        ensures
            n.well_formed(),
            n.is_leaf(),
            n.leaves() == seq![hash_value@],
            n.hash_bytes() == hash_value@,
            n.postorder() == seq![hash_value@],
    {
        Node { hash: hash_value, l: None, r: None }
    }

    /// The digest of two hashes written one after the other.
    fn hash_pair(l: &[u8; HASH_LENGTH], r: &[u8; HASH_LENGTH]) -> (h: [u8; HASH_LENGTH])
        ensures
            h@ == sha256_digest(l@ + r@),
    {
        let mut concat_hash: Vec<u8> = Vec::new();
        let mut i: usize = 0;
        while i < HASH_LENGTH
            invariant
                i <= 32,
                concat_hash@ == l@.take(i as int),
            decreases 32 - i,
        {
            concat_hash.push(l[i]);
            assert(l@.take(i + 1) =~= l@.take(i as int).push(l@[i as int]));
            i += 1;
        }
        assert(l@.take(32) =~= l@);
        i = 0;
        while i < HASH_LENGTH
            invariant
                i <= 32,
                concat_hash@ == l@ + r@.take(i as int),
            decreases 32 - i,
        {
            concat_hash.push(r[i]);
            assert(r@.take(i + 1) =~= r@.take(i as int).push(r@[i as int]));
            i += 1;
        }
        assert(r@.take(32) =~= r@);
        sha256_bytes(concat_hash.as_slice())
    }

    fn new_node(l: Node, r: Node) -> (n: Node)
        requires
            l.well_formed(),
            r.well_formed(),
            l.leaves().len() == split_point(l.leaves().len() + r.leaves().len()),
        ensures
            n.well_formed(),
            n.leaves() == l.leaves() + r.leaves(),
            n.postorder() == l.postorder() + r.postorder() + seq![n.hash_bytes()],
    {
        let hash = Node::hash_pair(&l.hash, &r.hash);
        Node { hash, l: Some(Box::new(l)), r: Some(Box::new(r)) }
    }

    fn print_node(&self) -> (s: String)
        ensures
            s@ == hex_chars(self.hash_bytes()),
    {
        hex_encode(self.hash.as_slice())
    }
}

} // verus!

verus! {

impl Node {
    /// Whether the node is the root of a tree whose left half is full: a
    /// well-formed subtree with `2^index` leaves on the left and `x` leaves,
    /// fewer than that, on the right.
    pub closed spec fn half_full(self, index: nat, x: nat) -> bool {
        &&& self.well_formed()
        &&& self.l is Some
        &&& self.r is Some
        &&& self.l->0.leaves().len() == pow2(index)
        &&& self.r->0.leaves().len() == x
        &&& 0 < x < pow2(index)
    }

    /// The left child, where there is one.
    pub closed spec fn left(self) -> Node {
        *self.l->0
    }

    /// The right child, where there is one.
    pub closed spec fn right(self) -> Node {
        *self.r->0
    }

    /// The hashes of the left subtree, none where there is no left child.
    pub closed spec fn left_postorder(self) -> Seq<Seq<u8>> {
        match self.l {
            Some(l) => l.postorder(),
            None => Seq::empty(),
        }
    }

    /// The hashes of the right subtree, none where there is no right child.
    pub closed spec fn right_postorder(self) -> Seq<Seq<u8>> {
        match self.r {
            Some(r) => r.postorder(),
            None => Seq::empty(),
        }
    }

    fn recompute_hash(&mut self)
        ensures
            final(self).l == old(self).l,
            final(self).r == old(self).r,
            match (old(self).l, old(self).r) {
                (Some(l), Some(r)) => final(self).hash@ == sha256_digest(l.hash@ + r.hash@),
                _ => final(self).hash == old(self).hash,
            },
    {
        if let Some(l_ptr) = &self.l {
            if let Some(r_ptr) = &self.r {
                let hash = Node::hash_pair(&l_ptr.hash, &r_ptr.hash);
                self.hash = hash;
            }
        }
    }

    /// Appends the leaf `new_comm` to a tree whose left half is full.
    fn insert_node(&mut self, leaf_cnt: u32, index: usize, new_comm: Node)
        requires
            index <= 29,
            old(self).half_full(index as nat, leaf_cnt as nat),
            new_comm.well_formed(),
            new_comm.is_leaf(),
        ensures
            final(self).well_formed(),
            final(self).leaves() == old(self).leaves() + new_comm.leaves(),
            final(self).l == old(self).l,
        decreases index,
    {
        proof {
            new_comm.lemma_leaf_count();
            old(self).r->0.lemma_leaf_count();
            lemma_pow2_grows(0, 0);
            lemma2_to64();
        }
        // the largest i below index with 2^i <= leaf_cnt
        let mut i: usize = index;
        let mut p: u32 = pow_of_two(i);
        while leaf_cnt < p
            invariant
                i <= index <= 29,
                p == pow2(i as nat),
                1 <= leaf_cnt,
                leaf_cnt < pow2((i + 1) as nat) || i == index,
                leaf_cnt < pow2(index as nat),
                pow2(0) == 1,
            decreases i,
        {
            proof {
                if i == 0 {
                    assert(false);
                }
                lemma_pow2_unfold(i as nat);
            }
            i = i - 1;
            p = pow_of_two(i);
        }
        assert(i < index);
        proof {
            lemma_pow2_unfold((i + 1) as nat);
            lemma_pow2_grows((i + 1) as nat, index as nat);
        }
        let ghost old_r = *old(self).r->0;
        let ghost old_l = *old(self).l->0;
        if leaf_cnt > p {
            proof {
                // the right child splits at 2^i
                lemma_split_point_above_pow2(i as nat, (leaf_cnt - p) as nat);
                old_r.lemma_leaf_count();
                assert(old_r.well_formed());
                if !old_r.is_leaf() {
                    assert(old_r.left().well_formed() && old_r.right().well_formed()) by {
                        reveal_with_fuel(Node::well_formed, 2);
                    }
                    old_r.left().lemma_leaf_count();
                    old_r.right().lemma_leaf_count();
                }
            }
            match &mut self.r {
                Some(r) => {
                    r.insert_node(leaf_cnt - p, i, new_comm);
                },
                None => {},
            }
        } else {
            let r = self.r.take();
            match r {
                Some(r) => {
                    proof {
                        lemma_split_point_above_pow2(i as nat, 1);
                    }
                    let grown = Node::new_node(*r, new_comm);
                    self.r = Some(Box::new(grown));
                },
                None => {},
            }
        }
        self.recompute_hash();
        proof {
            let new_r = *self.r->0;
            assert(new_r.leaves() =~= old_r.leaves() + new_comm.leaves());
            assert(new_r.leaves().len() == leaf_cnt + 1);
            lemma_split_point_above_pow2(index as nat, (leaf_cnt + 1) as nat);
            assert(self.leaves() =~= old(self).leaves() + new_comm.leaves());
        }
    }

    /// Appends the hexadecimal spelling of every hash of the subtree to
    /// `out`: the left subtree, the right subtree, then the node itself.
    fn print_tree(&self, out: &mut Vec<String>)
        ensures
            final(out)@.len() == old(out)@.len() + self.postorder().len(),
            forall|i: int|
                0 <= i < old(out)@.len() ==> final(out)@[i] == old(out)@[i],
            forall|i: int|
                0 <= i < self.postorder().len() ==> (#[trigger] final(out)@[old(out)@.len()
                    + i])@ == hex_chars(self.postorder()[i]),
        decreases self,
    {
        if let Some(l) = &self.l {
            l.print_tree(out);
        }
        let ghost mid = out@;
        if let Some(r) = &self.r {
            r.print_tree(out);
        }
        let ghost before_self = out@;
        out.push(self.print_node());
        proof {
            let base = old(out)@.len() as int;
            let lp = self.left_postorder();
            let rp = self.right_postorder();
            assert(self.postorder() =~= lp + rp + seq![self.hash@]);
            assert(mid.len() == base + lp.len());
            assert(before_self.len() == base + lp.len() + rp.len());
            assert forall|i: int| 0 <= i < self.postorder().len() implies (#[trigger] out@[base
                + i])@ == hex_chars(self.postorder()[i]) by {
                if i < lp.len() {
                    assert(mid[base + i]@ == hex_chars(lp[i]));
                    assert(before_self[base + i] == mid[base + i]);
                } else if i < lp.len() + rp.len() {
                    assert(before_self[mid.len() + (i - lp.len())]@ == hex_chars(rp[i - lp.len()]));
                } else {
                }
            }
        }
    }
}

impl Head {
    /// The commitments of the tree, in the order in which they came.
    pub closed spec fn leaves(&self) -> Seq<Seq<u8>> {
        self.root.leaves()
    }

    /// The hash at the root.
    pub closed spec fn root_hash(&self) -> Seq<u8> {
        self.root.hash_bytes()
    }

    /// The hashes of all nodes: left subtree, right subtree, then the node.
    pub closed spec fn node_hashes(&self) -> Seq<Seq<u8>> {
        self.root.postorder()
    }

    /// Whether the tree is the tree over its leaves and its counters agree
    /// with it.
    pub closed spec fn well_formed(&self) -> bool {
        &&& self.root.well_formed()
        &&& self.root.leaves().len() == self.leaf_cnt
        &&& self.pow_of_two_ind <= 29
        &&& pow2(self.pow_of_two_ind as nat) <= self.leaf_cnt < pow2(
            (self.pow_of_two_ind + 1) as nat,
        )
        &&& self.leaf_cnt <= MAX_LEAVES
    }

    /// The hash at the root of a well-formed tree is the root hash of its
    /// leaves.
    pub proof fn lemma_root_hash(&self)
        requires
            self.well_formed(),
        ensures
            self.root_hash() == merkle_root(self.leaves()),
            1 <= self.leaves().len() <= MAX_LEAVES,
    {
        self.root.lemma_root();
        self.root.lemma_leaf_count();
    }

    /// The hashes of the nodes of a well-formed tree are those of the tree
    /// over its leaves: `2n - 1` of them for `n` leaves, the last of them the
    /// root hash.
    pub proof fn lemma_node_hashes(&self)
        requires
            self.well_formed(),
        ensures
            self.node_hashes() == merkle_hashes(self.leaves()),
            self.node_hashes().len() == 2 * self.leaves().len() - 1,
            self.node_hashes().last() == self.root_hash(),
    {
        self.root.lemma_postorder();
        self.root.lemma_leaf_count();
        self.root.lemma_root();
        lemma_merkle_hashes(self.leaves());
    }

    /// A tree over one leaf, the all-zero commitment.
    pub fn new() -> (h: Head)
        ensures
            h.well_formed(),
            h.leaves() == seq![Seq::new(32, |i: int| 0u8)],
            h.root_hash() == Seq::new(32, |i: int| 0u8),
            h.node_hashes() == h.leaves(),
    {
        proof {
            lemma2_to64();
        }
        let zero: [u8; HASH_LENGTH] = [0; HASH_LENGTH];
        assert(zero@ =~= Seq::new(32, |i: int| 0u8));
        Head { leaf_cnt: 1, pow_of_two_ind: 0, root: Node::new_leaf(zero) }
    }

    /// Appends a commitment as the last leaf. A tree takes no more than
    /// `MAX_LEAVES` leaves.
    pub fn append_leaf(&mut self, commitment: [u8; HASH_LENGTH])
        requires
            old(self).well_formed(),
            old(self).leaves().len() < MAX_LEAVES,
        ensures
            final(self).well_formed(),
            final(self).leaves() == old(self).leaves().push(commitment@),
            final(self).root_hash() == merkle_root(final(self).leaves()),
            final(self).node_hashes() == merkle_hashes(final(self).leaves()),
    {
        proof {
            lemma2_to64();
            lemma_pow2_grows(self.pow_of_two_ind as nat, 29);
            lemma_pow2_grows((self.pow_of_two_ind + 1) as nat, 30);
            lemma_pow2_unfold((self.pow_of_two_ind + 1) as nat);
            self.root.lemma_leaf_count();
        }
        let right_leaf_cnt = self.leaf_cnt - pow_of_two(self.pow_of_two_ind);
        let new_commitment = Node::new_leaf(commitment);
        if right_leaf_cnt == 0 {
            let mut full = Node::new_leaf(commitment);
            core::mem::swap(&mut self.root, &mut full);
            proof {
                lemma_split_point_above_pow2(self.pow_of_two_ind as nat, 1);
            }
            self.root = Node::new_node(full, new_commitment);
        } else {
            proof {
                // more than 2^ind leaves: the root is an inner node whose
                // left half is full
                lemma_split_point_above_pow2(self.pow_of_two_ind as nat, right_leaf_cnt as nat);
                if !self.root.is_leaf() {
                    self.root.left().lemma_leaf_count();
                    self.root.right().lemma_leaf_count();
                }
            }
            self.root.insert_node(right_leaf_cnt, self.pow_of_two_ind, new_commitment);
        }
        self.leaf_cnt += 1;
        if self.leaf_cnt >= pow_of_two(self.pow_of_two_ind + 1) {
            proof {
                lemma_pow2_unfold((self.pow_of_two_ind + 2) as nat);
                if self.pow_of_two_ind + 1 > 29 {
                    lemma_pow2_grows(30, (self.pow_of_two_ind + 1) as nat);
                }
            }
            self.pow_of_two_ind += 1;
        }
        proof {
            assert(self.root.leaves() =~= old(self).leaves().push(commitment@));
            self.root.lemma_root();
            self.root.lemma_postorder();
        }
    }

    /// The hexadecimal spelling of the root hash.
    pub fn print_root(&self) -> (s: String)
        ensures
            s@ == hex_chars(self.root_hash()),
    {
        self.root.print_node()
    }

    /// The hexadecimal spelling of every hash in the tree, one string for
    /// each node: a node's left subtree, its right subtree, then the node.
    pub fn print_tree(&self) -> (lines: Vec<String>)
        ensures
            lines@.len() == self.node_hashes().len(),
            forall|i: int|
                0 <= i < lines@.len() ==> (#[trigger] lines@[i])@ == hex_chars(
                    self.node_hashes()[i],
                ),
    {
        let mut lines: Vec<String> = Vec::new();
        self.root.print_tree(&mut lines);
        assert forall|i: int| 0 <= i < lines@.len() implies (#[trigger] lines@[i])@ == hex_chars(
            self.node_hashes()[i],
        ) by {
            assert(lines@[0 + i]@ == hex_chars(self.root.postorder()[i]));
        }
        lines
    }

    /// The number of leaves.
    pub fn leaf_count(&self) -> (n: u32)
        requires
            self.well_formed(),
        ensures
            n == self.leaves().len(),
    {
        self.leaf_cnt
    }
}

} // verus!
