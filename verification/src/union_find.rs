//! Disjoint sets of tiles, keyed sparsely so that the two edge sentinels can
//! share one universe with the regular cells.
//!
//! Nodes are materialized lazily: a tile that was never named is its own
//! singleton.  `find` uses the grandparent shortcut, `union` attaches by
//! rank.  The abstract model is the spec relation [`UnionFind::same_set`];
//! every operation says exactly how it changes that relation.

use std::collections::HashMap;

use vstd::prelude::*;
use vstd::set_lib::lemma_len_subset;

use crate::tile::Tile;

verus! {

broadcast use vstd::std_specs::hash::group_hash_axioms;

/// Sparse key of a tile: regular cells fill `0..65536`; the sentinels sit
/// above them.
pub open spec fn spec_key(t: Tile) -> u64 {
    match t {
        Tile::Regular(r, c) => ((r + 128) * 256 + (c + 128)) as u64,
        Tile::Edge1 => 65536,
        Tile::Edge2 => 65537,
        Tile::Invalid => 65538,
    }
}

/// Distinct tiles have distinct keys.
pub proof fn key_injective(a: Tile, b: Tile)
    requires
        spec_key(a) == spec_key(b),
    ensures
        a == b,
{
    if a is Regular && b is Regular {
        let (r1, c1) = (a->Regular_0 as int, a->Regular_1 as int);
        let (r2, c2) = (b->Regular_0 as int, b->Regular_1 as int);
        vstd::arithmetic::div_mod::lemma_fundamental_div_mod_converse(
            (r1 + 128) * 256 + (c1 + 128),
            256,
            r1 + 128,
            c1 + 128,
        );
        vstd::arithmetic::div_mod::lemma_fundamental_div_mod_converse(
            (r2 + 128) * 256 + (c2 + 128),
            256,
            r2 + 128,
            c2 + 128,
        );
    }
}

fn key_of(t: Tile) -> (k: u64)
    ensures
        k == spec_key(t),
{
    match t {
        Tile::Regular(r, c) => ((r as i64 + 128) * 256 + (c as i64 + 128)) as u64,
        Tile::Edge1 => 65536,
        Tile::Edge2 => 65537,
        Tile::Invalid => 65538,
    }
}

/// The tile a key stands for.
pub open spec fn spec_tile_of(k: u64) -> Tile {
    if k == 65536 {
        Tile::Edge1
    } else if k == 65537 {
        Tile::Edge2
    } else if k < 65536 {
        Tile::Regular((k as int / 256 - 128) as i8, (k as int % 256 - 128) as i8)
    } else {
        Tile::Invalid
    }
}

/// Keys in range decode and re-encode to themselves.
proof fn key_round_trip_rev(k: u64)
    requires
        k <= 65538,
    ensures
        spec_key(spec_tile_of(k)) == k,
{
    if k < 65536 {
        vstd::arithmetic::div_mod::lemma_fundamental_div_mod(k as int, 256);
        assert(0 <= (k as int) % 256 < 256);
        assert(0 <= (k as int) / 256 < 256) by (nonlinear_arith)
            requires
                0 <= k < 65536,
                k as int == 256 * ((k as int) / 256) + (k as int) % 256,
                0 <= (k as int) % 256 < 256,
        ;
        assert(((k as int) / 256 - 128) * 256 + ((k as int) % 256 - 128) + 128 * 256 + 128 == 256
            * ((k as int) / 256) + (k as int) % 256) by (nonlinear_arith);
    }
}

fn tile_of(k: u64) -> (t: Tile)
    requires
        k <= 65538,
    ensures
        t == spec_tile_of(k),
{
    if k == 65536 {
        Tile::Edge1
    } else if k == 65537 {
        Tile::Edge2
    } else if k < 65536 {
        let r = (k / 256) as i64 - 128;
        let c = (k % 256) as i64 - 128;
        Tile::Regular(r as i8, c as i8)
    } else {
        Tile::Invalid
    }
}

#[derive(Clone, Copy)]
struct Node {
    parent: u64,
    rank: u64,
}

/// A disjoint-set forest over tile keys.
pub struct UnionFind {
    map: HashMap<u64, Node>,
    root: Ghost<Map<u64, u64>>,
}

impl UnionFind {
    spec fn dom(self) -> Set<u64> {
        self.map@.dom()
    }

    /// Root key of a key; an unseen key is its own singleton root.
    spec fn rootk(self, k: u64) -> u64 {
        if self.dom().contains(k) {
            self.root@[k]
        } else {
            k
        }
    }

    /// The keys whose root is `r`.
    spec fn class(self, r: u64) -> Set<u64> {
        self.dom().filter(|j: u64| self.root@[j] == r)
    }

    /// The abstract state: whether two tiles lie in one set.
    pub closed spec fn same_set(self, x: Tile, y: Tile) -> bool {
        self.rootk(spec_key(x)) == self.rootk(spec_key(y))
    }

    /// The representative tile of a tile's set.
    pub closed spec fn spec_repr(self, x: Tile) -> Tile {
        spec_tile_of(self.rootk(spec_key(x)))
    }

    /// The forest invariant: parents stay in the map and share their child's
    /// root, roots are their own parents, ranks rise strictly towards the
    /// root, and a root's rank stays below the size of its class.
    #[verifier::opaque]
    pub closed spec fn inv(self) -> bool {
        &&& self.root@.dom() == self.dom()
        &&& forall|k: u64|
            #[trigger] self.dom().contains(k) ==> {
                &&& k <= 65538
                &&& self.dom().contains(self.map@[k].parent)
                &&& self.root@[self.map@[k].parent] == self.root@[k]
                &&& self.dom().contains(self.root@[k])
                &&& self.map@[self.root@[k]].parent == self.root@[k]
                &&& (self.map@[k].parent == k ==> self.root@[k] == k)
                &&& (self.map@[k].parent != k ==> self.map@[self.map@[k].parent].rank
                    > self.map@[k].rank)
                &&& (self.map@[k].parent == k ==> (self.map@[k].rank as int) < self.class(
                    k,
                ).len())
            }
    }

    /// The invariant's clauses for one node.
    proof fn node_facts(self, k: u64)
        requires
            self.inv(),
            self.dom().contains(k),
        ensures
            k <= 65538,
            self.dom().contains(self.map@[k].parent),
            self.root@[self.map@[k].parent] == self.root@[k],
            self.dom().contains(self.root@[k]),
            self.map@[self.root@[k]].parent == self.root@[k],
            self.map@[k].parent == k ==> self.root@[k] == k,
            self.map@[k].parent != k ==> self.map@[self.map@[k].parent].rank > self.map@[k].rank,
            self.root@.dom() == self.dom(),
    {
        reveal(UnionFind::inv);
    }

    /// A root's rank is bounded by the number of keys, so it can always grow.
    proof fn rank_headroom(self, r: u64)
        requires
            self.inv(),
            self.dom().contains(r),
            self.map@[r].parent == r,
        ensures
            self.map@[r].rank < u64::MAX,
    {
        reveal(UnionFind::inv);
        assert((self.map@[r].rank as int) < self.class(r).len());
        self.dom().lemma_len_filter(|j: u64| self.root@[j] == r);
        lemma_len_subset(self.class(r), self.dom());
        assert(vstd::std_specs::hash::spec_hash_map_len(&self.map) == self.dom().len());
    }

    /// Equal root maps give the same abstract relation.
    proof fn relation_from_roots(a: Self, b: Self)
        requires
            b.dom() == a.dom(),
            b.root@ == a.root@,
        ensures
            forall|j: u64| b.rootk(j) == a.rootk(j),
            forall|x: Tile, y: Tile| #[trigger] b.same_set(x, y) == a.same_set(x, y),
    {
        assert forall|x: Tile, y: Tile| #[trigger] b.same_set(x, y) == a.same_set(x, y) by {
            assert(b.rootk(spec_key(x)) == a.rootk(spec_key(x)));
            assert(b.rootk(spec_key(y)) == a.rootk(spec_key(y)));
        };
    }

    /// A fresh structure: every tile is its own singleton.
    pub fn new(size: usize) -> (uf: UnionFind)
        ensures
            uf.inv(),
            forall|x: Tile, y: Tile| #[trigger] uf.same_set(x, y) <==> x == y,
    {
        let map: HashMap<u64, Node> = HashMap::with_capacity(size);
        let uf = UnionFind { map, root: Ghost(Map::empty()) };
        proof {
            reveal(UnionFind::inv);
            assert(uf.root@.dom() =~= uf.dom());
            assert forall|x: Tile, y: Tile| #[trigger] uf.same_set(x, y) implies x == y by {
                key_injective(x, y);
            };
        }
        uf
    }

    /// Adding an unseen key as a singleton keeps the invariant and the
    /// abstract relation.
    proof fn singleton_step(before: Self, after: Self, k: u64)
        requires
            before.inv(),
            !before.dom().contains(k),
            k <= 65538,
            after.map@ == before.map@.insert(k, Node { parent: k, rank: 0 }),
            after.root@ == before.root@.insert(k, k),
        ensures
            after.inv(),
            forall|j: u64| after.rootk(j) == before.rootk(j),
            forall|x: Tile, y: Tile| #[trigger] after.same_set(x, y) == before.same_set(x, y),
            after.rootk(k) == k,
            forall|j: u64| #[trigger] before.dom().contains(j) ==> after.dom().contains(j)
                && after.map@[j] == before.map@[j],
    {
        reveal(UnionFind::inv);
        assert(after.dom() =~= before.dom().insert(k));
        assert(after.root@.dom() =~= after.dom());
        assert(after.class(k) =~= Set::<u64>::empty().insert(k));
        assert(after.class(k).len() == 1);
        assert forall|j: u64| #[trigger]
            after.dom().contains(j) && j != k implies after.class(j) =~= before.class(j) by {};
        assert forall|j: u64| after.rootk(j) == before.rootk(j) by {};
        assert forall|x: Tile, y: Tile| #[trigger]
            after.same_set(x, y) == before.same_set(x, y) by {
            assert(after.rootk(spec_key(x)) == before.rootk(spec_key(x)));
            assert(after.rootk(spec_key(y)) == before.rootk(spec_key(y)));
        };
    }

    /// Re-pointing a non-root node at its grandparent keeps the forest
    /// invariant and every node's rank and root.
    proof fn halving_step(before: Self, after: Self, cur: u64, g: u64)
        requires
            before.inv(),
            before.dom().contains(cur),
            before.map@[cur].parent != cur,
            g == before.map@[before.map@[cur].parent].parent,
            g != before.map@[cur].parent,
            after.map@ == before.map@.insert(cur, Node { parent: g, rank: before.map@[cur].rank }),
            after.root@ == before.root@,
        ensures
            after.inv(),
            after.dom() == before.dom(),
            forall|j: u64|
                #[trigger] after.dom().contains(j) ==> after.map@[j].rank == before.map@[j].rank,
    {
        reveal(UnionFind::inv);
        let p = before.map@[cur].parent;
        assert(before.map@[p].rank > before.map@[cur].rank);
        assert(before.map@[g].rank > before.map@[p].rank);
        assert(after.dom() =~= before.dom());
        assert(after.root@.dom() =~= after.dom());
        assert forall|j: u64| #[trigger]
            after.dom().contains(j) && after.map@[j].parent == j implies after.class(j)
            =~= before.class(j) by {};
        assert forall|j: u64| #[trigger] after.dom().contains(j) implies {
            &&& j <= 65538
            &&& after.dom().contains(after.map@[j].parent)
            &&& after.root@[after.map@[j].parent] == after.root@[j]
            &&& after.dom().contains(after.root@[j])
            &&& after.map@[after.root@[j]].parent == after.root@[j]
            &&& (after.map@[j].parent == j ==> after.root@[j] == j)
            &&& (after.map@[j].parent != j ==> after.map@[after.map@[j].parent].rank
                > after.map@[j].rank)
            &&& (after.map@[j].parent == j ==> (after.map@[j].rank as int) < after.class(j).len())
        } by {
            if j == cur {
                assert(after.root@[g] == before.root@[p]);
            }
            if after.map@[j].parent == j {
                assert(j != cur);
                assert(after.class(j) =~= before.class(j));
            }
        };
    }

    /// Stepping to a strictly higher rank shrinks the set of nodes at or
    /// above the current rank, which bounds the walk to the root.
    proof fn rank_filter_shrinks(before: Self, after: Self, cur: u64, g: u64)
        requires
            after.dom() == before.dom(),
            forall|j: u64|
                #[trigger] after.dom().contains(j) ==> after.map@[j].rank == before.map@[j].rank,
            before.dom().contains(cur),
            before.dom().contains(g),
            before.map@[g].rank > before.map@[cur].rank,
        ensures
            after.dom().filter(|j: u64| after.map@[j].rank >= after.map@[g].rank).len()
                < before.dom().filter(|j: u64| before.map@[j].rank >= before.map@[cur].rank).len(),
    {
        let old_set = before.dom().filter(|j: u64| before.map@[j].rank >= before.map@[cur].rank);
        let new_set = after.dom().filter(|j: u64| after.map@[j].rank >= after.map@[g].rank);
        before.dom().lemma_len_filter(|j: u64| before.map@[j].rank >= before.map@[cur].rank);
        assert(new_set.subset_of(old_set.remove(cur)));
        lemma_len_subset(new_set, old_set.remove(cur));
        assert(old_set.contains(cur));
    }

    /// Root key of `k`, inserting a singleton when the key is unseen.  The
    /// abstract relation never changes.
    fn find_key(&mut self, k: u64) -> (r: u64)
        requires
            old(self).inv(),
            k <= 65538,
        ensures
            final(self).inv(),
            forall|j: u64| final(self).rootk(j) == old(self).rootk(j),
            forall|x: Tile, y: Tile|
                #[trigger] final(self).same_set(x, y) == old(self).same_set(x, y),
            r == old(self).rootk(k),
            final(self).rootk(r) == r,
            final(self).dom().contains(r),
            final(self).map@[r].parent == r,
            r <= 65538,
            forall|j: u64|
                #[trigger] old(self).dom().contains(j) ==> final(self).dom().contains(j),
            forall|j: u64|
                #[trigger] old(self).dom().contains(j) && old(self).map@[j].parent == j
                    ==> final(self).map@[j] == old(self).map@[j],
    {
        if !self.map.contains_key(&k) {
            let ghost before = *self;
            self.map.insert(k, Node { parent: k, rank: 0 });
            proof {
                self.root@ = self.root@.insert(k, k);
                Self::singleton_step(before, *self, k);
                self.node_facts(k);
            }
            return k;
        }
        let ghost orig = *self;
        let mut cur = k;
        loop
            invariant
                orig == *old(self),
                self.inv(),
                self.dom() == orig.dom(),
                self.root@ == orig.root@,
                self.dom().contains(cur),
                self.root@[cur] == orig.rootk(k),
                forall|j: u64|
                    #[trigger] self.dom().contains(j) ==> self.map@[j].rank == orig.map@[j].rank,
                forall|j: u64|
                    #[trigger] orig.dom().contains(j) && orig.map@[j].parent == j
                        ==> self.map@[j] == orig.map@[j],
            decreases self.dom().filter(|j: u64| self.map@[j].rank >= self.map@[cur].rank).len(),
        {
            proof {
                self.node_facts(cur);
            }
            let node = *self.map.get(&cur).unwrap();
            if node.parent == cur {
                proof {
                    Self::relation_from_roots(orig, *self);
                }
                return cur;
            }
            proof {
                self.node_facts(node.parent);
            }
            let pnode = *self.map.get(&node.parent).unwrap();
            if pnode.parent == node.parent {
                proof {
                    Self::relation_from_roots(orig, *self);
                }
                return node.parent;
            }
            let ghost before = *self;
            let g = pnode.parent;
            self.map.insert(cur, Node { parent: g, rank: node.rank });
            proof {
                Self::halving_step(before, *self, cur, g);
                Self::rank_filter_shrinks(before, *self, cur, g);
            }
            cur = g;
        }
    }

    /// Attaching the absorbed root `t` under the surviving root `s` merges
    /// exactly the two classes and keeps the forest invariant.
    proof fn merge_step(before: Self, after: Self, s: u64, t: u64, bump: bool)
        requires
            before.inv(),
            before.dom().contains(s),
            before.dom().contains(t),
            before.map@[s].parent == s,
            before.map@[t].parent == t,
            s != t,
            bump ==> before.map@[s].rank == before.map@[t].rank && before.map@[s].rank < u64::MAX,
            !bump ==> before.map@[s].rank > before.map@[t].rank,
            after.map@ == if bump {
                before.map@.insert(t, Node { parent: s, rank: before.map@[t].rank }).insert(
                    s,
                    Node { parent: s, rank: (before.map@[s].rank + 1) as u64 },
                )
            } else {
                before.map@.insert(t, Node { parent: s, rank: before.map@[t].rank })
            },
            after.root@ == Map::<u64, u64>::new(
                |j: u64| before.root@.dom().contains(j),
                |j: u64|
                    if before.root@[j] == t {
                        s
                    } else {
                        before.root@[j]
                    },
            ),
        ensures
            after.inv(),
            forall|j: u64|
                #[trigger] after.rootk(j) == if before.rootk(j) == t {
                    s
                } else {
                    before.rootk(j)
                },
    {
        reveal(UnionFind::inv);
        assert(before.root@[s] == s);
        assert(before.root@[t] == t);
        assert(after.dom() =~= before.dom());
        assert(after.root@.dom() =~= after.dom());
        // the surviving class swallows the absorbed one; others are untouched
        assert(after.class(s) =~= before.class(s) + before.class(t));
        assert(before.class(s).disjoint(before.class(t)));
        before.dom().lemma_len_filter(|j: u64| before.root@[j] == s);
        before.dom().lemma_len_filter(|j: u64| before.root@[j] == t);
        vstd::set_lib::lemma_set_disjoint_lens(before.class(s), before.class(t));
        assert(before.class(s).contains(s));
        assert(before.class(t).contains(t));
        assert(before.class(s).len() >= 1) by {
            assert(before.class(s).remove(s).insert(s) =~= before.class(s));
            vstd::set_lib::lemma_set_insert_finite_iff(before.class(s).remove(s), s);
        };
        assert(before.class(t).len() >= 1) by {
            assert(before.class(t).remove(t).insert(t) =~= before.class(t));
            vstd::set_lib::lemma_set_insert_finite_iff(before.class(t).remove(t), t);
        };
        assert forall|j: u64| #[trigger]
            after.dom().contains(j) && after.map@[j].parent == j && j != s implies after.class(j)
            =~= before.class(j) by {};
        assert forall|j: u64| #[trigger] after.dom().contains(j) implies {
            &&& j <= 65538
            &&& after.dom().contains(after.map@[j].parent)
            &&& after.root@[after.map@[j].parent] == after.root@[j]
            &&& after.dom().contains(after.root@[j])
            &&& after.map@[after.root@[j]].parent == after.root@[j]
            &&& (after.map@[j].parent == j ==> after.root@[j] == j)
            &&& (after.map@[j].parent != j ==> after.map@[after.map@[j].parent].rank
                > after.map@[j].rank)
            &&& (after.map@[j].parent == j ==> (after.map@[j].rank as int) < after.class(j).len())
        } by {
            if after.map@[j].parent == j && j != s {
                assert(after.class(j) =~= before.class(j));
            }
        };
        assert forall|j: u64|
            #[trigger] after.rootk(j) == (if before.rootk(j) == t {
                s
            } else {
                before.rootk(j)
            }) by {};
    }

    /// The relation after merging the two distinct classes of `x` and `y`
    /// into the class of the surviving root `s`.
    proof fn merged_relation(pre: Self, post: Self, x: Tile, y: Tile, s: u64)
        requires
            pre.rootk(spec_key(x)) != pre.rootk(spec_key(y)),
            s == pre.rootk(spec_key(x)) || s == pre.rootk(spec_key(y)),
            forall|j: u64|
                #[trigger] post.rootk(j) == if pre.rootk(j) == pre.rootk(spec_key(x)) || pre.rootk(
                    j,
                ) == pre.rootk(spec_key(y)) {
                    s
                } else {
                    pre.rootk(j)
                },
        ensures
            forall|a: Tile, b: Tile|
                #[trigger] post.same_set(a, b) <==> pre.same_set(a, b) || (pre.same_set(a, x)
                    && pre.same_set(b, y)) || (pre.same_set(a, y) && pre.same_set(b, x)),
    {
        assert forall|a: Tile, b: Tile|
            #[trigger] post.same_set(a, b) <==> pre.same_set(a, b) || (pre.same_set(a, x)
                && pre.same_set(b, y)) || (pre.same_set(a, y) && pre.same_set(b, x)) by {
            assert(post.rootk(spec_key(a)) == if pre.rootk(spec_key(a)) == pre.rootk(spec_key(x))
                || pre.rootk(spec_key(a)) == pre.rootk(spec_key(y)) {
                s
            } else {
                pre.rootk(spec_key(a))
            });
            assert(post.rootk(spec_key(b)) == if pre.rootk(spec_key(b)) == pre.rootk(spec_key(x))
                || pre.rootk(spec_key(b)) == pre.rootk(spec_key(y)) {
                s
            } else {
                pre.rootk(spec_key(b))
            });
        };
    }

    /// Transfers the merged relation from the remap formula over single
    /// roots to the formula over the pair.
    proof fn union_relation(mid: Self, post: Self, x: Tile, y: Tile, rx: u64, ry: u64, s: u64)
        requires
            rx == mid.rootk(spec_key(x)),
            ry == mid.rootk(spec_key(y)),
            rx != ry,
            s == rx || s == ry,
            forall|j: u64|
                #[trigger] post.rootk(j) == if mid.rootk(j) == (if s == ry {
                    rx
                } else {
                    ry
                }) {
                    s
                } else {
                    mid.rootk(j)
                },
        ensures
            forall|a: Tile, b: Tile|
                #[trigger] post.same_set(a, b) <==> mid.same_set(a, b) || (mid.same_set(a, x)
                    && mid.same_set(b, y)) || (mid.same_set(a, y) && mid.same_set(b, x)),
    {
        assert forall|j: u64|
            #[trigger] post.rootk(j) == (if mid.rootk(j) == rx || mid.rootk(j) == ry {
                s
            } else {
                mid.rootk(j)
            }) by {
            if mid.rootk(j) == s {
                assert(post.rootk(j) == mid.rootk(j));
            }
        };
        Self::merged_relation(mid, post, x, y, s);
    }

    /// Merges the sets of `x` and `y`: afterwards two tiles lie in one set
    /// exactly when they already did, or when they reach across the pair.
    pub fn union(&mut self, x: Tile, y: Tile)
        requires
            old(self).inv(),
        ensures
            final(self).inv(),
            forall|a: Tile, b: Tile|
                #[trigger] final(self).same_set(a, b) <==> old(self).same_set(a, b) || (old(
                    self,
                ).same_set(a, x) && old(self).same_set(b, y)) || (old(self).same_set(a, y) && old(
                    self,
                ).same_set(b, x)),
    {
        let kx = key_of(x);
        let ky = key_of(y);
        let rx = self.find_key(kx);
        let ry = self.find_key(ky);
        let ghost mid = *self;
        if rx == ry {
            proof {
                assert forall|a: Tile, b: Tile|
                    #[trigger] self.same_set(a, b) <==> old(self).same_set(a, b) || (old(
                        self,
                    ).same_set(a, x) && old(self).same_set(b, y)) || (old(self).same_set(a, y)
                        && old(self).same_set(b, x)) by {
                    assert(mid.rootk(spec_key(x)) == old(self).rootk(spec_key(x)));
                    assert(mid.rootk(spec_key(y)) == old(self).rootk(spec_key(y)));
                    assert(mid.rootk(spec_key(a)) == old(self).rootk(spec_key(a)));
                    assert(mid.rootk(spec_key(b)) == old(self).rootk(spec_key(b)));
                };
            }
            return ;
        }
        proof {
            self.node_facts(rx);
            self.node_facts(ry);
        }
        let nx = *self.map.get(&rx).unwrap();
        let ny = *self.map.get(&ry).unwrap();
        let ghost remap = Map::<u64, u64>::new(
            |j: u64| mid.root@.dom().contains(j),
            |j: u64|
                if mid.root@[j] == rx {
                    ry
                } else {
                    mid.root@[j]
                },
        );
        let ghost remap_rev = Map::<u64, u64>::new(
            |j: u64| mid.root@.dom().contains(j),
            |j: u64|
                if mid.root@[j] == ry {
                    rx
                } else {
                    mid.root@[j]
                },
        );
        if nx.rank < ny.rank {
            self.map.insert(rx, Node { parent: ry, rank: nx.rank });
            proof {
                self.root@ = remap;
                Self::merge_step(mid, *self, ry, rx, false);
                Self::union_relation(mid, *self, x, y, rx, ry, ry);
            }
        } else if nx.rank > ny.rank {
            self.map.insert(ry, Node { parent: rx, rank: ny.rank });
            proof {
                self.root@ = remap_rev;
                Self::merge_step(mid, *self, rx, ry, false);
                Self::union_relation(mid, *self, x, y, rx, ry, rx);
            }
        } else {
            proof {
                mid.rank_headroom(ry);
            }
            self.map.insert(rx, Node { parent: ry, rank: nx.rank });
            self.map.insert(ry, Node { parent: ry, rank: ny.rank + 1 });
            proof {
                self.root@ = remap;
                assert(self.map@ == mid.map@.insert(
                    rx,
                    Node { parent: ry, rank: mid.map@[rx].rank },
                ).insert(ry, Node { parent: ry, rank: (mid.map@[ry].rank + 1) as u64 }));
                Self::merge_step(mid, *self, ry, rx, true);
                Self::union_relation(mid, *self, x, y, rx, ry, ry);
            }
        }
    }

    /// Representative of a tile's set; unseen tiles become singletons.
    pub fn find(&mut self, x: Tile) -> (r: Tile)
        requires
            old(self).inv(),
        ensures
            final(self).inv(),
            forall|a: Tile, b: Tile|
                #[trigger] final(self).same_set(a, b) == old(self).same_set(a, b),
            forall|t: Tile| #[trigger] final(self).spec_repr(t) == old(self).spec_repr(t),
            r == old(self).spec_repr(x),
            r == final(self).spec_repr(x),
            final(self).same_set(x, r),
    {
        let k = key_of(x);
        let rk = self.find_key(k);
        let t = tile_of(rk);
        proof {
            key_round_trip_rev(rk);
            assert(spec_key(t) == rk);
            assert(self.rootk(rk) == rk);
        }
        t
    }

    /// Whether two tiles lie in one set; unseen tiles become singletons,
    /// which never changes the relation.
    pub fn connected(&mut self, x: Tile, y: Tile) -> (r: bool)
        requires
            old(self).inv(),
        ensures
            final(self).inv(),
            forall|a: Tile, b: Tile|
                #[trigger] final(self).same_set(a, b) == old(self).same_set(a, b),
            forall|t: Tile| #[trigger] final(self).spec_repr(t) == old(self).spec_repr(t),
            r == old(self).same_set(x, y),
    {
        let kx = key_of(x);
        let ky = key_of(y);
        let rx = self.find_key(kx);
        let ry = self.find_key(ky);
        rx == ry
    }

    /// Two tiles share a representative exactly when they lie in one set.
    pub proof fn repr_characterizes_same_set(self, a: Tile, b: Tile)
        requires
            self.inv(),
        ensures
            self.same_set(a, b) <==> self.spec_repr(a) == self.spec_repr(b),
    {
        let ka = self.rootk(spec_key(a));
        let kb = self.rootk(spec_key(b));
        assert(ka <= 65538 && kb <= 65538) by {
            reveal(UnionFind::inv);
            key_le_bound(a);
            key_le_bound(b);
        };
        if self.spec_repr(a) == self.spec_repr(b) {
            key_round_trip_rev(ka);
            key_round_trip_rev(kb);
        }
    }

    /// A tile is always in its own set.
    pub proof fn same_set_reflexive(self, x: Tile)
        ensures
            self.same_set(x, x),
    {
    }

    /// The relation is symmetric.
    pub proof fn same_set_symmetric(self, x: Tile, y: Tile)
        ensures
            self.same_set(x, y) == self.same_set(y, x),
    {
    }

    /// The relation is transitive.
    pub proof fn same_set_transitive(self, x: Tile, y: Tile, z: Tile)
        requires
            self.same_set(x, y),
            self.same_set(y, z),
        ensures
            self.same_set(x, z),
    {
    }
}

/// Keys of tiles never pass the sentinel range.
proof fn key_le_bound(t: Tile)
    ensures
        spec_key(t) <= 65538,
{
}

} // verus!
