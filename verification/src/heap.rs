//! A binary min-heap of `(key, node)` pairs ordered by key, then node.
//! The open list of the route search: its contents are a multiset, and
//! a pop always removes the least pair.
use vstd::multiset::Multiset;
use vstd::prelude::*;

verus! {

/// The frontier order: by key, ties by node.
pub open spec fn pair_le(a: (u32, u32), b: (u32, u32)) -> bool {
    a.0 < b.0 || (a.0 == b.0 && a.1 <= b.1)
}

/// Whether `a` comes no later than `b` in the frontier order.
fn le(a: (u32, u32), b: (u32, u32)) -> (r: bool)
    ensures
        r == pair_le(a, b),
{
    a.0 < b.0 || (a.0 == b.0 && a.1 <= b.1)
}

/// The parent of slot `i` in the implicit tree.
pub open spec fn parent(i: int) -> int {
    (i - 1) / 2
}

/// Every slot is ordered after its parent, except possibly slot `hole`.
spec fn ordered_except_above(s: Seq<(u32, u32)>, hole: int) -> bool {
    forall|i: int| 0 < i < s.len() && i != hole ==> pair_le(#[trigger] s[parent(i)], s[i])
}

/// Every slot is ordered after its parent, except possibly the children of `hole`.
spec fn ordered_except_below(s: Seq<(u32, u32)>, hole: int) -> bool {
    forall|i: int| 0 < i < s.len() && parent(i) != hole ==> pair_le(#[trigger] s[parent(i)], s[i])
}

/// The children of `hole` are ordered after the parent of `hole`.
spec fn bridged(s: Seq<(u32, u32)>, hole: int) -> bool {
    forall|i: int|
        0 < i < s.len() && parent(i) == hole && 0 < hole ==> pair_le(
            s[parent(hole)],
            #[trigger] s[i],
        )
}

/// Exchanging two entries keeps the contents.
proof fn lemma_swap_multiset(s: Seq<(u32, u32)>, i: int, j: int)
    requires
        0 <= i < s.len(),
        0 <= j < s.len(),
    ensures
        s.update(i, s[j]).update(j, s[i]).to_multiset() == s.to_multiset(),
{
    broadcast use vstd::seq_lib::group_to_multiset_ensures;

    let a = s.update(i, s[j]);
    vstd::seq_lib::to_multiset_update(s, i, s[j]);
    vstd::seq_lib::to_multiset_update(a, j, s[i]);
    assert(a[j] == s[j]);
    assert(s.to_multiset().count(s[i]) > 0) by {
        assert(s.contains(s[i]));
    }
    assert(s.to_multiset().count(s[j]) > 0) by {
        assert(s.contains(s[j]));
    }
    assert(a.update(j, s[i]).to_multiset() =~= s.to_multiset());
}

/// In an ordered heap the root is least.
proof fn lemma_root_is_least(s: Seq<(u32, u32)>, k: int)
    requires
        ordered_except_above(s, -1),
        0 <= k < s.len(),
    ensures
        pair_le(s[0], s[k]),
    decreases k,
{
    if k > 0 {
        lemma_root_is_least(s, parent(k));
        assert(pair_le(s[parent(k)], s[k]));
    }
}

/// The heap.
pub struct MinHeap {
    items: Vec<(u32, u32)>,
}

impl View for MinHeap {
    type V = Multiset<(u32, u32)>;

    closed spec fn view(&self) -> Multiset<(u32, u32)> {
        self.items@.to_multiset()
    }
}

impl MinHeap {
    /// The heap order holds.
    pub closed spec fn wf(&self) -> bool {
        ordered_except_above(self.items@, -1)
    }

    /// An empty heap.
    pub fn new() -> (h: MinHeap)
        ensures
            h.wf(),
            h@ == Multiset::<(u32, u32)>::empty(),
    {
        let h = MinHeap { items: Vec::new() };
        proof {
            assert(h@ =~= Multiset::<(u32, u32)>::empty()) by {
                broadcast use vstd::seq_lib::group_to_multiset_ensures;

                assert(h.items@.len() == 0);
                assert forall|x: (u32, u32)| h@.count(x) == 0 by {
                    assert(!h.items@.contains(x));
                }
            }
        }
        h
    }

    /// Forget everything.
    pub fn clear(&mut self)
        ensures
            final(self).wf(),
            final(self)@ == Multiset::<(u32, u32)>::empty(),
    {
        self.items.clear();
        proof {
            assert(self@ =~= Multiset::<(u32, u32)>::empty()) by {
                broadcast use vstd::seq_lib::group_to_multiset_ensures;

                assert(self.items@.len() == 0);
                assert forall|x: (u32, u32)| self@.count(x) == 0 by {
                    assert(!self.items@.contains(x));
                }
            }
        }
    }

    /// Add one pair.
    pub fn push(&mut self, item: (u32, u32))
        requires
            old(self).wf(),
        ensures
            final(self).wf(),
            final(self)@ == old(self)@.insert(item),
    {
        let mut i: usize = self.items.len();
        self.items.push(item);
        proof {
            broadcast use vstd::seq_lib::group_to_multiset_ensures;

            assert(self.items@ == old(self).items@.push(item));
            assert forall|k: int| 0 < k < self.items@.len() && k != i implies pair_le(
                #[trigger] self.items@[parent(k)],
                self.items@[k],
            ) by {
                assert(old(self).items@[parent(k)] == self.items@[parent(k)]);
            }
            assert(bridged(self.items@, i as int));
        }
        let ghost target = self@;
        while i > 0
            invariant
                i < self.items@.len(),
                ordered_except_above(self.items@, i as int),
                bridged(self.items@, i as int),
                self@ == target,
            ensures
                ordered_except_above(self.items@, -1),
                self@ == target,
            decreases i,
        {
            let p: usize = (i - 1) / 2;
            assert(p == parent(i as int));
            if le(self.items[p], self.items[i]) {
                break ;
            }
            let ghost before = self.items@;
            let a: (u32, u32) = self.items[i];
            let b: (u32, u32) = self.items[p];
            self.items.set(i, b);
            self.items.set(p, a);
            proof {
                lemma_swap_multiset(before, i as int, p as int);
                assert(self.items@ == before.update(i as int, before[p as int]).update(
                    p as int,
                    before[i as int],
                ));
                let after = self.items@;
                assert forall|k: int| 0 < k < after.len() && k != p implies pair_le(
                    #[trigger] after[parent(k)],
                    after[k],
                ) by {
                    if k == i {
                    } else if parent(k) == i {
                        assert(pair_le(before[parent(i as int)], before[k]));
                    } else {
                        assert(pair_le(before[parent(k)], before[k]));
                    }
                }
                assert forall|k: int|
                    0 < k < after.len() && parent(k) == p && 0 < p implies pair_le(
                    after[parent(p as int)],
                    #[trigger] after[k],
                ) by {
                    assert(pair_le(before[parent(p as int)], before[p as int]));
                    if k != i {
                        assert(pair_le(before[parent(k)], before[k]));
                    }
                }
            }
            i = p;
        }
    }

    /// Remove and return the least pair; `None` when empty.
    pub fn pop(&mut self) -> (r: Option<(u32, u32)>)
        requires
            old(self).wf(),
        ensures
            final(self).wf(),
            match r {
                None => old(self)@ == Multiset::<(u32, u32)>::empty() && final(self)@ == old(
                    self,
                )@,
                Some(m) => {
                    &&& old(self)@.contains(m)
                    &&& forall|x: (u32, u32)| #[trigger] old(self)@.contains(x) ==> pair_le(m, x)
                    &&& final(self)@ == old(self)@.remove(m)
                },
            },
    {
        let n: usize = self.items.len();
        if n == 0 {
            proof {
                broadcast use vstd::seq_lib::group_to_multiset_ensures;

                assert(old(self)@ =~= Multiset::<(u32, u32)>::empty()) by {
                    assert forall|x: (u32, u32)| old(self)@.count(x) == 0 by {
                        assert(!old(self).items@.contains(x));
                    }
                }
            }
            return None;
        }
        let least: (u32, u32) = self.items[0];
        let ghost full = self.items@;
        proof {
            broadcast use vstd::seq_lib::group_to_multiset_ensures;

            assert(full.contains(full[0]));
            assert forall|x: (u32, u32)| #[trigger] full.to_multiset().contains(x) implies pair_le(
                full[0],
                x,
            ) by {
                assert(full.contains(x));
                let k = choose|k: int| 0 <= k < full.len() && full[k] == x;
                lemma_root_is_least(full, k);
            }
        }
        let last: (u32, u32) = self.items[n - 1];
        let ghost target = full.to_multiset().remove(full[0]);
        self.items.truncate(n - 1);
        if n == 1 {
            proof {
                broadcast use vstd::seq_lib::group_to_multiset_ensures;

                assert(self.items@ =~= full.remove(0));
            }
            return Some(least);
        }
        self.items.set(0, last);
        proof {
            broadcast use vstd::seq_lib::group_to_multiset_ensures;

            let cut = full.take(n - 1);
            assert(cut =~= full.remove(n - 1));
            vstd::seq_lib::to_multiset_update(cut, 0, last);
            assert(self.items@ =~= cut.update(0, last));
            assert(full.contains(full[n - 1]));
            assert(full.contains(full[0]));
            assert(cut.contains(cut[0]));
            assert(self@ =~= target);
            let s = self.items@;
            assert forall|k: int| 0 < k < s.len() && parent(k) != 0 implies pair_le(
                #[trigger] s[parent(k)],
                s[k],
            ) by {
                assert(pair_le(full[parent(k)], full[k]));
            }
        }
        let mut i: usize = 0;
        while i < (n - 1) / 2
            invariant
                0 < n,
                self.items@.len() == n - 1,
                i < n - 1,
                ordered_except_below(self.items@, i as int),
                bridged(self.items@, i as int),
                self@ == target,
            ensures
                ordered_except_above(self.items@, -1),
                self@ == target,
            decreases n - i,
        {
            let left: usize = 2 * i + 1;
            let mut child: usize = left;
            if left + 1 < n - 1 && le(self.items[left + 1], self.items[left]) {
                child = left + 1;
            }
            let ghost before = self.items@;
            proof {
                assert(parent(child as int) == i);
                assert(parent(left as int) == i);
                assert(parent(left + 1) == i);
                assert forall|k: int| 0 < k < before.len() && parent(k) == i implies pair_le(
                    before[child as int],
                    #[trigger] before[k],
                ) by {
                    assert(k == left || k == left + 1);
                }
            }
            if le(self.items[i], self.items[child]) {
                proof {
                    assert forall|k: int| 0 < k < before.len() && k != -1 implies pair_le(
                        #[trigger] before[parent(k)],
                        before[k],
                    ) by {
                        if parent(k) == i {
                            assert(pair_le(before[child as int], before[k]));
                        }
                    }
                }
                break ;
            }
            let a: (u32, u32) = self.items[i];
            let b: (u32, u32) = self.items[child];
            self.items.set(i, b);
            self.items.set(child, a);
            proof {
                lemma_swap_multiset(before, i as int, child as int);
                let after = self.items@;
                assert(after == before.update(i as int, before[child as int]).update(
                    child as int,
                    before[i as int],
                ));
                assert forall|k: int| 0 < k < after.len() && parent(k) != child implies pair_le(
                    #[trigger] after[parent(k)],
                    after[k],
                ) by {
                    if parent(k) == i {
                        assert(pair_le(before[child as int], before[k]));
                    } else if k == i {
                        assert(parent(child as int) == i);
                        assert(pair_le(before[parent(i as int)], before[child as int]));
                    } else {
                        assert(pair_le(before[parent(k)], before[k]));
                    }
                }
                assert forall|k: int|
                    0 < k < after.len() && parent(k) == child && 0 < child implies pair_le(
                    after[parent(child as int)],
                    #[trigger] after[k],
                ) by {
                    assert(pair_le(before[parent(k)], before[k]));
                }
            }
            i = child;
        }
        Some(least)
    }
}

} // verus!
