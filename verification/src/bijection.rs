//! A set of board cells with constant-time membership, insertion, removal by
//! value, and uniform-random removal. A dense vector holds the elements and a
//! hash map records each element's position in it, so removal can swap the
//! victim with the last element and truncate instead of scanning.

use vstd::prelude::*;

use crate::rng::random_between;
use crate::Point;
use std::collections::HashMap;

verus! {

/// Injective encoding of a cell as a hash key: both coordinates shifted into
/// the non-negative range, then paired positionally.
pub closed spec fn point_key(p: Point) -> u64 {
    (((p.x + 0x8000) * 0x10000) + (p.y + 0x8000)) as u64
}

proof fn lemma_point_key_injective(p: Point, q: Point)
    requires
        point_key(p) == point_key(q),
    ensures
        p == q,
{
    let a = p.x + 0x8000;
    let b = p.y + 0x8000;
    let c = q.x + 0x8000;
    let d = q.y + 0x8000;
    assert(0 <= a < 0x10000 && 0 <= b < 0x10000 && 0 <= c < 0x10000 && 0 <= d < 0x10000);
    assert(a * 0x10000 + b == c * 0x10000 + d);
    assert(a == c && b == d);
}

fn key_of(p: &Point) -> (k: u64)
    ensures
        k == point_key(*p),
{
    let xk = (p.x as i32 + 0x8000) as u64;
    let yk = (p.y as i32 + 0x8000) as u64;
    xk * 0x10000 + yk
}

/// The free-cell set: a bijection between `0 .. vec.len()` and the cells it
/// currently holds.
pub struct Bijection {
    vec: Vec<Point>,
    map: HashMap<u64, usize>,
}

impl View for Bijection {
    type V = Set<Point>;

    closed spec fn view(&self) -> Set<Point> {
        self.vec@.to_set()
    }
}

impl Bijection {
    /// The element vector has no repeats and the map holds exactly the
    /// index of every element, keyed by its encoding.
    pub closed spec fn wf(self) -> bool {
        &&& self.vec@.no_duplicates()
        &&& forall|i: int|
            0 <= i < self.vec@.len() ==> self.map@.contains_key(
                #[trigger] point_key(self.vec@[i]),
            )
        &&& forall|i: int|
            0 <= i < self.vec@.len() ==> self.map@[#[trigger] point_key(self.vec@[i])] == i
        &&& forall|k: u64|
            #[trigger] self.map@.contains_key(k) ==> exists|i: int|
                0 <= i < self.vec@.len() && point_key(self.vec@[i]) == k
    }

    /// The set a bijection holds is always finite.
    pub proof fn lemma_finite(&self)
        ensures
            self@.finite(),
    {
        vstd::seq_lib::seq_to_set_is_finite::<Point>(self.vec@);
    }

    pub fn new() -> (s: Self)
        ensures
            s.wf(),
            s@ == Set::<Point>::empty(),
    {
        let s = Self { vec: Vec::new(), map: HashMap::new() };
        proof {
            assert(s.vec@.to_set() =~= Set::<Point>::empty());
        }
        s
    }

    pub fn with_capacity(capacity: usize) -> (s: Self)
        ensures
            s.wf(),
            s@ == Set::<Point>::empty(),
    {
        let s = Self { vec: Vec::with_capacity(capacity), map: HashMap::with_capacity(capacity) };
        proof {
            assert(s.vec@.to_set() =~= Set::<Point>::empty());
        }
        s
    }

    pub fn len(&self) -> (n: usize)
        requires
            self.wf(),
        ensures
            n == self@.len(),
    {
        proof {
            self.vec@.unique_seq_to_set();
        }
        self.vec.len()
    }

    pub fn contains(&self, elem: Point) -> (r: bool)
        requires
            self.wf(),
        ensures
            r == self@.contains(elem),
    {
        let k = key_of(&elem);
        let r = self.map.contains_key(&k);
        proof {
            if self.map@.contains_key(k) {
                let i = choose|i: int|
                    0 <= i < self.vec@.len() && point_key(self.vec@[i]) == k;
                lemma_point_key_injective(self.vec@[i], elem);
                assert(self.vec@.contains(elem));
            }
            if self@.contains(elem) {
                let i = choose|i: int| 0 <= i < self.vec@.len() && self.vec@[i] == elem;
                assert(self.map@.contains_key(point_key(self.vec@[i])));
            }
        }
        r
    }

    /// Adds a cell that is not yet present; double insertion is a caller
    /// error, ruled out by the precondition.
    pub fn insert(&mut self, elem: Point)
        requires
            old(self).wf(),
            !old(self)@.contains(elem),
        ensures
            final(self).wf(),
            final(self)@ == old(self)@.insert(elem),
    {
        let k = key_of(&elem);
        let n = self.vec.len();
        self.map.insert(k, n);
        self.vec.push(elem);
        proof {
            let v0 = old(self).vec@;
            let v1 = self.vec@;
            assert(!v0.contains(elem));
            assert forall|i: int| 0 <= i < v1.len() implies self.map@.contains_key(
                #[trigger] point_key(v1[i]),
            ) && self.map@[point_key(v1[i])] == i by {
                if i < v0.len() {
                    assert(v1[i] == v0[i]);
                    assert(v0[i] != elem);
                    lemma_point_key_injective_contra(v0[i], elem);
                }
            }
            assert forall|kk: u64| #[trigger] self.map@.contains_key(kk) implies exists|i: int|
                0 <= i < v1.len() && point_key(v1[i]) == kk by {
                if kk == k {
                    assert(point_key(v1[v0.len() as int]) == kk);
                } else {
                    let i = choose|i: int| 0 <= i < v0.len() && point_key(v0[i]) == kk;
                    assert(point_key(v1[i]) == kk);
                }
            }
            assert(v1.no_duplicates());
            assert(v1.to_set() =~= v0.to_set().insert(elem)) by {
                assert forall|p: Point| v1.contains(p) implies v0.contains(p) || p == elem by {
                    let i = choose|i: int| 0 <= i < v1.len() && v1[i] == p;
                    if i < v0.len() {
                        assert(v0[i] == p);
                    }
                }
                assert forall|p: Point| v0.contains(p) implies v1.contains(p) by {
                    let i = choose|i: int| 0 <= i < v0.len() && v0[i] == p;
                    assert(v1[i] == p);
                }
                assert(v1.contains(elem)) by {
                    assert(v1[v0.len() as int] == elem);
                }
            }
        }
    }

    /// Removes a present cell by swapping it with the last element and
    /// truncating, after redirecting the swapped element's index entry.
    pub fn remove_elem(&mut self, elem: &Point)
        requires
            old(self).wf(),
            old(self)@.contains(*elem),
        ensures
            final(self).wf(),
            final(self)@ == old(self)@.remove(*elem),
    {
        let ghost v0 = self.vec@;
        let ghost m0 = self.map@;
        let k = key_of(elem);
        proof {
            let j = choose|j: int| 0 <= j < v0.len() && v0[j] == *elem;
            assert(m0.contains_key(point_key(v0[j])));
        }
        let i = *self.map.get(&k).unwrap();
        proof {
            let j = choose|j: int| 0 <= j < v0.len() && v0[j] == *elem;
            assert(m0[point_key(v0[j])] == j);
            assert(i == j);
            assert(v0[i as int] == *elem);
        }
        let removed = self.vec.swap_remove(i);
        let n = self.vec.len();
        if i < n {
            let moved = self.vec[i];
            let mk = key_of(&moved);
            proof {
                assert(moved == v0[v0.len() - 1]);
                assert(moved != *elem) by {
                    assert(v0[i as int] != v0[v0.len() - 1]);
                }
                lemma_point_key_injective_contra(moved, *elem);
            }
            self.map.insert(mk, i);
        }
        self.map.remove(&k);
        proof {
            let v1 = self.vec@;
            let m1 = self.map@;
            let last = v0[v0.len() - 1];
            // How the vector changed, in both shapes of the swap.
            assert(v1 == v0.update(i as int, last).drop_last());
            assert forall|j: int| 0 <= j < v1.len() implies v1[j] == (if j == i {
                last
            } else {
                v0[j]
            }) by {}
            assert(v1.no_duplicates()) by {
                assert forall|a: int, b: int|
                    0 <= a < v1.len() && 0 <= b < v1.len() && a != b implies v1[a] != v1[b] by {
                    if a == i {
                        assert(v1[a] == v0[v0.len() - 1] && v1[b] == v0[b]);
                    } else if b == i {
                        assert(v1[b] == v0[v0.len() - 1] && v1[a] == v0[a]);
                    }
                }
            }
            assert forall|j: int| 0 <= j < v1.len() implies m1.contains_key(
                #[trigger] point_key(v1[j]),
            ) && m1[point_key(v1[j])] == j by {
                if j == i {
                    // the moved element's entry was redirected to i
                    assert(point_key(v1[j]) != point_key(*elem)) by {
                        lemma_point_key_injective_contra(v1[j], *elem);
                        assert(v1[j] == v0[v0.len() - 1]);
                        assert(v0[i as int] != v0[v0.len() - 1]);
                    }
                } else {
                    assert(v1[j] == v0[j]);
                    assert(m0.contains_key(point_key(v0[j])) && m0[point_key(v0[j])] == j);
                    assert(point_key(v0[j]) != point_key(*elem)) by {
                        lemma_point_key_injective_contra(v0[j], *elem);
                        assert(v0[j] != v0[i as int]);
                    }
                    if i < v1.len() {
                        assert(point_key(v0[j]) != point_key(v0[v0.len() - 1])) by {
                            lemma_point_key_injective_contra(v0[j], v0[v0.len() - 1]);
                            assert(v0[j] != v0[v0.len() - 1]);
                        }
                    }
                }
            }
            assert forall|kk: u64| #[trigger] m1.contains_key(kk) implies exists|j: int|
                0 <= j < v1.len() && point_key(v1[j]) == kk by {
                assert(kk != point_key(*elem));
                if i < v1.len() && kk == point_key(v0[v0.len() - 1]) {
                    assert(point_key(v1[i as int]) == kk);
                } else {
                    assert(m0.contains_key(kk));
                    let j = choose|j: int| 0 <= j < v0.len() && point_key(v0[j]) == kk;
                    assert(j != i) by {
                        if j == i {
                            lemma_point_key_injective(v0[j], *elem);
                        }
                    }
                    assert(j != v0.len() - 1) by {
                        if i < v1.len() && j == v0.len() - 1 {
                            assert(kk == point_key(v0[v0.len() - 1]));
                        }
                    }
                    assert(point_key(v1[j]) == kk);
                }
            }
            assert(v1.to_set() =~= v0.to_set().remove(*elem)) by {
                assert forall|p: Point| v1.contains(p) implies v0.contains(p) && p != *elem by {
                    let j = choose|j: int| 0 <= j < v1.len() && v1[j] == p;
                    if j == i {
                        assert(v0[v0.len() - 1] == p);
                        assert(v0[i as int] != v0[v0.len() - 1]);
                    } else {
                        assert(v0[j] == p);
                        assert(v0[j] != v0[i as int]);
                    }
                }
                assert forall|p: Point| v0.contains(p) && p != *elem implies v1.contains(p) by {
                    let j = choose|j: int| 0 <= j < v0.len() && v0[j] == p;
                    assert(j != i);
                    if j == v0.len() - 1 {
                        assert(i < v1.len());
                        assert(v1[i as int] == p);
                    } else {
                        assert(v1[j] == p);
                    }
                }
            }
        }
    }

    /// Removes and returns a uniformly random element, so food placement is
    /// not biased toward insertion order.
    pub fn pop_random(&mut self) -> (r: Point)
        requires
            old(self).wf(),
            old(self)@.len() > 0,
        ensures
            final(self).wf(),
            old(self)@.contains(r),
            final(self)@ == old(self)@.remove(r),
    {
        proof {
            self.vec@.unique_seq_to_set();
        }
        let i = random_between(0, self.vec.len() - 1);
        let elem = self.vec[i];
        proof {
            assert(self.vec@.contains(self.vec@[i as int]));
        }
        self.remove_elem(&elem);
        elem
    }
}

/// Distinct cells have distinct keys: the contrapositive of injectivity.
proof fn lemma_point_key_injective_contra(p: Point, q: Point)
    requires
        p != q,
    ensures
        point_key(p) != point_key(q),
{
    if point_key(p) == point_key(q) {
        lemma_point_key_injective(p, q);
    }
}

} // verus!
