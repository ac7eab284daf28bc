//! Column-major ordering of grid positions, and sorting cells into it.
use crate::cell_map::entry_positions;
use crate::vec::IVec2;
use vstd::prelude::*;

verus! {

/// `a` comes before `b`: smaller `x` first, then smaller `y`.
pub open spec fn pos_lt(a: (int, int), b: (int, int)) -> bool {
    a.0 < b.0 || (a.0 == b.0 && a.1 < b.1)
}

/// Every position comes before all later ones (so none repeats).
pub open spec fn strictly_ascending(s: Seq<(int, int)>) -> bool {
    forall|i: int, j: int| 0 <= i < j < s.len() ==> pos_lt(#[trigger] s[i], #[trigger] s[j])
}

/// The positions of `s` listed in ascending order.
pub open spec fn ascending_positions(s: Set<(int, int)>) -> Seq<(int, int)> {
    choose|q: Seq<(int, int)>| strictly_ascending(q) && q.to_set() == s
}

/// A set has at most one ascending listing.
pub proof fn lemma_ascending_unique(a: Seq<(int, int)>, b: Seq<(int, int)>)
    requires
        strictly_ascending(a),
        strictly_ascending(b),
        a.to_set() == b.to_set(),
    ensures
        a == b,
    decreases a.len(),
{
    broadcast use vstd::seq_lib::group_seq_properties;

    if a.len() == 0 {
        if b.len() > 0 {
            assert(b.to_set().contains(b[0]));
        }
        assert(a =~= b);
    } else {
        assert(b.len() > 0) by {
            assert(a.to_set().contains(a[0]));
        }
        assert(a[0] == b[0]) by {
            assert(b.to_set().contains(a[0]));
            assert(a.to_set().contains(b[0]));
            let i = choose|i: int| 0 <= i < b.len() && b[i] == a[0];
            let j = choose|j: int| 0 <= j < a.len() && a[j] == b[0];
            if i > 0 {
                assert(pos_lt(b[0], b[i]));
            }
            if j > 0 {
                assert(pos_lt(a[0], a[j]));
            }
        }
        let ra = a.drop_first();
        let rb = b.drop_first();
        assert(strictly_ascending(ra)) by {
            assert forall|i: int, j: int| 0 <= i < j < ra.len() implies pos_lt(ra[i], ra[j]) by {
                assert(ra[i] == a[i + 1] && ra[j] == a[j + 1]);
            }
        }
        assert(strictly_ascending(rb)) by {
            assert forall|i: int, j: int| 0 <= i < j < rb.len() implies pos_lt(rb[i], rb[j]) by {
                assert(rb[i] == b[i + 1] && rb[j] == b[j + 1]);
            }
        }
        assert(ra.to_set() =~= rb.to_set()) by {
            assert forall|p: (int, int)| ra.to_set().contains(p) implies rb.to_set().contains(p) by {
                let i = choose|i: int| 0 <= i < ra.len() && ra[i] == p;
                assert(a[i + 1] == p);
                assert(pos_lt(a[0], p));
                assert(a.to_set().contains(p));
                let j = choose|j: int| 0 <= j < b.len() && b[j] == p;
                assert(j != 0);
                assert(rb[j - 1] == p);
            }
            assert forall|p: (int, int)| rb.to_set().contains(p) implies ra.to_set().contains(p) by {
                let i = choose|i: int| 0 <= i < rb.len() && rb[i] == p;
                assert(b[i + 1] == p);
                assert(pos_lt(b[0], p));
                assert(b.to_set().contains(p));
                let j = choose|j: int| 0 <= j < a.len() && a[j] == p;
                assert(j != 0);
                assert(ra[j - 1] == p);
            }
        }
        lemma_ascending_unique(ra, rb);
        assert(a =~= b) by {
            assert forall|i: int| 0 <= i < a.len() implies a[i] == b[i] by {
                if i > 0 {
                    assert(a[i] == ra[i - 1] && b[i] == rb[i - 1]);
                }
            }
        }
    }
}

/// Any ascending listing of a set is the one `ascending_positions` names.
pub proof fn lemma_is_ascending_positions(q: Seq<(int, int)>, s: Set<(int, int)>)
    requires
        strictly_ascending(q),
        q.to_set() == s,
    ensures
        ascending_positions(s) == q,
{
    let c = ascending_positions(s);
    assert(strictly_ascending(c) && c.to_set() == s);
    lemma_ascending_unique(c, q);
}

/// A finite non-empty set of positions has a first position.
pub proof fn lemma_first_exists(s: Set<(int, int)>) -> (m: (int, int))
    requires
        s.finite(),
        s.len() > 0,
    ensures
        s.contains(m),
        forall|q: (int, int)| s.contains(q) && q != m ==> pos_lt(m, q),
    decreases s.len(),
{
    broadcast use vstd::set::group_set_axioms;
    broadcast use vstd::set_lib::group_set_properties;

    let x = s.choose();
    if s.len() == 1 {
        assert forall|q: (int, int)| s.contains(q) implies q == x by {
            if q != x {
                assert(s.remove(x).contains(q));
                assert(s.remove(x).len() == 0);
            }
        }
        x
    } else {
        let rest = s.remove(x);
        let m0 = lemma_first_exists(rest);
        if pos_lt(x, m0) {
            x
        } else {
            m0
        }
    }
}

/// Every finite set of positions has an ascending listing.
pub proof fn lemma_ascending_exists(s: Set<(int, int)>)
    requires
        s.finite(),
    ensures
        strictly_ascending(ascending_positions(s)),
        ascending_positions(s).to_set() == s,
    decreases s.len(),
{
    broadcast use vstd::set::group_set_axioms;
    broadcast use vstd::set_lib::group_set_properties;
    broadcast use vstd::seq_lib::group_seq_properties;

    if s.len() == 0 {
        let q = Seq::<(int, int)>::empty();
        assert(q.to_set() =~= s);
        assert(strictly_ascending(q));
    } else {
        let m = lemma_first_exists(s);
        let rest = s.remove(m);
        lemma_ascending_exists(rest);
        let tail = ascending_positions(rest);
        let q = seq![m] + tail;
        assert(strictly_ascending(q)) by {
            assert forall|i: int, j: int| 0 <= i < j < q.len() implies pos_lt(q[i], q[j]) by {
                assert(q[j] == tail[j - 1]);
                assert(tail.to_set().contains(tail[j - 1]));
                if i > 0 {
                    assert(q[i] == tail[i - 1]);
                }
            }
        }
        assert(q.to_set() =~= s) by {
            assert forall|p: (int, int)| q.to_set().contains(p) implies s.contains(p) by {
                let i = choose|i: int| 0 <= i < q.len() && q[i] == p;
                if i > 0 {
                    assert(q[i] == tail[i - 1]);
                    assert(tail.to_set().contains(tail[i - 1]));
                }
            }
            assert forall|p: (int, int)| s.contains(p) implies q.to_set().contains(p) by {
                if p == m {
                    assert(q[0] == p);
                } else {
                    assert(rest.contains(p));
                    let i = choose|i: int| 0 <= i < tail.len() && tail[i] == p;
                    assert(q[i + 1] == p);
                }
            }
        }
        lemma_is_ascending_positions(q, s);
    }
}

/// Whether `a` comes before `b`.
pub fn position_before(a: IVec2, b: IVec2) -> (r: bool)
    ensures
        r == pos_lt(a@, b@),
{
    a.x < b.x || (a.x == b.x && a.y < b.y)
}

/// The cells sorted by position: by `x`, then by `y`.
pub fn sort_by_position<V: Copy>(cells: &Vec<(IVec2, V)>) -> (r: Vec<(IVec2, V)>)
    requires
        entry_positions(cells@).no_duplicates(),
    ensures
        strictly_ascending(entry_positions(r@)),
        entry_positions(r@).to_set() == entry_positions(cells@).to_set(),
        r@.len() == cells@.len(),
        forall|i: int| 0 <= i < r@.len() ==> cells@.contains(#[trigger] r@[i]),
{
    let ghost ps = entry_positions(cells@);
    let mut r: Vec<(IVec2, V)> = Vec::new();
    let mut k: usize = 0;
    proof {
        assert(entry_positions(r@).to_set() =~= ps.take(0).to_set());
    }
    while k < cells.len()
        invariant
            ps == entry_positions(cells@),
            ps.no_duplicates(),
            0 <= k <= cells.len(),
            r@.len() == k,
            strictly_ascending(entry_positions(r@)),
            entry_positions(r@).to_set() == ps.take(k as int).to_set(),
            forall|i: int| 0 <= i < r@.len() ==> cells@.contains(#[trigger] r@[i]),
        decreases cells.len() - k,
    {
        let e = cells[k];
        let ghost rs = entry_positions(r@);
        let ghost old_r = r@;
        proof {
            broadcast use vstd::seq_lib::group_seq_properties;
            assert(ps[k as int] == e.0@);
            assert(!rs.to_set().contains(e.0@)) by {
                if ps.take(k as int).to_set().contains(e.0@) {
                    let i = choose|i: int| 0 <= i < k && ps.take(k as int)[i] == e.0@;
                    assert(ps[i] == ps[k as int]);
                }
            }
        }
        let mut j: usize = 0;
        while j < r.len() && !position_before(e.0, r[j].0)
            invariant
                r@ == old_r,
                rs == entry_positions(r@),
                !rs.to_set().contains(e.0@),
                0 <= j <= r@.len(),
                forall|i: int| 0 <= i < j ==> pos_lt(#[trigger] rs[i], e.0@),
            decreases r@.len() - j,
        {
            proof {
                assert(rs[j as int] == r@[j as int].0@);
                assert(rs.to_set().contains(rs[j as int]));
            }
            j = j + 1;
        }
        r.insert(j, e);
        proof {
            broadcast use vstd::seq_lib::group_seq_properties;
            let ns = entry_positions(r@);
            assert(ns =~= rs.insert(j as int, e.0@));
            rs.insert_ensures(j as int, e.0@);
            if j < rs.len() {
                assert(rs[j as int] == old_r[j as int].0@);
                assert(pos_lt(e.0@, rs[j as int]));
            }
            assert forall|a: int, b: int| 0 <= a < b < ns.len() implies pos_lt(
                #[trigger] ns[a],
                #[trigger] ns[b],
            ) by {
                if b < j {
                    assert(ns[a] == rs[a] && ns[b] == rs[b]);
                } else if b == j {
                    assert(ns[a] == rs[a]);
                } else if a < j {
                    assert(ns[a] == rs[a] && ns[b] == rs[b - 1]);
                    assert(pos_lt(rs[a], e.0@));
                    if b - 1 > j {
                        assert(pos_lt(rs[j as int], rs[b - 1]));
                    }
                } else if a == j {
                    assert(ns[b] == rs[b - 1]);
                    if b - 1 > j {
                        assert(pos_lt(rs[j as int], rs[b - 1]));
                    }
                } else {
                    assert(ns[a] == rs[a - 1] && ns[b] == rs[b - 1]);
                }
            }
            assert(ps.take(k + 1) =~= ps.take(k as int).push(e.0@));
            assert(ns.to_set() =~= ps.take(k + 1).to_set()) by {
                assert forall|p: (int, int)| ns.to_set().contains(p) implies ps.take(
                    k + 1,
                ).to_set().contains(p) by {
                    let i = choose|i: int| 0 <= i < ns.len() && ns[i] == p;
                    if i < j {
                        assert(rs.to_set().contains(rs[i]));
                    } else if i > j {
                        assert(ns[i] == rs[i - 1]);
                        assert(rs.to_set().contains(rs[i - 1]));
                    }
                }
                assert forall|p: (int, int)| ps.take(k + 1).to_set().contains(p) implies ns.to_set().contains(
                    p,
                ) by {
                    if p != e.0@ {
                        assert(ps.take(k as int).to_set().contains(p));
                        let i = choose|i: int| 0 <= i < rs.len() && rs[i] == p;
                        if i < j {
                            assert(ns[i] == p);
                        } else {
                            assert(ns[i + 1] == p);
                        }
                    } else {
                        assert(ns[j as int] == p);
                    }
                }
            }
            assert forall|i: int| 0 <= i < r@.len() implies cells@.contains(#[trigger] r@[i]) by {
                if i < j {
                    assert(r@[i] == old_r[i]);
                } else if i > j {
                    assert(r@[i] == old_r[i - 1]);
                } else {
                    assert(r@[i] == cells@[k as int]);
                }
            }
        }
        k = k + 1;
    }
    proof {
        assert(ps.take(cells.len() as int) =~= ps);
    }
    r
}

} // verus!
