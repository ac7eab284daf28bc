//! A map from grid positions to cell contents, backed by a `HashMap` whose
//! keys pack a position's two coordinates into one `u64`.
use crate::vec::{in_i32_range, IVec2};
use std::collections::HashMap;
use vstd::std_specs::hash::spec_hash_map_iter;
use vstd::std_specs::iter::IteratorSpec;
use vstd::prelude::*;

verus! {

broadcast use vstd::std_specs::hash::group_hash_axioms;

/// `2^32`, the width of one packed coordinate.
pub open spec fn coord_span() -> int {
    4294967296
}

/// The key under which a position is stored: both coordinates shifted to be
/// non-negative, `x` in the high half and `y` in the low half.
pub open spec fn pack(p: (int, int)) -> int {
    (p.0 - i32::MIN) * coord_span() + (p.1 - i32::MIN)
}

/// The position stored under a key.
pub open spec fn unpack(k: int) -> (int, int) {
    (k / coord_span() + i32::MIN, k % coord_span() + i32::MIN)
}

/// Packing is a bijection from `i32` pairs onto `u64` keys: unpacking undoes it.
pub proof fn lemma_unpack_pack(p: (int, int))
    requires
        in_i32_range(p),
    ensures
        0 <= pack(p) <= u64::MAX,
        unpack(pack(p)) == p,
{
    let hi = p.0 - i32::MIN;
    let lo = p.1 - i32::MIN;
    assert(0 <= hi * coord_span() <= (coord_span() - 1) * coord_span()) by (nonlinear_arith)
        requires
            0 <= hi < coord_span(),
    ;
    vstd::arithmetic::div_mod::lemma_fundamental_div_mod_converse(
        pack(p),
        coord_span(),
        hi,
        lo,
    );
}

/// Every `u64` key is the packing of exactly one `i32` pair.
pub proof fn lemma_pack_unpack(k: int)
    requires
        0 <= k <= u64::MAX,
    ensures
        in_i32_range(unpack(k)),
        pack(unpack(k)) == k,
{
    vstd::arithmetic::div_mod::lemma_fundamental_div_mod(k, coord_span());
    assert(k / coord_span() < coord_span()) by {
        vstd::arithmetic::div_mod::lemma_div_is_ordered(k, u64::MAX as int, coord_span());
    }
}

/// Distinct positions are stored under distinct keys.
pub proof fn lemma_pack_injective(p: (int, int), q: (int, int))
    requires
        in_i32_range(p),
        in_i32_range(q),
    ensures
        pack(p) == pack(q) <==> p == q,
{
    lemma_unpack_pack(p);
    lemma_unpack_pack(q);
}

/// The key of a position.
pub fn key_of(at: IVec2) -> (k: u64)
    ensures
        k as int == pack(at@),
{
    proof {
        lemma_unpack_pack(at@);
    }
    let hi = (at.x as i64 + 2147483648) as u64;
    let lo = (at.y as i64 + 2147483648) as u64;
    hi * 4294967296 + lo
}

/// The position stored under a key.
pub fn position_of(k: u64) -> (at: IVec2)
    ensures
        at@ == unpack(k as int),
{
    proof {
        lemma_pack_unpack(k as int);
    }
    let hi = (k / 4294967296) as i64;
    let lo = (k % 4294967296) as i64;
    IVec2 { x: (hi - 2147483648) as i32, y: (lo - 2147483648) as i32 }
}

/// The positions of a list of cells, in list order.
pub open spec fn entry_positions<V>(s: Seq<(IVec2, V)>) -> Seq<(int, int)> {
    s.map_values(|e: (IVec2, V)| e.0@)
}

/// A list that holds every cell of `m` exactly once, in some order.
pub open spec fn lists_each_cell_once<V>(s: Seq<(IVec2, V)>, m: Map<(int, int), V>) -> bool {
    &&& entry_positions(s).no_duplicates()
    &&& entry_positions(s).to_set() == m.dom()
    &&& s.len() == m.dom().len()
    &&& m.dom().finite()
    &&& forall|i: int| 0 <= i < s.len() ==> m.contains_key(#[trigger] s[i].0@) && m[s[i].0@] == s[i].1
}

/// Counting the positions of a duplicate-free list that satisfy `pred`, one
/// more element at a time.
pub proof fn lemma_count_step(ps: Seq<(int, int)>, i: int, pred: spec_fn((int, int)) -> bool)
    requires
        ps.no_duplicates(),
        0 <= i < ps.len(),
    ensures
        ps.take(i + 1).to_set().finite(),
        ps.take(i + 1).to_set().filter(pred).len() == ps.take(i).to_set().filter(pred).len() + if pred(
            ps[i],
        ) {
            1int
        } else {
            0int
        },
{
    broadcast use vstd::seq_lib::group_seq_properties;
    broadcast use vstd::set_lib::group_set_properties;

    let before = ps.take(i).to_set();
    assert(ps.take(i + 1) =~= ps.take(i).push(ps[i]));
    assert(ps.take(i + 1).to_set() == before.insert(ps[i]));
    assert(!before.contains(ps[i])) by {
        if before.contains(ps[i]) {
            let j = choose|j: int| 0 <= j < i && ps.take(i)[j] == ps[i];
            assert(ps[j] == ps[i]);
        }
    }
    if pred(ps[i]) {
        assert(before.insert(ps[i]).filter(pred) =~= before.filter(pred).insert(ps[i]));
    } else {
        assert(before.insert(ps[i]).filter(pred) =~= before.filter(pred));
    }
}

/// Nothing is counted before the first element.
pub proof fn lemma_count_start(ps: Seq<(int, int)>, pred: spec_fn((int, int)) -> bool)
    ensures
        ps.take(0).to_set().filter(pred).len() == 0,
{
    assert(ps.take(0).to_set() =~= Set::<(int, int)>::empty());
    assert(Set::<(int, int)>::empty().filter(pred) =~= Set::<(int, int)>::empty());
}

/// Grid positions mapped to the contents of their cells.
#[verifier::reject_recursive_types(V)]
pub struct CellMap<V> {
    cells: HashMap<u64, V>,
}

impl<V> CellMap<V> {
    /// The occupied positions and what each holds.
    pub closed spec fn view(&self) -> Map<(int, int), V> {
        Map::new(
            |p: (int, int)| in_i32_range(p) && self.cells@.contains_key(pack(p) as u64),
            |p: (int, int)| self.cells@[pack(p) as u64],
        )
    }

    /// Every occupied position fits in an `IVec2`.
    pub proof fn lemma_positions_in_range(&self, p: (int, int))
        requires
            self.view().contains_key(p),
        ensures
            in_i32_range(p),
    {
    }

    /// Finitely many positions are occupied.
    pub proof fn lemma_finite(&self)
        ensures
            self.view().dom().finite(),
    {
        broadcast use vstd::std_specs::hash::axiom_hashmap_view_finite_dom;

        let keys = self.cells@.dom();
        let f = |k: u64| unpack(k as int);
        keys.lemma_map_finite(f);
        assert forall|p: (int, int)| self.view().dom().contains(p) implies keys.map(f).contains(p) by {
            lemma_unpack_pack(p);
            assert(keys.contains(pack(p) as u64));
            assert(f(pack(p) as u64) == p);
        }
        vstd::set_lib::lemma_len_subset(self.view().dom(), keys.map(f));
    }

    pub fn new() -> (m: Self)
        ensures
            m.view() == Map::<(int, int), V>::empty(),
    {
        let m = CellMap { cells: HashMap::new() };
        assert(m.view() =~= Map::<(int, int), V>::empty());
        m
    }

    /// Puts `v` at `at`, replacing whatever was there.
    pub fn insert(&mut self, at: IVec2, v: V) -> (prev: Option<V>)
        ensures
            final(self).view() == old(self).view().insert(at@, v),
            prev == old(self).view().get(at@),
    {
        let k = key_of(at);
        let prev = self.cells.insert(k, v);
        proof {
            assert forall|p: (int, int)| in_i32_range(p) implies (pack(p) as u64 == k) == (p
                == at@) by {
                lemma_pack_injective(p, at@);
                lemma_unpack_pack(p);
            }
            assert(self.view() =~= old(self).view().insert(at@, v));
        }
        prev
    }

    /// Takes out whatever is at `at`.
    pub fn remove(&mut self, at: IVec2) -> (prev: Option<V>)
        ensures
            final(self).view() == old(self).view().remove(at@),
            prev == old(self).view().get(at@),
    {
        let k = key_of(at);
        let prev = self.cells.remove(&k);
        proof {
            assert forall|p: (int, int)| in_i32_range(p) implies (pack(p) as u64 == k) == (p
                == at@) by {
                lemma_pack_injective(p, at@);
                lemma_unpack_pack(p);
            }
            assert(self.view() =~= old(self).view().remove(at@));
        }
        prev
    }

    /// What is at `at`, if anything.
    pub fn get(&self, at: IVec2) -> (r: Option<&V>)
        ensures
            match r {
                Some(v) => self.view().contains_key(at@) && *v == self.view()[at@],
                None => !self.view().contains_key(at@),
            },
    {
        let k = key_of(at);
        self.cells.get(&k)
    }

    /// Every occupied position with its contents, each once, in the map's
    /// own (unspecified) order.
    pub fn entries(&self) -> (r: Vec<(IVec2, V)>)
        where
            V: Copy,
        ensures
            lists_each_cell_once(r@, self.view()),
    {
        let mut r: Vec<(IVec2, V)> = Vec::new();
        proof {
            broadcast use vstd::std_specs::hash::axiom_spec_hash_map_iter;
        }
        let ghost kv = spec_hash_map_iter(&self.cells).remaining();
        for (k, v) in it: self.cells.iter()
            invariant
                it.seq() == kv,
                r@.len() == it.index(),
                forall|i: int|
                    0 <= i < it.index() ==> #[trigger] r@[i].0@ == unpack(*kv[i].0 as int)
                        && r@[i].1 == *kv[i].1,
        {
            let p = position_of(*k);
            r.push((p, *v));
        }
        proof {
            broadcast use vstd::std_specs::hash::axiom_spec_hash_map_iter;
            broadcast use vstd::seq_lib::group_seq_properties;
            let ps = entry_positions(r@);
            let m = self.cells@;
            assert(kv.len() == m.dom().len());
            assert forall|i: int| 0 <= i < r@.len() implies self.view().contains_key(
                #[trigger] r@[i].0@,
            ) && self.view()[r@[i].0@] == r@[i].1 by {
                assert(m.contains_key(*kv[i].0) && m[*kv[i].0] == *kv[i].1);
                lemma_pack_unpack(*kv[i].0 as int);
            }
            assert forall|i: int, j: int|
                0 <= i < ps.len() && 0 <= j < ps.len() && i != j implies ps[i] != ps[j] by {
                assert(ps[i] == r@[i].0@);
                assert(ps[j] == r@[j].0@);
                lemma_pack_unpack(*kv[i].0 as int);
                lemma_pack_unpack(*kv[j].0 as int);
                if ps[i] == ps[j] {
                    assert(*kv[i].0 == *kv[j].0);
                    assert(m.contains_key(*kv[i].0) && m[*kv[i].0] == *kv[i].1);
                    assert(m.contains_key(*kv[j].0) && m[*kv[j].0] == *kv[j].1);
                    assert(kv.unref()[i] == kv.unref()[j]);
                    assert(false);
                }
            }
            assert forall|p: (int, int)| self.view().contains_key(p) implies ps.contains(p) by {
                let k = pack(p) as u64;
                lemma_unpack_pack(p);
                assert(kv.contains((&k, &m[k])));
                let i = choose|i: int| 0 <= i < kv.len() && kv[i] == (&k, &m[k]);
                assert(ps[i] == r@[i].0@);
            }
            assert(ps.to_set() =~= self.view().dom());
            ps.unique_seq_to_set();
        }
        r
    }

    pub fn is_empty(&self) -> (r: bool)
        ensures
            r == self.view().is_empty(),
    {
        let r = self.cells.is_empty();
        proof {
            if !r {
                let k = choose|k: u64| self.cells@.contains_key(k);
                lemma_pack_unpack(k as int);
                assert(self.view().contains_key(unpack(k as int)));
            } else {
                assert(self.cells@.dom() =~= Set::<u64>::empty()) by {
                    assert(self.cells@.len() == 0);
                }
            }
        }
        r
    }
}

} // verus!
