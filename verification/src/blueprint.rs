//! A ship blueprint: module cells on a grid, with totals of the modules'
//! fixed figures.
use crate::cell_map::{
    entry_positions, lemma_count_start, lemma_count_step, lists_each_cell_once, CellMap,
};
use crate::module::{module_mass, module_power, module_thrust, ModuleKind};
use crate::vec::IVec2;
use vstd::prelude::*;

verus! {

/// The contents of one blueprint cell.
#[derive(Debug, Clone, Copy, PartialEq, Eq, Structural)]
pub struct Cell {
    pub kind: ModuleKind,
}

/// Module cells keyed by grid position.
pub struct Ship {
    cells: CellMap<Cell>,
}

/// How many cells of `m` hold `kind`.
pub open spec fn cells_of_kind(m: Map<(int, int), Cell>, kind: ModuleKind) -> nat {
    m.dom().filter(|p: (int, int)| m[p].kind == kind).len()
}

/// The total mass of the cells of `m`: each kind's count times its mass.
pub open spec fn mass_of(m: Map<(int, int), Cell>) -> int {
    cells_of_kind(m, ModuleKind::Hull) * module_mass(ModuleKind::Hull) + cells_of_kind(
        m,
        ModuleKind::Thruster,
    ) * module_mass(ModuleKind::Thruster) + cells_of_kind(m, ModuleKind::Reactor) * module_mass(
        ModuleKind::Reactor,
    )
}

/// The net power of the cells of `m`: each kind's count times its power.
pub open spec fn power_of(m: Map<(int, int), Cell>) -> int {
    cells_of_kind(m, ModuleKind::Hull) * module_power(ModuleKind::Hull) + cells_of_kind(
        m,
        ModuleKind::Thruster,
    ) * module_power(ModuleKind::Thruster) + cells_of_kind(m, ModuleKind::Reactor) * module_power(
        ModuleKind::Reactor,
    )
}

/// The total thrust of the cells of `m`: each kind's count times its thrust.
pub open spec fn thrust_of(m: Map<(int, int), Cell>) -> int {
    cells_of_kind(m, ModuleKind::Hull) * module_thrust(ModuleKind::Hull) + cells_of_kind(
        m,
        ModuleKind::Thruster,
    ) * module_thrust(ModuleKind::Thruster) + cells_of_kind(m, ModuleKind::Reactor) * module_thrust(
        ModuleKind::Reactor,
    )
}

impl Ship {
    /// The occupied positions and their cells.
    pub closed spec fn view(&self) -> Map<(int, int), Cell> {
        self.cells.view()
    }

    /// Finitely many positions are occupied.
    pub proof fn lemma_finite(&self)
        ensures
            self@.dom().finite(),
    {
        self.cells.lemma_finite();
    }

    /// An empty blueprint.
    pub fn new() -> (s: Ship)
        ensures
            s@ == Map::<(int, int), Cell>::empty(),
    {
        Ship { cells: CellMap::new() }
    }

    /// Puts a module of `kind` at `at`, replacing what was there.
    pub fn place(&mut self, at: IVec2, kind: ModuleKind)
        ensures
            final(self)@ == old(self)@.insert(at@, Cell { kind }),
    {
        self.cells.insert(at, Cell { kind });
    }

    /// Clears `at`, handing back the cell that was there.
    pub fn remove(&mut self, at: IVec2) -> (r: Option<Cell>)
        ensures
            final(self)@ == old(self)@.remove(at@),
            r == old(self)@.get(at@),
    {
        self.cells.remove(at)
    }

    /// The cell at `at`, if any.
    pub fn get(&self, at: IVec2) -> (r: Option<&Cell>)
        ensures
            match r {
                Some(c) => self@.contains_key(at@) && *c == self@[at@],
                None => !self@.contains_key(at@),
            },
    {
        self.cells.get(at)
    }

    /// Every cell with its position, each once, in no particular order.
    pub fn cells(&self) -> (r: Vec<(IVec2, Cell)>)
        ensures
            lists_each_cell_once(r@, self@),
    {
        self.cells.entries()
    }

    pub fn is_empty(&self) -> (r: bool)
        ensures
            r == self@.dom().is_empty(),
    {
        self.cells.is_empty()
    }

    /// How many cells hold `kind`.
    pub fn count_kind(&self, kind: ModuleKind) -> (n: usize)
        ensures
            n == cells_of_kind(self@, kind),
    {
        let cells = self.cells.entries();
        let ghost ps = entry_positions(cells@);
        let ghost m = self@;
        let ghost pred = |p: (int, int)| m[p].kind == kind;
        let mut n: usize = 0;
        let mut i: usize = 0;
        proof {
            lemma_count_start(ps, pred);
        }
        while i < cells.len()
            invariant
                lists_each_cell_once(cells@, m),
                ps == entry_positions(cells@),
                pred == (|p: (int, int)| m[p].kind == kind),
                0 <= i <= cells.len(),
                n == ps.take(i as int).to_set().filter(pred).len(),
                n <= i,
            decreases cells.len() - i,
        {
            proof {
                lemma_count_step(ps, i as int, pred);
                assert(ps[i as int] == cells@[i as int].0@);
            }
            if cells[i].1.kind == kind {
                n = n + 1;
            }
            i = i + 1;
        }
        proof {
            assert(ps.take(cells.len() as int) =~= ps);
        }
        n
    }

    /// Sums a per-kind figure over all cells.
    fn sum_figure(&self, hull: i32, thruster: i32, reactor: i32) -> (r: i128)
        ensures
            r == cells_of_kind(self@, ModuleKind::Hull) * hull + cells_of_kind(
                self@,
                ModuleKind::Thruster,
            ) * thruster + cells_of_kind(self@, ModuleKind::Reactor) * reactor,
    {
        let h = self.count_kind(ModuleKind::Hull) as i128;
        let t = self.count_kind(ModuleKind::Thruster) as i128;
        let r = self.count_kind(ModuleKind::Reactor) as i128;
        assert(-0x1_0000_0000_0000_0000_0000_0000 <= h * (hull as i128) <= 0x1_0000_0000_0000_0000_0000_0000) by (nonlinear_arith)
            requires
                0 <= h <= usize::MAX,
                i32::MIN <= hull <= i32::MAX,
        ;
        assert(-0x1_0000_0000_0000_0000_0000_0000 <= t * (thruster as i128) <= 0x1_0000_0000_0000_0000_0000_0000) by (nonlinear_arith)
            requires
                0 <= t <= usize::MAX,
                i32::MIN <= thruster <= i32::MAX,
        ;
        assert(-0x1_0000_0000_0000_0000_0000_0000 <= r * (reactor as i128) <= 0x1_0000_0000_0000_0000_0000_0000) by (nonlinear_arith)
            requires
                0 <= r <= usize::MAX,
                i32::MIN <= reactor <= i32::MAX,
        ;
        h * (hull as i128) + t * (thruster as i128) + r * (reactor as i128)
    }

    /// The total mass of all modules.
    pub fn total_mass(&self) -> (r: i128)
        ensures
            r == mass_of(self@),
    {
        self.sum_figure(ModuleKind::Hull.def().mass, ModuleKind::Thruster.def().mass, ModuleKind::Reactor.def().mass)
    }

    /// The net power of all modules: what reactors supply minus what the
    /// other modules draw.
    pub fn power_balance(&self) -> (r: i128)
        ensures
            r == power_of(self@),
    {
        self.sum_figure(ModuleKind::Hull.def().power, ModuleKind::Thruster.def().power, ModuleKind::Reactor.def().power)
    }

    /// The total thrust of all modules.
    pub fn total_thrust(&self) -> (r: i128)
        ensures
            r == thrust_of(self@),
    {
        self.sum_figure(ModuleKind::Hull.def().thrust, ModuleKind::Thruster.def().thrust, ModuleKind::Reactor.def().thrust)
    }
}

/// Placing a cell on an empty position adds one to its kind's count.
proof fn lemma_count_after_insert(m: Map<(int, int), Cell>, p: (int, int), c: Cell, kind: ModuleKind)
    requires
        m.dom().finite(),
        !m.contains_key(p),
    ensures
        cells_of_kind(m.insert(p, c), kind) == cells_of_kind(m, kind) + if c.kind == kind {
            1int
        } else {
            0int
        },
{
    broadcast use vstd::set::group_set_axioms;
    broadcast use vstd::set_lib::group_set_properties;

    let n = m.insert(p, c);
    let before = m.dom().filter(|q: (int, int)| m[q].kind == kind);
    let after = n.dom().filter(|q: (int, int)| n[q].kind == kind);
    if c.kind == kind {
        assert(after =~= before.insert(p));
    } else {
        assert(after =~= before);
    }
}

/// Clearing an occupied position takes one from its kind's count.
proof fn lemma_count_after_remove(m: Map<(int, int), Cell>, p: (int, int), kind: ModuleKind)
    requires
        m.dom().finite(),
        m.contains_key(p),
    ensures
        cells_of_kind(m.remove(p), kind) == cells_of_kind(m, kind) - if m[p].kind == kind {
            1int
        } else {
            0int
        },
{
    broadcast use vstd::set::group_set_axioms;
    broadcast use vstd::set_lib::group_set_properties;

    let n = m.remove(p);
    let before = m.dom().filter(|q: (int, int)| m[q].kind == kind);
    let after = n.dom().filter(|q: (int, int)| n[q].kind == kind);
    if m[p].kind == kind {
        assert(after =~= before.remove(p));
    } else {
        assert(after =~= before);
    }
}

/// Every cell is of exactly one kind: the per-kind counts add up to the number
/// of cells.
pub proof fn lemma_counts_add_up(m: Map<(int, int), Cell>)
    requires
        m.dom().finite(),
    ensures
        cells_of_kind(m, ModuleKind::Hull) + cells_of_kind(m, ModuleKind::Thruster) + cells_of_kind(
            m,
            ModuleKind::Reactor,
        ) == m.dom().len(),
    decreases m.dom().len(),
{
    broadcast use vstd::set::group_set_axioms;
    broadcast use vstd::set_lib::group_set_properties;

    if m.dom().len() == 0 {
        assert(m.dom() =~= Set::<(int, int)>::empty());
        assert(m.dom().filter(|q: (int, int)| m[q].kind == ModuleKind::Hull) =~= Set::<(int, int)>::empty());
        assert(m.dom().filter(|q: (int, int)| m[q].kind == ModuleKind::Thruster) =~= Set::<(int, int)>::empty());
        assert(m.dom().filter(|q: (int, int)| m[q].kind == ModuleKind::Reactor) =~= Set::<(int, int)>::empty());
    } else {
        let p = m.dom().choose();
        assert(m.remove(p).dom() =~= m.dom().remove(p));
        lemma_counts_add_up(m.remove(p));
        lemma_count_after_remove(m, p, ModuleKind::Hull);
        lemma_count_after_remove(m, p, ModuleKind::Thruster);
        lemma_count_after_remove(m, p, ModuleKind::Reactor);
    }
}

/// Placing a module on an empty position adds its mass, power and thrust to
/// the blueprint's totals.
pub proof fn lemma_place_adds_figures(m: Map<(int, int), Cell>, p: (int, int), kind: ModuleKind)
    requires
        m.dom().finite(),
        !m.contains_key(p),
    ensures
        mass_of(m.insert(p, Cell { kind })) == mass_of(m) + module_mass(kind),
        power_of(m.insert(p, Cell { kind })) == power_of(m) + module_power(kind),
        thrust_of(m.insert(p, Cell { kind })) == thrust_of(m) + module_thrust(kind),
{
    lemma_count_after_insert(m, p, Cell { kind }, ModuleKind::Hull);
    lemma_count_after_insert(m, p, Cell { kind }, ModuleKind::Thruster);
    lemma_count_after_insert(m, p, Cell { kind }, ModuleKind::Reactor);
    let n = m.insert(p, Cell { kind });
    lemma_figures_by_count(m);
    lemma_figures_by_count(n);
}

/// The totals in whole units: a hull weighs 1, a thruster 2 and a reactor 4;
/// a thruster draws 5 power and a reactor supplies 20; only thrusters thrust,
/// 10 each.
pub proof fn lemma_figures_by_count(m: Map<(int, int), Cell>)
    ensures
        ({
            let h = cells_of_kind(m, ModuleKind::Hull) as int;
            let t = cells_of_kind(m, ModuleKind::Thruster) as int;
            let r = cells_of_kind(m, ModuleKind::Reactor) as int;
            &&& mass_of(m) == h + 2 * t + 4 * r
            &&& power_of(m) == -5 * t + 20 * r
            &&& thrust_of(m) == 10 * t
        }),
{
    let h = cells_of_kind(m, ModuleKind::Hull) as int;
    let t = cells_of_kind(m, ModuleKind::Thruster) as int;
    let r = cells_of_kind(m, ModuleKind::Reactor) as int;
    let (mh, mt, mr) = (
        module_mass(ModuleKind::Hull),
        module_mass(ModuleKind::Thruster),
        module_mass(ModuleKind::Reactor),
    );
    let (ph, pt, pr) = (
        module_power(ModuleKind::Hull),
        module_power(ModuleKind::Thruster),
        module_power(ModuleKind::Reactor),
    );
    let (th, tt, tr) = (
        module_thrust(ModuleKind::Hull),
        module_thrust(ModuleKind::Thruster),
        module_thrust(ModuleKind::Reactor),
    );
    assert(h * mh + t * mt + r * mr == h + 2 * t + 4 * r) by (nonlinear_arith)
        requires
            mh == 1,
            mt == 2,
            mr == 4,
    ;
    assert(h * ph + t * pt + r * pr == -5 * t + 20 * r) by (nonlinear_arith)
        requires
            ph == 0,
            pt == -5,
            pr == 20,
    ;
    assert(h * th + t * tt + r * tr == 10 * t) by (nonlinear_arith)
        requires
            th == 0,
            tt == 10,
            tr == 0,
    ;
}

/// Removing a module takes its mass, power and thrust off the totals, so
/// removing what was just placed on an empty position restores them.
pub proof fn lemma_remove_subtracts_figures(m: Map<(int, int), Cell>, p: (int, int))
    requires
        m.dom().finite(),
        m.contains_key(p),
    ensures
        mass_of(m.remove(p)) == mass_of(m) - module_mass(m[p].kind),
        power_of(m.remove(p)) == power_of(m) - module_power(m[p].kind),
        thrust_of(m.remove(p)) == thrust_of(m) - module_thrust(m[p].kind),
{
    lemma_count_after_remove(m, p, ModuleKind::Hull);
    lemma_count_after_remove(m, p, ModuleKind::Thruster);
    lemma_count_after_remove(m, p, ModuleKind::Reactor);
    lemma_figures_by_count(m);
    lemma_figures_by_count(m.remove(p));
}

/// Removing a cell just placed on an empty position gives back the blueprint
/// as it was.
pub proof fn lemma_remove_undoes_place(m: Map<(int, int), Cell>, p: (int, int), kind: ModuleKind)
    requires
        !m.contains_key(p),
    ensures
        m.insert(p, Cell { kind }).remove(p) == m,
        m.insert(p, Cell { kind }).get(p) == Some(Cell { kind }),
{
    assert(m.insert(p, Cell { kind }).remove(p) =~= m);
}

impl View for Ship {
    type V = Map<(int, int), Cell>;

    open spec fn view(&self) -> Map<(int, int), Cell> {
        Ship::view(self)
    }
}

} // verus!
