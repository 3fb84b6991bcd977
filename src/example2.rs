//! A Fibonacci circuit in a single advice column: its constraint relates three
//! consecutive rows through rotations, `a(r) + a(r + 1) = a(r + 2)`.
use vstd::prelude::*;
use crate::circuit::{Column, ColumnKind, ConstraintSystem, Error, Expression, Selector};
use crate::layout::{
    add_values,
    instance_value,
    fib_value,
    lemma_fib_value_ok,
    value_add,
    AssignedCell,
    Layouter,
    RegionInfo,
};
use crate::mock::Circuit;
use crate::table::{Assignment, Cell};

verus! {

#[derive(Clone, Copy, Debug)]
pub struct FiboConfig {
    pub advice: Column,
    pub selector: Selector,
    pub instance: Column,
}

impl FiboConfig {
    /// The columns and the selector exist in `t`, with the right kinds.
    pub open spec fn fits(&self, t: &Assignment) -> bool {
        &&& self.advice.kind == ColumnKind::Advice && t.column_declared(self.advice)
        &&& self.instance.kind == ColumnKind::Instance && t.column_declared(self.instance)
        &&& self.selector.index < t.num_selectors
    }

    /// Copies are allowed on both columns.
    pub open spec fn enabled(&self, t: &Assignment) -> bool {
        t.equality_enabled(self.advice) && t.equality_enabled(self.instance)
    }

    pub fn is_enabled(&self, t: &Assignment) -> (r: bool)
        ensures
            r == self.enabled(t),
    {
        t.is_equality_enabled(self.advice) && t.is_equality_enabled(self.instance)
    }
}

/// `s * (a(0) + a(1) - a(2))`, with `a` queried at rotations 0, 1 and 2.
pub open spec fn column_gate(s: Selector, a: Column) -> Expression {
    Expression::Product(
        Box::new(Expression::Selector(s)),
        Box::new(
            Expression::Difference(
                Box::new(
                    Expression::Sum(
                        Box::new(Expression::Query(a, 0)),
                        Box::new(Expression::Query(a, 1)),
                    ),
                ),
                Box::new(Expression::Query(a, 2)),
            ),
        ),
    )
}

#[derive(Clone, Copy, Debug)]
pub struct FiboChip {
    pub config: FiboConfig,
}

impl FiboChip {
    pub fn construct(config: FiboConfig) -> (r: Self)
        ensures
            r.config == config,
    {
        FiboChip { config }
    }

    /// Allocates a selector, enables copies on `advice` and `instance`, and
    /// registers the constraint `s * (a(0) + a(1) - a(2))` over `advice`; a
    /// column that is not an allocated column of the right kind is refused.
    pub fn configure(meta: &mut ConstraintSystem, advice: Column, instance: Column) -> (r: Result<
        FiboConfig,
        Error,
    >)
        requires
            old(meta).wf(),
            old(meta).num_selectors + 1 <= usize::MAX,
        ensures
            final(meta).wf(),
            r is Err <==> !(advice.kind == ColumnKind::Advice && old(meta).column_declared(advice)
                && instance.kind == ColumnKind::Instance && old(meta).column_declared(instance)),
            r is Err ==> r == Err::<FiboConfig, Error>(Error::UndeclaredColumnReference) && *final(meta)
                == *old(meta),
            r is Ok ==> {
                let config = r->Ok_0;
                &&& config == (FiboConfig {
                    advice,
                    selector: Selector { index: old(meta).num_selectors },
                    instance,
                })
                &&& final(meta).num_advice == old(meta).num_advice
                &&& final(meta).num_instance == old(meta).num_instance
                &&& final(meta).num_fixed == old(meta).num_fixed
                &&& final(meta).num_selectors == old(meta).num_selectors + 1
                &&& forall|x: Column|
                    #[trigger] final(meta).equality_enabled(x) <==> old(meta).equality_enabled(x) || x
                        == advice || x == instance
                &&& final(meta).gates@.len() == old(meta).gates@.len() + 1
                &&& final(meta).gates@.subrange(0, old(meta).gates@.len() as int) == old(meta).gates@
                &&& final(meta).gates@.last().name@ == "add"@
                &&& final(meta).gates@.last().polys@ == seq![column_gate(config.selector, advice)]
                &&& forall|t: Assignment| #[trigger] t.fits(final(meta)) ==> config.fits(&t) && config.enabled(&t)
            },
    {
        if !(advice.kind == ColumnKind::Advice) || !meta.is_column_declared(advice)
            || !(instance.kind == ColumnKind::Instance) || !meta.is_column_declared(instance) {
            return Err(Error::UndeclaredColumnReference);
        }
        Ok(Self::configure_declared(meta, advice, instance))
    }

    fn configure_declared(meta: &mut ConstraintSystem, advice: Column, instance: Column) -> (config:
        FiboConfig)
        requires
            old(meta).wf(),
            advice.kind == ColumnKind::Advice,
            old(meta).column_declared(advice),
            instance.kind == ColumnKind::Instance,
            old(meta).column_declared(instance),
            old(meta).num_selectors + 1 <= usize::MAX,
        ensures
            final(meta).wf(),
            config == (FiboConfig {
                advice,
                selector: Selector { index: old(meta).num_selectors },
                instance,
            }),
            final(meta).num_advice == old(meta).num_advice,
            final(meta).num_instance == old(meta).num_instance,
            final(meta).num_fixed == old(meta).num_fixed,
            final(meta).num_selectors == old(meta).num_selectors + 1,
            forall|x: Column|
                #[trigger] final(meta).equality_enabled(x) <==> old(meta).equality_enabled(x) || x
                    == advice || x == instance,
            final(meta).gates@.len() == old(meta).gates@.len() + 1,
            final(meta).gates@.subrange(0, old(meta).gates@.len() as int) == old(meta).gates@,
            final(meta).gates@.last().name@ == "add"@,
            final(meta).gates@.last().polys@ == seq![column_gate(config.selector, advice)],
            forall|t: Assignment| #[trigger] t.fits(final(meta)) ==> config.fits(&t) && config.enabled(&t),
    {
        let selector = meta.selector();
        let ghost m0 = *meta;
        let _ = meta.enable_equality(advice);
        let ghost m1 = *meta;
        let _ = meta.enable_equality(instance);
        proof {
            assert forall|x: Column|
                #[trigger] meta.equality_enabled(x) <==> old(meta).equality_enabled(x) || x == advice
                    || x == instance by {
                assert(m0.equality@ == old(meta).equality@);
                assert(meta.equality_enabled(x) <==> m1.equality_enabled(x) || x == instance);
                assert(m1.equality_enabled(x) <==> m0.equality_enabled(x) || x == advice);
            }
        }
        let ghost m2 = *meta;
        assert(m2.equality_enabled(advice) && m2.equality_enabled(instance));
        let poly = Expression::Product(
            Box::new(Expression::Selector(selector)),
            Box::new(
                Expression::Difference(
                    Box::new(
                        Expression::Sum(
                            Box::new(Expression::Query(advice, 0)),
                            Box::new(Expression::Query(advice, 1)),
                        ),
                    ),
                    Box::new(Expression::Query(advice, 2)),
                ),
            ),
        );
        let ghost p = poly;
        proof {
            reveal_with_fuel(ConstraintSystem::expr_declared, 4);
            assert(meta.expr_declared(p));
        }
        let mut polys: Vec<Expression> = Vec::new();
        polys.push(poly);
        assert(polys@ == seq![p]);
        let ghost gates_before = meta.gates@;
        let name = "add".to_owned();
        proof {
            reveal_strlit("add");
        }
        let _ = meta.create_gate(name, polys);
        assert(meta.gates@.subrange(0, gates_before.len() as int) == gates_before);
        proof {
            assert forall|t: Assignment| #[trigger] t.fits(meta) implies (FiboConfig {
                advice,
                selector,
                instance,
            }).fits(&t) && (FiboConfig { advice, selector, instance }).enabled(&t) by {
                assert(meta.equality@ == m2.equality@);
            }
            assert forall|x: Column|
                #[trigger] meta.equality_enabled(x) <==> old(meta).equality_enabled(x) || x == advice
                    || x == instance by {
                assert(meta.equality@ == m2.equality@);
                assert(m2.equality_enabled(x) <==> old(meta).equality_enabled(x) || x == advice
                    || x == instance);
            }
        }
        FiboConfig { advice, selector, instance }
    }

    /// Lays out the sequence in one region of `max(nrows, 2)` rows: rows 0
    /// and 1 copied from public inputs 0 and 1, each later row the sum of the
    /// two above it, and the selector on at rows 0 and 1 and at every row
    /// that has two rows below it in the region. Returns the last cell.
    pub fn assign(&self, layouter: &mut Layouter, nrows: usize) -> (r: Result<AssignedCell, Error>)
        requires
            old(layouter).wf(),
            !old(layouter).open,
            self.config.fits(&old(layouter).table),
        ensures
            final(layouter).wf(),
            !final(layouter).open,
            final(layouter).table.same_shape(&old(layouter).table),
            final(layouter).instance@ == old(layouter).instance@,
            ({
                let h = if nrows < 2 {
                    2
                } else {
                    nrows as int
                };
                let row = old(layouter).next_row;
                let x0 = instance_value(old(layouter).instance@, self.config.instance.index as int, 0);
                let x1 = instance_value(old(layouter).instance@, self.config.instance.index as int, 1);
                let enabled = self.config.enabled(&old(layouter).table);
                &&& r is Err <==> !enabled || row + h > old(layouter).table.n
                &&& r is Err ==> *final(layouter) == *old(layouter) && r == Err::<AssignedCell, Error>(
                    if !enabled {
                        Error::EqualityNotEnabled
                    } else {
                        Error::RegionOutOfBounds
                    },
                )
                &&& r is Ok ==> {
                    &&& final(layouter).regions@ == old(layouter).regions@.push(
                        RegionInfo { offset: row, height: h as usize },
                    )
                    &&& final(layouter).next_row == row + h
                    &&& r->Ok_0 == (AssignedCell {
                        cell: Cell { column: self.config.advice, row: (row + h - 1) as usize },
                        value: fib_value(x0, x1, (h - 1) as nat),
                    })
                    &&& column_rows(
                        self.config,
                        &final(layouter).table,
                        &old(layouter).table,
                        row as int,
                        h,
                        nrows,
                        x0,
                        x1,
                    )
                    &&& final(layouter).table.copies@ == old(layouter).table.copies@.push(
                        (
                            Cell { column: self.config.instance, row: 0 },
                            Cell { column: self.config.advice, row },
                        ),
                    ).push(
                        (
                            Cell { column: self.config.instance, row: 1 },
                            Cell { column: self.config.advice, row: (row + 1) as usize },
                        ),
                    )
                }
            }),
    {
        let cfg = self.config;
        if !cfg.is_enabled(&layouter.table) {
            return Err(Error::EqualityNotEnabled);
        }
        let h: usize = if nrows < 2 {
            2
        } else {
            nrows
        };
        if layouter.next_row > layouter.table.n || layouter.table.n - layouter.next_row < h {
            return Err(Error::RegionOutOfBounds);
        }
        let ghost x0 = instance_value(layouter.instance@, cfg.instance.index as int, 0);
        let ghost x1 = instance_value(layouter.instance@, cfg.instance.index as int, 1);
        let ghost off = layouter.next_row as int;
        proof {
            assert(Assignment::value_ok(x0));
            assert(Assignment::value_ok(x1));
        }
        let ghost t0 = layouter.table;
        layouter.begin_region();
        layouter.enable_selector(cfg.selector, 0).unwrap();
        let ghost t1 = layouter.table;
        layouter.enable_selector(cfg.selector, 1).unwrap();
        let ghost t2 = layouter.table;
        let mut a_cell = layouter.assign_advice_from_instance(cfg.instance, 0, cfg.advice, 0).unwrap();
        let ghost t3 = layouter.table;
        let mut b_cell = layouter.assign_advice_from_instance(cfg.instance, 1, cfg.advice, 1).unwrap();
        proof {
            lemma_column_start(cfg, t0, t1, t2, t3, layouter.table, off, nrows, x0, x1);
        }
        let ghost start = *layouter;
        let mut row: usize = 2;
        while row < nrows
            invariant
                layouter.wf(),
                layouter.open,
                layouter.same_layout(&start),
                layouter.table.same_shape(&old(layouter).table),
                layouter.table.copies@ == start.table.copies@,
                cfg.fits(&layouter.table),
                cfg == self.config,
                start.next_row == old(layouter).next_row,
                start.instance@ == old(layouter).instance@,
                start.regions@ == old(layouter).regions@,
                off == old(layouter).next_row,
                off + h <= layouter.table.n,
                h == (if nrows < 2 {
                    2
                } else {
                    nrows
                }),
                2 <= row,
                nrows >= 2 ==> row <= nrows,
                nrows < 2 ==> row == 2,
                layouter.height == row,
                Assignment::value_ok(x0),
                Assignment::value_ok(x1),
                a_cell == (AssignedCell {
                    cell: Cell { column: cfg.advice, row: (layouter.next_row + row - 2) as usize },
                    value: fib_value(x0, x1, (row - 2) as nat),
                }),
                b_cell == (AssignedCell {
                    cell: Cell { column: cfg.advice, row: (layouter.next_row + row - 1) as usize },
                    value: fib_value(x0, x1, (row - 1) as nat),
                }),
                column_rows(cfg, &layouter.table, &old(layouter).table, off, row as int, nrows, x0, x1),
            decreases nrows - row,
        {
            let ghost u0 = layouter.table;
            if row < nrows - 2 {
                layouter.enable_selector(cfg.selector, row).unwrap();
            }
            let ghost u1 = layouter.table;
            proof {
                lemma_fib_value_ok(x0, x1, (row - 2) as nat);
                lemma_fib_value_ok(x0, x1, (row - 1) as nat);
            }
            let c_cell = layouter.assign_advice(cfg.advice, row, add_values(a_cell.value, b_cell.value)).unwrap();
            proof {
                assert(fib_value(x0, x1, row as nat) == value_add(
                    fib_value(x0, x1, (row - 2) as nat),
                    fib_value(x0, x1, (row - 1) as nat),
                ));
                lemma_column_step(cfg, old(layouter).table, u0, u1, layouter.table, off, row as int, nrows, x0, x1);
            }
            a_cell = b_cell;
            b_cell = c_cell;
            row = row + 1;
        }
        layouter.end_region();
        Ok(b_cell)
    }

    /// Binds `cell` to public input `row`.
    pub fn expose_public(&self, layouter: &mut Layouter, cell: AssignedCell, row: usize) -> (r:
        Result<(), Error>)
        requires
            old(layouter).wf(),
            self.config.fits(&old(layouter).table),
        ensures
            final(layouter).wf(),
            final(layouter).same_layout(old(layouter)),
            final(layouter).height == old(layouter).height,
            final(layouter).table.same_shape(&old(layouter).table),
            r is Err <==> old(layouter).constrain_error(cell.cell, self.config.instance, row) is Some,
            r is Err ==> r == Err::<(), Error>(
                old(layouter).constrain_error(cell.cell, self.config.instance, row)->0,
            ) && *final(layouter) == *old(layouter),
            r is Ok ==> final(layouter).table.copies@ == old(layouter).table.copies@.push(
                (cell.cell, Cell { column: self.config.instance, row }),
            ) && final(layouter).table.advice@ == old(layouter).table.advice@
                && final(layouter).table.fixed@ == old(layouter).table.fixed@
                && final(layouter).table.selectors@ == old(layouter).table.selectors@,
    {
        layouter.constrain_instance(cell.cell, self.config.instance, row)
    }
}

/// Whether the region of `nrows` rows has its selector on at row `j`.
pub open spec fn selected(nrows: usize, j: int) -> bool {
    j < 2 || j + 2 < nrows
}

/// Rows `[off, off + k)` of the advice column hold the sequence from `x0, x1`,
/// the selector is on in those rows where `selected` says (and stays as it
/// was in the others), and nothing else differs from `before`.
pub open spec fn column_rows(
    cfg: FiboConfig,
    t: &Assignment,
    before: &Assignment,
    off: int,
    k: int,
    nrows: usize,
    x0: Option<u64>,
    x1: Option<u64>,
) -> bool {
    let (adv, sel) = (cfg.advice.index as int, cfg.selector.index as int);
    &&& forall|j: int| 0 <= j < k ==> #[trigger] t.advice_at(adv, off + j) == fib_value(x0, x1, j as nat)
    &&& forall|j: int|
        0 <= j < k ==> #[trigger] t.selector_at(sel, off + j) == (selected(nrows, j) || before.selector_at(
            sel,
            off + j,
        ))
    &&& forall|c: int, r: int|
        0 <= c < before.num_advice && 0 <= r < before.n && (c != adv || !(off <= r < off + k)) ==> #[trigger] t.advice_at(c, r)
            == before.advice_at(c, r)
    &&& forall|s: int, r: int|
        0 <= s < before.num_selectors && 0 <= r < before.n && (s != sel || !(off <= r < off + k)) ==> #[trigger] t.selector_at(s, r)
            == before.selector_at(s, r)
    &&& t.fixed@ == before.fixed@
}

proof fn lemma_column_start(
    cfg: FiboConfig,
    t0: Assignment,
    t1: Assignment,
    t2: Assignment,
    t3: Assignment,
    t4: Assignment,
    off: int,
    nrows: usize,
    x0: Option<u64>,
    x1: Option<u64>,
)
    requires
        t1.same_shape(&t0) && t2.same_shape(&t0) && t3.same_shape(&t0) && t4.same_shape(&t0),
        cfg.fits(&t0),
        0 <= off && off + 2 <= t0.n,
        t1.selector_at(cfg.selector.index as int, off),
        forall|s2: int, r2: int|
            0 <= s2 < t0.num_selectors && 0 <= r2 < t0.n && (s2 != cfg.selector.index || r2 != off)
                ==> #[trigger] t1.selector_at(s2, r2) == t0.selector_at(s2, r2),
        t1.advice@ == t0.advice@ && t1.fixed@ == t0.fixed@,
        t2.selector_at(cfg.selector.index as int, off + 1),
        forall|s2: int, r2: int|
            0 <= s2 < t0.num_selectors && 0 <= r2 < t0.n && (s2 != cfg.selector.index || r2 != off + 1)
                ==> #[trigger] t2.selector_at(s2, r2) == t1.selector_at(s2, r2),
        t2.advice@ == t1.advice@ && t2.fixed@ == t1.fixed@,
        t3.advice_at(cfg.advice.index as int, off) == x0,
        forall|c2: int, r2: int|
            0 <= c2 < t0.num_advice && 0 <= r2 < t0.n && (c2 != cfg.advice.index || r2 != off)
                ==> #[trigger] t3.advice_at(c2, r2) == t2.advice_at(c2, r2),
        t3.selectors@ == t2.selectors@ && t3.fixed@ == t2.fixed@,
        t4.advice_at(cfg.advice.index as int, off + 1) == x1,
        forall|c2: int, r2: int|
            0 <= c2 < t0.num_advice && 0 <= r2 < t0.n && (c2 != cfg.advice.index || r2 != off + 1)
                ==> #[trigger] t4.advice_at(c2, r2) == t3.advice_at(c2, r2),
        t4.selectors@ == t3.selectors@ && t4.fixed@ == t3.fixed@,
    ensures
        column_rows(cfg, &t4, &t0, off, 2, nrows, x0, x1),
{
    reveal_with_fuel(fib_value, 2);
    let (adv, sel) = (cfg.advice.index as int, cfg.selector.index as int);
    assert(t4.advice_at(adv, off) == t3.advice_at(adv, off));
    assert(t4.selector_at(sel, off) == t1.selector_at(sel, off)) by {
        assert(t2.selector_at(sel, off) == t1.selector_at(sel, off));
    }
    assert forall|j: int| 0 <= j < 2 implies #[trigger] t4.selector_at(sel, off + j) == (selected(nrows, j)
        || t0.selector_at(sel, off + j)) by {
        assert(t2.selector_at(sel, off) == t1.selector_at(sel, off));
    }
    assert forall|c: int, r: int|
        0 <= c < t0.num_advice && 0 <= r < t0.n && (c != adv || !(off <= r < off + 2)) implies #[trigger] t4.advice_at(c, r)
            == t0.advice_at(c, r) by {
        assert(t4.advice_at(c, r) == t3.advice_at(c, r));
        assert(t3.advice_at(c, r) == t2.advice_at(c, r));
    }
    assert forall|s: int, r: int|
        0 <= s < t0.num_selectors && 0 <= r < t0.n && (s != sel || !(off <= r < off + 2)) implies #[trigger] t4.selector_at(s, r)
            == t0.selector_at(s, r) by {
        assert(t2.selector_at(s, r) == t1.selector_at(s, r));
        assert(t1.selector_at(s, r) == t0.selector_at(s, r));
    }
}

proof fn lemma_column_step(
    cfg: FiboConfig,
    t0: Assignment,
    u0: Assignment,
    u1: Assignment,
    u2: Assignment,
    off: int,
    row: int,
    nrows: usize,
    x0: Option<u64>,
    x1: Option<u64>,
)
    requires
        u0.same_shape(&t0) && u1.same_shape(&t0) && u2.same_shape(&t0),
        cfg.fits(&t0),
        0 <= off,
        2 <= row,
        off + row < t0.n,
        row < nrows,
        column_rows(cfg, &u0, &t0, off, row, nrows, x0, x1),
        selected(nrows, row) ==> u1.selector_at(cfg.selector.index as int, off + row),
        forall|s2: int, r2: int|
            0 <= s2 < t0.num_selectors && 0 <= r2 < t0.n && (selected(nrows, row) ==> s2
                != cfg.selector.index || r2 != off + row) ==> #[trigger] u1.selector_at(s2, r2)
                == u0.selector_at(s2, r2),
        u1.advice@ == u0.advice@ && u1.fixed@ == u0.fixed@,
        u2.advice_at(cfg.advice.index as int, off + row) == fib_value(x0, x1, row as nat),
        forall|c2: int, r2: int|
            0 <= c2 < t0.num_advice && 0 <= r2 < t0.n && (c2 != cfg.advice.index || r2 != off + row)
                ==> #[trigger] u2.advice_at(c2, r2) == u1.advice_at(c2, r2),
        u2.selectors@ == u1.selectors@ && u2.fixed@ == u1.fixed@,
    ensures
        column_rows(cfg, &u2, &t0, off, row + 1, nrows, x0, x1),
{
    let (adv, sel) = (cfg.advice.index as int, cfg.selector.index as int);
    assert forall|j: int| 0 <= j < row + 1 implies #[trigger] u2.advice_at(adv, off + j) == fib_value(x0, x1, j as nat) by {
        if j < row {
            assert(u0.advice_at(adv, off + j) == fib_value(x0, x1, j as nat));
            assert(u2.advice_at(adv, off + j) == u1.advice_at(adv, off + j));
        }
    }
    assert forall|j: int| 0 <= j < row + 1 implies #[trigger] u2.selector_at(sel, off + j) == (selected(nrows, j)
        || t0.selector_at(sel, off + j)) by {
        if j < row {
            assert(u0.selector_at(sel, off + j) == (selected(nrows, j) || t0.selector_at(sel, off + j)));
            assert(u1.selector_at(sel, off + j) == u0.selector_at(sel, off + j));
        } else {
            assert(u0.selector_at(sel, off + j) == t0.selector_at(sel, off + j));
            if !selected(nrows, row) {
                assert(u1.selector_at(sel, off + j) == u0.selector_at(sel, off + j));
            }
        }
    }
    assert forall|c: int, r: int|
        0 <= c < t0.num_advice && 0 <= r < t0.n && (c != adv || !(off <= r < off + row + 1)) implies #[trigger] u2.advice_at(c, r)
            == t0.advice_at(c, r) by {
        assert(u2.advice_at(c, r) == u1.advice_at(c, r));
        assert(u0.advice_at(c, r) == t0.advice_at(c, r));
    }
    assert forall|s: int, r: int|
        0 <= s < t0.num_selectors && 0 <= r < t0.n && (s != sel || !(off <= r < off + row + 1)) implies #[trigger] u2.selector_at(s, r)
            == t0.selector_at(s, r) by {
        assert(u1.selector_at(s, r) == u0.selector_at(s, r));
        assert(u0.selector_at(s, r) == t0.selector_at(s, r));
    }
}

/// What synthesis of the ten-term sequence does to `before`: it fails when
/// copies are not enabled on the two columns or fewer than ten rows are
/// free, and otherwise lays out the ten terms from public inputs 0 and 1 in
/// one region, with the selector on at its first eight rows, changing nothing
/// else, and binds the last term to public input 2.
pub open spec fn column_synthesized(
    cfg: FiboConfig,
    before: &Layouter,
    after: &Layouter,
    r: &Result<(), Error>,
) -> bool {
    let row0 = before.next_row as int;
    let t = &before.table;
    let x0 = instance_value(before.instance@, cfg.instance.index as int, 0);
    let x1 = instance_value(before.instance@, cfg.instance.index as int, 1);
    &&& r is Err <==> !cfg.enabled(t) || row0 + 10 > t.n
    &&& r is Err ==> *r == Err::<(), Error>(
        if !cfg.enabled(t) {
            Error::EqualityNotEnabled
        } else {
            Error::RegionOutOfBounds
        },
    )
    &&& r is Ok ==> {
        &&& !after.open
        &&& after.next_row == row0 + 10
        &&& column_rows(cfg, &after.table, t, row0, 10, 10, x0, x1)
        &&& after.table.copies@ == t.copies@ + seq![
            (Cell { column: cfg.instance, row: 0 }, Cell { column: cfg.advice, row: row0 as usize }),
            (
                Cell { column: cfg.instance, row: 1 },
                Cell { column: cfg.advice, row: (row0 + 1) as usize },
            ),
            (
                Cell { column: cfg.advice, row: (row0 + 9) as usize },
                Cell { column: cfg.instance, row: 2 },
            ),
        ]
    }
}

/// Ten terms of the sequence from public inputs 0 and 1, with the last one
/// bound to public input 2.
#[derive(Clone, Copy, Debug, Default)]
pub struct MyCircuit {}

impl MyCircuit {
    pub fn without_witnesses(&self) -> (r: Self)
        ensures
            r == (MyCircuit {}),
    {
        MyCircuit {}
    }
}

impl Circuit for MyCircuit {
    type Config = FiboConfig;

    open spec fn width() -> nat {
        1
    }

    open spec fn configured(cs: &ConstraintSystem, config: &FiboConfig) -> bool {
        &&& *config == (FiboConfig {
            advice: Column { kind: ColumnKind::Advice, index: 0 },
            selector: Selector { index: 0 },
            instance: Column { kind: ColumnKind::Instance, index: 0 },
        })
        &&& cs.num_advice == 1 && cs.num_instance == 1 && cs.num_fixed == 0 && cs.num_selectors == 1
        &&& forall|x: Column|
            #[trigger] cs.equality_enabled(x) <==> x == config.advice || x == config.instance
        &&& cs.gates@.len() == 1
        &&& cs.gates@[0].name@ == "add"@
        &&& cs.gates@[0].polys@ == seq![column_gate(config.selector, config.advice)]
    }

    open spec fn config_fits(config: &FiboConfig, t: &Assignment) -> bool {
        config.fits(t)
    }

    open spec fn synthesized(
        &self,
        config: &FiboConfig,
        before: &Layouter,
        after: &Layouter,
        r: &Result<(), Error>,
    ) -> bool {
        column_synthesized(*config, before, after, r)
    }

    fn configure(meta: &mut ConstraintSystem) -> (config: FiboConfig) {
        let advice = meta.advice_column();
        let instance = meta.instance_column();
        let config = FiboChip::configure(meta, advice, instance).unwrap();
        assert(meta.gates@[0] == meta.gates@.last());
        config
    }

    fn synthesize(&self, config: &FiboConfig, layouter: &mut Layouter) -> (r: Result<(), Error>) {
        let chip = FiboChip::construct(*config);
        let out_cell = chip.assign(layouter, 10)?;
        let ghost t = layouter.table;
        let r = chip.expose_public(layouter, out_cell, 2);
        proof {
            assert(r is Ok);
            let row0 = old(layouter).next_row as int;
            assert(layouter.table.copies@ =~= old(layouter).table.copies@ + seq![
                (Cell { column: config.instance, row: 0 }, Cell { column: config.advice, row: row0 as usize }),
                (
                    Cell { column: config.instance, row: 1 },
                    Cell { column: config.advice, row: (row0 + 1) as usize },
                ),
                (
                    Cell { column: config.advice, row: (row0 + 9) as usize },
                    Cell { column: config.instance, row: 2 },
                ),
            ]);
            let x0 = instance_value(old(layouter).instance@, config.instance.index as int, 0);
            let x1 = instance_value(old(layouter).instance@, config.instance.index as int, 1);
            lemma_column_same(*config, t, layouter.table, old(layouter).table, row0, x0, x1);
        }
        r
    }
}

proof fn lemma_column_same(
    cfg: FiboConfig,
    t: Assignment,
    u: Assignment,
    t0: Assignment,
    row0: int,
    x0: Option<u64>,
    x1: Option<u64>,
)
    requires
        column_rows(cfg, &t, &t0, row0, 10, 10, x0, x1),
        u.same_shape(&t),
        u.advice@ == t.advice@ && u.fixed@ == t.fixed@ && u.selectors@ == t.selectors@,
    ensures
        column_rows(cfg, &u, &t0, row0, 10, 10, x0, x1),
{
    let (adv, sel) = (cfg.advice.index as int, cfg.selector.index as int);
    assert forall|j: int| 0 <= j < 10 implies #[trigger] u.advice_at(adv, row0 + j) == fib_value(x0, x1, j as nat) by {
        assert(t.advice_at(adv, row0 + j) == fib_value(x0, x1, j as nat));
    }
    assert forall|j: int| 0 <= j < 10 implies #[trigger] u.selector_at(sel, row0 + j) == (selected(10, j)
        || t0.selector_at(sel, row0 + j)) by {
        assert(t.selector_at(sel, row0 + j) == (selected(10, j) || t0.selector_at(sel, row0 + j)));
    }
    assert forall|c: int, r: int|
        0 <= c < t0.num_advice && 0 <= r < t0.n && (c != adv || !(row0 <= r < row0 + 10)) implies #[trigger] u.advice_at(c, r)
            == t0.advice_at(c, r) by {
        assert(t.advice_at(c, r) == t0.advice_at(c, r));
    }
    assert forall|s: int, r: int|
        0 <= s < t0.num_selectors && 0 <= r < t0.n && (s != sel || !(row0 <= r < row0 + 10)) implies #[trigger] u.selector_at(s, r)
            == t0.selector_at(s, r) by {
        assert(t.selector_at(s, r) == t0.selector_at(s, r));
    }
}

} // verus!
