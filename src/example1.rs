//! A Fibonacci circuit over three advice columns: each row holds `a, b, c`
//! with `a + b = c`, and the next row copies `b, c` into `a, b`.
use vstd::prelude::*;
use crate::circuit::{Column, ColumnKind, ConstraintSystem, Error, Expression, Selector};
use crate::layout::{
    add_values,
    fib_value,
    instance_value,
    lemma_fib_value_ok,
    rows_frame,
    value_add,
    AssignedCell,
    Layouter,
    RegionInfo,
};
use crate::mock::Circuit;
use crate::table::{Assignment, Cell};

verus! {

#[derive(Clone, Copy, Debug)]
pub struct FibonacciConfig {
    pub col_a: Column,
    pub col_b: Column,
    pub col_c: Column,
    pub selector: Selector,
    pub instance: Column,
}

impl FibonacciConfig {
    /// The columns and the selector exist in `t`, with the right kinds, and
    /// the three advice columns are distinct.
    pub open spec fn fits(&self, t: &Assignment) -> bool {
        &&& self.col_a.kind == ColumnKind::Advice && t.column_declared(self.col_a)
        &&& self.col_b.kind == ColumnKind::Advice && t.column_declared(self.col_b)
        &&& self.col_c.kind == ColumnKind::Advice && t.column_declared(self.col_c)
        &&& self.col_a.index != self.col_b.index
        &&& self.col_a.index != self.col_c.index
        &&& self.col_b.index != self.col_c.index
        &&& self.instance.kind == ColumnKind::Instance && t.column_declared(self.instance)
        &&& self.selector.index < t.num_selectors
    }

    /// Copies are allowed on all four columns.
    pub open spec fn enabled(&self, t: &Assignment) -> bool {
        &&& t.equality_enabled(self.col_a)
        &&& t.equality_enabled(self.col_b)
        &&& t.equality_enabled(self.col_c)
        &&& t.equality_enabled(self.instance)
    }

    pub fn is_enabled(&self, t: &Assignment) -> (r: bool)
        ensures
            r == self.enabled(t),
    {
        t.is_equality_enabled(self.col_a) && t.is_equality_enabled(self.col_b)
            && t.is_equality_enabled(self.col_c) && t.is_equality_enabled(self.instance)
    }
}

/// `s * (a + b - c)`, every column queried at the current row.
pub open spec fn add_gate(s: Selector, a: Column, b: Column, c: Column) -> Expression {
    Expression::Product(
        Box::new(Expression::Selector(s)),
        Box::new(
            Expression::Difference(
                Box::new(
                    Expression::Sum(
                        Box::new(Expression::Query(a, 0)),
                        Box::new(Expression::Query(b, 0)),
                    ),
                ),
                Box::new(Expression::Query(c, 0)),
            ),
        ),
    )
}

#[derive(Clone, Copy, Debug)]
pub struct FibonacciChip {
    pub config: FibonacciConfig,
}

impl FibonacciChip {
    pub fn construct(config: FibonacciConfig) -> (r: Self)
        ensures
            r.config == config,
    {
        FibonacciChip { config }
    }

    /// Allocates three advice columns, an instance column and a selector,
    /// enables copies on all four columns, and registers its sum constraint
    /// `s * (a + b - c)`.
    pub fn configure(meta: &mut ConstraintSystem) -> (config: FibonacciConfig)
        requires
            old(meta).wf(),
            old(meta).num_advice + 3 <= usize::MAX,
            old(meta).num_instance + 1 <= usize::MAX,
            old(meta).num_selectors + 1 <= usize::MAX,
        ensures
            final(meta).wf(),
            config == (FibonacciConfig {
                col_a: Column { kind: ColumnKind::Advice, index: old(meta).num_advice },
                col_b: Column { kind: ColumnKind::Advice, index: (old(meta).num_advice + 1) as usize },
                col_c: Column { kind: ColumnKind::Advice, index: (old(meta).num_advice + 2) as usize },
                selector: Selector { index: old(meta).num_selectors },
                instance: Column { kind: ColumnKind::Instance, index: old(meta).num_instance },
            }),
            final(meta).num_advice == old(meta).num_advice + 3,
            final(meta).num_instance == old(meta).num_instance + 1,
            final(meta).num_fixed == old(meta).num_fixed,
            final(meta).num_selectors == old(meta).num_selectors + 1,
            forall|x: Column|
                #[trigger] final(meta).equality_enabled(x) <==> old(meta).equality_enabled(x) || x
                    == config.col_a || x == config.col_b || x == config.col_c || x
                    == config.instance,
            final(meta).gates@.len() == old(meta).gates@.len() + 1,
            final(meta).gates@.subrange(0, old(meta).gates@.len() as int) == old(meta).gates@,
            final(meta).gates@.last().name@ == "add"@,
            final(meta).gates@.last().polys@ == seq![
                add_gate(config.selector, config.col_a, config.col_b, config.col_c),
            ],
            forall|t: Assignment| #[trigger] t.fits(final(meta)) ==> config.fits(&t) && config.enabled(&t),
    {
        let col_a = meta.advice_column();
        let col_b = meta.advice_column();
        let col_c = meta.advice_column();
        let selector = meta.selector();
        let instance = meta.instance_column();
        let ghost m0 = *meta;
        let _ = meta.enable_equality(col_a);
        let ghost m1 = *meta;
        let _ = meta.enable_equality(col_b);
        let ghost m2 = *meta;
        let _ = meta.enable_equality(col_c);
        let ghost m3 = *meta;
        let _ = meta.enable_equality(instance);
        proof {
            assert forall|x: Column|
                #[trigger] meta.equality_enabled(x) <==> old(meta).equality_enabled(x) || x == col_a
                    || x == col_b || x == col_c || x == instance by {
                assert(m0.equality@ == old(meta).equality@);
                assert(meta.equality_enabled(x) <==> m3.equality_enabled(x) || x == instance);
                assert(m3.equality_enabled(x) <==> m2.equality_enabled(x) || x == col_c);
                assert(m2.equality_enabled(x) <==> m1.equality_enabled(x) || x == col_b);
                assert(m1.equality_enabled(x) <==> m0.equality_enabled(x) || x == col_a);
            }
        }
        let ghost m4 = *meta;
        assert(m4.equality_enabled(col_a) && m4.equality_enabled(col_b) && m4.equality_enabled(col_c)
            && m4.equality_enabled(instance));
        let poly = Expression::Product(
            Box::new(Expression::Selector(selector)),
            Box::new(
                Expression::Difference(
                    Box::new(
                        Expression::Sum(
                            Box::new(Expression::Query(col_a, 0)),
                            Box::new(Expression::Query(col_b, 0)),
                        ),
                    ),
                    Box::new(Expression::Query(col_c, 0)),
                ),
            ),
        );
        let ghost p = poly;
        proof {
            reveal_with_fuel(ConstraintSystem::expr_declared, 4);
            assert(meta.expr_declared(p));
        }
        let mut polys: Vec<Expression> = Vec::new();
        polys.push(poly);
        assert(polys@ == seq![p]);
        let ghost gates_before = meta.gates@;
        let name = "add".to_owned();
        proof {
            reveal_strlit("add");
        }
        let _ = meta.create_gate(name, polys);
        assert(meta.gates@.subrange(0, gates_before.len() as int) == gates_before);
        proof {
            assert forall|t: Assignment| #[trigger] t.fits(meta) implies (FibonacciConfig {
                col_a,
                col_b,
                col_c,
                selector,
                instance,
            }).fits(&t) && (FibonacciConfig {
                col_a,
                col_b,
                col_c,
                selector,
                instance,
            }).enabled(&t) by {
                assert(meta.equality@ == m4.equality@);
            }
            assert forall|x: Column|
                #[trigger] meta.equality_enabled(x) <==> old(meta).equality_enabled(x) || x == col_a
                    || x == col_b || x == col_c || x == instance by {
                assert(meta.equality@ == m4.equality@);
                assert(m4.equality_enabled(x) <==> old(meta).equality_enabled(x) || x == col_a
                    || x == col_b || x == col_c || x == instance);
            }
        }
        FibonacciConfig { col_a, col_b, col_c, selector, instance }
    }

    /// Lays out one row: `a` and `b` copied from public inputs 0 and 1, and
    /// `c = a + b`, with its selector on.
    pub fn assign_first_row(&self, layouter: &mut Layouter) -> (r: Result<
        (AssignedCell, AssignedCell, AssignedCell),
        Error,
    >)
        requires
            old(layouter).wf(),
            !old(layouter).open,
            self.config.fits(&old(layouter).table),
        ensures
            final(layouter).wf(),
            !final(layouter).open,
            final(layouter).table.same_shape(&old(layouter).table),
            final(layouter).instance@ == old(layouter).instance@,
            r is Err <==> !self.config.enabled(&old(layouter).table) || old(layouter).next_row
                >= old(layouter).table.n || old(layouter).table.n < 2,
            r is Err ==> *final(layouter) == *old(layouter) && r
                == Err::<(AssignedCell, AssignedCell, AssignedCell), Error>(
                if !self.config.enabled(&old(layouter).table) {
                    Error::EqualityNotEnabled
                } else {
                    Error::RegionOutOfBounds
                },
            ),
            r is Ok ==> {
                let row = old(layouter).next_row;
                let (a, b, c) = r->Ok_0;
                let x0 = instance_value(old(layouter).instance@, self.config.instance.index as int, 0);
                let x1 = instance_value(old(layouter).instance@, self.config.instance.index as int, 1);
                &&& final(layouter).regions@ == old(layouter).regions@.push(
                    RegionInfo { offset: row, height: 1 },
                )
                &&& final(layouter).next_row == row + 1
                &&& a == (AssignedCell { cell: Cell { column: self.config.col_a, row }, value: x0 })
                &&& b == (AssignedCell { cell: Cell { column: self.config.col_b, row }, value: x1 })
                &&& c == (AssignedCell {
                    cell: Cell { column: self.config.col_c, row },
                    value: value_add(x0, x1),
                })
                &&& final(layouter).table.advice_at(self.config.col_a.index as int, row as int) == x0
                &&& final(layouter).table.advice_at(self.config.col_b.index as int, row as int) == x1
                &&& final(layouter).table.advice_at(self.config.col_c.index as int, row as int)
                    == value_add(x0, x1)
                &&& final(layouter).table.selector_at(self.config.selector.index as int, row as int)
                &&& self.row_only(&final(layouter).table, &old(layouter).table, row as int)
                &&& final(layouter).table.copies@ == old(layouter).table.copies@.push(
                    (Cell { column: self.config.instance, row: 0 }, a.cell),
                ).push((Cell { column: self.config.instance, row: 1 }, b.cell))
            },
    {
        if !self.config.is_enabled(&layouter.table) {
            return Err(Error::EqualityNotEnabled);
        }
        if layouter.next_row >= layouter.table.n || layouter.table.n < 2 {
            return Err(Error::RegionOutOfBounds);
        }
        let cfg = self.config;
        let ghost t0 = layouter.table;
        layouter.begin_region();
        layouter.enable_selector(cfg.selector, 0).unwrap();
        let ghost t1 = layouter.table;
        let a = layouter.assign_advice_from_instance(cfg.instance, 0, cfg.col_a, 0).unwrap();
        let ghost t2 = layouter.table;
        let b = layouter.assign_advice_from_instance(cfg.instance, 1, cfg.col_b, 0).unwrap();
        let ghost t3 = layouter.table;
        let c = layouter.assign_advice(cfg.col_c, 0, add_values(a.value, b.value)).unwrap();
        layouter.end_region();
        proof {
            self.lemma_row_steps(t0, t1, t2, t3, layouter.table, t0.n, layouter.next_row as int - 1);
        }
        Ok((a, b, c))
    }

    /// `after` differs from `before` only in row `row`, and there only in the
    /// three advice columns and the selector of this chip.
    pub open spec fn row_only(&self, after: &Assignment, before: &Assignment, row: int) -> bool {
        &&& rows_frame(after, before, row, row + 1)
        &&& forall|c: int|
            0 <= c < before.num_advice && c != self.config.col_a.index && c != self.config.col_b.index
                && c != self.config.col_c.index ==> #[trigger] after.advice_at(c, row)
                == before.advice_at(c, row)
        &&& forall|s: int|
            0 <= s < before.num_selectors && s != self.config.selector.index ==> #[trigger] after.selector_at(s, row)
                == before.selector_at(s, row)
    }

    /// Four writes to row `row`: the selector (`t0` to `t1`), then advice
    /// columns `a`, `b` and `c`, leave the rest of the table as it was.
    proof fn lemma_row_steps(
        &self,
        t0: Assignment,
        t1: Assignment,
        t2: Assignment,
        t3: Assignment,
        t4: Assignment,
        n: usize,
        row: int,
    )
        requires
            t1.same_shape(&t0) && t2.same_shape(&t0) && t3.same_shape(&t0) && t4.same_shape(&t0),
            self.config.fits(&t0),
            t0.n == n,
            0 <= row < n,
            forall|s2: int, r2: int|
                0 <= s2 < t0.num_selectors && 0 <= r2 < n && (s2 != self.config.selector.index || r2 != row)
                    ==> #[trigger] t1.selector_at(s2, r2) == t0.selector_at(s2, r2),
            t1.advice@ == t0.advice@ && t1.fixed@ == t0.fixed@,
            forall|c2: int, r2: int|
                0 <= c2 < t0.num_advice && 0 <= r2 < n && (c2 != self.config.col_a.index || r2 != row)
                    ==> #[trigger] t2.advice_at(c2, r2) == t1.advice_at(c2, r2),
            t2.selectors@ == t1.selectors@ && t2.fixed@ == t1.fixed@,
            forall|c2: int, r2: int|
                0 <= c2 < t0.num_advice && 0 <= r2 < n && (c2 != self.config.col_b.index || r2 != row)
                    ==> #[trigger] t3.advice_at(c2, r2) == t2.advice_at(c2, r2),
            t3.selectors@ == t2.selectors@ && t3.fixed@ == t2.fixed@,
            forall|c2: int, r2: int|
                0 <= c2 < t0.num_advice && 0 <= r2 < n && (c2 != self.config.col_c.index || r2 != row)
                    ==> #[trigger] t4.advice_at(c2, r2) == t3.advice_at(c2, r2),
            t4.selectors@ == t3.selectors@ && t4.fixed@ == t3.fixed@,
        ensures
            self.row_only(&t4, &t0, row),
            t4.selector_at(self.config.selector.index as int, row) == t1.selector_at(
                self.config.selector.index as int,
                row,
            ),
            t4.advice_at(self.config.col_a.index as int, row) == t2.advice_at(
                self.config.col_a.index as int,
                row,
            ),
            t4.advice_at(self.config.col_b.index as int, row) == t3.advice_at(
                self.config.col_b.index as int,
                row,
            ),
    {
        assert forall|c: int, r: int|
            0 <= c < t0.num_advice && 0 <= r < t0.n && !(row <= r < row + 1) implies #[trigger] t4.advice_at(c, r)
                == t0.advice_at(c, r) by {
            assert(t4.advice_at(c, r) == t3.advice_at(c, r));
            assert(t3.advice_at(c, r) == t2.advice_at(c, r));
            assert(t2.advice_at(c, r) == t1.advice_at(c, r));
        }
        assert forall|s: int, r: int|
            0 <= s < t0.num_selectors && 0 <= r < t0.n && !(row <= r < row + 1) implies #[trigger] t4.selector_at(s, r)
                == t0.selector_at(s, r) by {
            assert(t1.selector_at(s, r) == t0.selector_at(s, r));
        }
        assert forall|c: int|
            0 <= c < t0.num_advice && c != self.config.col_a.index && c != self.config.col_b.index
                && c != self.config.col_c.index implies #[trigger] t4.advice_at(c, row)
                == t0.advice_at(c, row) by {
            assert(t4.advice_at(c, row) == t3.advice_at(c, row));
            assert(t3.advice_at(c, row) == t2.advice_at(c, row));
            assert(t2.advice_at(c, row) == t1.advice_at(c, row));
        }
        assert forall|s: int| 0 <= s < t0.num_selectors && s != self.config.selector.index implies #[trigger] t4.selector_at(
            s,
            row,
        ) == t0.selector_at(s, row) by {
            assert(t1.selector_at(s, row) == t0.selector_at(s, row));
        }
        let (a, b, sel) = (
            self.config.col_a.index as int,
            self.config.col_b.index as int,
            self.config.selector.index as int,
        );
        assert(t4.advice_at(a, row) == t3.advice_at(a, row));
        assert(t3.advice_at(a, row) == t2.advice_at(a, row));
        assert(t4.advice_at(b, row) == t3.advice_at(b, row));
    }

    /// Lays out one row: `a` and `b` copied from `prev_b` and `prev_c`, and
    /// `c = a + b`, with its selector on.
    pub fn assign_row(
        &self,
        layouter: &mut Layouter,
        prev_b: &AssignedCell,
        prev_c: &AssignedCell,
    ) -> (r: Result<AssignedCell, Error>)
        requires
            old(layouter).wf(),
            !old(layouter).open,
            self.config.fits(&old(layouter).table),
            old(layouter).table.column_declared(prev_b.cell.column),
            prev_b.cell.row < old(layouter).table.n,
            old(layouter).table.column_declared(prev_c.cell.column),
            prev_c.cell.row < old(layouter).table.n,
            Assignment::value_ok(prev_b.value),
            Assignment::value_ok(prev_c.value),
        ensures
            final(layouter).wf(),
            !final(layouter).open,
            final(layouter).table.same_shape(&old(layouter).table),
            final(layouter).instance@ == old(layouter).instance@,
            ({
                let t = &old(layouter).table;
                let enabled = self.config.enabled(t) && t.equality_enabled(prev_b.cell.column)
                    && t.equality_enabled(prev_c.cell.column);
                &&& r is Err <==> !enabled || old(layouter).next_row >= t.n
                &&& r is Err ==> *final(layouter) == *old(layouter) && r == Err::<AssignedCell, Error>(
                    if !enabled {
                        Error::EqualityNotEnabled
                    } else {
                        Error::RegionOutOfBounds
                    },
                )
            }),
            r is Ok ==> {
                let row = old(layouter).next_row;
                let a = Cell { column: self.config.col_a, row };
                let b = Cell { column: self.config.col_b, row };
                &&& final(layouter).regions@ == old(layouter).regions@.push(
                    RegionInfo { offset: row, height: 1 },
                )
                &&& final(layouter).next_row == row + 1
                &&& r->Ok_0 == (AssignedCell {
                    cell: Cell { column: self.config.col_c, row },
                    value: value_add(prev_b.value, prev_c.value),
                })
                &&& final(layouter).table.advice_at(self.config.col_a.index as int, row as int)
                    == prev_b.value
                &&& final(layouter).table.advice_at(self.config.col_b.index as int, row as int)
                    == prev_c.value
                &&& final(layouter).table.advice_at(self.config.col_c.index as int, row as int)
                    == value_add(prev_b.value, prev_c.value)
                &&& final(layouter).table.selector_at(self.config.selector.index as int, row as int)
                &&& self.row_only(&final(layouter).table, &old(layouter).table, row as int)
                &&& final(layouter).table.copies@ == old(layouter).table.copies@.push(
                    (prev_b.cell, a),
                ).push((prev_c.cell, b))
            },
    {
        if !self.config.is_enabled(&layouter.table) || !layouter.table.is_equality_enabled(
            prev_b.cell.column,
        ) || !layouter.table.is_equality_enabled(prev_c.cell.column) {
            return Err(Error::EqualityNotEnabled);
        }
        if layouter.next_row >= layouter.table.n {
            return Err(Error::RegionOutOfBounds);
        }
        let cfg = self.config;
        let ghost t0 = layouter.table;
        layouter.begin_region();
        layouter.enable_selector(cfg.selector, 0).unwrap();
        let ghost t1 = layouter.table;
        layouter.copy_advice(prev_b, cfg.col_a, 0).unwrap();
        let ghost t2 = layouter.table;
        layouter.copy_advice(prev_c, cfg.col_b, 0).unwrap();
        let ghost t3 = layouter.table;
        let c = layouter.assign_advice(cfg.col_c, 0, add_values(prev_b.value, prev_c.value)).unwrap();
        layouter.end_region();
        proof {
            self.lemma_row_steps(t0, t1, t2, t3, layouter.table, t0.n, layouter.next_row as int - 1);
        }
        Ok(c)
    }

    /// Binds `cell` to public input `row`.
    pub fn expose_public(&self, layouter: &mut Layouter, cell: &AssignedCell, row: usize) -> (r:
        Result<(), Error>)
        requires
            old(layouter).wf(),
            self.config.fits(&old(layouter).table),
        ensures
            final(layouter).wf(),
            final(layouter).same_layout(old(layouter)),
            final(layouter).height == old(layouter).height,
            final(layouter).table.same_shape(&old(layouter).table),
            r is Err <==> old(layouter).constrain_error(cell.cell, self.config.instance, row) is Some,
            r is Err ==> r == Err::<(), Error>(
                old(layouter).constrain_error(cell.cell, self.config.instance, row)->0,
            ) && *final(layouter) == *old(layouter),
            r is Ok ==> final(layouter).table.copies@ == old(layouter).table.copies@.push(
                (cell.cell, Cell { column: self.config.instance, row }),
            ) && final(layouter).table.advice@ == old(layouter).table.advice@
                && final(layouter).table.fixed@ == old(layouter).table.fixed@
                && final(layouter).table.selectors@ == old(layouter).table.selectors@,
    {
        layouter.constrain_instance(cell.cell, self.config.instance, row)
    }
}

/// The cell that row `d` of the sequence copies into `a`: `b` of the first
/// row for the second row, else `c` of the row two above.
pub open spec fn fib_prev_b(cfg: FibonacciConfig, row0: int, d: int) -> Cell {
    if d == 1 {
        Cell { column: cfg.col_b, row: row0 as usize }
    } else {
        Cell { column: cfg.col_c, row: (row0 + d - 2) as usize }
    }
}

/// The copies that the first `d` rows of the sequence record, starting at
/// row `row0`: public inputs 0 and 1 into the first row, then `b` and `c` of
/// each row into `a` and `b` of the next.
pub open spec fn fib_copies(cfg: FibonacciConfig, row0: int, d: nat) -> Seq<(Cell, Cell)>
    decreases d,
{
    let at = |col: Column, k: int| Cell { column: col, row: (row0 + k) as usize };
    if d <= 1 {
        seq![
            (Cell { column: cfg.instance, row: 0 }, at(cfg.col_a, 0)),
            (Cell { column: cfg.instance, row: 1 }, at(cfg.col_b, 0)),
        ]
    } else {
        fib_copies(cfg, row0, (d - 1) as nat) + seq![
            (fib_prev_b(cfg, row0, d - 1), at(cfg.col_a, d - 1)),
            (at(cfg.col_c, d - 2), at(cfg.col_b, d - 1)),
        ]
    }
}

/// Rows `[row0, row0 + d)` of `t` hold the sequence that starts `x0, x1`:
/// row `i` holds terms `i`, `i + 1` and `i + 2`, with the selector on.
pub open spec fn fib_rows(
    cfg: FibonacciConfig,
    t: &Assignment,
    row0: int,
    d: int,
    x0: Option<u64>,
    x1: Option<u64>,
) -> bool {
    forall|i: int|
        0 <= i < d ==> {
            &&& #[trigger] t.advice_at(cfg.col_a.index as int, row0 + i) == fib_value(x0, x1, i as nat)
            &&& t.advice_at(cfg.col_b.index as int, row0 + i) == fib_value(x0, x1, (i + 1) as nat)
            &&& t.advice_at(cfg.col_c.index as int, row0 + i) == fib_value(x0, x1, (i + 2) as nat)
            &&& t.selector_at(cfg.selector.index as int, row0 + i)
        }
}

/// What synthesis of the ten-term sequence does to `before`: it fails when
/// copies are not enabled on the chip's columns or fewer than eight rows are
/// free, and otherwise lays out eight rows of the sequence from public inputs
/// 0 and 1, changing no other row, and binds term 9 to public input 2.
pub open spec fn fib_synthesized(
    cfg: FibonacciConfig,
    before: &Layouter,
    after: &Layouter,
    r: &Result<(), Error>,
) -> bool {
    let row0 = before.next_row as int;
    let t = &before.table;
    let x0 = instance_value(before.instance@, cfg.instance.index as int, 0);
    let x1 = instance_value(before.instance@, cfg.instance.index as int, 1);
    &&& r is Err <==> !cfg.enabled(t) || row0 + 8 > t.n
    &&& r is Err ==> *r == Err::<(), Error>(
        if !cfg.enabled(t) {
            Error::EqualityNotEnabled
        } else {
            Error::RegionOutOfBounds
        },
    )
    &&& r is Ok ==> {
        &&& !after.open
        &&& after.next_row == row0 + 8
        &&& fib_rows(cfg, &after.table, row0, 8, x0, x1)
        &&& rows_frame(&after.table, t, row0, row0 + 8)
        &&& after.table.copies@ == t.copies@ + fib_copies(cfg, row0, 8) + seq![
            (
                Cell { column: cfg.col_c, row: (row0 + 7) as usize },
                Cell { column: cfg.instance, row: 2 },
            ),
        ]
    }
}

proof fn lemma_fib_step(
    chip: FibonacciChip,
    before: Assignment,
    after: Assignment,
    start: Assignment,
    row0: int,
    d: int,
    x0: Option<u64>,
    x1: Option<u64>,
)
    requires
        before.same_shape(&start),
        chip.config.fits(&before),
        0 <= d,
        0 <= row0,
        row0 + d < before.n,
        fib_rows(chip.config, &before, row0, d, x0, x1),
        rows_frame(&before, &start, row0, row0 + d),
        chip.row_only(&after, &before, row0 + d),
        after.advice_at(chip.config.col_a.index as int, row0 + d) == fib_value(x0, x1, d as nat),
        after.advice_at(chip.config.col_b.index as int, row0 + d) == fib_value(x0, x1, (d + 1) as nat),
        after.advice_at(chip.config.col_c.index as int, row0 + d) == fib_value(x0, x1, (d + 2) as nat),
        after.selector_at(chip.config.selector.index as int, row0 + d),
    ensures
        fib_rows(chip.config, &after, row0, d + 1, x0, x1),
        rows_frame(&after, &start, row0, row0 + d + 1),
{
    let cfg = chip.config;
    assert forall|j: int| 0 <= j < d + 1 implies {
        &&& #[trigger] after.advice_at(cfg.col_a.index as int, row0 + j) == fib_value(x0, x1, j as nat)
        &&& after.advice_at(cfg.col_b.index as int, row0 + j) == fib_value(x0, x1, (j + 1) as nat)
        &&& after.advice_at(cfg.col_c.index as int, row0 + j) == fib_value(x0, x1, (j + 2) as nat)
        &&& after.selector_at(cfg.selector.index as int, row0 + j)
    } by {
        if j < d {
            assert(before.advice_at(cfg.col_a.index as int, row0 + j) == fib_value(x0, x1, j as nat));
            assert(after.advice_at(cfg.col_a.index as int, row0 + j) == before.advice_at(cfg.col_a.index as int, row0 + j));
            assert(after.advice_at(cfg.col_b.index as int, row0 + j) == before.advice_at(cfg.col_b.index as int, row0 + j));
            assert(after.advice_at(cfg.col_c.index as int, row0 + j) == before.advice_at(cfg.col_c.index as int, row0 + j));
            assert(after.selector_at(cfg.selector.index as int, row0 + j) == before.selector_at(cfg.selector.index as int, row0 + j));
        }
    }
    assert forall|c: int, r: int|
        0 <= c < start.num_advice && 0 <= r < start.n && !(row0 <= r < row0 + d + 1) implies #[trigger] after.advice_at(c, r)
            == start.advice_at(c, r) by {
        assert(after.advice_at(c, r) == before.advice_at(c, r));
    }
    assert forall|s: int, r: int|
        0 <= s < start.num_selectors && 0 <= r < start.n && !(row0 <= r < row0 + d + 1) implies #[trigger] after.selector_at(s, r)
            == start.selector_at(s, r) by {
        assert(after.selector_at(s, r) == before.selector_at(s, r));
    }
}

proof fn lemma_fib_expose(
    cfg: FibonacciConfig,
    before: Assignment,
    after: Assignment,
    start: Assignment,
    row0: int,
    x0: Option<u64>,
    x1: Option<u64>,
)
    requires
        fib_rows(cfg, &before, row0, 8, x0, x1),
        rows_frame(&before, &start, row0, row0 + 8),
        after.same_shape(&before),
        after.advice@ == before.advice@,
        after.fixed@ == before.fixed@,
        after.selectors@ == before.selectors@,
    ensures
        fib_rows(cfg, &after, row0, 8, x0, x1),
        rows_frame(&after, &start, row0, row0 + 8),
{
    assert forall|j: int| 0 <= j < 8 implies {
        &&& #[trigger] after.advice_at(cfg.col_a.index as int, row0 + j) == fib_value(x0, x1, j as nat)
        &&& after.advice_at(cfg.col_b.index as int, row0 + j) == fib_value(x0, x1, (j + 1) as nat)
        &&& after.advice_at(cfg.col_c.index as int, row0 + j) == fib_value(x0, x1, (j + 2) as nat)
        &&& after.selector_at(cfg.selector.index as int, row0 + j)
    } by {
        assert(before.advice_at(cfg.col_a.index as int, row0 + j) == fib_value(x0, x1, j as nat));
    }
    assert forall|c: int, r: int|
        0 <= c < start.num_advice && 0 <= r < start.n && !(row0 <= r < row0 + 8) implies #[trigger] after.advice_at(c, r)
            == start.advice_at(c, r) by {
        assert(before.advice_at(c, r) == start.advice_at(c, r));
    }
    assert forall|s: int, r: int|
        0 <= s < start.num_selectors && 0 <= r < start.n && !(row0 <= r < row0 + 8) implies #[trigger] after.selector_at(s, r)
            == start.selector_at(s, r) by {
        assert(before.selector_at(s, r) == start.selector_at(s, r));
    }
}

/// The Fibonacci sequence from public inputs 0 and 1, over ten terms, with
/// the last one bound to public input 2.
#[derive(Clone, Copy, Debug, Default)]
pub struct MyCircuit {}

impl MyCircuit {
    pub fn without_witnesses(&self) -> (r: Self)
        ensures
            r == (MyCircuit {}),
    {
        MyCircuit {}
    }
}

impl Circuit for MyCircuit {
    type Config = FibonacciConfig;

    open spec fn width() -> nat {
        3
    }

    open spec fn configured(cs: &ConstraintSystem, config: &FibonacciConfig) -> bool {
        &&& *config == (FibonacciConfig {
            col_a: Column { kind: ColumnKind::Advice, index: 0 },
            col_b: Column { kind: ColumnKind::Advice, index: 1 },
            col_c: Column { kind: ColumnKind::Advice, index: 2 },
            selector: Selector { index: 0 },
            instance: Column { kind: ColumnKind::Instance, index: 0 },
        })
        &&& cs.num_advice == 3 && cs.num_instance == 1 && cs.num_fixed == 0 && cs.num_selectors == 1
        &&& forall|x: Column|
            #[trigger] cs.equality_enabled(x) <==> x == config.col_a || x == config.col_b || x
                == config.col_c || x == config.instance
        &&& cs.gates@.len() == 1
        &&& cs.gates@[0].name@ == "add"@
        &&& cs.gates@[0].polys@ == seq![add_gate(config.selector, config.col_a, config.col_b, config.col_c)]
    }

    open spec fn config_fits(config: &FibonacciConfig, t: &Assignment) -> bool {
        config.fits(t)
    }

    open spec fn synthesized(
        &self,
        config: &FibonacciConfig,
        before: &Layouter,
        after: &Layouter,
        r: &Result<(), Error>,
    ) -> bool {
        fib_synthesized(*config, before, after, r)
    }

    fn configure(meta: &mut ConstraintSystem) -> (config: FibonacciConfig) {
        let config = FibonacciChip::configure(meta);
        assert(meta.gates@[0] == meta.gates@.last());
        config
    }

    #[verifier::rlimit(80)]
    fn synthesize(&self, config: &FibonacciConfig, layouter: &mut Layouter) -> (r: Result<(), Error>) {
        let chip = FibonacciChip::construct(*config);
        let ghost row0 = layouter.next_row as int;
        let ghost x0 = instance_value(layouter.instance@, config.instance.index as int, 0);
        let ghost x1 = instance_value(layouter.instance@, config.instance.index as int, 1);
        proof {
            assert(Assignment::value_ok(x0) && Assignment::value_ok(x1));
        }
        let (_, mut prev_b, mut prev_c) = chip.assign_first_row(layouter)?;
        proof {
            reveal_with_fuel(fib_value, 3);
            assert(fib_value(x0, x1, 2) == value_add(x0, x1));
            assert(fib_copies(*config, row0, 1) =~= layouter.table.copies@.subrange(
                old(layouter).table.copies@.len() as int,
                layouter.table.copies@.len() as int,
            ));
            assert(layouter.table.copies@ =~= old(layouter).table.copies@ + fib_copies(*config, row0, 1));
        }
        let mut i: usize = 3;
        while i < 10
            invariant
                layouter.wf(),
                !layouter.open,
                chip.config == *config,
                config.fits(&layouter.table),
                config.enabled(&layouter.table),
                layouter.table.same_shape(&old(layouter).table),
                layouter.instance@ == old(layouter).instance@,
                row0 == old(layouter).next_row,
                x0 == instance_value(old(layouter).instance@, config.instance.index as int, 0),
                x1 == instance_value(old(layouter).instance@, config.instance.index as int, 1),
                Assignment::value_ok(x0),
                Assignment::value_ok(x1),
                3 <= i <= 10,
                layouter.next_row == row0 + (i - 2),
                prev_b == (AssignedCell {
                    cell: fib_prev_b(*config, row0, i - 2),
                    value: fib_value(x0, x1, (i - 2) as nat),
                }),
                prev_c == (AssignedCell {
                    cell: Cell { column: config.col_c, row: (row0 + i - 3) as usize },
                    value: fib_value(x0, x1, (i - 1) as nat),
                }),
                fib_rows(*config, &layouter.table, row0, i - 2, x0, x1),
                rows_frame(&layouter.table, &old(layouter).table, row0, row0 + (i - 2)),
                layouter.table.copies@ == old(layouter).table.copies@ + fib_copies(*config, row0, (i - 2) as nat),
            decreases 10 - i,
        {
            proof {
                lemma_fib_value_ok(x0, x1, (i - 2) as nat);
                lemma_fib_value_ok(x0, x1, (i - 1) as nat);
            }
            let ghost t_before = layouter.table;
            let c_cell = chip.assign_row(layouter, &prev_b, &prev_c)?;
            proof {
                let d = i - 2;
                assert(fib_value(x0, x1, (d + 2) as nat) == value_add(
                    fib_value(x0, x1, d as nat),
                    fib_value(x0, x1, (d + 1) as nat),
                ));
                lemma_fib_step(chip, t_before, layouter.table, old(layouter).table, row0, d, x0, x1);
                assert(layouter.table.copies@ =~= old(layouter).table.copies@ + fib_copies(*config, row0, (d + 1) as nat));
            }
            prev_b = prev_c;
            prev_c = c_cell;
            i = i + 1;
        }
        let ghost t_end = layouter.table;
        let r = chip.expose_public(layouter, &prev_c, 2);
        proof {
            assert(r is Ok);
            lemma_fib_expose(*config, t_end, layouter.table, old(layouter).table, row0, x0, x1);
            assert(layouter.table.copies@ =~= old(layouter).table.copies@ + fib_copies(*config, row0, 8)
                + seq![
                (
                    Cell { column: config.col_c, row: (row0 + 7) as usize },
                    Cell { column: config.instance, row: 2 },
                ),
            ]);
            assert(config.enabled(&old(layouter).table));
            assert(row0 + 8 <= old(layouter).table.n);
            assert(fib_synthesized(*config, old(layouter), layouter, &r));
        }
        r
    }
}

} // verus!
