//! A circuit for Pythagorean triples: it squares public inputs 0, 1 and 2 and
//! requires that the first two squares add up to the third.
use vstd::prelude::*;
use crate::circuit::{Column, ColumnKind, ConstraintSystem, Error, Expression, Selector};
use crate::example1::add_gate;
use crate::layout::{
    instance_value,
    mul_values,
    value_mul,
    AssignedCell,
    Layouter,
    RegionInfo,
};
use crate::mock::Circuit;
use crate::table::{Assignment, Cell};

verus! {

#[allow(non_camel_case_types)]
#[derive(Clone, Copy, Debug)]
pub struct pythConfig {
    pub col_a: Column,
    pub col_b: Column,
    pub col_c: Column,
    pub addition_selector: Selector,
    pub multi_selector: Selector,
    pub instance: Column,
}

impl pythConfig {
    /// The columns and selectors exist in `t`, with the right kinds, and the
    /// three advice columns are distinct.
    pub open spec fn fits(&self, t: &Assignment) -> bool {
        &&& self.col_a.kind == ColumnKind::Advice && t.column_declared(self.col_a)
        &&& self.col_b.kind == ColumnKind::Advice && t.column_declared(self.col_b)
        &&& self.col_c.kind == ColumnKind::Advice && t.column_declared(self.col_c)
        &&& self.col_a.index != self.col_b.index
        &&& self.col_a.index != self.col_c.index
        &&& self.col_b.index != self.col_c.index
        &&& self.instance.kind == ColumnKind::Instance && t.column_declared(self.instance)
        &&& self.addition_selector.index < t.num_selectors
        &&& self.multi_selector.index < t.num_selectors
    }

    /// Copies are allowed on all four columns.
    pub open spec fn enabled(&self, t: &Assignment) -> bool {
        &&& t.equality_enabled(self.col_a)
        &&& t.equality_enabled(self.col_b)
        &&& t.equality_enabled(self.col_c)
        &&& t.equality_enabled(self.instance)
    }

    pub fn is_enabled(&self, t: &Assignment) -> (r: bool)
        ensures
            r == self.enabled(t),
    {
        t.is_equality_enabled(self.col_a) && t.is_equality_enabled(self.col_b)
            && t.is_equality_enabled(self.col_c) && t.is_equality_enabled(self.instance)
    }
}

/// `s * (a * b - c)`, every column queried at the current row.
pub open spec fn mul_gate(s: Selector, a: Column, b: Column, c: Column) -> Expression {
    Expression::Product(
        Box::new(Expression::Selector(s)),
        Box::new(
            Expression::Difference(
                Box::new(
                    Expression::Product(
                        Box::new(Expression::Query(a, 0)),
                        Box::new(Expression::Query(b, 0)),
                    ),
                ),
                Box::new(Expression::Query(c, 0)),
            ),
        ),
    )
}

#[allow(non_camel_case_types)]
#[derive(Clone, Copy, Debug)]
pub struct pythChip {
    pub config: pythConfig,
}

impl pythChip {
    pub fn construct(config: pythConfig) -> (r: Self)
        ensures
            r.config == config,
    {
        pythChip { config }
    }

    /// Allocates three advice columns, two selectors and an instance column,
    /// enables copies on the four columns, and registers the gates
    /// `s_add * (a + b - c)` and `s_mul * (a * b - c)`.
    pub fn configure(meta: &mut ConstraintSystem) -> (config: pythConfig)
        requires
            old(meta).wf(),
            old(meta).num_advice + 3 <= usize::MAX,
            old(meta).num_instance + 1 <= usize::MAX,
            old(meta).num_selectors + 2 <= usize::MAX,
        ensures
            final(meta).wf(),
            config == (pythConfig {
                col_a: Column { kind: ColumnKind::Advice, index: old(meta).num_advice },
                col_b: Column { kind: ColumnKind::Advice, index: (old(meta).num_advice + 1) as usize },
                col_c: Column { kind: ColumnKind::Advice, index: (old(meta).num_advice + 2) as usize },
                addition_selector: Selector { index: old(meta).num_selectors },
                multi_selector: Selector { index: (old(meta).num_selectors + 1) as usize },
                instance: Column { kind: ColumnKind::Instance, index: old(meta).num_instance },
            }),
            final(meta).num_advice == old(meta).num_advice + 3,
            final(meta).num_instance == old(meta).num_instance + 1,
            final(meta).num_fixed == old(meta).num_fixed,
            final(meta).num_selectors == old(meta).num_selectors + 2,
            forall|x: Column|
                #[trigger] final(meta).equality_enabled(x) <==> old(meta).equality_enabled(x) || x
                    == config.col_a || x == config.col_b || x == config.col_c || x
                    == config.instance,
            final(meta).gates@.len() == old(meta).gates@.len() + 2,
            final(meta).gates@.subrange(0, old(meta).gates@.len() as int) == old(meta).gates@,
            final(meta).gates@[old(meta).gates@.len() as int].name@ == "add"@,
            final(meta).gates@[old(meta).gates@.len() + 1int].name@ == "multiply"@,
            final(meta).gates@[old(meta).gates@.len() as int].polys@ == seq![
                add_gate(config.addition_selector, config.col_a, config.col_b, config.col_c),
            ],
            final(meta).gates@[old(meta).gates@.len() + 1int].polys@ == seq![
                mul_gate(config.multi_selector, config.col_a, config.col_b, config.col_c),
            ],
            forall|t: Assignment| #[trigger] t.fits(final(meta)) ==> config.fits(&t) && config.enabled(&t),
    {
        let col_a = meta.advice_column();
        let col_b = meta.advice_column();
        let col_c = meta.advice_column();
        let addition_selector = meta.selector();
        let multi_selector = meta.selector();
        let instance = meta.instance_column();
        let ghost m0 = *meta;
        let _ = meta.enable_equality(col_a);
        let ghost m1 = *meta;
        let _ = meta.enable_equality(col_b);
        let ghost m2 = *meta;
        let _ = meta.enable_equality(col_c);
        let ghost m3 = *meta;
        let _ = meta.enable_equality(instance);
        proof {
            assert forall|x: Column|
                #[trigger] meta.equality_enabled(x) <==> old(meta).equality_enabled(x) || x == col_a
                    || x == col_b || x == col_c || x == instance by {
                assert(m0.equality@ == old(meta).equality@);
                assert(meta.equality_enabled(x) <==> m3.equality_enabled(x) || x == instance);
                assert(m3.equality_enabled(x) <==> m2.equality_enabled(x) || x == col_c);
                assert(m2.equality_enabled(x) <==> m1.equality_enabled(x) || x == col_b);
                assert(m1.equality_enabled(x) <==> m0.equality_enabled(x) || x == col_a);
            }
        }
        let ghost m4 = *meta;
        assert(m4.equality_enabled(col_a) && m4.equality_enabled(col_b) && m4.equality_enabled(col_c)
            && m4.equality_enabled(instance));
        let add = Expression::Product(
            Box::new(Expression::Selector(addition_selector)),
            Box::new(
                Expression::Difference(
                    Box::new(
                        Expression::Sum(
                            Box::new(Expression::Query(col_a, 0)),
                            Box::new(Expression::Query(col_b, 0)),
                        ),
                    ),
                    Box::new(Expression::Query(col_c, 0)),
                ),
            ),
        );
        let mul = Expression::Product(
            Box::new(Expression::Selector(multi_selector)),
            Box::new(
                Expression::Difference(
                    Box::new(
                        Expression::Product(
                            Box::new(Expression::Query(col_a, 0)),
                            Box::new(Expression::Query(col_b, 0)),
                        ),
                    ),
                    Box::new(Expression::Query(col_c, 0)),
                ),
            ),
        );
        let ghost pa = add;
        let ghost pm = mul;
        proof {
            reveal_with_fuel(ConstraintSystem::expr_declared, 4);
            assert(meta.expr_declared(pa));
            assert(meta.expr_declared(pm));
        }
        let mut add_polys: Vec<Expression> = Vec::new();
        add_polys.push(add);
        assert(add_polys@ == seq![pa]);
        let mut mul_polys: Vec<Expression> = Vec::new();
        mul_polys.push(mul);
        assert(mul_polys@ == seq![pm]);
        let ghost g0 = meta.gates@;
        let add_name = "add".to_owned();
        let mul_name = "multiply".to_owned();
        proof {
            reveal_strlit("add");
            reveal_strlit("multiply");
        }
        let _ = meta.create_gate(add_name, add_polys);
        let ghost g1 = meta.gates@;
        let _ = meta.create_gate(mul_name, mul_polys);
        proof {
            assert(meta.gates@.subrange(0, g0.len() as int) == g0) by {
                assert(meta.gates@.subrange(0, g1.len() as int) == g1);
                assert(g1.subrange(0, g0.len() as int) == g0);
            }
            assert(meta.gates@[g0.len() as int] == g1[g0.len() as int]);
            assert forall|t: Assignment| #[trigger] t.fits(meta) implies (pythConfig {
                col_a,
                col_b,
                col_c,
                addition_selector,
                multi_selector,
                instance,
            }).fits(&t) && (pythConfig {
                col_a,
                col_b,
                col_c,
                addition_selector,
                multi_selector,
                instance,
            }).enabled(&t) by {
                assert(meta.equality@ == m4.equality@);
            }
            assert forall|x: Column|
                #[trigger] meta.equality_enabled(x) <==> old(meta).equality_enabled(x) || x == col_a
                    || x == col_b || x == col_c || x == instance by {
                assert(meta.equality@ == m4.equality@);
                assert(m4.equality_enabled(x) <==> old(meta).equality_enabled(x) || x == col_a
                    || x == col_b || x == col_c || x == instance);
            }
        }
        pythConfig { col_a, col_b, col_c, addition_selector, multi_selector, instance }
    }

    /// Row `k` of the open region: public input `k` copied into `a` and from
    /// `a` into `b`, its square in `c`, with the product selector on.
    fn square_row(&self, layouter: &mut Layouter, k: usize) -> (c: AssignedCell)
        requires
            old(layouter).wf(),
            old(layouter).open,
            self.config.fits(&old(layouter).table),
            self.config.enabled(&old(layouter).table),
            old(layouter).next_row + 4 <= old(layouter).table.n,
            k < 3,
            old(layouter).height <= k,
        ensures
            final(layouter).wf(),
            final(layouter).open,
            final(layouter).same_layout(old(layouter)),
            final(layouter).height == k + 1,
            final(layouter).table.same_shape(&old(layouter).table),
            ({
                let r = old(layouter).next_row + k;
                let x = instance_value(old(layouter).instance@, self.config.instance.index as int, k as int);
                let (a, b, cc) = (self.config.col_a, self.config.col_b, self.config.col_c);
                &&& c == (AssignedCell {
                    cell: Cell { column: cc, row: r as usize },
                    value: value_mul(x, x),
                })
                &&& final(layouter).table.advice_at(a.index as int, r) == x
                &&& final(layouter).table.advice_at(b.index as int, r) == x
                &&& final(layouter).table.advice_at(cc.index as int, r) == value_mul(x, x)
                &&& final(layouter).table.selector_at(self.config.multi_selector.index as int, r)
                &&& self.only_row(
                    &final(layouter).table,
                    &old(layouter).table,
                    r,
                    self.config.multi_selector.index as int,
                )
                &&& final(layouter).table.copies@ == old(layouter).table.copies@ + seq![
                    (Cell { column: self.config.instance, row: k }, Cell { column: a, row: r as usize }),
                    (Cell { column: a, row: r as usize }, Cell { column: b, row: r as usize }),
                ]
            }),
    {
        let cfg = self.config;
        let ghost t0 = layouter.table;
        layouter.enable_selector(cfg.multi_selector, k).unwrap();
        let ghost t1 = layouter.table;
        let a = layouter.assign_advice_from_instance(cfg.instance, k, cfg.col_a, k).unwrap();
        let ghost t2 = layouter.table;
        layouter.copy_advice(&a, cfg.col_b, k).unwrap();
        let ghost t3 = layouter.table;
        let c = layouter.assign_advice(cfg.col_c, k, mul_values(a.value, a.value)).unwrap();
        proof {
            self.lemma_row_steps(t0, t1, t2, t3, layouter.table, layouter.next_row + k, cfg.multi_selector.index as int);
            assert(layouter.table.copies@ =~= t0.copies@ + seq![
                (Cell { column: cfg.instance, row: k }, a.cell),
                (a.cell, Cell { column: cfg.col_b, row: a.cell.row }),
            ]);
        }
        c
    }

    /// Row 3 of the open region: the three squares copied into `a`, `b` and
    /// `c`, with the sum selector on.
    fn sum_row(&self, layouter: &mut Layouter, c1: &AssignedCell, c2: &AssignedCell, c3: &AssignedCell)
        requires
            old(layouter).wf(),
            old(layouter).open,
            self.config.fits(&old(layouter).table),
            self.config.enabled(&old(layouter).table),
            old(layouter).next_row + 4 <= old(layouter).table.n,
            old(layouter).height <= 3,
            old(layouter).table.copyable(c1.cell),
            old(layouter).table.copyable(c2.cell),
            old(layouter).table.copyable(c3.cell),
            Assignment::value_ok(c1.value),
            Assignment::value_ok(c2.value),
            Assignment::value_ok(c3.value),
        ensures
            final(layouter).wf(),
            final(layouter).open,
            final(layouter).same_layout(old(layouter)),
            final(layouter).height == 4,
            final(layouter).table.same_shape(&old(layouter).table),
            ({
                let r = old(layouter).next_row + 3;
                let (a, b, cc) = (self.config.col_a, self.config.col_b, self.config.col_c);
                &&& final(layouter).table.advice_at(a.index as int, r) == c1.value
                &&& final(layouter).table.advice_at(b.index as int, r) == c2.value
                &&& final(layouter).table.advice_at(cc.index as int, r) == c3.value
                &&& final(layouter).table.selector_at(self.config.addition_selector.index as int, r)
                &&& self.only_row(
                    &final(layouter).table,
                    &old(layouter).table,
                    r,
                    self.config.addition_selector.index as int,
                )
                &&& final(layouter).table.copies@ == old(layouter).table.copies@ + seq![
                    (c1.cell, Cell { column: a, row: r as usize }),
                    (c2.cell, Cell { column: b, row: r as usize }),
                    (c3.cell, Cell { column: cc, row: r as usize }),
                ]
            }),
    {
        let cfg = self.config;
        let ghost t0 = layouter.table;
        layouter.enable_selector(cfg.addition_selector, 3).unwrap();
        let ghost t1 = layouter.table;
        let a = layouter.copy_advice(c1, cfg.col_a, 3).unwrap();
        let ghost t2 = layouter.table;
        let b = layouter.copy_advice(c2, cfg.col_b, 3).unwrap();
        let ghost t3 = layouter.table;
        let c = layouter.copy_advice(c3, cfg.col_c, 3).unwrap();
        proof {
            self.lemma_row_steps(t0, t1, t2, t3, layouter.table, layouter.next_row + 3, cfg.addition_selector.index as int);
            assert(layouter.table.copies@ =~= t0.copies@ + seq![(c1.cell, a.cell), (c2.cell, b.cell), (c3.cell, c.cell)]);
        }
    }

    /// `after` differs from `before` only in row `r`, and there only in the
    /// three advice columns and selector `sel`.
    pub open spec fn only_row(&self, after: &Assignment, before: &Assignment, r: int, sel: int) -> bool {
        &&& forall|c: int, q: int|
            0 <= c < before.num_advice && 0 <= q < before.n && (q != r || (c != self.config.col_a.index
                && c != self.config.col_b.index && c != self.config.col_c.index)) ==> #[trigger] after.advice_at(c, q)
                == before.advice_at(c, q)
        &&& forall|s: int, q: int|
            0 <= s < before.num_selectors && 0 <= q < before.n && (q != r || s != sel) ==> #[trigger] after.selector_at(s, q)
                == before.selector_at(s, q)
        &&& after.fixed@ == before.fixed@
    }

    /// Four writes to row `r`: selector `sel` (`t0` to `t1`), then advice
    /// columns `a`, `b` and `c`.
    proof fn lemma_row_steps(
        &self,
        t0: Assignment,
        t1: Assignment,
        t2: Assignment,
        t3: Assignment,
        t4: Assignment,
        r: int,
        sel: int,
    )
        requires
            t1.same_shape(&t0) && t2.same_shape(&t0) && t3.same_shape(&t0) && t4.same_shape(&t0),
            self.config.fits(&t0),
            0 <= r < t0.n,
            forall|s2: int, r2: int|
                0 <= s2 < t0.num_selectors && 0 <= r2 < t0.n && (s2 != sel || r2 != r)
                    ==> #[trigger] t1.selector_at(s2, r2) == t0.selector_at(s2, r2),
            t1.advice@ == t0.advice@ && t1.fixed@ == t0.fixed@,
            forall|c2: int, r2: int|
                0 <= c2 < t0.num_advice && 0 <= r2 < t0.n && (c2 != self.config.col_a.index || r2 != r)
                    ==> #[trigger] t2.advice_at(c2, r2) == t1.advice_at(c2, r2),
            t2.selectors@ == t1.selectors@ && t2.fixed@ == t1.fixed@,
            forall|c2: int, r2: int|
                0 <= c2 < t0.num_advice && 0 <= r2 < t0.n && (c2 != self.config.col_b.index || r2 != r)
                    ==> #[trigger] t3.advice_at(c2, r2) == t2.advice_at(c2, r2),
            t3.selectors@ == t2.selectors@ && t3.fixed@ == t2.fixed@,
            forall|c2: int, r2: int|
                0 <= c2 < t0.num_advice && 0 <= r2 < t0.n && (c2 != self.config.col_c.index || r2 != r)
                    ==> #[trigger] t4.advice_at(c2, r2) == t3.advice_at(c2, r2),
            t4.selectors@ == t3.selectors@ && t4.fixed@ == t3.fixed@,
        ensures
            self.only_row(&t4, &t0, r, sel),
            t4.selector_at(sel, r) == t1.selector_at(sel, r),
            t4.advice_at(self.config.col_a.index as int, r) == t2.advice_at(self.config.col_a.index as int, r),
            t4.advice_at(self.config.col_b.index as int, r) == t3.advice_at(self.config.col_b.index as int, r),
    {
        let (a, b) = (self.config.col_a.index as int, self.config.col_b.index as int);
        assert forall|c: int, q: int|
            0 <= c < t0.num_advice && 0 <= q < t0.n && (q != r || (c != self.config.col_a.index
                && c != self.config.col_b.index && c != self.config.col_c.index)) implies #[trigger] t4.advice_at(c, q)
                == t0.advice_at(c, q) by {
            assert(t4.advice_at(c, q) == t3.advice_at(c, q));
            assert(t3.advice_at(c, q) == t2.advice_at(c, q));
            assert(t2.advice_at(c, q) == t1.advice_at(c, q));
        }
        assert forall|s: int, q: int|
            0 <= s < t0.num_selectors && 0 <= q < t0.n && (q != r || s != sel) implies #[trigger] t4.selector_at(s, q)
                == t0.selector_at(s, q) by {
            assert(t1.selector_at(s, q) == t0.selector_at(s, q));
        }
        assert(t4.advice_at(a, r) == t3.advice_at(a, r));
        assert(t3.advice_at(a, r) == t2.advice_at(a, r));
        assert(t4.advice_at(b, r) == t3.advice_at(b, r));
    }

    /// Lays out one region of four rows. Rows 0 to 2 copy public input `i`
    /// into `a` and `b` and hold its square in `c`, under the product gate;
    /// row 3 copies the three squares into `a`, `b` and `c`, under the sum
    /// gate. Returns the cell holding the square of public input 2.
    #[verifier::rlimit(60)]
    pub fn assign_all(&self, layouter: &mut Layouter) -> (r: Result<AssignedCell, Error>)
        requires
            old(layouter).wf(),
            !old(layouter).open,
            self.config.fits(&old(layouter).table),
        ensures
            final(layouter).wf(),
            !final(layouter).open,
            final(layouter).table.same_shape(&old(layouter).table),
            final(layouter).instance@ == old(layouter).instance@,
            ({
                let enabled = self.config.enabled(&old(layouter).table);
                &&& r is Err <==> !enabled || old(layouter).next_row + 4 > old(layouter).table.n
                &&& r is Err ==> *final(layouter) == *old(layouter) && r == Err::<AssignedCell, Error>(
                    if !enabled {
                        Error::EqualityNotEnabled
                    } else {
                        Error::RegionOutOfBounds
                    },
                )
            }),
            r is Ok ==> {
                let row = old(layouter).next_row;
                let x2 = instance_value(old(layouter).instance@, self.config.instance.index as int, 2);
                &&& final(layouter).regions@ == old(layouter).regions@.push(
                    RegionInfo { offset: row, height: 4 },
                )
                &&& final(layouter).next_row == row + 4
                &&& r->Ok_0 == (AssignedCell {
                    cell: Cell { column: self.config.col_c, row: (row + 2) as usize },
                    value: value_mul(x2, x2),
                })
                &&& pyth_rows(
                    self.config,
                    &final(layouter).table,
                    &old(layouter).table,
                    row as int,
                    old(layouter).instance@,
                )
                &&& final(layouter).table.copies@ == old(layouter).table.copies@ + pyth_copies(
                    self.config,
                    row as int,
                )
            },
    {
        if !self.config.is_enabled(&layouter.table) {
            return Err(Error::EqualityNotEnabled);
        }
        if layouter.next_row > layouter.table.n || layouter.table.n - layouter.next_row < 4 {
            return Err(Error::RegionOutOfBounds);
        }
        let ghost t0 = layouter.table;
        layouter.begin_region();
        let c1 = self.square_row(layouter, 0);
        let ghost t1 = layouter.table;
        let c2 = self.square_row(layouter, 1);
        let ghost t2 = layouter.table;
        let c3 = self.square_row(layouter, 2);
        let ghost t3 = layouter.table;
        self.sum_row(layouter, &c1, &c2, &c3);
        let ghost t4 = layouter.table;
        layouter.end_region();
        proof {
            lemma_pyth_rows(self.config, t0, t1, t2, t3, t4, layouter.next_row as int - 4, layouter.instance@);
            assert(layouter.table.copies@ =~= t0.copies@ + pyth_copies(self.config, layouter.next_row as int - 4));
        }
        Ok(c3)
    }
}

/// What `assign_all` writes, at rows from `row`: rows 0 to 2 hold public
/// input `k` in `a` and `b` and its square in `c` under the product selector,
/// row 3 holds the three squares under the sum selector, and nothing else of
/// `before` changes.
pub open spec fn pyth_rows(
    cfg: pythConfig,
    t: &Assignment,
    before: &Assignment,
    row: int,
    inputs: Seq<Vec<u64>>,
) -> bool {
    let x = |k: int| instance_value(inputs, cfg.instance.index as int, k);
    let (a, b, c) = (cfg.col_a.index as int, cfg.col_b.index as int, cfg.col_c.index as int);
    let (add, mul) = (cfg.addition_selector.index as int, cfg.multi_selector.index as int);
    &&& forall|k: int|
        0 <= k < 3 ==> {
            &&& #[trigger] t.advice_at(a, row + k) == x(k)
            &&& t.advice_at(b, row + k) == x(k)
            &&& t.advice_at(c, row + k) == value_mul(x(k), x(k))
            &&& t.selector_at(mul, row + k)
        }
    &&& t.advice_at(a, row + 3) == value_mul(x(0), x(0))
    &&& t.advice_at(b, row + 3) == value_mul(x(1), x(1))
    &&& t.advice_at(c, row + 3) == value_mul(x(2), x(2))
    &&& t.selector_at(add, row + 3)
    &&& forall|col: int, q: int|
        0 <= col < before.num_advice && 0 <= q < before.n && (!(row <= q < row + 4) || (col != a && col
            != b && col != c)) ==> #[trigger] t.advice_at(col, q) == before.advice_at(col, q)
    &&& forall|s: int, q: int|
        0 <= s < before.num_selectors && 0 <= q < before.n && !((row <= q < row + 3 && s == mul) || (q
            == row + 3 && s == add)) ==> #[trigger] t.selector_at(s, q) == before.selector_at(s, q)
    &&& t.fixed@ == before.fixed@
}

/// The nine copies that `assign_all` records at rows from `row`.
pub open spec fn pyth_copies(cfg: pythConfig, row: int) -> Seq<(Cell, Cell)> {
    let at = |col: Column, k: int| Cell { column: col, row: (row + k) as usize };
    let inst = |k: int| Cell { column: cfg.instance, row: k as usize };
    let (a, b, c) = (cfg.col_a, cfg.col_b, cfg.col_c);
    seq![
        (inst(0), at(a, 0)),
        (at(a, 0), at(b, 0)),
        (inst(1), at(a, 1)),
        (at(a, 1), at(b, 1)),
        (inst(2), at(a, 2)),
        (at(a, 2), at(b, 2)),
        (at(c, 0), at(a, 3)),
        (at(c, 1), at(b, 3)),
        (at(c, 2), at(c, 3)),
    ]
}

proof fn lemma_pyth_rows(
    cfg: pythConfig,
    t0: Assignment,
    t1: Assignment,
    t2: Assignment,
    t3: Assignment,
    t4: Assignment,
    row: int,
    inputs: Seq<Vec<u64>>,
)
    requires
        t1.same_shape(&t0) && t2.same_shape(&t0) && t3.same_shape(&t0) && t4.same_shape(&t0),
        cfg.fits(&t0),
        0 <= row && row + 4 <= t0.n,
        ({
            let chip = pythChip { config: cfg };
            let x = |k: int| instance_value(inputs, cfg.instance.index as int, k);
            let (a, b, c) = (cfg.col_a.index as int, cfg.col_b.index as int, cfg.col_c.index as int);
            let (add, mul) = (cfg.addition_selector.index as int, cfg.multi_selector.index as int);
            &&& chip.only_row(&t1, &t0, row, mul)
            &&& chip.only_row(&t2, &t1, row + 1, mul)
            &&& chip.only_row(&t3, &t2, row + 2, mul)
            &&& chip.only_row(&t4, &t3, row + 3, add)
            &&& t1.advice_at(a, row) == x(0) && t1.advice_at(b, row) == x(0)
            &&& t1.advice_at(c, row) == value_mul(x(0), x(0)) && t1.selector_at(mul, row)
            &&& t2.advice_at(a, row + 1) == x(1) && t2.advice_at(b, row + 1) == x(1)
            &&& t2.advice_at(c, row + 1) == value_mul(x(1), x(1)) && t2.selector_at(mul, row + 1)
            &&& t3.advice_at(a, row + 2) == x(2) && t3.advice_at(b, row + 2) == x(2)
            &&& t3.advice_at(c, row + 2) == value_mul(x(2), x(2)) && t3.selector_at(mul, row + 2)
            &&& t4.advice_at(a, row + 3) == value_mul(x(0), x(0))
            &&& t4.advice_at(b, row + 3) == value_mul(x(1), x(1))
            &&& t4.advice_at(c, row + 3) == value_mul(x(2), x(2))
            &&& t4.selector_at(add, row + 3)
        }),
    ensures
        pyth_rows(cfg, &t4, &t0, row, inputs),
{
    let x = |k: int| instance_value(inputs, cfg.instance.index as int, k);
    let (a, b, c) = (cfg.col_a.index as int, cfg.col_b.index as int, cfg.col_c.index as int);
    let (add, mul) = (cfg.addition_selector.index as int, cfg.multi_selector.index as int);
    assert forall|k: int| 0 <= k < 3 implies {
        &&& #[trigger] t4.advice_at(a, row + k) == x(k)
        &&& t4.advice_at(b, row + k) == x(k)
        &&& t4.advice_at(c, row + k) == value_mul(x(k), x(k))
        &&& t4.selector_at(mul, row + k)
    } by {
        assert(t4.advice_at(a, row + k) == t3.advice_at(a, row + k));
        assert(t4.advice_at(b, row + k) == t3.advice_at(b, row + k));
        assert(t4.advice_at(c, row + k) == t3.advice_at(c, row + k));
        assert(t4.selector_at(mul, row + k) == t3.selector_at(mul, row + k));
        if k < 2 {
            assert(t3.advice_at(a, row + k) == t2.advice_at(a, row + k));
            assert(t3.advice_at(b, row + k) == t2.advice_at(b, row + k));
            assert(t3.advice_at(c, row + k) == t2.advice_at(c, row + k));
            assert(t3.selector_at(mul, row + k) == t2.selector_at(mul, row + k));
        }
        if k < 1 {
            assert(t2.advice_at(a, row + k) == t1.advice_at(a, row + k));
            assert(t2.advice_at(b, row + k) == t1.advice_at(b, row + k));
            assert(t2.advice_at(c, row + k) == t1.advice_at(c, row + k));
            assert(t2.selector_at(mul, row + k) == t1.selector_at(mul, row + k));
        }
    }
    assert forall|col: int, q: int|
        0 <= col < t0.num_advice && 0 <= q < t0.n && (!(row <= q < row + 4) || (col != a && col != b
            && col != c)) implies #[trigger] t4.advice_at(col, q) == t0.advice_at(col, q) by {
        assert(t4.advice_at(col, q) == t3.advice_at(col, q));
        assert(t3.advice_at(col, q) == t2.advice_at(col, q));
        assert(t2.advice_at(col, q) == t1.advice_at(col, q));
        assert(t1.advice_at(col, q) == t0.advice_at(col, q));
    }
    assert forall|s: int, q: int|
        0 <= s < t0.num_selectors && 0 <= q < t0.n && !((row <= q < row + 3 && s == mul) || (q == row + 3
            && s == add)) implies #[trigger] t4.selector_at(s, q) == t0.selector_at(s, q) by {
        assert(t4.selector_at(s, q) == t3.selector_at(s, q));
        assert(t3.selector_at(s, q) == t2.selector_at(s, q));
        assert(t2.selector_at(s, q) == t1.selector_at(s, q));
        assert(t1.selector_at(s, q) == t0.selector_at(s, q));
    }
}

/// What synthesis does to `before`: it fails when copies are not enabled on
/// the chip's columns or fewer than four rows are free, and otherwise lays
/// out the region of `assign_all`.
pub open spec fn pyth_synthesized(
    cfg: pythConfig,
    before: &Layouter,
    after: &Layouter,
    r: &Result<(), Error>,
) -> bool {
    let row0 = before.next_row as int;
    let t = &before.table;
    &&& r is Err <==> !cfg.enabled(t) || row0 + 4 > t.n
    &&& r is Err ==> *r == Err::<(), Error>(
        if !cfg.enabled(t) {
            Error::EqualityNotEnabled
        } else {
            Error::RegionOutOfBounds
        },
    )
    &&& r is Ok ==> {
        &&& !after.open
        &&& after.next_row == row0 + 4
        &&& pyth_rows(cfg, &after.table, t, row0, before.instance@)
        &&& after.table.copies@ == t.copies@ + pyth_copies(cfg, row0)
    }
}

/// The Pythagorean check of public inputs 0, 1 and 2.
#[derive(Clone, Copy, Debug, Default)]
pub struct MyCircuit {}

impl MyCircuit {
    pub fn without_witnesses(&self) -> (r: Self)
        ensures
            r == (MyCircuit {}),
    {
        MyCircuit {}
    }
}

impl Circuit for MyCircuit {
    type Config = pythConfig;

    open spec fn width() -> nat {
        3
    }

    open spec fn configured(cs: &ConstraintSystem, config: &pythConfig) -> bool {
        &&& *config == (pythConfig {
            col_a: Column { kind: ColumnKind::Advice, index: 0 },
            col_b: Column { kind: ColumnKind::Advice, index: 1 },
            col_c: Column { kind: ColumnKind::Advice, index: 2 },
            addition_selector: Selector { index: 0 },
            multi_selector: Selector { index: 1 },
            instance: Column { kind: ColumnKind::Instance, index: 0 },
        })
        &&& cs.num_advice == 3 && cs.num_instance == 1 && cs.num_fixed == 0 && cs.num_selectors == 2
        &&& forall|x: Column|
            #[trigger] cs.equality_enabled(x) <==> x == config.col_a || x == config.col_b || x
                == config.col_c || x == config.instance
        &&& cs.gates@.len() == 2
        &&& cs.gates@[0].name@ == "add"@
        &&& cs.gates@[0].polys@ == seq![
            add_gate(config.addition_selector, config.col_a, config.col_b, config.col_c),
        ]
        &&& cs.gates@[1].name@ == "multiply"@
        &&& cs.gates@[1].polys@ == seq![
            mul_gate(config.multi_selector, config.col_a, config.col_b, config.col_c),
        ]
    }

    open spec fn config_fits(config: &pythConfig, t: &Assignment) -> bool {
        config.fits(t)
    }

    open spec fn synthesized(
        &self,
        config: &pythConfig,
        before: &Layouter,
        after: &Layouter,
        r: &Result<(), Error>,
    ) -> bool {
        pyth_synthesized(*config, before, after, r)
    }

    fn configure(meta: &mut ConstraintSystem) -> (config: pythConfig) {
        pythChip::configure(meta)
    }

    fn synthesize(&self, config: &pythConfig, layouter: &mut Layouter) -> (r: Result<(), Error>) {
        let chip = pythChip::construct(*config);
        let _out_cell = chip.assign_all(layouter)?;
        Ok(())
    }
}

} // verus!
