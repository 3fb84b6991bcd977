//! The layouter: places regions one after another in the table and carries out
//! the assignments that a region makes, at rows relative to its offset.
use vstd::prelude::*;
use crate::circuit::{Column, ColumnKind, ConstraintSystem, Error, Selector};
use crate::field::{self, add_spec, is_elem, mul_spec};
use crate::table::{Assignment, Cell};

verus! {

/// A cell that has been assigned, with the value it was given (if known).
#[derive(Clone, Copy, Debug, PartialEq, Eq, Structural)]
pub struct AssignedCell {
    pub cell: Cell,
    pub value: Option<u64>,
}

/// The rows `[offset, offset + height)` that a region occupies.
#[derive(Clone, Copy, Debug, PartialEq, Eq, Structural)]
pub struct RegionInfo {
    pub offset: usize,
    pub height: usize,
}

/// The sum of two values, unknown where either is.
pub open spec fn value_add(a: Option<u64>, b: Option<u64>) -> Option<u64> {
    match (a, b) {
        (Some(x), Some(y)) => Some(add_spec(x as int, y as int) as u64),
        _ => None,
    }
}

/// The product of two values, unknown where either is.
pub open spec fn value_mul(a: Option<u64>, b: Option<u64>) -> Option<u64> {
    match (a, b) {
        (Some(x), Some(y)) => Some(mul_spec(x as int, y as int) as u64),
        _ => None,
    }
}

/// Term `k` of the sequence that starts `x0, x1` and adds the last two terms.
pub open spec fn fib_value(x0: Option<u64>, x1: Option<u64>, k: nat) -> Option<u64>
    decreases k,
{
    if k == 0 {
        x0
    } else if k == 1 {
        x1
    } else {
        value_add(fib_value(x0, x1, (k - 2) as nat), fib_value(x0, x1, (k - 1) as nat))
    }
}

pub proof fn lemma_fib_value_ok(x0: Option<u64>, x1: Option<u64>, k: nat)
    requires
        Assignment::value_ok(x0),
        Assignment::value_ok(x1),
    ensures
        Assignment::value_ok(fib_value(x0, x1, k)),
    decreases k,
{
    if k >= 2 {
        lemma_fib_value_ok(x0, x1, (k - 2) as nat);
        lemma_fib_value_ok(x0, x1, (k - 1) as nat);
    }
}

/// Only rows `[lo, hi)` of the advice columns and selector bits differ
/// between `before` and `after`; the fixed cells are the same.
pub open spec fn rows_frame(after: &Assignment, before: &Assignment, lo: int, hi: int) -> bool {
    &&& forall|c: int, r: int|
        0 <= c < before.num_advice && 0 <= r < before.n && !(lo <= r < hi) ==> #[trigger] after.advice_at(c, r)
            == before.advice_at(c, r)
    &&& forall|s: int, r: int|
        0 <= s < before.num_selectors && 0 <= r < before.n && !(lo <= r < hi) ==> #[trigger] after.selector_at(s, r)
            == before.selector_at(s, r)
    &&& after.fixed@ == before.fixed@
}

pub fn add_values(a: Option<u64>, b: Option<u64>) -> (r: Option<u64>)
    requires
        Assignment::value_ok(a),
        Assignment::value_ok(b),
    ensures
        r == value_add(a, b),
        Assignment::value_ok(r),
{
    match (a, b) {
        (Some(x), Some(y)) => Some(field::add(x, y)),
        _ => None,
    }
}

pub fn mul_values(a: Option<u64>, b: Option<u64>) -> (r: Option<u64>)
    requires
        Assignment::value_ok(a),
        Assignment::value_ok(b),
    ensures
        r == value_mul(a, b),
        Assignment::value_ok(r),
{
    match (a, b) {
        (Some(x), Some(y)) => Some(field::mul(x, y)),
        _ => None,
    }
}

/// The public input at row `r` of instance column `i`, if one was supplied.
pub open spec fn instance_value(inputs: Seq<Vec<u64>>, i: int, r: int) -> Option<u64> {
    if 0 <= i < inputs.len() && 0 <= r < inputs[i]@.len() {
        Some(inputs[i]@[r])
    } else {
        None
    }
}

pub open spec fn inputs_ok(inputs: Seq<Vec<u64>>) -> bool {
    forall|i: int, r: int|
        0 <= i < inputs.len() && 0 <= r < inputs[i]@.len() ==> is_elem(#[trigger] inputs[i]@[r] as int)
}

/// The rows that the first `k` regions take up together.
pub open spec fn total_height(regions: Seq<RegionInfo>, k: int) -> int
    decreases k,
{
    if k <= 0 {
        0
    } else {
        total_height(regions, k - 1) + regions[k - 1].height
    }
}

/// Each region starts where the one before it ends, the first at row 0, and
/// `end` is where the last one ends.
pub open spec fn regions_chained(regions: Seq<RegionInfo>, end: int) -> bool {
    &&& forall|i: int|
        0 <= i < regions.len() ==> (#[trigger] regions[i]).offset == total_height(regions, i)
    &&& end == total_height(regions, regions.len() as int)
}

proof fn lemma_total_height_prefix(regions: Seq<RegionInfo>, r: RegionInfo, k: int)
    requires
        0 <= k <= regions.len(),
    ensures
        total_height(regions.push(r), k) == total_height(regions, k),
    decreases k,
{
    if k > 0 {
        lemma_total_height_prefix(regions, r, k - 1);
        assert(regions.push(r)[k - 1] == regions[k - 1]);
    }
}

proof fn lemma_chain_push(regions: Seq<RegionInfo>, end: int, r: RegionInfo)
    requires
        regions_chained(regions, end),
        r.offset == end,
    ensures
        regions_chained(regions.push(r), end + r.height),
{
    let rs = regions.push(r);
    assert forall|i: int| 0 <= i < rs.len() implies (#[trigger] rs[i]).offset == total_height(
        rs,
        i,
    ) by {
        lemma_total_height_prefix(regions, r, i);
        if i < regions.len() {
            assert(rs[i] == regions[i]);
        }
    }
    lemma_total_height_prefix(regions, r, regions.len() as int);
    assert(rs[regions.len() as int] == r);
}

pub struct Layouter {
    pub table: Assignment,
    /// The public inputs, one vector per instance column.
    pub instance: Vec<Vec<u64>>,
    /// The regions laid out so far, in order.
    pub regions: Vec<RegionInfo>,
    /// The first row that no region occupies.
    pub next_row: usize,
    /// Whether a region is being assigned; it starts at `next_row`.
    pub open: bool,
    /// The rows that the open region uses so far.
    pub height: usize,
}

impl Layouter {
    pub open spec fn wf(&self) -> bool {
        &&& self.table.wf()
        &&& inputs_ok(self.instance@)
        &&& regions_chained(self.regions@, self.next_row as int)
        &&& self.next_row + self.height <= self.table.n
        &&& !self.open ==> self.height == 0
    }

    /// The region bookkeeping is as in `other`.
    pub open spec fn same_layout(&self, other: &Layouter) -> bool {
        &&& self.instance@ == other.instance@
        &&& self.regions@ == other.regions@
        &&& self.next_row == other.next_row
        &&& self.open == other.open
    }

    /// The absolute row of row `row` of the open region.
    pub open spec fn abs(&self, row: int) -> int {
        self.next_row + row
    }

    pub open spec fn grown(&self, old: &Layouter, row: int) -> bool {
        self.height == if old.height > row + 1 {
            old.height as int
        } else {
            row + 1
        }
    }

    /// The rows used by the open region so far.
    pub open spec fn in_open_region(&self, r: int) -> bool {
        self.next_row <= r < self.next_row + self.height
    }

    pub open spec fn selector_error(&self, sel: Selector, row: int) -> Option<Error> {
        if sel.index >= self.table.num_selectors {
            Some(Error::UndeclaredColumnReference)
        } else if self.abs(row) >= self.table.n {
            Some(Error::RegionOutOfBounds)
        } else {
            None
        }
    }

    pub open spec fn assign_error(&self, col: Column, kind: ColumnKind, row: int) -> Option<Error> {
        if col.kind != kind || !self.table.column_declared(col) {
            Some(Error::UndeclaredColumnReference)
        } else if self.abs(row) >= self.table.n {
            Some(Error::RegionOutOfBounds)
        } else {
            None
        }
    }

    /// The error, if any, of a copy constraint between cell `a` and a cell of
    /// column `col` whose row lies in the table iff `row_ok`.
    pub open spec fn pair_error(&self, a: Cell, col: Column, row_ok: bool) -> Option<Error> {
        if !self.table.column_declared(a.column) || !self.table.column_declared(col) {
            Some(Error::UndeclaredColumnReference)
        } else if !self.table.equality_enabled(a.column) || !self.table.equality_enabled(col) {
            Some(Error::EqualityNotEnabled)
        } else if a.row >= self.table.n || !row_ok {
            Some(Error::RegionOutOfBounds)
        } else {
            None
        }
    }

    /// The error, if any, of a copy from `src` to row `row` of the open region
    /// in advice column `col`.
    pub open spec fn copy_error(&self, src: Cell, col: Column, row: int) -> Option<Error> {
        if col.kind != ColumnKind::Advice {
            Some(Error::UndeclaredColumnReference)
        } else {
            self.pair_error(src, col, self.abs(row) < self.table.n)
        }
    }

    /// The error, if any, of copying row `irow` of instance column `inst` to
    /// row `row` of the open region in advice column `col`.
    pub open spec fn from_instance_error(&self, inst: Column, irow: usize, col: Column, row: int) -> Option<Error> {
        if inst.kind != ColumnKind::Instance {
            Some(Error::UndeclaredColumnReference)
        } else {
            self.copy_error(Cell { column: inst, row: irow }, col, row)
        }
    }

    /// The error, if any, of binding `cell` to row `irow` of instance column `inst`.
    pub open spec fn constrain_error(&self, cell: Cell, inst: Column, irow: usize) -> Option<Error> {
        if inst.kind != ColumnKind::Instance {
            Some(Error::UndeclaredColumnReference)
        } else {
            self.pair_error(cell, inst, irow < self.table.n)
        }
    }

    /// A layouter over an empty table of `n` rows for `cs`, reading public
    /// inputs from `instance`.
    pub fn new(cs: &ConstraintSystem, n: usize, instance: Vec<Vec<u64>>) -> (r: Layouter)
        requires
            cs.wf(),
            n > 0,
            cs.num_advice * n <= usize::MAX,
            cs.num_fixed * n <= usize::MAX,
            cs.num_selectors * n <= usize::MAX,
            inputs_ok(instance@),
        ensures
            r.wf(),
            r.table.fits(cs),
            r.table.n == n,
            r.instance@ == instance@,
            r.regions@.len() == 0,
            r.next_row == 0,
            !r.open,
            forall|i: int| 0 <= i < r.table.advice@.len() ==> r.table.advice@[i] is None,
            forall|i: int| 0 <= i < r.table.fixed@.len() ==> r.table.fixed@[i] is None,
            forall|i: int| 0 <= i < r.table.selectors@.len() ==> !r.table.selectors@[i],
            r.table.copies@.len() == 0,
    {
        let table = Assignment::new(cs, n);
        Layouter { table, instance, regions: Vec::new(), next_row: 0, open: false, height: 0 }
    }

    /// Opens a region at the first free row.
    pub fn begin_region(&mut self)
        requires
            old(self).wf(),
            !old(self).open,
        ensures
            final(self).wf(),
            final(self).open,
            final(self).height == 0,
            final(self).table == old(self).table,
            final(self).instance@ == old(self).instance@,
            final(self).regions@ == old(self).regions@,
            final(self).next_row == old(self).next_row,
    {
        self.open = true;
        self.height = 0;
    }

    /// Closes the open region, which then occupies the rows it used, and
    /// returns where it lies.
    pub fn end_region(&mut self) -> (r: RegionInfo)
        requires
            old(self).wf(),
            old(self).open,
        ensures
            final(self).wf(),
            !final(self).open,
            r == (RegionInfo { offset: old(self).next_row, height: old(self).height }),
            final(self).regions@ == old(self).regions@.push(r),
            final(self).next_row == old(self).next_row + old(self).height,
            final(self).table == old(self).table,
            final(self).instance@ == old(self).instance@,
    {
        let r = RegionInfo { offset: self.next_row, height: self.height };
        self.regions.push(r);
        self.next_row = self.next_row + self.height;
        self.height = 0;
        self.open = false;
        proof {
            lemma_chain_push(old(self).regions@, old(self).next_row as int, r);
        }
        r
    }

    fn fits_row(&self, row: usize) -> (r: bool)
        requires
            self.wf(),
        ensures
            r == (self.abs(row as int) < self.table.n),
    {
        row < self.table.n - self.next_row
    }

    /// Switches `sel` on at row `row` of the open region.
    pub fn enable_selector(&mut self, sel: Selector, row: usize) -> (r: Result<(), Error>)
        requires
            old(self).wf(),
            old(self).open,
        ensures
            final(self).wf(),
            final(self).same_layout(old(self)),
            r is Err <==> old(self).selector_error(sel, row as int) is Some,
            r is Err ==> r == Err::<(), Error>(old(self).selector_error(sel, row as int)->0)
                && *final(self) == *old(self),
            r is Ok ==> {
                &&& final(self).grown(old(self), row as int)
                &&& final(self).table.selector_at(sel.index as int, old(self).abs(row as int))
                &&& forall|s2: int, r2: int|
                    0 <= s2 < old(self).table.num_selectors && 0 <= r2 < old(self).table.n && (s2
                        != sel.index || r2 != old(self).abs(row as int))
                        ==> #[trigger] final(self).table.selector_at(s2, r2)
                        == old(self).table.selector_at(s2, r2)
                &&& final(self).table.same_shape(&old(self).table)
                &&& final(self).table.advice@ == old(self).table.advice@
                &&& final(self).table.fixed@ == old(self).table.fixed@
                &&& final(self).table.copies@ == old(self).table.copies@
            },
    {
        if sel.index >= self.table.num_selectors {
            return Err(Error::UndeclaredColumnReference);
        }
        if !self.fits_row(row) {
            return Err(Error::RegionOutOfBounds);
        }
        let abs = self.next_row + row;
        self.table.set_selector(sel.index, abs);
        if self.height < row + 1 {
            self.height = row + 1;
        }
        Ok(())
    }

    /// Writes `value` at row `row` of the open region in advice column `col`;
    /// this records no copy constraint.
    pub fn assign_advice(&mut self, col: Column, row: usize, value: Option<u64>) -> (r: Result<
        AssignedCell,
        Error,
    >)
        requires
            old(self).wf(),
            old(self).open,
            Assignment::value_ok(value),
        ensures
            final(self).wf(),
            final(self).same_layout(old(self)),
            r is Err <==> old(self).assign_error(col, ColumnKind::Advice, row as int) is Some,
            r is Err ==> r == Err::<AssignedCell, Error>(
                old(self).assign_error(col, ColumnKind::Advice, row as int)->0,
            ) && *final(self) == *old(self),
            r is Ok ==> {
                &&& r->Ok_0 == (AssignedCell {
                    cell: Cell { column: col, row: old(self).abs(row as int) as usize },
                    value,
                })
                &&& final(self).grown(old(self), row as int)
                &&& final(self).table.advice_at(col.index as int, old(self).abs(row as int))
                    == value
                &&& forall|c2: int, r2: int|
                    0 <= c2 < old(self).table.num_advice && 0 <= r2 < old(self).table.n && (c2
                        != col.index || r2 != old(self).abs(row as int))
                        ==> #[trigger] final(self).table.advice_at(c2, r2)
                        == old(self).table.advice_at(c2, r2)
                &&& final(self).table.same_shape(&old(self).table)
                &&& final(self).table.fixed@ == old(self).table.fixed@
                &&& final(self).table.selectors@ == old(self).table.selectors@
                &&& final(self).table.copies@ == old(self).table.copies@
            },
    {
        if !(col.kind == ColumnKind::Advice) || !self.table.is_column_declared(col) {
            return Err(Error::UndeclaredColumnReference);
        }
        if !self.fits_row(row) {
            return Err(Error::RegionOutOfBounds);
        }
        let abs = self.next_row + row;
        self.table.set_advice(col.index, abs, value);
        if self.height < row + 1 {
            self.height = row + 1;
        }
        Ok(AssignedCell { cell: Cell { column: col, row: abs }, value })
    }
    fn check_pair(&self, a: Cell, col: Column, row_ok: bool) -> (r: Option<Error>)
        requires
            self.wf(),
        ensures
            r == self.pair_error(a, col, row_ok),
    {
        if !self.table.is_column_declared(a.column) || !self.table.is_column_declared(col) {
            Some(Error::UndeclaredColumnReference)
        } else if !self.table.is_equality_enabled(a.column) || !self.table.is_equality_enabled(col) {
            Some(Error::EqualityNotEnabled)
        } else if a.row >= self.table.n || !row_ok {
            Some(Error::RegionOutOfBounds)
        } else {
            None
        }
    }

    /// The public input at row `r` of instance column `i`, if one was supplied.
    pub fn instance_at(&self, i: usize, r: usize) -> (v: Option<u64>)
        ensures
            v == instance_value(self.instance@, i as int, r as int),
    {
        if i < self.instance.len() && r < self.instance[i].len() {
            Some(self.instance[i][r])
        } else {
            None
        }
    }

    /// Writes `src`'s value at row `row` of the open region in advice column
    /// `col`, and records that the two cells must be equal.
    pub fn copy_advice(&mut self, src: &AssignedCell, col: Column, row: usize) -> (r: Result<
        AssignedCell,
        Error,
    >)
        requires
            old(self).wf(),
            old(self).open,
            Assignment::value_ok(src.value),
        ensures
            final(self).wf(),
            final(self).same_layout(old(self)),
            r is Err <==> old(self).copy_error(src.cell, col, row as int) is Some,
            r is Err ==> r == Err::<AssignedCell, Error>(
                old(self).copy_error(src.cell, col, row as int)->0,
            ) && *final(self) == *old(self),
            r is Ok ==> {
                let dst = Cell { column: col, row: old(self).abs(row as int) as usize };
                &&& r->Ok_0 == (AssignedCell { cell: dst, value: src.value })
                &&& final(self).grown(old(self), row as int)
                &&& final(self).table.advice_at(col.index as int, dst.row as int) == src.value
                &&& forall|c2: int, r2: int|
                    0 <= c2 < old(self).table.num_advice && 0 <= r2 < old(self).table.n && (c2
                        != col.index || r2 != dst.row)
                        ==> #[trigger] final(self).table.advice_at(c2, r2)
                        == old(self).table.advice_at(c2, r2)
                &&& final(self).table.same_shape(&old(self).table)
                &&& final(self).table.fixed@ == old(self).table.fixed@
                &&& final(self).table.selectors@ == old(self).table.selectors@
                &&& final(self).table.copies@ == old(self).table.copies@.push((src.cell, dst))
            },
    {
        if !(col.kind == ColumnKind::Advice) {
            return Err(Error::UndeclaredColumnReference);
        }
        let row_ok = self.fits_row(row);
        if let Some(e) = self.check_pair(src.cell, col, row_ok) {
            return Err(e);
        }
        let abs = self.next_row + row;
        let dst = Cell { column: col, row: abs };
        self.table.set_advice(col.index, abs, src.value);
        let ghost mid = self.table;
        self.table.push_copy(src.cell, dst);
        proof {
            assert forall|c2: int, r2: int|
                0 <= c2 < old(self).table.num_advice && 0 <= r2 < old(self).table.n && (c2
                    != col.index || r2 != dst.row) implies #[trigger] self.table.advice_at(c2, r2)
                == old(self).table.advice_at(c2, r2) by {
                assert(mid.advice_at(c2, r2) == old(self).table.advice_at(c2, r2));
            }
        }
        if self.height < row + 1 {
            self.height = row + 1;
        }
        Ok(AssignedCell { cell: dst, value: src.value })
    }

    /// Writes the public input at row `irow` of instance column `inst` at row
    /// `row` of the open region in advice column `col`, and records that the
    /// two cells must be equal. The value is unknown where no input was
    /// supplied for that row.
    pub fn assign_advice_from_instance(
        &mut self,
        inst: Column,
        irow: usize,
        col: Column,
        row: usize,
    ) -> (r: Result<AssignedCell, Error>)
        requires
            old(self).wf(),
            old(self).open,
        ensures
            final(self).wf(),
            final(self).same_layout(old(self)),
            r is Err <==> old(self).from_instance_error(inst, irow, col, row as int) is Some,
            r is Err ==> r == Err::<AssignedCell, Error>(
                old(self).from_instance_error(inst, irow, col, row as int)->0,
            ) && *final(self) == *old(self),
            r is Ok ==> {
                let src = Cell { column: inst, row: irow };
                let dst = Cell { column: col, row: old(self).abs(row as int) as usize };
                let v = instance_value(old(self).instance@, inst.index as int, irow as int);
                &&& r->Ok_0 == (AssignedCell { cell: dst, value: v })
                &&& final(self).grown(old(self), row as int)
                &&& final(self).table.advice_at(col.index as int, dst.row as int) == v
                &&& forall|c2: int, r2: int|
                    0 <= c2 < old(self).table.num_advice && 0 <= r2 < old(self).table.n && (c2
                        != col.index || r2 != dst.row)
                        ==> #[trigger] final(self).table.advice_at(c2, r2)
                        == old(self).table.advice_at(c2, r2)
                &&& final(self).table.same_shape(&old(self).table)
                &&& final(self).table.fixed@ == old(self).table.fixed@
                &&& final(self).table.selectors@ == old(self).table.selectors@
                &&& final(self).table.copies@ == old(self).table.copies@.push((src, dst))
            },
    {
        if !(inst.kind == ColumnKind::Instance) {
            return Err(Error::UndeclaredColumnReference);
        }
        let src = AssignedCell {
            cell: Cell { column: inst, row: irow },
            value: self.instance_at(inst.index, irow),
        };
        self.copy_advice(&src, col, row)
    }

    /// Writes `value` at row `row` of the open region in fixed column `col`.
    pub fn assign_fixed(&mut self, col: Column, row: usize, value: Option<u64>) -> (r: Result<
        AssignedCell,
        Error,
    >)
        requires
            old(self).wf(),
            old(self).open,
            Assignment::value_ok(value),
        ensures
            final(self).wf(),
            final(self).same_layout(old(self)),
            r is Err <==> old(self).assign_error(col, ColumnKind::Fixed, row as int) is Some,
            r is Err ==> r == Err::<AssignedCell, Error>(
                old(self).assign_error(col, ColumnKind::Fixed, row as int)->0,
            ) && *final(self) == *old(self),
            r is Ok ==> {
                &&& r->Ok_0 == (AssignedCell {
                    cell: Cell { column: col, row: old(self).abs(row as int) as usize },
                    value,
                })
                &&& final(self).grown(old(self), row as int)
                &&& final(self).table.fixed_at(col.index as int, old(self).abs(row as int))
                    == value
                &&& forall|c2: int, r2: int|
                    0 <= c2 < old(self).table.num_fixed && 0 <= r2 < old(self).table.n && (c2
                        != col.index || r2 != old(self).abs(row as int))
                        ==> #[trigger] final(self).table.fixed_at(c2, r2)
                        == old(self).table.fixed_at(c2, r2)
                &&& final(self).table.same_shape(&old(self).table)
                &&& final(self).table.advice@ == old(self).table.advice@
                &&& final(self).table.selectors@ == old(self).table.selectors@
                &&& final(self).table.copies@ == old(self).table.copies@
            },
    {
        if !(col.kind == ColumnKind::Fixed) || !self.table.is_column_declared(col) {
            return Err(Error::UndeclaredColumnReference);
        }
        if !self.fits_row(row) {
            return Err(Error::RegionOutOfBounds);
        }
        let abs = self.next_row + row;
        self.table.set_fixed(col.index, abs, value);
        if self.height < row + 1 {
            self.height = row + 1;
        }
        Ok(AssignedCell { cell: Cell { column: col, row: abs }, value })
    }

    /// Records that `cell` must equal the public input at row `irow` of
    /// instance column `inst`.
    pub fn constrain_instance(&mut self, cell: Cell, inst: Column, irow: usize) -> (r: Result<
        (),
        Error,
    >)
        requires
            old(self).wf(),
        ensures
            final(self).wf(),
            final(self).same_layout(old(self)),
            final(self).height == old(self).height,
            r is Err <==> old(self).constrain_error(cell, inst, irow) is Some,
            r is Err ==> r == Err::<(), Error>(old(self).constrain_error(cell, inst, irow)->0)
                && *final(self) == *old(self),
            r is Ok ==> {
                &&& final(self).table.same_shape(&old(self).table)
                &&& final(self).table.advice@ == old(self).table.advice@
                &&& final(self).table.fixed@ == old(self).table.fixed@
                &&& final(self).table.selectors@ == old(self).table.selectors@
                &&& final(self).table.copies@ == old(self).table.copies@.push(
                    (cell, Cell { column: inst, row: irow }),
                )
            },
    {
        if !(inst.kind == ColumnKind::Instance) {
            return Err(Error::UndeclaredColumnReference);
        }
        if let Some(e) = self.check_pair(cell, inst, irow < self.table.n) {
            return Err(e);
        }
        self.table.push_copy(cell, Cell { column: inst, row: irow });
        Ok(())
    }
}

proof fn lemma_total_height_mono(regions: Seq<RegionInfo>, i: int, j: int)
    requires
        0 <= i <= j <= regions.len(),
    ensures
        total_height(regions, i) <= total_height(regions, j),
    decreases j - i,
{
    if i < j {
        lemma_total_height_mono(regions, i, j - 1);
    }
}

/// Laid-out regions never share a row: each one ends no later than any
/// region placed after it starts.
pub proof fn lemma_regions_disjoint(l: &Layouter, i: int, j: int)
    requires
        l.wf(),
        0 <= i < j < l.regions@.len(),
    ensures
        l.regions@[i].offset + l.regions@[i].height <= l.regions@[j].offset,
{
    let rs = l.regions@;
    assert(rs[i].offset == total_height(rs, i));
    assert(rs[j].offset == total_height(rs, j));
    lemma_total_height_mono(rs, i + 1, j);
}

proof fn lemma_total_height_uniform(regions: Seq<RegionInfo>, h: int, k: int)
    requires
        0 <= k <= regions.len(),
        forall|i: int| 0 <= i < regions.len() ==> (#[trigger] regions[i]).height == h,
    ensures
        total_height(regions, k) == k * h,
    decreases k,
{
    if k > 0 {
        lemma_total_height_uniform(regions, h, k - 1);
        assert(regions[k - 1].height == h);
        assert((k - 1) * h + h == k * h) by (nonlinear_arith);
    } else {
        assert(0 * h == 0);
    }
}

/// When every region has the same height `h`, region `i` starts at row `i * h`.
pub proof fn lemma_uniform_regions(l: &Layouter, h: int)
    requires
        l.wf(),
        forall|i: int| 0 <= i < l.regions@.len() ==> (#[trigger] l.regions@[i]).height == h,
    ensures
        forall|i: int| 0 <= i < l.regions@.len() ==> (#[trigger] l.regions@[i]).offset == i * h,
{
    assert forall|i: int| 0 <= i < l.regions@.len() implies (#[trigger] l.regions@[i]).offset == i
        * h by {
        lemma_total_height_uniform(l.regions@, h, i);
    }
}

} // verus!
