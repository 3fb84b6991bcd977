//! The assignment table: a grid of optional field values over the advice and
//! fixed columns, the selector bits, and the copy constraints recorded while
//! the table was filled.
use vstd::prelude::*;
use crate::circuit::{Column, ColumnKind, ConstraintSystem};
use crate::field::is_elem;

verus! {

/// A position in the table: a column and an absolute row.
#[derive(Clone, Copy, Debug, PartialEq, Eq, Structural)]
pub struct Cell {
    pub column: Column,
    pub row: usize,
}

/// Where `c * n + r` lands in a column-major grid of `m` columns of `n` rows.
pub proof fn lemma_slot(c: int, r: int, c2: int, r2: int, m: int, n: int)
    requires
        0 <= c < m,
        0 <= r < n,
        0 <= c2 < m,
        0 <= r2 < n,
    ensures
        0 <= c * n + r < m * n,
        c * n + r == c2 * n + r2 ==> c == c2 && r == r2,
{
    assert(0 <= c * n + r < m * n) by (nonlinear_arith)
        requires
            0 <= c < m,
            0 <= r < n,
    ;
    if c < c2 {
        assert(c * n + r < c2 * n + r2) by (nonlinear_arith)
            requires
                c < c2,
                0 <= r < n,
                0 <= r2,
        ;
    } else if c2 < c {
        assert(c2 * n + r2 < c * n + r) by (nonlinear_arith)
            requires
                c2 < c,
                0 <= r2 < n,
                0 <= r,
        ;
    }
}

pub struct Assignment {
    /// The number of rows.
    pub n: usize,
    pub num_advice: usize,
    pub num_instance: usize,
    pub num_fixed: usize,
    pub num_selectors: usize,
    /// The columns on which copy constraints are allowed.
    pub equality: Vec<Column>,
    /// Advice values, column by column: the cell `(c, r)` is at `c * n + r`.
    pub advice: Vec<Option<u64>>,
    /// Fixed values, laid out as `advice`.
    pub fixed: Vec<Option<u64>>,
    /// Selector bits, laid out as `advice`.
    pub selectors: Vec<bool>,
    /// The pairs of cells declared equal, in the order they were recorded.
    pub copies: Vec<(Cell, Cell)>,
}

impl Assignment {
    pub open spec fn column_declared(&self, c: Column) -> bool {
        match c.kind {
            ColumnKind::Advice => c.index < self.num_advice,
            ColumnKind::Instance => c.index < self.num_instance,
            ColumnKind::Fixed => c.index < self.num_fixed,
        }
    }

    pub open spec fn equality_enabled(&self, c: Column) -> bool {
        self.equality@.contains(c)
    }

    /// A cell that a copy constraint may name.
    pub open spec fn copyable(&self, x: Cell) -> bool {
        &&& self.equality_enabled(x.column)
        &&& self.column_declared(x.column)
        &&& x.row < self.n
    }

    pub open spec fn advice_at(&self, c: int, r: int) -> Option<u64> {
        self.advice@[c * self.n + r]
    }

    pub open spec fn fixed_at(&self, c: int, r: int) -> Option<u64> {
        self.fixed@[c * self.n + r]
    }

    pub open spec fn selector_at(&self, s: int, r: int) -> bool {
        self.selectors@[s * self.n + r]
    }

    pub open spec fn value_ok(v: Option<u64>) -> bool {
        v is Some ==> is_elem(v->0 as int)
    }

    pub open spec fn wf(&self) -> bool {
        &&& self.n > 0
        &&& self.advice@.len() == self.num_advice * self.n
        &&& self.fixed@.len() == self.num_fixed * self.n
        &&& self.selectors@.len() == self.num_selectors * self.n
        &&& forall|i: int| 0 <= i < self.advice@.len() ==> Self::value_ok(#[trigger] self.advice@[i])
        &&& forall|i: int| 0 <= i < self.fixed@.len() ==> Self::value_ok(#[trigger] self.fixed@[i])
        &&& forall|i: int|
            0 <= i < self.equality@.len() ==> self.column_declared(#[trigger] self.equality@[i])
        &&& forall|i: int|
            0 <= i < self.copies@.len() ==> self.copyable(#[trigger] self.copies@[i].0)
                && self.copyable(self.copies@[i].1)
    }

    /// The table was laid out for the constraint system `cs`.
    pub open spec fn fits(&self, cs: &ConstraintSystem) -> bool {
        &&& self.num_advice == cs.num_advice
        &&& self.num_instance == cs.num_instance
        &&& self.num_fixed == cs.num_fixed
        &&& self.num_selectors == cs.num_selectors
        &&& self.equality@ == cs.equality@
    }

    /// The same shape, with the same columns enabled for copies.
    pub open spec fn same_shape(&self, other: &Assignment) -> bool {
        &&& self.n == other.n
        &&& self.num_advice == other.num_advice
        &&& self.num_instance == other.num_instance
        &&& self.num_fixed == other.num_fixed
        &&& self.num_selectors == other.num_selectors
        &&& self.equality@ == other.equality@
    }

    pub fn is_equality_enabled(&self, c: Column) -> (r: bool)
        ensures
            r == self.equality_enabled(c),
    {
        let mut i: usize = 0;
        while i < self.equality.len()
            invariant
                0 <= i <= self.equality@.len(),
                forall|j: int| 0 <= j < i ==> self.equality@[j] != c,
            decreases self.equality@.len() - i,
        {
            if self.equality[i] == c {
                return true;
            }
            i = i + 1;
        }
        false
    }

    pub fn is_column_declared(&self, c: Column) -> (r: bool)
        ensures
            r == self.column_declared(c),
    {
        match c.kind {
            ColumnKind::Advice => c.index < self.num_advice,
            ColumnKind::Instance => c.index < self.num_instance,
            ColumnKind::Fixed => c.index < self.num_fixed,
        }
    }

    pub fn is_copyable(&self, x: Cell) -> (r: bool)
        ensures
            r == self.copyable(x),
    {
        self.is_column_declared(x.column) && x.row < self.n && self.is_equality_enabled(x.column)
    }

    /// An empty table of `n` rows for the columns and selectors of `cs`:
    /// every cell unknown, every selector off, no copies.
    pub fn new(cs: &ConstraintSystem, n: usize) -> (r: Assignment)
        requires
            cs.wf(),
            n > 0,
            cs.num_advice * n <= usize::MAX,
            cs.num_fixed * n <= usize::MAX,
            cs.num_selectors * n <= usize::MAX,
        ensures
            r.wf(),
            r.fits(cs),
            r.n == n,
            forall|i: int| 0 <= i < r.advice@.len() ==> r.advice@[i] is None,
            forall|i: int| 0 <= i < r.fixed@.len() ==> r.fixed@[i] is None,
            forall|i: int| 0 <= i < r.selectors@.len() ==> !r.selectors@[i],
            r.copies@.len() == 0,
    {
        let mut equality: Vec<Column> = Vec::new();
        let mut i: usize = 0;
        while i < cs.equality.len()
            invariant
                0 <= i <= cs.equality@.len(),
                equality@ == cs.equality@.subrange(0, i as int),
            decreases cs.equality@.len() - i,
        {
            equality.push(cs.equality[i]);
            i = i + 1;
            assert(equality@ == cs.equality@.subrange(0, i as int));
        }
        assert(equality@ == cs.equality@);
        let advice = Self::unknown_cells(cs.num_advice * n);
        let fixed = Self::unknown_cells(cs.num_fixed * n);
        let mut selectors: Vec<bool> = Vec::new();
        let len = cs.num_selectors * n;
        let mut k: usize = 0;
        while k < len
            invariant
                0 <= k <= len,
                selectors@.len() == k,
                forall|j: int| 0 <= j < k ==> !selectors@[j],
            decreases len - k,
        {
            selectors.push(false);
            k = k + 1;
        }
        Assignment {
            n,
            num_advice: cs.num_advice,
            num_instance: cs.num_instance,
            num_fixed: cs.num_fixed,
            num_selectors: cs.num_selectors,
            equality,
            advice,
            fixed,
            selectors,
            copies: Vec::new(),
        }
    }

    /// Writes the advice cell `(c, r)`.
    pub fn set_advice(&mut self, c: usize, r: usize, v: Option<u64>)
        requires
            old(self).wf(),
            c < old(self).num_advice,
            r < old(self).n,
            Self::value_ok(v),
        ensures
            final(self).wf(),
            final(self).same_shape(old(self)),
            final(self).advice_at(c as int, r as int) == v,
            forall|c2: int, r2: int|
                0 <= c2 < old(self).num_advice && 0 <= r2 < old(self).n && (c2 != c || r2 != r)
                    ==> #[trigger] final(self).advice_at(c2, r2) == old(self).advice_at(c2, r2),
            final(self).fixed@ == old(self).fixed@,
            final(self).selectors@ == old(self).selectors@,
            final(self).copies@ == old(self).copies@,
    {
        proof {
            lemma_slot(c as int, r as int, 0, 0, self.num_advice as int, self.n as int);
        }
        let _len = self.advice.len();
        let i = c * self.n + r;
        self.advice.set(i, v);
        proof {
            assert forall|c2: int, r2: int|
                0 <= c2 < old(self).num_advice && 0 <= r2 < old(self).n && (c2 != c || r2 != r)
                    implies #[trigger] self.advice_at(c2, r2) == old(self).advice_at(c2, r2) by {
                lemma_slot(c as int, r as int, c2, r2, self.num_advice as int, self.n as int);
                lemma_slot(c2, r2, c as int, r as int, self.num_advice as int, self.n as int);
            }
        }
    }

    /// Writes the fixed cell `(c, r)`.
    pub fn set_fixed(&mut self, c: usize, r: usize, v: Option<u64>)
        requires
            old(self).wf(),
            c < old(self).num_fixed,
            r < old(self).n,
            Self::value_ok(v),
        ensures
            final(self).wf(),
            final(self).same_shape(old(self)),
            final(self).fixed_at(c as int, r as int) == v,
            forall|c2: int, r2: int|
                0 <= c2 < old(self).num_fixed && 0 <= r2 < old(self).n && (c2 != c || r2 != r)
                    ==> #[trigger] final(self).fixed_at(c2, r2) == old(self).fixed_at(c2, r2),
            final(self).advice@ == old(self).advice@,
            final(self).selectors@ == old(self).selectors@,
            final(self).copies@ == old(self).copies@,
    {
        proof {
            lemma_slot(c as int, r as int, 0, 0, self.num_fixed as int, self.n as int);
        }
        let _len = self.fixed.len();
        let i = c * self.n + r;
        self.fixed.set(i, v);
        proof {
            assert forall|c2: int, r2: int|
                0 <= c2 < old(self).num_fixed && 0 <= r2 < old(self).n && (c2 != c || r2 != r)
                    implies #[trigger] self.fixed_at(c2, r2) == old(self).fixed_at(c2, r2) by {
                lemma_slot(c as int, r as int, c2, r2, self.num_fixed as int, self.n as int);
                lemma_slot(c2, r2, c as int, r as int, self.num_fixed as int, self.n as int);
            }
        }
    }

    /// Switches selector `s` on at row `r`.
    pub fn set_selector(&mut self, s: usize, r: usize)
        requires
            old(self).wf(),
            s < old(self).num_selectors,
            r < old(self).n,
        ensures
            final(self).wf(),
            final(self).same_shape(old(self)),
            final(self).selector_at(s as int, r as int),
            forall|s2: int, r2: int|
                0 <= s2 < old(self).num_selectors && 0 <= r2 < old(self).n && (s2 != s || r2 != r)
                    ==> #[trigger] final(self).selector_at(s2, r2) == old(self).selector_at(s2, r2),
            final(self).advice@ == old(self).advice@,
            final(self).fixed@ == old(self).fixed@,
            final(self).copies@ == old(self).copies@,
    {
        proof {
            lemma_slot(s as int, r as int, 0, 0, self.num_selectors as int, self.n as int);
        }
        let _len = self.selectors.len();
        let i = s * self.n + r;
        self.selectors.set(i, true);
        proof {
            assert forall|s2: int, r2: int|
                0 <= s2 < old(self).num_selectors && 0 <= r2 < old(self).n && (s2 != s || r2 != r)
                    implies #[trigger] self.selector_at(s2, r2) == old(self).selector_at(s2, r2) by {
                lemma_slot(s as int, r as int, s2, r2, self.num_selectors as int, self.n as int);
                lemma_slot(s2, r2, s as int, r as int, self.num_selectors as int, self.n as int);
            }
        }
    }

    /// Records that cells `a` and `b` must hold equal values.
    pub fn push_copy(&mut self, a: Cell, b: Cell)
        requires
            old(self).wf(),
            old(self).copyable(a),
            old(self).copyable(b),
        ensures
            final(self).wf(),
            final(self).same_shape(old(self)),
            final(self).copies@ == old(self).copies@.push((a, b)),
            final(self).advice@ == old(self).advice@,
            final(self).fixed@ == old(self).fixed@,
            final(self).selectors@ == old(self).selectors@,
    {
        self.copies.push((a, b));
        proof {
            assert forall|i: int| 0 <= i < self.copies@.len() implies self.copyable(
                #[trigger] self.copies@[i].0,
            ) && self.copyable(self.copies@[i].1) by {
                if i < old(self).copies@.len() {
                    assert(self.copies@[i] == old(self).copies@[i]);
                }
            }
        }
    }

    fn unknown_cells(len: usize) -> (r: Vec<Option<u64>>)
        ensures
            r@.len() == len,
            forall|j: int| 0 <= j < len ==> r@[j] is None,
    {
        let mut v: Vec<Option<u64>> = Vec::new();
        let mut k: usize = 0;
        while k < len
            invariant
                0 <= k <= len,
                v@.len() == k,
                forall|j: int| 0 <= j < k ==> v@[j] is None,
            decreases len - k,
        {
            v.push(None);
            k = k + 1;
        }
        v
    }
}

} // verus!
