//! The checker: evaluates every gate at every row of a filled table and every
//! copy constraint, and reports all that fail.
use vstd::prelude::*;
use vstd::arithmetic::div_mod::{
    lemma_add_mod_noop_right,
    lemma_mod_add_multiples_vanish,
    lemma_small_mod,
    lemma_sub_mod_noop_right,
};
use crate::circuit::{Column, ColumnKind, ConstraintSystem, Error, Expression, Selector};
use crate::field::{self, add_spec, is_elem, mul_spec, sub_spec, MODULUS};
use crate::layout::{inputs_ok, instance_value};
use crate::permutation::{
    check_copies,
    copies_hold,
    copy_report,
    lemma_no_copy_failures,
    lemma_same_classes,
    has_match,
    PermutationFailure,
};
use crate::table::{Assignment, Cell};

verus! {

/// The row that rotation `rot` reaches from row `r` in a cyclic table of `n` rows.
pub open spec fn rotate(r: int, rot: int, n: int) -> int {
    (r + rot) % n
}

/// The value of cell `(c, r)`: advice and fixed cells from the table, instance
/// cells from the public inputs.
pub open spec fn cell_value(t: &Assignment, inputs: Seq<Vec<u64>>, c: Column, r: int) -> Option<u64> {
    match c.kind {
        ColumnKind::Advice => t.advice_at(c.index as int, r),
        ColumnKind::Fixed => t.fixed_at(c.index as int, r),
        ColumnKind::Instance => instance_value(inputs, c.index as int, r),
    }
}

/// The value of `e` at row `r`, or `None` where it depends on an unknown cell.
/// A product with a factor that is zero is zero, whatever the other factor.
pub open spec fn eval(t: &Assignment, inputs: Seq<Vec<u64>>, e: Expression, r: int) -> Option<int>
    decreases e,
{
    match e {
        Expression::Constant(c) => Some(c as int % (MODULUS as int)),
        Expression::Selector(s) => Some(
            if t.selector_at(s.index as int, r) {
                1
            } else {
                0
            },
        ),
        Expression::Query(c, rot) => match cell_value(t, inputs, c, rotate(r, rot as int, t.n as int)) {
            Some(v) => Some(v as int),
            None => None,
        },
        Expression::Sum(a, b) => match (eval(t, inputs, *a, r), eval(t, inputs, *b, r)) {
            (Some(x), Some(y)) => Some(add_spec(x, y)),
            _ => None,
        },
        Expression::Difference(a, b) => match (eval(t, inputs, *a, r), eval(t, inputs, *b, r)) {
            (Some(x), Some(y)) => Some(sub_spec(x, y)),
            _ => None,
        },
        Expression::Product(a, b) => {
            let x = eval(t, inputs, *a, r);
            let y = eval(t, inputs, *b, r);
            if x == Some(0int) || y == Some(0int) {
                Some(0)
            } else {
                match (x, y) {
                    (Some(x), Some(y)) => Some(mul_spec(x, y)),
                    _ => None,
                }
            }
        },
    }
}

/// The row that rotation `rot` reaches from row `r`.
pub fn rotated_row(r: usize, rot: i64, n: usize) -> (res: usize)
    requires
        r < n,
    ensures
        res as int == rotate(r as int, rot as int, n as int),
        res < n,
{
    let nn: u128 = n as u128;
    if rot >= 0 {
        let k: usize = ((rot as u128) % nn) as usize;
        proof {
            lemma_add_mod_noop_right(r as int, rot as int, n as int);
        }
        if k >= n - r {
            proof {
                lemma_mod_add_multiples_vanish(r as int + k as int - n as int, n as int);
                lemma_small_mod((r + k - n) as nat, n as nat);
            }
            k - (n - r)
        } else {
            proof {
                lemma_small_mod((r + k) as nat, n as nat);
            }
            r + k
        }
    } else {
        let k: usize = ((-(rot as i128)) as u128 % nn) as usize;
        proof {
            lemma_sub_mod_noop_right(r as int, -(rot as int), n as int);
        }
        if r >= k {
            proof {
                lemma_small_mod((r - k) as nat, n as nat);
            }
            r - k
        } else {
            proof {
                lemma_mod_add_multiples_vanish(r as int - k as int, n as int);
                lemma_small_mod((n - k + r) as nat, n as nat);
            }
            n - (k - r)
        }
    }
}

/// The value of cell `(c, r)`.
pub fn read_cell(t: &Assignment, inputs: &Vec<Vec<u64>>, c: Column, r: usize) -> (v: Option<u64>)
    requires
        t.wf(),
        t.column_declared(c),
        r < t.n,
        inputs_ok(inputs@),
    ensures
        v == cell_value(t, inputs@, c, r as int),
        Assignment::value_ok(v),
{
    match c.kind {
        ColumnKind::Advice => {
            proof {
                crate::table::lemma_slot(c.index as int, r as int, 0, 0, t.num_advice as int, t.n as int);
            }
            let _len = t.advice.len();
            t.advice[c.index * t.n + r]
        },
        ColumnKind::Fixed => {
            proof {
                crate::table::lemma_slot(c.index as int, r as int, 0, 0, t.num_fixed as int, t.n as int);
            }
            let _len = t.fixed.len();
            t.fixed[c.index * t.n + r]
        },
        ColumnKind::Instance => {
            if c.index < inputs.len() && r < inputs[c.index].len() {
                Some(inputs[c.index][r])
            } else {
                None
            }
        },
    }
}

fn selector_bit(t: &Assignment, s: usize, r: usize) -> (b: bool)
    requires
        t.wf(),
        s < t.num_selectors,
        r < t.n,
    ensures
        b == t.selector_at(s as int, r as int),
{
    proof {
        crate::table::lemma_slot(s as int, r as int, 0, 0, t.num_selectors as int, t.n as int);
    }
    let _len = t.selectors.len();
    t.selectors[s * t.n + r]
}

/// The value of `e` at row `r`.
pub fn eval_expr(
    cs: &ConstraintSystem,
    t: &Assignment,
    inputs: &Vec<Vec<u64>>,
    e: &Expression,
    r: usize,
) -> (v: Option<u64>)
    requires
        t.wf(),
        t.fits(cs),
        cs.expr_declared(*e),
        r < t.n,
        inputs_ok(inputs@),
    ensures
        match v {
            Some(x) => eval(t, inputs@, *e, r as int) == Some(x as int) && is_elem(x as int),
            None => eval(t, inputs@, *e, r as int) is None,
        },
    decreases e,
{
    match e {
        Expression::Constant(c) => Some(field::from_u64(*c)),
        Expression::Selector(s) => {
            if selector_bit(t, s.index, r) {
                Some(1)
            } else {
                Some(0)
            }
        },
        Expression::Query(c, rot) => {
            let row = rotated_row(r, *rot, t.n);
            read_cell(t, inputs, *c, row)
        },
        Expression::Sum(a, b) => {
            let x = eval_expr(cs, t, inputs, a, r);
            let y = eval_expr(cs, t, inputs, b, r);
            match (x, y) {
                (Some(x), Some(y)) => Some(field::add(x, y)),
                _ => None,
            }
        },
        Expression::Difference(a, b) => {
            let x = eval_expr(cs, t, inputs, a, r);
            let y = eval_expr(cs, t, inputs, b, r);
            match (x, y) {
                (Some(x), Some(y)) => Some(field::sub(x, y)),
                _ => None,
            }
        },
        Expression::Product(a, b) => {
            let x = eval_expr(cs, t, inputs, a, r);
            let y = eval_expr(cs, t, inputs, b, r);
            if x == Some(0u64) || y == Some(0u64) {
                Some(0)
            } else {
                match (x, y) {
                    (Some(x), Some(y)) => Some(field::mul(x, y)),
                    _ => None,
                }
            }
        },
    }
}

#[derive(Clone, Copy, Debug, PartialEq, Eq, Structural)]
pub enum GateFailureKind {
    /// The expression is nonzero at an active row.
    ConstraintNotSatisfied,
    /// The expression depends on a cell with no value.
    UnassignedCell,
}

/// Expression `index` of gate `gate` does not vanish at row `row`.
#[derive(Clone, Copy, Debug, PartialEq, Eq, Structural)]
pub struct GateFailure {
    pub gate: usize,
    pub row: usize,
    pub index: usize,
    pub kind: GateFailureKind,
}

/// How expression `k` of gate `g` fails at row `r`, if it does.
pub open spec fn poly_failure(
    cs: &ConstraintSystem,
    t: &Assignment,
    inputs: Seq<Vec<u64>>,
    g: int,
    r: int,
    k: int,
) -> Seq<GateFailure> {
    let f = |kind: GateFailureKind| GateFailure { gate: g as usize, row: r as usize, index: k as usize, kind };
    match eval(t, inputs, cs.gates@[g].polys@[k], r) {
        Some(v) => if v == 0 {
            Seq::empty()
        } else {
            seq![f(GateFailureKind::ConstraintNotSatisfied)]
        },
        None => seq![f(GateFailureKind::UnassignedCell)],
    }
}

/// The failures of the first `k` expressions of gate `g` at row `r`.
pub open spec fn poly_failures(
    cs: &ConstraintSystem,
    t: &Assignment,
    inputs: Seq<Vec<u64>>,
    g: int,
    r: int,
    k: int,
) -> Seq<GateFailure>
    decreases k,
{
    if k <= 0 {
        Seq::empty()
    } else {
        poly_failures(cs, t, inputs, g, r, k - 1) + poly_failure(cs, t, inputs, g, r, k - 1)
    }
}

/// The failures of gate `g` at rows `[0, r)`, row by row.
pub open spec fn row_failures(
    cs: &ConstraintSystem,
    t: &Assignment,
    inputs: Seq<Vec<u64>>,
    g: int,
    r: int,
) -> Seq<GateFailure>
    decreases r,
{
    if r <= 0 {
        Seq::empty()
    } else {
        row_failures(cs, t, inputs, g, r - 1) + poly_failures(
            cs,
            t,
            inputs,
            g,
            r - 1,
            cs.gates@[g].polys@.len() as int,
        )
    }
}

/// The failures of the first `g` gates at every row, gate by gate.
pub open spec fn gate_failures(
    cs: &ConstraintSystem,
    t: &Assignment,
    inputs: Seq<Vec<u64>>,
    g: int,
) -> Seq<GateFailure>
    decreases g,
{
    if g <= 0 {
        Seq::empty()
    } else {
        gate_failures(cs, t, inputs, g - 1) + row_failures(cs, t, inputs, g - 1, t.n as int)
    }
}

/// Every expression of every gate vanishes at every row.
pub open spec fn gates_hold(cs: &ConstraintSystem, t: &Assignment, inputs: Seq<Vec<u64>>) -> bool {
    forall|g: int, r: int, k: int|
        0 <= g < cs.gates@.len() && 0 <= r < t.n && 0 <= k < cs.gates@[g].polys@.len() ==> #[trigger] eval(
            t,
            inputs,
            cs.gates@[g].polys@[k],
            r,
        ) == Some(0int)
}

/// Evaluates every expression of every gate at every row and lists, in the
/// order gate, row, expression, each one that does not vanish.
pub fn check_gates(cs: &ConstraintSystem, t: &Assignment, inputs: &Vec<Vec<u64>>) -> (res: Vec<
    GateFailure,
>)
    requires
        cs.wf(),
        t.wf(),
        t.fits(cs),
        inputs_ok(inputs@),
    ensures
        res@ == gate_failures(cs, t, inputs@, cs.gates@.len() as int),
{
    let mut res: Vec<GateFailure> = Vec::new();
    let mut g: usize = 0;
    while g < cs.gates.len()
        invariant
            cs.wf(),
            t.wf(),
            t.fits(cs),
            inputs_ok(inputs@),
            0 <= g <= cs.gates@.len(),
            res@ == gate_failures(cs, t, inputs@, g as int),
        decreases cs.gates@.len() - g,
    {
        let polys = &cs.gates[g].polys;
        assert(cs.polys_declared(polys@));
        let mut r: usize = 0;
        while r < t.n
            invariant
                cs.wf(),
                t.wf(),
                t.fits(cs),
                inputs_ok(inputs@),
                0 <= g < cs.gates@.len(),
                *polys == cs.gates@[g as int].polys,
                cs.polys_declared(polys@),
                0 <= r <= t.n,
                res@ == gate_failures(cs, t, inputs@, g as int) + row_failures(
                    cs,
                    t,
                    inputs@,
                    g as int,
                    r as int,
                ),
            decreases t.n - r,
        {
            let ghost before = res@;
            let mut k: usize = 0;
            while k < polys.len()
                invariant
                    cs.wf(),
                    t.wf(),
                    t.fits(cs),
                    inputs_ok(inputs@),
                    0 <= g < cs.gates@.len(),
                    *polys == cs.gates@[g as int].polys,
                    cs.polys_declared(polys@),
                    0 <= r < t.n,
                    0 <= k <= polys@.len(),
                    res@ == before + poly_failures(cs, t, inputs@, g as int, r as int, k as int),
                decreases polys@.len() - k,
            {
                let v = eval_expr(cs, t, inputs, &polys[k], r);
                let ghost prev = res@;
                match v {
                    Some(x) => {
                        if x != 0 {
                            res.push(
                                GateFailure {
                                    gate: g,
                                    row: r,
                                    index: k,
                                    kind: GateFailureKind::ConstraintNotSatisfied,
                                },
                            );
                        }
                    },
                    None => {
                        res.push(
                            GateFailure {
                                gate: g,
                                row: r,
                                index: k,
                                kind: GateFailureKind::UnassignedCell,
                            },
                        );
                    },
                }
                proof {
                    let pf = poly_failure(cs, t, inputs@, g as int, r as int, k as int);
                    assert(res@ == prev + pf);
                    assert(poly_failures(cs, t, inputs@, g as int, r as int, k as int + 1)
                        == poly_failures(cs, t, inputs@, g as int, r as int, k as int) + pf);
                    assert(res@ == before + poly_failures(
                        cs,
                        t,
                        inputs@,
                        g as int,
                        r as int,
                        k as int + 1,
                    ));
                }
                k = k + 1;
            }
            r = r + 1;
        }
        g = g + 1;
    }
    res
}

proof fn lemma_poly_failures_empty(
    cs: &ConstraintSystem,
    t: &Assignment,
    inputs: Seq<Vec<u64>>,
    g: int,
    r: int,
    k: int,
)
    ensures
        poly_failures(cs, t, inputs, g, r, k).len() == 0 <==> forall|j: int|
            0 <= j < k ==> #[trigger] eval(t, inputs, cs.gates@[g].polys@[j], r) == Some(0int),
    decreases k,
{
    if k > 0 {
        lemma_poly_failures_empty(cs, t, inputs, g, r, k - 1);
    }
}

proof fn lemma_row_failures_empty(
    cs: &ConstraintSystem,
    t: &Assignment,
    inputs: Seq<Vec<u64>>,
    g: int,
    r: int,
)
    ensures
        row_failures(cs, t, inputs, g, r).len() == 0 <==> forall|i: int, j: int|
            0 <= i < r && 0 <= j < cs.gates@[g].polys@.len() ==> #[trigger] eval(
                t,
                inputs,
                cs.gates@[g].polys@[j],
                i,
            ) == Some(0int),
    decreases r,
{
    if r > 0 {
        lemma_row_failures_empty(cs, t, inputs, g, r - 1);
        lemma_poly_failures_empty(cs, t, inputs, g, r - 1, cs.gates@[g].polys@.len() as int);
    }
}

proof fn lemma_gate_failures_empty(
    cs: &ConstraintSystem,
    t: &Assignment,
    inputs: Seq<Vec<u64>>,
    g: int,
)
    requires
        g <= cs.gates@.len(),
    ensures
        gate_failures(cs, t, inputs, g).len() == 0 <==> forall|h: int, i: int, j: int|
            0 <= h < g && 0 <= i < t.n && 0 <= j < cs.gates@[h].polys@.len() ==> #[trigger] eval(
                t,
                inputs,
                cs.gates@[h].polys@[j],
                i,
            ) == Some(0int),
    decreases g,
{
    if g > 0 {
        lemma_gate_failures_empty(cs, t, inputs, g - 1);
        lemma_row_failures_empty(cs, t, inputs, g - 1, t.n as int);
    }
}

/// No gate failure is listed exactly when every gate holds everywhere.
pub proof fn lemma_no_gate_failures(cs: &ConstraintSystem, t: &Assignment, inputs: Seq<Vec<u64>>)
    ensures
        gate_failures(cs, t, inputs, cs.gates@.len() as int).len() == 0 <==> gates_hold(
            cs,
            t,
            inputs,
        ),
{
    lemma_gate_failures_empty(cs, t, inputs, cs.gates@.len() as int);
}

/// The outcome of a check.
#[derive(Debug)]
pub enum Verdict {
    Satisfied,
    Failed { gates: Vec<GateFailure>, copies: Vec<PermutationFailure> },
}

impl Verdict {
    pub open spec fn satisfied(&self) -> bool {
        self is Satisfied
    }

    pub fn is_satisfied(&self) -> (r: bool)
        ensures
            r == self.satisfied(),
    {
        match self {
            Verdict::Satisfied => true,
            _ => false,
        }
    }
}

/// A copy constraint cell in an instance column names a row for which a
/// public input was supplied.
pub open spec fn instance_cell_ok(inputs: Seq<Vec<u64>>, c: Cell) -> bool {
    c.column.kind == ColumnKind::Instance ==> instance_value(inputs, c.column.index as int, c.row as int) is Some
}

/// Some copy constraint names cell `c`.
pub open spec fn referenced(t: &Assignment, c: Cell) -> bool {
    exists|e: int| 0 <= e < t.copies@.len() && ((#[trigger] t.copies@[e]).0 == c || t.copies@[e].1 == c)
}

/// The public inputs fit the circuit: one vector per instance column, none
/// longer than the table, an input for every instance cell that a copy
/// constraint names, and no input that no copy constraint names.
pub open spec fn instance_ok(cs: &ConstraintSystem, t: &Assignment, inputs: Seq<Vec<u64>>) -> bool {
    &&& inputs.len() == cs.num_instance
    &&& forall|i: int| 0 <= i < inputs.len() ==> (#[trigger] inputs[i])@.len() <= t.n
    &&& forall|i: int, r: int|
        0 <= i < inputs.len() && 0 <= r < inputs[i]@.len() ==> #[trigger] referenced(
            t,
            Cell { column: Column { kind: ColumnKind::Instance, index: i as usize }, row: r as usize },
        )
    &&& forall|e: int|
        0 <= e < t.copies@.len() ==> instance_cell_ok(inputs, (#[trigger] t.copies@[e]).0)
            && instance_cell_ok(inputs, t.copies@[e].1)
}

fn check_instance_cell(inputs: &Vec<Vec<u64>>, c: Cell) -> (r: bool)
    ensures
        r == instance_cell_ok(inputs@, c),
{
    match c.column.kind {
        ColumnKind::Instance => c.column.index < inputs.len() && c.row < inputs[c.column.index].len(),
        _ => true,
    }
}

fn is_referenced(t: &Assignment, c: Cell) -> (r: bool)
    ensures
        r == referenced(t, c),
{
    let mut e: usize = 0;
    while e < t.copies.len()
        invariant
            0 <= e <= t.copies@.len(),
            forall|f: int| 0 <= f < e ==> (#[trigger] t.copies@[f]).0 != c && t.copies@[f].1 != c,
        decreases t.copies@.len() - e,
    {
        if t.copies[e].0 == c || t.copies[e].1 == c {
            return true;
        }
        e = e + 1;
    }
    false
}

pub fn check_instance(cs: &ConstraintSystem, t: &Assignment, inputs: &Vec<Vec<u64>>) -> (r: bool)
    ensures
        r == instance_ok(cs, t, inputs@),
{
    if inputs.len() != cs.num_instance {
        return false;
    }
    let mut i: usize = 0;
    while i < inputs.len()
        invariant
            0 <= i <= inputs@.len(),
            forall|j: int| 0 <= j < i ==> (#[trigger] inputs@[j])@.len() <= t.n,
        decreases inputs@.len() - i,
    {
        if inputs[i].len() > t.n {
            return false;
        }
        i = i + 1;
    }
    let mut e: usize = 0;
    while e < t.copies.len()
        invariant
            inputs@.len() == cs.num_instance,
            forall|j: int| 0 <= j < inputs@.len() ==> (#[trigger] inputs@[j])@.len() <= t.n,
            0 <= e <= t.copies@.len(),
            forall|f: int|
                0 <= f < e ==> instance_cell_ok(inputs@, (#[trigger] t.copies@[f]).0)
                    && instance_cell_ok(inputs@, t.copies@[f].1),
        decreases t.copies@.len() - e,
    {
        let (a, b) = t.copies[e];
        if !check_instance_cell(inputs, a) || !check_instance_cell(inputs, b) {
            return false;
        }
        e = e + 1;
    }
    let mut i: usize = 0;
    while i < inputs.len()
        invariant
            inputs@.len() == cs.num_instance,
            forall|j: int| 0 <= j < inputs@.len() ==> (#[trigger] inputs@[j])@.len() <= t.n,
            forall|f: int|
                0 <= f < t.copies@.len() ==> instance_cell_ok(inputs@, (#[trigger] t.copies@[f]).0)
                    && instance_cell_ok(inputs@, t.copies@[f].1),
            0 <= i <= inputs@.len(),
            forall|j: int, r: int|
                0 <= j < i && 0 <= r < inputs@[j]@.len() ==> #[trigger] referenced(
                    t,
                    Cell { column: Column { kind: ColumnKind::Instance, index: j as usize }, row: r as usize },
                ),
        decreases inputs@.len() - i,
    {
        let mut r: usize = 0;
        while r < inputs[i].len()
            invariant
                inputs@.len() == cs.num_instance,
                forall|j: int| 0 <= j < inputs@.len() ==> (#[trigger] inputs@[j])@.len() <= t.n,
                forall|f: int|
                    0 <= f < t.copies@.len() ==> instance_cell_ok(inputs@, (#[trigger] t.copies@[f]).0)
                        && instance_cell_ok(inputs@, t.copies@[f].1),
                0 <= i < inputs@.len(),
                0 <= r <= inputs@[i as int]@.len(),
                forall|j: int, q: int|
                    (0 <= j < i && 0 <= q < inputs@[j]@.len()) || (j == i && 0 <= q < r) ==> #[trigger] referenced(
                        t,
                        Cell { column: Column { kind: ColumnKind::Instance, index: j as usize }, row: q as usize },
                    ),
            decreases inputs@[i as int]@.len() - r,
        {
            let c = Cell { column: Column { kind: ColumnKind::Instance, index: i }, row: r };
            if !is_referenced(t, c) {
                proof {
                    let (ii, rr) = (i as int, r as int);
                    assert(c == Cell { column: Column { kind: ColumnKind::Instance, index: ii as usize }, row: rr as usize });
                    assert(!referenced(t, Cell { column: Column { kind: ColumnKind::Instance, index: ii as usize }, row: rr as usize }));
                }
                return false;
            }
            r = r + 1;
        }
        i = i + 1;
    }
    true
}

/// What a check of table `t` against `cs` and the public inputs `inputs`
/// returns: an error exactly when the inputs do not fit the circuit; else a
/// verdict that is satisfied exactly when every gate and every copy holds,
/// and otherwise lists every gate failure, in order, and the broken classes.
pub open spec fn check_outcome(
    cs: &ConstraintSystem,
    t: &Assignment,
    inputs: Seq<Vec<u64>>,
    r: &Result<Verdict, Error>,
) -> bool {
    &&& r is Err <==> !instance_ok(cs, t, inputs)
    &&& r is Err ==> *r == Err::<Verdict, Error>(Error::InstanceLengthMismatch)
    &&& r is Ok ==> (r->Ok_0.satisfied() <==> gates_hold(cs, t, inputs) && copies_hold(t, inputs))
    &&& *r matches Ok(Verdict::Failed { gates, copies }) ==> {
        &&& gates@ == gate_failures(cs, t, inputs, cs.gates@.len() as int)
        &&& copy_report(t, inputs, copies@)
        &&& gates@.len() > 0 || copies@.len() > 0
    }
}

/// Two checks of one table against one circuit and one set of inputs agree:
/// both stop on the same error, or both are satisfied, or both list equal
/// gate failures in order and the same broken classes, taken as sets of cells.
pub proof fn lemma_check_deterministic(
    cs: &ConstraintSystem,
    t: &Assignment,
    inputs: Seq<Vec<u64>>,
    r1: &Result<Verdict, Error>,
    r2: &Result<Verdict, Error>,
)
    requires
        check_outcome(cs, t, inputs, r1),
        check_outcome(cs, t, inputs, r2),
    ensures
        r1 is Err <==> r2 is Err,
        r1 is Err ==> r1 == r2,
        r1 is Ok ==> (r1->Ok_0.satisfied() <==> r2->Ok_0.satisfied()),
        *r1 matches Ok(Verdict::Failed { gates: g1, copies: c1 }) ==> *r2 matches Ok(
            Verdict::Failed { gates: g2, copies: c2 },
        ) && g1@ == g2@ && (forall|i: int|
            0 <= i < c1@.len() ==> #[trigger] has_match(&c1@[i], c2@)) && (forall|j: int|
            0 <= j < c2@.len() ==> #[trigger] has_match(&c2@[j], c1@)),
{
    if let Ok(Verdict::Failed { gates: g1, copies: c1 }) = r1 {
        if let Ok(Verdict::Failed { gates: g2, copies: c2 }) = r2 {
            lemma_no_copy_failures(t, inputs, c1@);
            lemma_no_copy_failures(t, inputs, c2@);
            lemma_same_classes(t, inputs, c1@, c2@);
            lemma_same_classes(t, inputs, c2@, c1@);
        }
    }
}

/// Checks a filled table against the gates of `cs`, its copy constraints and
/// the public inputs. Public inputs that do not fit the circuit stop the
/// check; otherwise every gate at every row and every copy constraint is
/// checked, and all failures are reported.
pub fn check(cs: &ConstraintSystem, t: &Assignment, inputs: &Vec<Vec<u64>>) -> (r: Result<
    Verdict,
    Error,
>)
    requires
        cs.wf(),
        t.wf(),
        t.fits(cs),
        inputs_ok(inputs@),
    ensures
        check_outcome(cs, t, inputs@, &r),
{
    if !check_instance(cs, t, inputs) {
        return Err(Error::InstanceLengthMismatch);
    }
    let gates = check_gates(cs, t, inputs);
    let copies = check_copies(t, inputs);
    proof {
        lemma_no_gate_failures(cs, t, inputs@);
        lemma_no_copy_failures(t, inputs@, copies@);
    }
    if gates.len() == 0 && copies.len() == 0 {
        Ok(Verdict::Satisfied)
    } else {
        Ok(Verdict::Failed { gates, copies })
    }
}

/// A gate of the form `s * x` holds at every row where selector `s` is off,
/// whatever the cells that `x` reads hold, known or not.
pub proof fn lemma_disabled_selector(
    t: &Assignment,
    inputs: Seq<Vec<u64>>,
    s: Selector,
    x: Expression,
    r: int,
)
    requires
        !t.selector_at(s.index as int, r),
    ensures
        eval(t, inputs, Expression::Product(Box::new(Expression::Selector(s)), Box::new(x)), r)
            == Some(0int),
{
    reveal_with_fuel(eval, 2);
}

} // verus!
