//! Copy constraints: the cells they name are merged into classes, and every
//! class that holds a broken copy is reported whole.
use vstd::prelude::*;
use crate::check::{cell_value, read_cell};
use crate::layout::inputs_ok;
use crate::table::{Assignment, Cell};

verus! {

/// Cells `a` and `b` hold the same known value.
pub open spec fn copy_holds(t: &Assignment, inputs: Seq<Vec<u64>>, a: Cell, b: Cell) -> bool {
    &&& cell_value(t, inputs, a.column, a.row as int) is Some
    &&& cell_value(t, inputs, a.column, a.row as int) == cell_value(
        t,
        inputs,
        b.column,
        b.row as int,
    )
}

/// Copy constraint `e` of the table holds.
pub open spec fn copy_ok(t: &Assignment, inputs: Seq<Vec<u64>>, e: int) -> bool {
    copy_holds(t, inputs, t.copies@[e].0, t.copies@[e].1)
}

/// Every copy constraint holds.
pub open spec fn copies_hold(t: &Assignment, inputs: Seq<Vec<u64>>) -> bool {
    forall|e: int| 0 <= e < t.copies@.len() ==> #[trigger] copy_ok(t, inputs, e)
}

/// A class of cells, joined by copy constraints, that holds a broken one.
#[derive(Debug)]
pub struct PermutationFailure {
    /// The class's label.
    pub class: usize,
    pub cells: Vec<Cell>,
}

pub open spec fn distinct(cells: Seq<Cell>) -> bool {
    forall|i: int, j: int| 0 <= i < j < cells.len() ==> cells[i] != cells[j]
}

/// The index of `c` in `cells`, which gets it appended if it is not there.
fn find_or_push(cells: &mut Vec<Cell>, c: Cell) -> (r: usize)
    requires
        distinct(old(cells)@),
    ensures
        distinct(final(cells)@),
        r < final(cells)@.len(),
        final(cells)@[r as int] == c,
        final(cells)@ == old(cells)@ || final(cells)@ == old(cells)@.push(c),
{
    let mut i: usize = 0;
    while i < cells.len()
        invariant
            cells@ == old(cells)@,
            distinct(cells@),
            0 <= i <= cells@.len(),
            forall|j: int| 0 <= j < i ==> cells@[j] != c,
        decreases cells@.len() - i,
    {
        if cells[i] == c {
            return i;
        }
        i = i + 1;
    }
    cells.push(c);
    i
}

/// The distinct cells that the copies name, and for each copy the indices of
/// its two cells.
fn index_cells(copies: &Vec<(Cell, Cell)>) -> (r: (Vec<Cell>, Vec<(usize, usize)>))
    ensures
        distinct(r.0@),
        r.1@.len() == copies@.len(),
        forall|e: int|
            0 <= e < copies@.len() ==> {
                &&& (#[trigger] r.1@[e]).0 < r.0@.len()
                &&& r.1@[e].1 < r.0@.len()
                &&& r.0@[r.1@[e].0 as int] == copies@[e].0
                &&& r.0@[r.1@[e].1 as int] == copies@[e].1
            },
{
    let mut cells: Vec<Cell> = Vec::new();
    let mut ends: Vec<(usize, usize)> = Vec::new();
    let mut e: usize = 0;
    while e < copies.len()
        invariant
            0 <= e <= copies@.len(),
            distinct(cells@),
            ends@.len() == e,
            forall|f: int|
                0 <= f < e ==> {
                    &&& (#[trigger] ends@[f]).0 < cells@.len()
                    &&& ends@[f].1 < cells@.len()
                    &&& cells@[ends@[f].0 as int] == copies@[f].0
                    &&& cells@[ends@[f].1 as int] == copies@[f].1
                },
        decreases copies@.len() - e,
    {
        let ghost c0 = cells@;
        let a = find_or_push(&mut cells, copies[e].0);
        let ghost c1 = cells@;
        let b = find_or_push(&mut cells, copies[e].1);
        proof {
            assert forall|f: int| 0 <= f < e implies {
                &&& (#[trigger] ends@[f]).0 < cells@.len()
                &&& ends@[f].1 < cells@.len()
                &&& cells@[ends@[f].0 as int] == copies@[f].0
                &&& cells@[ends@[f].1 as int] == copies@[f].1
            } by {
                assert(c1[ends@[f].0 as int] == c0[ends@[f].0 as int]);
                assert(c1[ends@[f].1 as int] == c0[ends@[f].1 as int]);
            }
            assert(cells@[a as int] == c1[a as int]);
        }
        ends.push((a, b));
        e = e + 1;
    }
    (cells, ends)
}

/// One of the first `k` copies joins `u` and `v`, in either direction.
pub open spec fn adjacent(copies: Seq<(Cell, Cell)>, k: int, u: Cell, v: Cell) -> bool {
    exists|e: int|
        0 <= e < k && e < copies.len() && ((#[trigger] copies[e]).0 == u && copies[e].1 == v || copies[e].0 == v
            && copies[e].1 == u)
}

/// Each cell of `p` is joined to the next by one of the first `k` copies.
pub open spec fn is_path(copies: Seq<(Cell, Cell)>, k: int, p: Seq<Cell>) -> bool {
    &&& p.len() >= 1
    &&& forall|i: int| 0 <= i < p.len() - 1 ==> adjacent(copies, k, #[trigger] p[i], p[i + 1])
}

/// A chain of the first `k` copies leads from `u` to `v`.
pub open spec fn linked(copies: Seq<(Cell, Cell)>, k: int, u: Cell, v: Cell) -> bool {
    exists|p: Seq<Cell>| #[trigger] is_path(copies, k, p) && p[0] == u && p.last() == v
}

proof fn lemma_linked_refl(copies: Seq<(Cell, Cell)>, k: int, u: Cell)
    ensures
        linked(copies, k, u, u),
{
    let p = seq![u];
    assert(is_path(copies, k, p));
}

proof fn lemma_linked_edge(copies: Seq<(Cell, Cell)>, k: int, e: int)
    requires
        0 <= e < k,
        e < copies.len(),
    ensures
        linked(copies, k, copies[e].0, copies[e].1),
        linked(copies, k, copies[e].1, copies[e].0),
{
    let p = seq![copies[e].0, copies[e].1];
    assert(adjacent(copies, k, p[0], p[1]));
    assert(is_path(copies, k, p));
    let q = seq![copies[e].1, copies[e].0];
    assert(adjacent(copies, k, q[0], q[1]));
    assert(is_path(copies, k, q));
}

proof fn lemma_linked_mono(copies: Seq<(Cell, Cell)>, k: int, k2: int, u: Cell, v: Cell)
    requires
        linked(copies, k, u, v),
        k <= k2,
    ensures
        linked(copies, k2, u, v),
{
    let p = choose|p: Seq<Cell>| #[trigger] is_path(copies, k, p) && p[0] == u && p.last() == v;
    assert forall|i: int| 0 <= i < p.len() - 1 implies adjacent(copies, k2, #[trigger] p[i], p[i + 1]) by {
        assert(adjacent(copies, k, p[i], p[i + 1]));
    }
    assert(is_path(copies, k2, p));
}

proof fn lemma_linked_sym(copies: Seq<(Cell, Cell)>, k: int, u: Cell, v: Cell)
    requires
        linked(copies, k, u, v),
    ensures
        linked(copies, k, v, u),
{
    let p = choose|p: Seq<Cell>| #[trigger] is_path(copies, k, p) && p[0] == u && p.last() == v;
    let n = p.len();
    let q = Seq::new(n, |i: int| p[n - 1 - i]);
    assert forall|i: int| 0 <= i < q.len() - 1 implies adjacent(copies, k, #[trigger] q[i], q[i + 1]) by {
        let j = n - 2 - i;
        assert(adjacent(copies, k, p[j], p[j + 1]));
        assert(q[i] == p[j + 1]);
        assert(q[i + 1] == p[j]);
    }
    assert(is_path(copies, k, q));
    assert(q[0] == v);
    assert(q.last() == u);
}

proof fn lemma_linked_trans(copies: Seq<(Cell, Cell)>, k: int, u: Cell, v: Cell, w: Cell)
    requires
        linked(copies, k, u, v),
        linked(copies, k, v, w),
    ensures
        linked(copies, k, u, w),
{
    let p = choose|p: Seq<Cell>| #[trigger] is_path(copies, k, p) && p[0] == u && p.last() == v;
    let q = choose|q: Seq<Cell>| #[trigger] is_path(copies, k, q) && q[0] == v && q.last() == w;
    let r = p + q.subrange(1, q.len() as int);
    assert forall|i: int| 0 <= i < r.len() - 1 implies adjacent(copies, k, #[trigger] r[i], r[i + 1]) by {
        if i < p.len() - 1 {
            assert(r[i] == p[i] && r[i + 1] == p[i + 1]);
            assert(adjacent(copies, k, p[i], p[i + 1]));
        } else if i == p.len() - 1 {
            assert(r[i] == v);
            assert(r[i + 1] == q[1]);
            assert(adjacent(copies, k, q[0], q[1]));
        } else {
            let j = i - p.len() + 1;
            assert(r[i] == q[j] && r[i + 1] == q[j + 1]);
            assert(adjacent(copies, k, q[j], q[j + 1]));
        }
    }
    assert(is_path(copies, k, r));
    if q.len() == 1 {
        assert(r =~= p);
    } else {
        assert(r.last() == q.last());
    }
}

/// Equal labels mark cells that a chain of the first `k` copies links.
pub open spec fn labels_linked(labels: Seq<usize>, cells: Seq<Cell>, copies: Seq<(Cell, Cell)>, k: int) -> bool {
    forall|x: int, y: int|
        #![trigger labels[x], labels[y]]
        0 <= x < labels.len() && 0 <= y < labels.len() && labels[x] == labels[y] ==> linked(
            copies,
            k,
            cells[x],
            cells[y],
        )
}

proof fn lemma_merge_step(
    before: Seq<usize>,
    after: Seq<usize>,
    cells: Seq<Cell>,
    copies: Seq<(Cell, Cell)>,
    e: int,
    a: int,
    b: int,
)
    requires
        before.len() == cells.len(),
        after.len() == cells.len(),
        0 <= a < cells.len(),
        0 <= b < cells.len(),
        0 <= e < copies.len(),
        cells[a] == copies[e].0,
        cells[b] == copies[e].1,
        labels_linked(before, cells, copies, e),
        forall|x: int|
            0 <= x < after.len() ==> #[trigger] after[x] == (if before[x] == before[b] {
                before[a]
            } else {
                before[x]
            }),
    ensures
        labels_linked(after, cells, copies, e + 1),
{
    lemma_linked_edge(copies, e + 1, e);
    assert forall|x: int, y: int|
        #![trigger after[x], after[y]]
        0 <= x < after.len() && 0 <= y < after.len() && after[x] == after[y] implies linked(
            copies,
            e + 1,
            cells[x],
            cells[y],
        ) by {
        let (la, lb) = (before[a], before[b]);
        let (u, v) = (cells[x], cells[y]);
        if before[x] == before[y] {
            lemma_linked_mono(copies, e, e + 1, u, v);
        } else if before[x] == lb {
            // x is linked to b, b to a by copy e, a to y
            assert(before[y] == la);
            lemma_linked_mono(copies, e, e + 1, u, cells[b]);
            lemma_linked_mono(copies, e, e + 1, cells[a], v);
            lemma_linked_trans(copies, e + 1, u, cells[b], cells[a]);
            lemma_linked_trans(copies, e + 1, u, cells[a], v);
        } else {
            assert(before[y] == lb);
            assert(before[x] == la);
            lemma_linked_mono(copies, e, e + 1, u, cells[a]);
            lemma_linked_mono(copies, e, e + 1, cells[b], v);
            lemma_linked_trans(copies, e + 1, u, cells[a], cells[b]);
            lemma_linked_trans(copies, e + 1, u, cells[b], v);
        }
    }
}

/// Labels for the `n` cells `cells` such that the two cells of every pair in
/// `ends` get the same label, and equal labels mark cells that a chain of
/// copies links.
fn merge_labels(
    n: usize,
    ends: &Vec<(usize, usize)>,
    cells: Ghost<Seq<Cell>>,
    copies: Ghost<Seq<(Cell, Cell)>>,
) -> (labels: Vec<usize>)
    requires
        cells@.len() == n,
        ends@.len() == copies@.len(),
        forall|e: int|
            0 <= e < ends@.len() ==> {
                &&& (#[trigger] ends@[e]).0 < n
                &&& ends@[e].1 < n
                &&& cells@[ends@[e].0 as int] == copies@[e].0
                &&& cells@[ends@[e].1 as int] == copies@[e].1
            },
    ensures
        labels@.len() == n,
        forall|e: int|
            0 <= e < ends@.len() ==> labels@[(#[trigger] ends@[e]).0 as int] == labels@[ends@[e].1 as int],
        labels_linked(labels@, cells@, copies@, copies@.len() as int),
{
    let mut labels: Vec<usize> = Vec::new();
    let mut i: usize = 0;
    while i < n
        invariant
            0 <= i <= n,
            labels@.len() == i,
            forall|x: int| 0 <= x < i ==> #[trigger] labels@[x] == x,
        decreases n - i,
    {
        labels.push(i);
        i = i + 1;
    }
    proof {
        assert forall|x: int, y: int|
            #![trigger labels@[x], labels@[y]]
            0 <= x < labels@.len() && 0 <= y < labels@.len() && labels@[x] == labels@[y] implies linked(
                copies@,
                0,
                cells@[x],
                cells@[y],
            ) by {
            lemma_linked_refl(copies@, 0, cells@[x]);
        }
    }
    let mut e: usize = 0;
    while e < ends.len()
        invariant
            cells@.len() == n,
            ends@.len() == copies@.len(),
            forall|f: int|
                0 <= f < ends@.len() ==> {
                    &&& (#[trigger] ends@[f]).0 < n
                    &&& ends@[f].1 < n
                    &&& cells@[ends@[f].0 as int] == copies@[f].0
                    &&& cells@[ends@[f].1 as int] == copies@[f].1
                },
            0 <= e <= ends@.len(),
            labels@.len() == n,
            forall|f: int|
                0 <= f < e ==> labels@[(#[trigger] ends@[f]).0 as int] == labels@[ends@[f].1 as int],
            labels_linked(labels@, cells@, copies@, e as int),
        decreases ends@.len() - e,
    {
        let (a, b) = ends[e];
        let la = labels[a];
        let lb = labels[b];
        let ghost before = labels@;
        if la != lb {
            let mut j: usize = 0;
            while j < n
                invariant
                    0 <= j <= n,
                    labels@.len() == n,
                    before.len() == n,
                    forall|x: int|
                        0 <= x < j ==> #[trigger] labels@[x] == (if before[x] == lb {
                            la
                        } else {
                            before[x]
                        }),
                    forall|x: int| j <= x < n ==> #[trigger] labels@[x] == before[x],
                decreases n - j,
            {
                if labels[j] == lb {
                    labels.set(j, la);
                }
                j = j + 1;
            }
            proof {
                assert forall|f: int| 0 <= f <= e implies labels@[(#[trigger] ends@[f]).0 as int]
                    == labels@[ends@[f].1 as int] by {
                    let x = ends@[f].0 as int;
                    let y = ends@[f].1 as int;
                    assert(labels@[x] == (if before[x] == lb { la } else { before[x] }));
                    assert(labels@[y] == (if before[y] == lb { la } else { before[y] }));
                }
            }
        }
        proof {
            assert forall|x: int| 0 <= x < labels@.len() implies #[trigger] labels@[x] == (if before[x]
                == before[b as int] {
                before[a as int]
            } else {
                before[x]
            }) by {
                if la == lb {
                    assert(labels@[x] == before[x]);
                }
            }
            lemma_merge_step(before, labels@, cells@, copies@, e as int, a as int, b as int);
        }
        e = e + 1;
    }
    labels
}

/// The cells whose label is `lab`.
fn class_cells(cells: &Vec<Cell>, labels: &Vec<usize>, lab: usize) -> (r: Vec<Cell>)
    requires
        distinct(cells@),
        labels@.len() == cells@.len(),
    ensures
        forall|i: int| 0 <= i < cells@.len() ==> (r@.contains(#[trigger] cells@[i]) <==> labels@[i] == lab),
        forall|c: Cell|
            #[trigger] r@.contains(c) ==> exists|i: int|
                0 <= i < cells@.len() && cells@[i] == c && labels@[i] == lab,
{
    let mut r: Vec<Cell> = Vec::new();
    let ghost mut idx: Seq<int> = Seq::empty();
    let mut j: usize = 0;
    while j < cells.len()
        invariant
            distinct(cells@),
            labels@.len() == cells@.len(),
            0 <= j <= cells@.len(),
            idx.len() == r@.len(),
            forall|m: int|
                0 <= m < r@.len() ==> 0 <= #[trigger] idx[m] < j && r@[m] == cells@[idx[m]]
                    && labels@[idx[m]] == lab,
            forall|i: int| 0 <= i < j ==> labels@[i] == lab ==> r@.contains(#[trigger] cells@[i]),
        decreases cells@.len() - j,
    {
        if labels[j] == lab {
            let ghost prev = r@;
            r.push(cells[j]);
            proof {
                idx = idx.push(j as int);
                assert(r@[r@.len() - 1] == cells@[j as int]);
                assert forall|i: int| 0 <= i <= j && labels@[i] == lab implies r@.contains(
                    #[trigger] cells@[i],
                ) by {
                    if i < j && labels@[i] == lab {
                        let m = choose|m: int| 0 <= m < prev.len() && prev[m] == cells@[i];
                        assert(r@[m] == cells@[i]);
                    }
                }
            }
        }
        j = j + 1;
    }
    proof {
        assert forall|c: Cell| #[trigger] r@.contains(c) implies exists|i: int|
            0 <= i < cells@.len() && cells@[i] == c && labels@[i] == lab by {
            let m = choose|m: int| 0 <= m < r@.len() && r@[m] == c;
            assert(cells@[idx[m]] == c);
        }
        assert forall|i: int| 0 <= i < cells@.len() implies (r@.contains(#[trigger] cells@[i])
            <==> labels@[i] == lab) by {
            if r@.contains(cells@[i]) {
                let m = choose|m: int| 0 <= m < r@.len() && r@[m] == cells@[i];
                assert(cells@[idx[m]] == cells@[i]);
            }
        }
    }
    r
}

/// Whether cells `a` and `b` hold the same known value.
pub fn same_known_value(t: &Assignment, inputs: &Vec<Vec<u64>>, a: Cell, b: Cell) -> (r: bool)
    requires
        t.wf(),
        t.copyable(a),
        t.copyable(b),
        inputs_ok(inputs@),
    ensures
        r == copy_holds(t, inputs@, a, b),
{
    let va = read_cell(t, inputs, a.column, a.row);
    let vb = read_cell(t, inputs, b.column, b.row);
    match (va, vb) {
        (Some(x), Some(y)) => x == y,
        _ => false,
    }
}

/// `f` lists exactly the cells labelled `f.class`.
pub open spec fn is_class(f: &PermutationFailure, cells: Seq<Cell>, labels: Seq<usize>) -> bool {
    &&& forall|x: int|
        0 <= x < cells.len() ==> (f.cells@.contains(#[trigger] cells[x]) <==> labels[x] == f.class)
    &&& forall|c: Cell|
        #[trigger] f.cells@.contains(c) ==> exists|x: int|
            0 <= x < cells.len() && cells[x] == c && labels[x] == f.class
}

/// The copies that are broken, by index.
fn broken_copies(t: &Assignment, inputs: &Vec<Vec<u64>>) -> (bad: Vec<bool>)
    requires
        t.wf(),
        inputs_ok(inputs@),
    ensures
        bad@.len() == t.copies@.len(),
        forall|e: int| 0 <= e < t.copies@.len() ==> bad@[e] == !#[trigger] copy_ok(t, inputs@, e),
{
    let mut bad: Vec<bool> = Vec::new();
    let mut e: usize = 0;
    while e < t.copies.len()
        invariant
            t.wf(),
            inputs_ok(inputs@),
            0 <= e <= t.copies@.len(),
            bad@.len() == e,
            forall|f: int| 0 <= f < e ==> bad@[f] == !#[trigger] copy_ok(t, inputs@, f),
        decreases t.copies@.len() - e,
    {
        let (a, b) = t.copies[e];
        assert(t.copyable(t.copies@[e as int].0) && t.copyable(t.copies@[e as int].1));
        bad.push(!same_known_value(t, inputs, a, b));
        e = e + 1;
    }
    bad
}

/// The classes reported so far are whole, distinct, each holds a broken pair
/// (`witness`), and every broken pair among the first `e` lies in one.
pub open spec fn report_inv(
    res: Seq<PermutationFailure>,
    witness: Seq<int>,
    cells: Seq<Cell>,
    labels: Seq<usize>,
    ends: Seq<(usize, usize)>,
    bad: Seq<bool>,
    e: int,
) -> bool {
    &&& witness.len() == res.len()
    &&& forall|i: int| 0 <= i < res.len() ==> is_class(#[trigger] &res[i], cells, labels)
    &&& forall|i: int, j: int|
        0 <= i < j < res.len() ==> (#[trigger] res[i]).class != (#[trigger] res[j]).class
    &&& forall|f: int|
        0 <= f < e && #[trigger] bad[f] ==> exists|i: int|
            0 <= i < res.len() && res[i].class == labels[ends[f].0 as int]
    &&& forall|i: int|
        0 <= i < res.len() ==> {
            &&& 0 <= #[trigger] witness[i] < e
            &&& bad[witness[i]]
            &&& labels[ends[witness[i]].0 as int] == res[i].class
        }
}

pub open spec fn ends_ok(
    cells: Seq<Cell>,
    labels: Seq<usize>,
    ends: Seq<(usize, usize)>,
    copies: Seq<(Cell, Cell)>,
) -> bool {
    &&& distinct(cells)
    &&& labels.len() == cells.len()
    &&& ends.len() == copies.len()
    &&& forall|f: int|
        0 <= f < copies.len() ==> {
            &&& (#[trigger] ends[f]).0 < cells.len()
            &&& ends[f].1 < cells.len()
            &&& cells[ends[f].0 as int] == copies[f].0
            &&& cells[ends[f].1 as int] == copies[f].1
            &&& labels[ends[f].0 as int] == labels[ends[f].1 as int]
        }
}

proof fn lemma_report_push(
    prev: Seq<PermutationFailure>,
    res: Seq<PermutationFailure>,
    witness: Seq<int>,
    cells: Seq<Cell>,
    labels: Seq<usize>,
    ends: Seq<(usize, usize)>,
    bad: Seq<bool>,
    e: int,
)
    requires
        report_inv(prev, witness, cells, labels, ends, bad, e),
        0 <= e < bad.len(),
        bad[e],
        ends[e].0 < labels.len(),
        res.len() == prev.len() + 1,
        forall|i: int| 0 <= i < prev.len() ==> res[i] == prev[i],
        res.last().class == labels[ends[e].0 as int],
        is_class(&res.last(), cells, labels),
        forall|i: int| 0 <= i < prev.len() ==> prev[i].class != labels[ends[e].0 as int],
    ensures
        report_inv(res, witness.push(e), cells, labels, ends, bad, e + 1),
{
    let w = witness.push(e);
    assert forall|i: int| 0 <= i < res.len() implies is_class(#[trigger] &res[i], cells, labels) by {
        if i < prev.len() {
            assert(res[i] == prev[i]);
        }
    }
    assert forall|i: int, j: int| 0 <= i < j < res.len() implies (#[trigger] res[i]).class != (
    #[trigger] res[j]).class by {
        assert(res[i] == prev[i]);
        if j < prev.len() {
            assert(res[j] == prev[j]);
        }
    }
    assert forall|f: int| 0 <= f < e + 1 && #[trigger] bad[f] implies exists|i: int|
        0 <= i < res.len() && res[i].class == labels[ends[f].0 as int] by {
        if f < e {
            let i = choose|i: int| 0 <= i < prev.len() && prev[i].class == labels[ends[f].0 as int];
            assert(res[i] == prev[i]);
        } else {
            assert(res[prev.len() as int].class == labels[ends[e].0 as int]);
        }
    }
    assert forall|i: int| 0 <= i < res.len() implies {
        &&& 0 <= #[trigger] w[i] < e + 1
        &&& bad[w[i]]
        &&& labels[ends[w[i]].0 as int] == res[i].class
    } by {
        if i < prev.len() {
            assert(res[i] == prev[i]);
            assert(w[i] == witness[i]);
        }
    }
}

proof fn lemma_report_skip(
    res: Seq<PermutationFailure>,
    witness: Seq<int>,
    cells: Seq<Cell>,
    labels: Seq<usize>,
    ends: Seq<(usize, usize)>,
    bad: Seq<bool>,
    e: int,
)
    requires
        report_inv(res, witness, cells, labels, ends, bad, e),
        0 <= e < bad.len(),
        bad[e] ==> exists|i: int| 0 <= i < res.len() && res[i].class == labels[ends[e].0 as int],
    ensures
        report_inv(res, witness, cells, labels, ends, bad, e + 1),
{
    assert forall|f: int| 0 <= f < e + 1 && #[trigger] bad[f] implies exists|i: int|
        0 <= i < res.len() && res[i].class == labels[ends[f].0 as int] by {
    }
}

/// One failure for each class that holds a broken pair.
fn report(
    cells: &Vec<Cell>,
    labels: &Vec<usize>,
    ends: &Vec<(usize, usize)>,
    bad: &Vec<bool>,
    copies: Ghost<Seq<(Cell, Cell)>>,
) -> (r: (Vec<PermutationFailure>, Ghost<Seq<int>>))
    requires
        ends_ok(cells@, labels@, ends@, copies@),
        bad@.len() == copies@.len(),
    ensures
        report_inv(r.0@, r.1@, cells@, labels@, ends@, bad@, bad@.len() as int),
{
    let mut res: Vec<PermutationFailure> = Vec::new();
    let ghost mut witness: Seq<int> = Seq::empty();
    let mut e: usize = 0;
    while e < bad.len()
        invariant
            ends_ok(cells@, labels@, ends@, copies@),
            bad@.len() == copies@.len(),
            0 <= e <= bad@.len(),
            report_inv(res@, witness, cells@, labels@, ends@, bad@, e as int),
        decreases bad@.len() - e,
    {
        assert(ends@[e as int].0 < cells@.len());
        if bad[e] {
            let lab = labels[ends[e].0];
            let mut found = false;
            let mut k: usize = 0;
            while k < res.len()
                invariant
                    0 <= k <= res@.len(),
                    found <==> exists|i: int| 0 <= i < k && res@[i].class == lab,
                    !found ==> forall|i: int| 0 <= i < k ==> res@[i].class != lab,
                decreases res@.len() - k,
            {
                if res[k].class == lab {
                    found = true;
                }
                k = k + 1;
            }
            if !found {
                let members = class_cells(cells, labels, lab);
                let ghost prev = res@;
                res.push(PermutationFailure { class: lab, cells: members });
                proof {
                    assert(res@.last() == res@[prev.len() as int]);
                    lemma_report_push(prev, res@, witness, cells@, labels@, ends@, bad@, e as int);
                    witness = witness.push(e as int);
                }
            } else {
                proof {
                    lemma_report_skip(res@, witness, cells@, labels@, ends@, bad@, e as int);
                }
            }
        } else {
            proof {
                lemma_report_skip(res@, witness, cells@, labels@, ends@, bad@, e as int);
            }
        }
        e = e + 1;
    }
    (res, Ghost(witness))
}

/// A reported class holds both cells of each copy that names one of them.
pub open spec fn closed_under_copies(f: &PermutationFailure, copies: Seq<(Cell, Cell)>) -> bool {
    forall|e: int|
        0 <= e < copies.len() ==> (f.cells@.contains((#[trigger] copies[e]).0)
            <==> f.cells@.contains(copies[e].1))
}

/// Any two cells of a reported class are linked by a chain of copies.
pub open spec fn linked_within(f: &PermutationFailure, copies: Seq<(Cell, Cell)>) -> bool {
    forall|u: Cell, v: Cell|
        #[trigger] f.cells@.contains(u) && #[trigger] f.cells@.contains(v) ==> linked(
            copies,
            copies.len() as int,
            u,
            v,
        )
}

/// A reported class holds a cell of a broken copy.
pub open spec fn holds_broken_copy(t: &Assignment, inputs: Seq<Vec<u64>>, f: &PermutationFailure) -> bool {
    exists|e: int|
        0 <= e < t.copies@.len() && !#[trigger] copy_ok(t, inputs, e) && f.cells@.contains(
            t.copies@[e].0,
        )
}

/// What `check_copies` promises of its result: each broken copy lies in a
/// reported class; each reported class holds a broken copy, is closed under
/// copies and holds only cells that chains of copies link, so it is one whole
/// class of linked cells; and no cell is in two reported classes.
#[verifier::opaque]
pub open spec fn copy_report(
    t: &Assignment,
    inputs: Seq<Vec<u64>>,
    res: Seq<PermutationFailure>,
) -> bool {
    &&& forall|e: int|
        0 <= e < t.copies@.len() && !#[trigger] copy_ok(t, inputs, e) ==> exists|i: int|
            0 <= i < res.len() && res[i].cells@.contains(t.copies@[e].0) && res[i].cells@.contains(
                t.copies@[e].1,
            )
    &&& forall|i: int| 0 <= i < res.len() ==> holds_broken_copy(t, inputs, #[trigger] &res[i])
    &&& forall|i: int| 0 <= i < res.len() ==> closed_under_copies(#[trigger] &res[i], t.copies@)
    &&& forall|i: int| 0 <= i < res.len() ==> linked_within(#[trigger] &res[i], t.copies@)
    &&& forall|i: int, j: int, c: Cell|
        0 <= i < j < res.len() ==> !(#[trigger] res[i].cells@.contains(c)
            && #[trigger] res[j].cells@.contains(c))
}

proof fn lemma_report_covers(
    t: &Assignment,
    inputs: Seq<Vec<u64>>,
    res: Seq<PermutationFailure>,
    witness: Seq<int>,
    cells: Seq<Cell>,
    labels: Seq<usize>,
    ends: Seq<(usize, usize)>,
    bad: Seq<bool>,
)
    requires
        ends_ok(cells, labels, ends, t.copies@),
        bad.len() == t.copies@.len(),
        forall|e: int| 0 <= e < t.copies@.len() ==> bad[e] == !#[trigger] copy_ok(t, inputs, e),
        report_inv(res, witness, cells, labels, ends, bad, bad.len() as int),
    ensures
        forall|e: int|
            0 <= e < t.copies@.len() && !#[trigger] copy_ok(t, inputs, e) ==> exists|i: int|
                0 <= i < res.len() && res[i].cells@.contains(t.copies@[e].0) && res[i].cells@.contains(
                    t.copies@[e].1,
                ),
{
    let copies = t.copies@;
    assert forall|f: int| 0 <= f < copies.len() && !#[trigger] copy_ok(t, inputs, f) implies exists|i: int|
        0 <= i < res.len() && res[i].cells@.contains(copies[f].0) && res[i].cells@.contains(
            copies[f].1,
        ) by {
        assert(bad[f]);
        let i = choose|i: int| 0 <= i < res.len() && res[i].class == labels[ends[f].0 as int];
        assert(is_class(&res[i], cells, labels));
        assert(ends[f].0 < cells.len());
        assert(res[i].cells@.contains(cells[ends[f].0 as int]));
        assert(res[i].cells@.contains(cells[ends[f].1 as int]));
    }
}

proof fn lemma_report_broken(
    t: &Assignment,
    inputs: Seq<Vec<u64>>,
    res: Seq<PermutationFailure>,
    witness: Seq<int>,
    cells: Seq<Cell>,
    labels: Seq<usize>,
    ends: Seq<(usize, usize)>,
    bad: Seq<bool>,
)
    requires
        ends_ok(cells, labels, ends, t.copies@),
        bad.len() == t.copies@.len(),
        forall|e: int| 0 <= e < t.copies@.len() ==> bad[e] == !#[trigger] copy_ok(t, inputs, e),
        report_inv(res, witness, cells, labels, ends, bad, bad.len() as int),
    ensures
        forall|i: int| 0 <= i < res.len() ==> holds_broken_copy(t, inputs, #[trigger] &res[i]),
{
    assert forall|i: int| 0 <= i < res.len() implies holds_broken_copy(t, inputs, #[trigger] &res[i]) by {
        let f = witness[i];
        assert(bad[f]);
        assert(!copy_ok(t, inputs, f));
        assert(is_class(&res[i], cells, labels));
        assert(ends[f].0 < cells.len());
        assert(res[i].cells@.contains(cells[ends[f].0 as int]));
    }
}

proof fn lemma_report_closed(
    t: &Assignment,
    inputs: Seq<Vec<u64>>,
    res: Seq<PermutationFailure>,
    witness: Seq<int>,
    cells: Seq<Cell>,
    labels: Seq<usize>,
    ends: Seq<(usize, usize)>,
    bad: Seq<bool>,
)
    requires
        ends_ok(cells, labels, ends, t.copies@),
        bad.len() == t.copies@.len(),
        forall|e: int| 0 <= e < t.copies@.len() ==> bad[e] == !#[trigger] copy_ok(t, inputs, e),
        report_inv(res, witness, cells, labels, ends, bad, bad.len() as int),
    ensures
        forall|i: int| 0 <= i < res.len() ==> closed_under_copies(#[trigger] &res[i], t.copies@),
{
    let copies = t.copies@;
    assert forall|i: int| 0 <= i < res.len() implies closed_under_copies(#[trigger] &res[i], copies) by {
        assert(is_class(&res[i], cells, labels));
        assert forall|f: int| 0 <= f < copies.len() implies (res[i].cells@.contains(
            (#[trigger] copies[f]).0,
        ) <==> res[i].cells@.contains(copies[f].1)) by {
            assert(ends[f].0 < cells.len());
            assert(res[i].cells@.contains(cells[ends[f].0 as int]) <==> labels[ends[f].0 as int]
                == res[i].class);
            assert(res[i].cells@.contains(cells[ends[f].1 as int]) <==> labels[ends[f].1 as int]
                == res[i].class);
        }
    }
}

proof fn lemma_report_linked(
    t: &Assignment,
    res: Seq<PermutationFailure>,
    cells: Seq<Cell>,
    labels: Seq<usize>,
)
    requires
        labels.len() == cells.len(),
        labels_linked(labels, cells, t.copies@, t.copies@.len() as int),
        forall|i: int| 0 <= i < res.len() ==> is_class(#[trigger] &res[i], cells, labels),
    ensures
        forall|i: int| 0 <= i < res.len() ==> linked_within(#[trigger] &res[i], t.copies@),
{
    assert forall|i: int| 0 <= i < res.len() implies linked_within(#[trigger] &res[i], t.copies@) by {
        assert(is_class(&res[i], cells, labels));
        assert forall|u: Cell, v: Cell|
            #[trigger] res[i].cells@.contains(u) && #[trigger] res[i].cells@.contains(v) implies linked(
            t.copies@,
            t.copies@.len() as int,
            u,
            v,
        ) by {
            let x = choose|x: int| 0 <= x < cells.len() && cells[x] == u && labels[x] == res[i].class;
            let y = choose|y: int| 0 <= y < cells.len() && cells[y] == v && labels[y] == res[i].class;
            assert(labels[x] == labels[y]);
        }
    }
}

proof fn lemma_report_disjoint(
    t: &Assignment,
    inputs: Seq<Vec<u64>>,
    res: Seq<PermutationFailure>,
    witness: Seq<int>,
    cells: Seq<Cell>,
    labels: Seq<usize>,
    ends: Seq<(usize, usize)>,
    bad: Seq<bool>,
)
    requires
        ends_ok(cells, labels, ends, t.copies@),
        bad.len() == t.copies@.len(),
        forall|e: int| 0 <= e < t.copies@.len() ==> bad[e] == !#[trigger] copy_ok(t, inputs, e),
        report_inv(res, witness, cells, labels, ends, bad, bad.len() as int),
    ensures
        forall|i: int, j: int, c: Cell|
            0 <= i < j < res.len() ==> !(#[trigger] res[i].cells@.contains(c)
                && #[trigger] res[j].cells@.contains(c)),
{
    assert forall|i: int, j: int, c: Cell| 0 <= i < j < res.len() implies !(
    #[trigger] res[i].cells@.contains(c) && #[trigger] res[j].cells@.contains(c)) by {
        assert(is_class(&res[i], cells, labels));
        assert(is_class(&res[j], cells, labels));
        if res[i].cells@.contains(c) && res[j].cells@.contains(c) {
            let x = choose|x: int|
                0 <= x < cells.len() && cells[x] == c && labels[x] == res[i].class;
            assert(res[j].cells@.contains(cells[x]));
        }
    }
}

/// Checks every copy constraint, and reports each class of cells joined by
/// copy constraints that holds a broken one: once, with all of its cells.
pub fn check_copies(t: &Assignment, inputs: &Vec<Vec<u64>>) -> (res: Vec<PermutationFailure>)
    requires
        t.wf(),
        inputs_ok(inputs@),
    ensures
        copy_report(t, inputs@, res@),
{
    let (cells, ends) = index_cells(&t.copies);
    let labels = merge_labels(cells.len(), &ends, Ghost(cells@), Ghost(t.copies@));
    let bad = broken_copies(t, inputs);
    let (res, witness) = report(&cells, &labels, &ends, &bad, Ghost(t.copies@));
    proof {
        lemma_report_covers(t, inputs@, res@, witness@, cells@, labels@, ends@, bad@);
        lemma_report_broken(t, inputs@, res@, witness@, cells@, labels@, ends@, bad@);
        lemma_report_closed(t, inputs@, res@, witness@, cells@, labels@, ends@, bad@);
        lemma_report_disjoint(t, inputs@, res@, witness@, cells@, labels@, ends@, bad@);
        lemma_report_linked(t, res@, cells@, labels@);
        reveal(copy_report);
    }
    res
}

/// No class is reported exactly when every copy constraint holds.
pub proof fn lemma_no_copy_failures(
    t: &Assignment,
    inputs: Seq<Vec<u64>>,
    res: Seq<PermutationFailure>,
)
    requires
        copy_report(t, inputs, res),
    ensures
        res.len() == 0 <==> copies_hold(t, inputs),
{
    reveal(copy_report);
    if res.len() > 0 {
        assert(holds_broken_copy(t, inputs, &res[0]));
    }
    if !copies_hold(t, inputs) {
        let e = choose|e: int| 0 <= e < t.copies@.len() && !#[trigger] copy_ok(t, inputs, e);
        assert(!copy_ok(t, inputs, e));
    }
}

/// Where `b` holds `a`'s value, as a copy from `a` to `b` leaves it, copies
/// chained `a` to `b` and `b` to `c` hold exactly when a direct copy from `a`
/// to `c` would.
pub proof fn lemma_chain_as_direct(t: &Assignment, inputs: Seq<Vec<u64>>, a: Cell, b: Cell, c: Cell)
    requires
        cell_value(t, inputs, b.column, b.row as int) == cell_value(t, inputs, a.column, a.row as int),
    ensures
        copy_holds(t, inputs, a, b) && copy_holds(t, inputs, b, c) <==> copy_holds(t, inputs, a, c),
{
}

/// Copies chained `a` to `b` and `b` to `c` check as a direct copy of `a` to
/// `c` where `b` holds `a`'s value: when `a` and `c` differ, or either is
/// unknown, exactly one reported class holds all three cells.
pub proof fn lemma_chained_copies(
    t: &Assignment,
    inputs: Seq<Vec<u64>>,
    res: Seq<PermutationFailure>,
    e1: int,
    e2: int,
)
    requires
        copy_report(t, inputs, res),
        0 <= e1 < t.copies@.len(),
        0 <= e2 < t.copies@.len(),
        t.copies@[e1].1 == t.copies@[e2].0,
        !copy_holds(t, inputs, t.copies@[e1].0, t.copies@[e2].1),
    ensures
        ({
            let (a, b, c) = (t.copies@[e1].0, t.copies@[e1].1, t.copies@[e2].1);
            exists|i: int|
                0 <= i < res.len() && res[i].cells@.contains(a) && res[i].cells@.contains(b)
                    && res[i].cells@.contains(c) && forall|j: int|
                    0 <= j < res.len() && j != i ==> !res[j].cells@.contains(a)
                        && !res[j].cells@.contains(b) && !res[j].cells@.contains(c)
        }),
{
    reveal(copy_report);
    let (a, b, c) = (t.copies@[e1].0, t.copies@[e1].1, t.copies@[e2].1);
    let e = if !copy_ok(t, inputs, e1) {
        e1
    } else {
        e2
    };
    assert(!copy_ok(t, inputs, e));
    let i = choose|i: int|
        0 <= i < res.len() && res[i].cells@.contains(t.copies@[e].0) && res[i].cells@.contains(
            t.copies@[e].1,
        );
    assert(closed_under_copies(&res[i], t.copies@));
    assert(res[i].cells@.contains(t.copies@[e1].0) <==> res[i].cells@.contains(t.copies@[e1].1));
    assert(res[i].cells@.contains(t.copies@[e2].0) <==> res[i].cells@.contains(t.copies@[e2].1));
    assert forall|j: int| 0 <= j < res.len() && j != i implies !res[j].cells@.contains(a)
        && !res[j].cells@.contains(b) && !res[j].cells@.contains(c) by {
        if j < i {
            assert(!(res[j].cells@.contains(a) && res[i].cells@.contains(a)));
            assert(!(res[j].cells@.contains(b) && res[i].cells@.contains(b)));
            assert(!(res[j].cells@.contains(c) && res[i].cells@.contains(c)));
        } else {
            assert(!(res[i].cells@.contains(a) && res[j].cells@.contains(a)));
            assert(!(res[i].cells@.contains(b) && res[j].cells@.contains(b)));
            assert(!(res[i].cells@.contains(c) && res[j].cells@.contains(c)));
        }
    }
}

/// A class closed under copies that holds `u` holds every cell that a chain
/// of copies links to `u`.
proof fn lemma_closed_holds_linked(f: &PermutationFailure, copies: Seq<(Cell, Cell)>, u: Cell, v: Cell)
    requires
        closed_under_copies(f, copies),
        f.cells@.contains(u),
        linked(copies, copies.len() as int, u, v),
    ensures
        f.cells@.contains(v),
{
    let k = copies.len() as int;
    let p = choose|p: Seq<Cell>| #[trigger] is_path(copies, k, p) && p[0] == u && p.last() == v;
    lemma_closed_holds_path(f, copies, p, p.len() - 1);
}

proof fn lemma_closed_holds_path(f: &PermutationFailure, copies: Seq<(Cell, Cell)>, p: Seq<Cell>, i: int)
    requires
        closed_under_copies(f, copies),
        is_path(copies, copies.len() as int, p),
        f.cells@.contains(p[0]),
        0 <= i < p.len(),
    ensures
        f.cells@.contains(p[i]),
    decreases i,
{
    if i > 0 {
        let k = copies.len() as int;
        lemma_closed_holds_path(f, copies, p, i - 1);
        assert(adjacent(copies, k, p[i - 1], p[i]));
        let e = choose|e: int|
            0 <= e < k && e < copies.len() && ((#[trigger] copies[e]).0 == p[i - 1] && copies[e].1 == p[i]
                || copies[e].0 == p[i] && copies[e].1 == p[i - 1]);
        assert(f.cells@.contains(copies[e].0) <==> f.cells@.contains(copies[e].1));
    }
}

/// `f` and `g` hold the same cells.
pub open spec fn same_cells(f: &PermutationFailure, g: &PermutationFailure) -> bool {
    forall|c: Cell| #[trigger] f.cells@.contains(c) <==> g.cells@.contains(c)
}

/// Some class of `res` holds the same cells as `f`.
pub open spec fn has_match(f: &PermutationFailure, res: Seq<PermutationFailure>) -> bool {
    exists|j: int| 0 <= j < res.len() && #[trigger] same_cells(f, &res[j])
}

proof fn lemma_match_one(
    f: &PermutationFailure,
    g: &PermutationFailure,
    copies: Seq<(Cell, Cell)>,
    u: Cell,
)
    requires
        closed_under_copies(f, copies),
        closed_under_copies(g, copies),
        linked_within(f, copies),
        linked_within(g, copies),
        f.cells@.contains(u),
        g.cells@.contains(u),
    ensures
        same_cells(f, g),
{
    assert forall|c: Cell| #[trigger] f.cells@.contains(c) <==> g.cells@.contains(c) by {
        if f.cells@.contains(c) {
            lemma_closed_holds_linked(g, copies, u, c);
        }
        if g.cells@.contains(c) {
            lemma_closed_holds_linked(f, copies, u, c);
        }
    }
}

/// Two reports that both meet `copy_report` on one table list the same
/// classes: every class of the first is, as a set of cells, a class of the
/// second.
pub proof fn lemma_same_classes(
    t: &Assignment,
    inputs: Seq<Vec<u64>>,
    res1: Seq<PermutationFailure>,
    res2: Seq<PermutationFailure>,
)
    requires
        copy_report(t, inputs, res1),
        copy_report(t, inputs, res2),
    ensures
        forall|i: int| 0 <= i < res1.len() ==> #[trigger] has_match(&res1[i], res2),
{
    reveal(copy_report);
    let copies = t.copies@;
    assert forall|i: int| 0 <= i < res1.len() implies #[trigger] has_match(&res1[i], res2) by {
        assert(holds_broken_copy(t, inputs, &res1[i]));
        let e = choose|e: int|
            0 <= e < copies.len() && !#[trigger] copy_ok(t, inputs, e) && res1[i].cells@.contains(copies[e].0);
        let j = choose|j: int|
            0 <= j < res2.len() && res2[j].cells@.contains(copies[e].0) && res2[j].cells@.contains(copies[e].1);
        lemma_match_one(&res1[i], &res2[j], copies, copies[e].0);
        assert(same_cells(&res1[i], &res2[j]));
    }
}

} // verus!
