//! Columns, selectors, polynomial expressions over column queries, and the
//! constraint system that a circuit configures once.
use vstd::prelude::*;

verus! {

#[derive(Clone, Copy, Debug, PartialEq, Eq, Structural)]
pub enum ColumnKind {
    /// Private witness values.
    Advice,
    /// Public inputs.
    Instance,
    /// Constants of the circuit.
    Fixed,
}

#[derive(Clone, Copy, Debug, PartialEq, Eq, Structural)]
pub struct Column {
    pub kind: ColumnKind,
    pub index: usize,
}

/// A boolean column that switches gates on and off row by row.
#[derive(Clone, Copy, Debug, PartialEq, Eq, Structural)]
pub struct Selector {
    pub index: usize,
}

/// A polynomial over queries of columns and selectors; a rotation is a row
/// offset relative to the row at which the expression is evaluated.
#[derive(Debug)]
pub enum Expression {
    Constant(u64),
    Selector(Selector),
    Query(Column, i64),
    Sum(Box<Expression>, Box<Expression>),
    Difference(Box<Expression>, Box<Expression>),
    Product(Box<Expression>, Box<Expression>),
}

/// A named list of expressions, each of which must vanish at every row.
#[derive(Debug)]
pub struct Gate {
    pub name: String,
    pub polys: Vec<Expression>,
}

/// Structural failures of configuration and synthesis.
#[derive(Clone, Copy, Debug, PartialEq, Eq, Structural)]
pub enum Error {
    /// A gate or an assignment names a column or selector that was never allocated.
    UndeclaredColumnReference,
    /// A copy constraint names a column without equality enabled.
    EqualityNotEnabled,
    /// A region or a cell lies outside the table.
    RegionOutOfBounds,
    /// The public inputs do not match the instance cells that the circuit uses.
    InstanceLengthMismatch,
}

impl Expression {
    pub fn sum(a: Expression, b: Expression) -> (r: Expression)
        ensures
            r == Expression::Sum(Box::new(a), Box::new(b)),
    {
        Expression::Sum(Box::new(a), Box::new(b))
    }

    pub fn difference(a: Expression, b: Expression) -> (r: Expression)
        ensures
            r == Expression::Difference(Box::new(a), Box::new(b)),
    {
        Expression::Difference(Box::new(a), Box::new(b))
    }

    pub fn product(a: Expression, b: Expression) -> (r: Expression)
        ensures
            r == Expression::Product(Box::new(a), Box::new(b)),
    {
        Expression::Product(Box::new(a), Box::new(b))
    }
}

pub struct ConstraintSystem {
    pub num_advice: usize,
    pub num_instance: usize,
    pub num_fixed: usize,
    pub num_selectors: usize,
    /// The columns on which copy constraints are allowed.
    pub equality: Vec<Column>,
    pub gates: Vec<Gate>,
}

impl ConstraintSystem {
    pub open spec fn column_declared(&self, c: Column) -> bool {
        match c.kind {
            ColumnKind::Advice => c.index < self.num_advice,
            ColumnKind::Instance => c.index < self.num_instance,
            ColumnKind::Fixed => c.index < self.num_fixed,
        }
    }

    /// Every column and selector that `e` queries has been allocated.
    pub open spec fn expr_declared(&self, e: Expression) -> bool
        decreases e,
    {
        match e {
            Expression::Constant(_) => true,
            Expression::Selector(s) => s.index < self.num_selectors,
            Expression::Query(c, _) => self.column_declared(c),
            Expression::Sum(a, b) => self.expr_declared(*a) && self.expr_declared(*b),
            Expression::Difference(a, b) => self.expr_declared(*a) && self.expr_declared(*b),
            Expression::Product(a, b) => self.expr_declared(*a) && self.expr_declared(*b),
        }
    }

    pub open spec fn polys_declared(&self, polys: Seq<Expression>) -> bool {
        forall|i: int| 0 <= i < polys.len() ==> self.expr_declared(#[trigger] polys[i])
    }

    pub open spec fn equality_enabled(&self, c: Column) -> bool {
        self.equality@.contains(c)
    }

    pub open spec fn wf(&self) -> bool {
        &&& forall|i: int|
            0 <= i < self.equality@.len() ==> self.column_declared(#[trigger] self.equality@[i])
        &&& forall|g: int|
            0 <= g < self.gates@.len() ==> self.polys_declared(#[trigger] self.gates@[g].polys@)
    }

    /// The same declarations, possibly with more columns and selectors.
    pub open spec fn extends(&self, other: &ConstraintSystem) -> bool {
        &&& other.num_advice <= self.num_advice
        &&& other.num_instance <= self.num_instance
        &&& other.num_fixed <= self.num_fixed
        &&& other.num_selectors <= self.num_selectors
    }

    /// Adding columns or selectors keeps earlier expressions declared.
    pub proof fn lemma_expr_declared_extends(&self, other: &ConstraintSystem, e: Expression)
        requires
            self.extends(other),
            other.expr_declared(e),
        ensures
            self.expr_declared(e),
        decreases e,
    {
        match e {
            Expression::Sum(a, b) => {
                self.lemma_expr_declared_extends(other, *a);
                self.lemma_expr_declared_extends(other, *b);
            },
            Expression::Difference(a, b) => {
                self.lemma_expr_declared_extends(other, *a);
                self.lemma_expr_declared_extends(other, *b);
            },
            Expression::Product(a, b) => {
                self.lemma_expr_declared_extends(other, *a);
                self.lemma_expr_declared_extends(other, *b);
            },
            _ => {},
        }
    }

    proof fn lemma_polys_declared_extends(&self, other: &ConstraintSystem, polys: Seq<Expression>)
        requires
            self.extends(other),
            other.polys_declared(polys),
        ensures
            self.polys_declared(polys),
    {
        assert forall|i: int| 0 <= i < polys.len() implies self.expr_declared(#[trigger] polys[i]) by {
            self.lemma_expr_declared_extends(other, polys[i]);
        }
    }

    proof fn lemma_wf_extends(&self, other: &ConstraintSystem)
        requires
            other.wf(),
            self.extends(other),
            self.equality@ == other.equality@,
            self.gates@ == other.gates@,
        ensures
            self.wf(),
    {
        assert forall|g: int| 0 <= g < self.gates@.len() implies self.polys_declared(
            #[trigger] self.gates@[g].polys@,
        ) by {
            self.lemma_polys_declared_extends(other, self.gates@[g].polys@);
        }
    }

    /// Allocates a fresh advice column.
    pub fn advice_column(&mut self) -> (r: Column)
        requires
            old(self).wf(),
            old(self).num_advice < usize::MAX,
        ensures
            final(self).wf(),
            r == (Column { kind: ColumnKind::Advice, index: old(self).num_advice }),
            final(self).num_advice == old(self).num_advice + 1,
            final(self).num_instance == old(self).num_instance,
            final(self).num_fixed == old(self).num_fixed,
            final(self).num_selectors == old(self).num_selectors,
            final(self).equality@ == old(self).equality@,
            final(self).gates@ == old(self).gates@,
    {
        let r = Column { kind: ColumnKind::Advice, index: self.num_advice };
        self.num_advice = self.num_advice + 1;
        proof {
            self.lemma_wf_extends(old(self));
        }
        r
    }

    /// Allocates a fresh instance column.
    pub fn instance_column(&mut self) -> (r: Column)
        requires
            old(self).wf(),
            old(self).num_instance < usize::MAX,
        ensures
            final(self).wf(),
            r == (Column { kind: ColumnKind::Instance, index: old(self).num_instance }),
            final(self).num_advice == old(self).num_advice,
            final(self).num_instance == old(self).num_instance + 1,
            final(self).num_fixed == old(self).num_fixed,
            final(self).num_selectors == old(self).num_selectors,
            final(self).equality@ == old(self).equality@,
            final(self).gates@ == old(self).gates@,
    {
        let r = Column { kind: ColumnKind::Instance, index: self.num_instance };
        self.num_instance = self.num_instance + 1;
        proof {
            self.lemma_wf_extends(old(self));
        }
        r
    }

    /// Allocates a fresh fixed column.
    pub fn fixed_column(&mut self) -> (r: Column)
        requires
            old(self).wf(),
            old(self).num_fixed < usize::MAX,
        ensures
            final(self).wf(),
            r == (Column { kind: ColumnKind::Fixed, index: old(self).num_fixed }),
            final(self).num_advice == old(self).num_advice,
            final(self).num_instance == old(self).num_instance,
            final(self).num_fixed == old(self).num_fixed + 1,
            final(self).num_selectors == old(self).num_selectors,
            final(self).equality@ == old(self).equality@,
            final(self).gates@ == old(self).gates@,
    {
        let r = Column { kind: ColumnKind::Fixed, index: self.num_fixed };
        self.num_fixed = self.num_fixed + 1;
        proof {
            self.lemma_wf_extends(old(self));
        }
        r
    }

    /// Allocates a fresh selector.
    pub fn selector(&mut self) -> (r: Selector)
        requires
            old(self).wf(),
            old(self).num_selectors < usize::MAX,
        ensures
            final(self).wf(),
            r == (Selector { index: old(self).num_selectors }),
            final(self).num_advice == old(self).num_advice,
            final(self).num_instance == old(self).num_instance,
            final(self).num_fixed == old(self).num_fixed,
            final(self).num_selectors == old(self).num_selectors + 1,
            final(self).equality@ == old(self).equality@,
            final(self).gates@ == old(self).gates@,
    {
        let r = Selector { index: self.num_selectors };
        self.num_selectors = self.num_selectors + 1;
        proof {
            self.lemma_wf_extends(old(self));
        }
        r
    }

    pub fn is_column_declared(&self, c: Column) -> (r: bool)
        ensures
            r == self.column_declared(c),
    {
        match c.kind {
            ColumnKind::Advice => c.index < self.num_advice,
            ColumnKind::Instance => c.index < self.num_instance,
            ColumnKind::Fixed => c.index < self.num_fixed,
        }
    }

    pub fn is_equality_enabled(&self, c: Column) -> (r: bool)
        ensures
            r == self.equality_enabled(c),
    {
        let mut i: usize = 0;
        while i < self.equality.len()
            invariant
                0 <= i <= self.equality@.len(),
                forall|j: int| 0 <= j < i ==> self.equality@[j] != c,
            decreases self.equality@.len() - i,
        {
            if self.equality[i] == c {
                return true;
            }
            i = i + 1;
        }
        false
    }

    /// Marks a column as eligible for copy constraints; enabling it again
    /// changes nothing.
    pub fn enable_equality(&mut self, c: Column) -> (r: Result<(), Error>)
        requires
            old(self).wf(),
        ensures
            final(self).wf(),
            r is Err <==> !old(self).column_declared(c),
            r is Err ==> r == Err::<(), Error>(Error::UndeclaredColumnReference),
            r is Err ==> final(self).equality@ == old(self).equality@,
            forall|x: Column|
                #[trigger] final(self).equality_enabled(x) <==> old(self).equality_enabled(x) || (
                r is Ok && x == c),
            final(self).num_advice == old(self).num_advice,
            final(self).num_instance == old(self).num_instance,
            final(self).num_fixed == old(self).num_fixed,
            final(self).num_selectors == old(self).num_selectors,
            final(self).gates@ == old(self).gates@,
    {
        if !self.is_column_declared(c) {
            return Err(Error::UndeclaredColumnReference);
        }
        if !self.is_equality_enabled(c) {
            self.equality.push(c);
            proof {
                assert forall|g: int| 0 <= g < self.gates@.len() implies self.polys_declared(
                    #[trigger] self.gates@[g].polys@,
                ) by {
                    self.lemma_polys_declared_extends(old(self), self.gates@[g].polys@);
                }
                assert(self.equality@ == old(self).equality@.push(c));
                assert forall|i: int| 0 <= i < self.equality@.len() implies self.column_declared(
                    #[trigger] self.equality@[i],
                ) by {
                    if i < old(self).equality@.len() {
                        assert(self.equality@[i] == old(self).equality@[i]);
                    }
                }
                assert forall|x: Column|
                    #[trigger] self.equality_enabled(x) <==> old(self).equality_enabled(x) || x
                        == c by {
                    if x == c {
                        assert(self.equality@[self.equality@.len() - 1] == c);
                    }
                    if old(self).equality_enabled(x) {
                        let j = choose|j: int|
                            0 <= j < old(self).equality@.len() && old(self).equality@[j] == x;
                        assert(self.equality@[j] == x);
                    }
                }
            }
        }
        Ok(())
    }

    pub fn is_expr_declared(&self, e: &Expression) -> (r: bool)
        ensures
            r == self.expr_declared(*e),
        decreases e,
    {
        match e {
            Expression::Constant(_) => true,
            Expression::Selector(s) => s.index < self.num_selectors,
            Expression::Query(c, _) => self.is_column_declared(*c),
            Expression::Sum(a, b) => self.is_expr_declared(a) && self.is_expr_declared(b),
            Expression::Difference(a, b) => self.is_expr_declared(a) && self.is_expr_declared(b),
            Expression::Product(a, b) => self.is_expr_declared(a) && self.is_expr_declared(b),
        }
    }

    pub fn are_polys_declared(&self, polys: &Vec<Expression>) -> (r: bool)
        ensures
            r == self.polys_declared(polys@),
    {
        let mut i: usize = 0;
        while i < polys.len()
            invariant
                0 <= i <= polys@.len(),
                forall|j: int| 0 <= j < i ==> self.expr_declared(#[trigger] polys@[j]),
            decreases polys@.len() - i,
        {
            if !self.is_expr_declared(&polys[i]) {
                return false;
            }
            i = i + 1;
        }
        true
    }

    /// Registers a gate whose expressions must all vanish at every row.
    pub fn create_gate(&mut self, name: String, polys: Vec<Expression>) -> (r: Result<(), Error>)
        requires
            old(self).wf(),
        ensures
            final(self).wf(),
            r is Ok <==> old(self).polys_declared(polys@),
            r is Err ==> r == Err::<(), Error>(Error::UndeclaredColumnReference),
            r is Err ==> final(self).gates@ == old(self).gates@,
            r is Ok ==> final(self).gates@ == old(self).gates@.push(
                Gate { name: name, polys: polys },
            ),
            final(self).num_advice == old(self).num_advice,
            final(self).num_instance == old(self).num_instance,
            final(self).num_fixed == old(self).num_fixed,
            final(self).num_selectors == old(self).num_selectors,
            final(self).equality@ == old(self).equality@,
    {
        if !self.are_polys_declared(&polys) {
            return Err(Error::UndeclaredColumnReference);
        }
        self.gates.push(Gate { name, polys });
        proof {
            assert forall|g: int| 0 <= g < self.gates@.len() implies self.polys_declared(
                #[trigger] self.gates@[g].polys@,
            ) by {
                if g < old(self).gates@.len() {
                    assert(self.gates@[g] == old(self).gates@[g]);
                }
                self.lemma_polys_declared_extends(old(self), self.gates@[g].polys@);
            }
        }
        Ok(())
    }

    pub fn new() -> (r: ConstraintSystem)
        ensures
            r.wf(),
            r.num_advice == 0,
            r.num_instance == 0,
            r.num_fixed == 0,
            r.num_selectors == 0,
            r.equality@.len() == 0,
            r.gates@.len() == 0,
    {
        ConstraintSystem {
            num_advice: 0,
            num_instance: 0,
            num_fixed: 0,
            num_selectors: 0,
            equality: Vec::new(),
            gates: Vec::new(),
        }
    }
}

} // verus!
