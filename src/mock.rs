//! Running a circuit end to end: configure it once, synthesize a table from a
//! witness and public inputs, and check the table.
use vstd::prelude::*;
use crate::check::{check, check_outcome, Verdict};
use crate::circuit::{ConstraintSystem, Error};
use crate::layout::{inputs_ok, Layouter};
use crate::table::Assignment;

verus! {

/// `cs` has no columns, selectors, copies or gates.
pub open spec fn empty_system(cs: &ConstraintSystem) -> bool {
    &&& cs.wf()
    &&& cs.num_advice == 0
    &&& cs.num_instance == 0
    &&& cs.num_fixed == 0
    &&& cs.num_selectors == 0
    &&& cs.equality@.len() == 0
    &&& cs.gates@.len() == 0
}

/// `l` starts a synthesis for `cs`: a table of `n` rows with every cell
/// unknown, every selector off, no copies and no regions, reading the public
/// inputs `inputs`.
pub open spec fn fresh_layouter(l: &Layouter, cs: &ConstraintSystem, n: usize, inputs: Seq<Vec<u64>>) -> bool {
    &&& l.wf()
    &&& l.table.fits(cs)
    &&& l.table.n == n
    &&& l.instance@ == inputs
    &&& l.regions@.len() == 0
    &&& l.next_row == 0
    &&& !l.open
    &&& forall|i: int| 0 <= i < l.table.advice@.len() ==> l.table.advice@[i] is None
    &&& forall|i: int| 0 <= i < l.table.fixed@.len() ==> l.table.fixed@[i] is None
    &&& forall|i: int| 0 <= i < l.table.selectors@.len() ==> !l.table.selectors@[i]
    &&& l.table.copies@.len() == 0
}

/// A circuit: a configuration of columns and gates, and a synthesis that
/// fills a table through a layouter.
pub trait Circuit {
    type Config;

    /// The most columns of one kind, or selectors, that `configure` allocates.
    spec fn width() -> nat;

    /// What `configure` makes of an empty constraint system.
    spec fn configured(cs: &ConstraintSystem, config: &Self::Config) -> bool;

    /// The configuration's columns and selectors exist in the table `t`.
    spec fn config_fits(config: &Self::Config, t: &Assignment) -> bool;

    /// What `synthesize` does to the layouter `before`, leaving `after` and
    /// returning `r`.
    spec fn synthesized(
        &self,
        config: &Self::Config,
        before: &Layouter,
        after: &Layouter,
        r: &Result<(), Error>,
    ) -> bool;

    fn configure(meta: &mut ConstraintSystem) -> (config: Self::Config)
        requires
            empty_system(old(meta)),
        ensures
            final(meta).wf(),
            final(meta).num_advice <= Self::width(),
            final(meta).num_instance <= Self::width(),
            final(meta).num_fixed <= Self::width(),
            final(meta).num_selectors <= Self::width(),
            Self::configured(final(meta), &config),
            forall|t: Assignment| #[trigger] t.fits(final(meta)) ==> Self::config_fits(&config, &t),
    ;

    fn synthesize(&self, config: &Self::Config, layouter: &mut Layouter) -> (r: Result<(), Error>)
        requires
            old(layouter).wf(),
            !old(layouter).open,
            Self::config_fits(config, &old(layouter).table),
        ensures
            final(layouter).wf(),
            final(layouter).table.same_shape(&old(layouter).table),
            final(layouter).instance@ == old(layouter).instance@,
            self.synthesized(config, old(layouter), final(layouter), &r),
    ;
}

/// Configures `circuit` on an empty constraint system `cs`, synthesizes it
/// into a fresh table of `n` rows with the public inputs `inputs`, and checks
/// that table. A synthesis error is returned as it is; otherwise the result
/// is the check's.
pub fn run_check<C: Circuit>(n: usize, circuit: &C, inputs: Vec<Vec<u64>>) -> (r: Result<
    Verdict,
    Error,
>)
    requires
        n > 0,
        C::width() * n <= usize::MAX,
        inputs_ok(inputs@),
    ensures
        exists|cs: ConstraintSystem, config: C::Config, before: Layouter, after: Layouter, s: Result<(), Error>|
            {
                &&& C::configured(&cs, &config)
                &&& cs.wf()
                &&& fresh_layouter(&before, &cs, n, inputs@)
                &&& circuit.synthesized(&config, &before, &after, &s)
                &&& after.wf()
                &&& after.table.same_shape(&before.table)
                &&& after.instance@ == inputs@
                &&& (s matches Err(e) ==> r == Err::<Verdict, Error>(e))
                &&& (s is Ok ==> check_outcome(&cs, &after.table, inputs@, &r))
            },
{
    let mut cs = ConstraintSystem::new();
    let config = C::configure(&mut cs);
    assert(cs.num_advice * n <= usize::MAX) by (nonlinear_arith)
        requires
            cs.num_advice <= C::width(),
            C::width() * n <= usize::MAX,
    ;
    assert(cs.num_fixed * n <= usize::MAX) by (nonlinear_arith)
        requires
            cs.num_fixed <= C::width(),
            C::width() * n <= usize::MAX,
    ;
    assert(cs.num_selectors * n <= usize::MAX) by (nonlinear_arith)
        requires
            cs.num_selectors <= C::width(),
            C::width() * n <= usize::MAX,
    ;
    let ghost kept = inputs@;
    let mut layouter = Layouter::new(&cs, n, inputs);
    let ghost before = layouter;
    assert(fresh_layouter(&before, &cs, n, kept));
    let s = circuit.synthesize(&config, &mut layouter);
    match s {
        Err(e) => {
            assert(circuit.synthesized(&config, &before, &layouter, &s));
            return Err(e);
        },
        Ok(()) => {},
    }
    let r = check(&cs, &layouter.table, &layouter.instance);
    assert(circuit.synthesized(&config, &before, &layouter, &s));
    r
}

} // verus!
