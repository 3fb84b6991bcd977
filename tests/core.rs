use plonkish::check::{check, rotated_row, GateFailure, GateFailureKind, Verdict};
use plonkish::circuit::{ColumnKind, ConstraintSystem, Error, Expression};
use plonkish::field::{add, from_u64, mul, sub, MODULUS};
use plonkish::layout::Layouter;
use plonkish::table::Cell;

#[test]
fn field_arithmetic_wraps_at_the_modulus() {
    assert_eq!(add(MODULUS - 1, 1), 0);
    assert_eq!(add(2, 3), 5);
    assert_eq!(sub(0, 1), MODULUS - 1);
    assert_eq!(sub(9, 4), 5);
    assert_eq!(mul(MODULUS - 1, MODULUS - 1), 1);
    assert_eq!(mul(12, 12), 144);
    assert_eq!(from_u64(MODULUS + 3), 3);
}

#[test]
fn rotations_wrap_around_the_table() {
    assert_eq!(rotated_row(0, -1, 5), 4);
    assert_eq!(rotated_row(3, 7, 5), 0);
    assert_eq!(rotated_row(2, 0, 5), 2);
    assert_eq!(rotated_row(1, -11, 5), 0);
    assert_eq!(rotated_row(4, 1, 5), 0);
}

#[test]
fn gate_with_undeclared_column_is_refused() {
    let mut cs = ConstraintSystem::new();
    let a = cs.advice_column();
    let ghost_column = plonkish::circuit::Column { kind: ColumnKind::Advice, index: 5 };
    let polys = vec![Expression::difference(Expression::Query(a, 0), Expression::Query(ghost_column, 0))];
    assert_eq!(cs.create_gate("bad".to_owned(), polys), Err(Error::UndeclaredColumnReference));
    assert!(cs.gates.is_empty());
    let fixed = cs.fixed_column();
    assert_eq!(fixed.kind, ColumnKind::Fixed);
    let polys = vec![Expression::difference(Expression::Query(a, 0), Expression::Query(fixed, 0))];
    assert_eq!(cs.create_gate("good".to_owned(), polys), Ok(()));
    assert_eq!(cs.gates.len(), 1);
    assert_eq!(cs.enable_equality(ghost_column), Err(Error::UndeclaredColumnReference));
}

#[test]
fn enabling_equality_twice_changes_nothing() {
    let mut cs = ConstraintSystem::new();
    let a = cs.advice_column();
    assert_eq!(cs.enable_equality(a), Ok(()));
    assert_eq!(cs.enable_equality(a), Ok(()));
    assert_eq!(cs.equality.len(), 1);
}

#[test]
fn copy_without_equality_is_refused() {
    let mut cs = ConstraintSystem::new();
    let a = cs.advice_column();
    let b = cs.advice_column();
    cs.enable_equality(a).unwrap();
    let mut l = Layouter::new(&cs, 8, vec![]);
    l.begin_region();
    let x = l.assign_advice(a, 0, Some(4)).unwrap();
    assert_eq!(l.copy_advice(&x, b, 1).err(), Some(Error::EqualityNotEnabled));
    assert_eq!(l.assign_advice(a, 8, Some(1)).err(), Some(Error::RegionOutOfBounds));
    assert_eq!(l.assign_advice(b, 7, Some(1)).map(|c| c.cell.row), Ok(7));
    l.end_region();
}

#[test]
fn regions_of_equal_height_are_stacked() {
    let mut cs = ConstraintSystem::new();
    let a = cs.advice_column();
    let mut l = Layouter::new(&cs, 64, vec![]);
    for i in 0..5usize {
        l.begin_region();
        let cell = l.assign_advice(a, 2, Some(i as u64)).unwrap();
        assert_eq!(cell.cell.row, i * 3 + 2);
        let region = l.end_region();
        assert_eq!(region.offset, i * 3);
        assert_eq!(region.height, 3);
    }
    assert_eq!(l.next_row, 15);
    for w in l.regions.windows(2) {
        assert!(w[0].offset + w[0].height <= w[1].offset);
    }
}

#[test]
fn disabled_selector_ignores_garbage() {
    let mut cs = ConstraintSystem::new();
    let a = cs.advice_column();
    let b = cs.advice_column();
    let s = cs.selector();
    let poly = Expression::product(
        Expression::Selector(s),
        Expression::difference(Expression::Query(a, 0), Expression::Query(b, 0)),
    );
    cs.create_gate("eq".to_owned(), vec![poly]).unwrap();
    let mut l = Layouter::new(&cs, 4, vec![]);
    l.begin_region();
    l.assign_advice(a, 0, Some(3)).unwrap();
    l.assign_advice(b, 0, Some(9)).unwrap();
    l.end_region();
    let verdict = check(&cs, &l.table, &l.instance).unwrap();
    assert!(verdict.is_satisfied());

    l.begin_region();
    l.enable_selector(s, 0).unwrap();
    l.assign_advice(a, 0, Some(3)).unwrap();
    l.assign_advice(b, 0, Some(9)).unwrap();
    l.end_region();
    match check(&cs, &l.table, &l.instance).unwrap() {
        Verdict::Failed { gates, copies } => {
            assert_eq!(
                gates,
                vec![GateFailure { gate: 0, row: 1, index: 0, kind: GateFailureKind::ConstraintNotSatisfied }]
            );
            assert!(copies.is_empty());
        }
        Verdict::Satisfied => panic!("3 != 9 under an active selector"),
    }
}

#[test]
fn active_gate_on_unassigned_cell_is_reported() {
    let mut cs = ConstraintSystem::new();
    let a = cs.advice_column();
    let s = cs.selector();
    let poly = Expression::product(Expression::Selector(s), Expression::Query(a, 1));
    cs.create_gate("next".to_owned(), vec![poly]).unwrap();
    let mut l = Layouter::new(&cs, 4, vec![]);
    l.begin_region();
    l.enable_selector(s, 0).unwrap();
    l.end_region();
    match check(&cs, &l.table, &l.instance).unwrap() {
        Verdict::Failed { gates, .. } => {
            assert_eq!(
                gates,
                vec![GateFailure { gate: 0, row: 0, index: 0, kind: GateFailureKind::UnassignedCell }]
            );
        }
        Verdict::Satisfied => panic!("an unknown cell cannot satisfy a gate"),
    }
}

#[test]
fn chained_copies_report_one_class() {
    let mut cs = ConstraintSystem::new();
    let a = cs.advice_column();
    cs.enable_equality(a).unwrap();
    let mut l = Layouter::new(&cs, 8, vec![]);
    l.begin_region();
    let x = l.assign_advice(a, 0, Some(5)).unwrap();
    let y = l.copy_advice(&x, a, 1).unwrap();
    let z = l.copy_advice(&y, a, 2).unwrap();
    assert_eq!(z.value, Some(5));
    l.end_region();
    assert!(check(&cs, &l.table, &l.instance).unwrap().is_satisfied());

    let mut broken = Layouter::new(&cs, 8, vec![]);
    broken.begin_region();
    let x = broken.assign_advice(a, 0, Some(5)).unwrap();
    let y = broken.copy_advice(&x, a, 1).unwrap();
    broken.copy_advice(&y, a, 2).unwrap();
    broken.assign_advice(a, 2, Some(7)).unwrap();
    broken.end_region();
    match check(&cs, &broken.table, &broken.instance).unwrap() {
        Verdict::Failed { gates, copies } => {
            assert!(gates.is_empty());
            assert_eq!(copies.len(), 1);
            assert_eq!(copies[0].cells.len(), 3);
            for row in 0..3usize {
                assert!(copies[0].cells.contains(&Cell { column: a, row }));
            }
        }
        Verdict::Satisfied => panic!("5 != 7 across a chain of copies"),
    }
}

#[test]
fn public_input_copies_reach_the_instance_column() {
    let mut cs = ConstraintSystem::new();
    let a = cs.advice_column();
    let inst = cs.instance_column();
    cs.enable_equality(a).unwrap();
    cs.enable_equality(inst).unwrap();
    let mut l = Layouter::new(&cs, 4, vec![vec![11, 12]]);
    l.begin_region();
    let x = l.assign_advice_from_instance(inst, 1, a, 0).unwrap();
    assert_eq!(x.value, Some(12));
    let y = l.assign_advice_from_instance(inst, 3, a, 1).unwrap();
    assert_eq!(y.value, None);
    l.end_region();
    assert_eq!(l.table.copies.len(), 2);
    assert_eq!(check(&cs, &l.table, &l.instance).err(), Some(Error::InstanceLengthMismatch));
}
