use plonkish::check::{check, GateFailure, GateFailureKind, Verdict};
use plonkish::circuit::{ConstraintSystem, Error};
use plonkish::example1::FibonacciChip;
use plonkish::example2::FiboChip;
use plonkish::layout::Layouter;
use plonkish::pyth::pythChip;
use plonkish::circuit::{Column, ColumnKind};
use plonkish::example1;
use plonkish::example2;
use plonkish::mock::run_check;
use plonkish::pyth;
use plonkish::table::Cell;

fn satisfied(v: &Verdict) -> bool {
    matches!(v, Verdict::Satisfied)
}

#[test]
fn example1_fibonacci_example1() {
    let k = 8;
    let a = 1u64;
    let b = 1u64;
    let out = 55u64;
    let circuit = example1::MyCircuit {};
    let mut public_input = vec![a, b, out];
    let verdict = run_check(1 << k, &circuit, vec![public_input.clone()]).unwrap();
    assert!(satisfied(&verdict));

    public_input[2] += 1;
    let verdict = run_check(1 << k, &circuit, vec![public_input]).unwrap();
    assert!(!satisfied(&verdict));
}

#[test]
fn example1Commented_fibonacci_example1() {
    let k = 8;
    let circuit = example1::MyCircuit {};
    let mut public_input = vec![1u64, 1, 55];
    let verdict = run_check(1 << k, &circuit, vec![public_input.clone()]).unwrap();
    assert!(satisfied(&verdict));

    public_input[2] += 1;
    let verdict = run_check(1 << k, &circuit, vec![public_input]).unwrap();
    assert!(!satisfied(&verdict));
}

#[test]
fn example2_test_example2() {
    let k = 4;
    let circuit = example2::MyCircuit {};
    let public_input = vec![1u64, 1, 55];
    let verdict = run_check(1 << k, &circuit, vec![public_input]).unwrap();
    assert!(satisfied(&verdict));
}

#[test]
fn example2Commented_test_example2() {
    let k = 4;
    let circuit = example2::MyCircuit {};
    let public_input = vec![1u64, 1, 55];
    let verdict = run_check(1 << k, &circuit, vec![public_input]).unwrap();
    assert!(satisfied(&verdict));
}

#[test]
fn pyth_test_example2() {
    let k = 4;
    let circuit = pyth::MyCircuit {};
    let mut public_input = vec![5u64, 12, 13];
    let verdict = run_check(1 << k, &circuit, vec![public_input.clone()]).unwrap();
    assert!(satisfied(&verdict));

    public_input[2] += 1;
    let verdict = run_check(1 << k, &circuit, vec![public_input]).unwrap();
    assert!(!satisfied(&verdict));
}

#[test]
fn fibonacci_broken_output_is_one_copy_failure() {
    let verdict = run_check(16, &example1::MyCircuit {}, vec![vec![1, 1, 56]]).unwrap();
    match verdict {
        Verdict::Failed { gates, copies } => {
            assert!(gates.is_empty());
            assert_eq!(copies.len(), 1);
            let out = Cell { column: Column { kind: ColumnKind::Instance, index: 0 }, row: 2 };
            assert!(copies[0].cells.contains(&out));
            assert_eq!(copies[0].cells.len(), 2);
        }
        Verdict::Satisfied => panic!("a wrong output must fail"),
    }
}

#[test]
fn fibonacci_single_column_broken_output() {
    let verdict = run_check(16, &example2::MyCircuit {}, vec![vec![1, 1, 56]]).unwrap();
    match verdict {
        Verdict::Failed { gates, copies } => {
            assert!(gates.is_empty());
            assert_eq!(copies.len(), 1);
        }
        Verdict::Satisfied => panic!("a wrong output must fail"),
    }
}

#[test]
fn pythagoras_wrong_hypotenuse_fails_the_sum_gate() {
    let verdict = run_check(16, &pyth::MyCircuit {}, vec![vec![5, 12, 14]]).unwrap();
    match verdict {
        Verdict::Failed { gates, copies } => {
            assert_eq!(
                gates,
                vec![GateFailure {
                    gate: 0,
                    row: 3,
                    index: 0,
                    kind: GateFailureKind::ConstraintNotSatisfied
                }]
            );
            assert!(copies.is_empty());
        }
        Verdict::Satisfied => panic!("5, 12, 14 is no triple"),
    }
}

#[test]
fn pythagoras_other_triple() {
    let verdict = run_check(8, &pyth::MyCircuit {}, vec![vec![3, 4, 5]]).unwrap();
    assert!(satisfied(&verdict));
}

#[test]
fn missing_public_input_is_a_length_mismatch() {
    let r = run_check(16, &example1::MyCircuit {}, vec![vec![1, 1]]);
    assert_eq!(r.err(), Some(Error::InstanceLengthMismatch));
    let r = run_check(16, &example1::MyCircuit {}, vec![]);
    assert_eq!(r.err(), Some(Error::InstanceLengthMismatch));
    let r = run_check(16, &example1::MyCircuit {}, vec![vec![1, 1, 55, 7]]);
    assert_eq!(r.err(), Some(Error::InstanceLengthMismatch));
    let r = run_check(16, &pyth::MyCircuit {}, vec![vec![5, 12, 13, 0]]);
    assert_eq!(r.err(), Some(Error::InstanceLengthMismatch));
}

#[test]
fn too_few_rows_is_out_of_bounds() {
    let r = run_check(5, &example1::MyCircuit {}, vec![vec![1, 1, 55]]);
    assert_eq!(r.err(), Some(Error::RegionOutOfBounds));
    let r = run_check(3, &pyth::MyCircuit {}, vec![vec![5, 12, 13]]);
    assert_eq!(r.err(), Some(Error::RegionOutOfBounds));
}

#[test]
fn checking_twice_gives_the_same_verdict() {
    let first = run_check(16, &example1::MyCircuit {}, vec![vec![1, 1, 56]]).unwrap();
    let second = run_check(16, &example1::MyCircuit {}, vec![vec![1, 1, 56]]).unwrap();
    assert_eq!(format!("{:?}", first), format!("{:?}", second));
    let first = run_check(16, &pyth::MyCircuit {}, vec![vec![5, 12, 14]]).unwrap();
    let second = run_check(16, &pyth::MyCircuit {}, vec![vec![5, 12, 14]]).unwrap();
    assert_eq!(format!("{:?}", first), format!("{:?}", second));
}

#[test]
fn fibonacci_rows_thread_values() {
    let mut cs = ConstraintSystem::new();
    let config = FibonacciChip::configure(&mut cs);
    let chip = FibonacciChip::construct(config);
    let mut l = Layouter::new(&cs, 16, vec![vec![2, 3, 13]]);
    let (a, b, c) = chip.assign_first_row(&mut l).unwrap();
    assert_eq!((a.value, b.value, c.value), (Some(2), Some(3), Some(5)));
    let d = chip.assign_row(&mut l, &b, &c).unwrap();
    assert_eq!(d.value, Some(8));
    assert_eq!(d.cell.row, 1);
    let e = chip.assign_row(&mut l, &c, &d).unwrap();
    assert_eq!(e.value, Some(13));
    assert_eq!(chip.expose_public(&mut l, &e, 16), Err(Error::RegionOutOfBounds));
    chip.expose_public(&mut l, &e, 2).unwrap();
    assert_eq!(l.regions.len(), 3);
    let verdict = check(&cs, &l.table, &l.instance).unwrap();
    assert!(verdict.is_satisfied());
}

#[test]
fn single_column_sequence_ends_at_fifty_five() {
    let mut cs = ConstraintSystem::new();
    let advice = cs.advice_column();
    let instance = cs.instance_column();
    let chip = FiboChip::construct(FiboChip::configure(&mut cs, advice, instance).unwrap());
    let mut l = Layouter::new(&cs, 16, vec![vec![1, 1, 55]]);
    let out = chip.assign(&mut l, 10).unwrap();
    assert_eq!(out.value, Some(55));
    assert_eq!(out.cell.row, 9);
    assert_eq!(l.next_row, 10);
    let mut short = Layouter::new(&cs, 8, vec![vec![1, 1, 55]]);
    assert_eq!(chip.assign(&mut short, 10).err(), Some(Error::RegionOutOfBounds));
}

#[test]
fn pythagoras_squares_each_input() {
    let mut cs = ConstraintSystem::new();
    let chip = pythChip::construct(pythChip::configure(&mut cs));
    assert_eq!(cs.gates.len(), 2);
    let mut l = Layouter::new(&cs, 8, vec![vec![5, 12, 13]]);
    let out = chip.assign_all(&mut l).unwrap();
    assert_eq!(out.value, Some(169));
    assert_eq!(out.cell.row, 2);
    assert_eq!(l.table.copies.len(), 9);
    assert_eq!(l.regions[0].height, 4);
}

#[test]
fn chips_refuse_columns_without_copies() {
    let mut cs = ConstraintSystem::new();
    let col_a = cs.advice_column();
    let col_b = cs.advice_column();
    let col_c = cs.advice_column();
    let selector = cs.selector();
    let instance = cs.instance_column();
    let config = example1::FibonacciConfig { col_a, col_b, col_c, selector, instance };
    let chip = FibonacciChip::construct(config);
    let mut l = Layouter::new(&cs, 16, vec![vec![1, 1, 55]]);
    assert_eq!(chip.assign_first_row(&mut l).err(), Some(Error::EqualityNotEnabled));
    assert!(l.regions.is_empty());

    let mut cs = ConstraintSystem::new();
    let advice = cs.advice_column();
    let missing = plonkish::circuit::Column { kind: plonkish::circuit::ColumnKind::Instance, index: 0 };
    assert_eq!(FiboChip::configure(&mut cs, advice, missing).err(), Some(Error::UndeclaredColumnReference));
    assert_eq!(FiboChip::configure(&mut cs, missing, advice).err(), Some(Error::UndeclaredColumnReference));
    assert!(cs.gates.is_empty());
}
