use database_commitment::columns::{committed_columns, domain_size, lagrange_evaluations};
use database_commitment::commit::{
    fixed_commitments_match, lagrange_commit, standalone_commitments, IpaParams,
};
use database_commitment::encode::MAX_COLUMNS;
use database_commitment::field::FieldElement;
use halo2_proofs::pasta::group::ff::{Field, PrimeField};
use halo2_proofs::pasta::group::{Curve, GroupEncoding};
use halo2_proofs::pasta::{EqAffine, Fp};
use halo2_proofs::poly::commitment::{Blind, Params};
use halo2_proofs::poly::EvaluationDomain;

fn elements(values: &[u64]) -> Vec<FieldElement> {
    values.iter().map(|v| FieldElement::from_u64(*v)).collect()
}

fn commit_directly(params: &Params<EqAffine>, column: &[Fp], k: u32) -> [u8; 32] {
    let domain: EvaluationDomain<Fp> = EvaluationDomain::new(1, k);
    let mut poly = domain.empty_lagrange();
    for (row, value) in column.iter().enumerate() {
        poly[row] = *value;
    }
    params.commit_lagrange(&poly, Blind::default()).to_affine().to_bytes()
}

#[test]
fn integers_become_field_elements() {
    for v in [0u64, 1, 255, 256, 0x0102030405060708, u64::MAX] {
        let repr = FieldElement::from_u64(v).to_repr();
        assert_eq!(repr, Fp::from(v).to_repr());
        assert_eq!(repr[..8], v.to_le_bytes());
        assert_eq!(repr[8..], [0u8; 24]);
    }
}

#[test]
fn canonical_bytes_become_field_elements() {
    for value in [Fp::ZERO, Fp::ONE, -Fp::ONE, Fp::from(77).square(), Fp::ROOT_OF_UNITY] {
        let element = FieldElement::from_repr(value.to_repr()).unwrap();
        assert_eq!(element.to_repr(), value.to_repr());
    }
    assert_eq!(FieldElement::from_repr(Fp::from(9).to_repr()), Some(FieldElement::from_u64(9)));
}

#[test]
fn bytes_of_the_modulus_are_refused() {
    let mut modulus = (-Fp::ONE).to_repr();
    modulus[0] += 1;
    assert_eq!(FieldElement::from_repr(modulus), None);
    assert_eq!(FieldElement::from_repr([0xff; 32]), None);
}

#[test]
fn columns_transpose_full_rows() {
    let rows = (0..3u64)
        .map(|i| elements(&(0..MAX_COLUMNS as u64).map(|j| 100 * i + j).collect::<Vec<_>>()))
        .collect::<Vec<_>>();
    let columns = committed_columns(&rows);
    assert_eq!(columns.len(), MAX_COLUMNS);
    for (j, column) in columns.iter().enumerate() {
        assert_eq!(column.len(), 3);
        for (i, value) in column.iter().enumerate() {
            assert_eq!(*value, rows[i][j]);
        }
    }
}

#[test]
fn short_rows_leave_columns_shorter() {
    let rows = vec![elements(&[1, 2]), elements(&[]), elements(&[3])];
    let columns = committed_columns(&rows);
    assert_eq!(columns[0], elements(&[1, 3]));
    assert_eq!(columns[1], elements(&[2]));
    assert!(columns[2..].iter().all(|column| column.is_empty()));
    assert_eq!(committed_columns(&[]), vec![Vec::<FieldElement>::new(); MAX_COLUMNS]);
}

#[test]
fn evaluations_are_padded_with_zeros() {
    assert_eq!(domain_size(0), 1);
    assert_eq!(domain_size(5), 32);
    assert_eq!(domain_size(31), 1 << 31);
    assert_eq!(lagrange_evaluations(&elements(&[4, 5, 6]), 2), elements(&[4, 5, 6, 0]));
    assert_eq!(lagrange_evaluations(&[], 1), elements(&[0, 0]));
    assert_eq!(lagrange_evaluations(&elements(&[1, 2]), 1), elements(&[1, 2]));
}

#[test]
fn parameters_are_derived_from_their_size() {
    let params = IpaParams::new(3);
    assert_eq!(params.k(), 3);
    let mut encoding = Vec::new();
    Params::<EqAffine>::new(3).write(&mut encoding).unwrap();
    assert_eq!(params.encoding(), &encoding[..]);
    assert_ne!(params.encoding(), IpaParams::new(2).encoding());
}

#[test]
fn commitments_are_those_of_the_proving_system() {
    for k in [0u32, 1, 3, 5] {
        let params = IpaParams::new(k);
        let direct = Params::<EqAffine>::new(k);
        let values = (0..(1u64 << k)).map(|i| i * i + 7).collect::<Vec<_>>();
        for n in [0, 1, values.len()] {
            let column = values[..n].iter().map(|v| Fp::from(*v)).collect::<Vec<_>>();
            assert_eq!(
                lagrange_commit(&params, &elements(&values[..n]), k),
                commit_directly(&direct, &column, k)
            );
        }
    }
}

#[test]
fn large_field_elements_can_be_committed() {
    let params = IpaParams::new(2);
    let column = [-Fp::ONE, Fp::ROOT_OF_UNITY, Fp::from(3)];
    let held = column
        .iter()
        .map(|v| FieldElement::from_repr(v.to_repr()).unwrap())
        .collect::<Vec<_>>();
    assert_eq!(
        lagrange_commit(&params, &held, 2),
        commit_directly(&Params::<EqAffine>::new(2), &column, 2)
    );
}

#[test]
fn different_columns_have_different_commitments() {
    let params = IpaParams::new(3);
    let a = lagrange_commit(&params, &elements(&[1, 2, 3]), 3);
    let b = lagrange_commit(&params, &elements(&[1, 3, 2]), 3);
    let padded = lagrange_commit(&params, &elements(&[1, 2, 3, 0, 0]), 3);
    assert_ne!(a, b);
    assert_eq!(a, padded);
}

#[test]
fn every_column_is_committed() {
    let rows = vec![
        elements(&(1..=16).collect::<Vec<_>>()),
        elements(&(101..=116).collect::<Vec<_>>()),
    ];
    let params = IpaParams::new(4);
    let commitments = standalone_commitments(&params, &rows, 4);
    assert_eq!(commitments.len(), MAX_COLUMNS);
    for (commitment, column) in commitments.iter().zip(committed_columns(&rows)) {
        assert_eq!(*commitment, lagrange_commit(&params, &column, 4));
    }
}

#[test]
fn commitments_match_on_a_prefix() {
    let a = [1u8; 32];
    let b = [2u8; 32];
    let mut c = [1u8; 32];
    c[31] = 9;
    assert!(fixed_commitments_match(&[a, b, c], &[a, b]));
    assert!(fixed_commitments_match(&[a], &[]));
    assert!(fixed_commitments_match(&[a, b], &[a, b]));
    assert!(!fixed_commitments_match(&[a, b], &[b, a]));
    assert!(!fixed_commitments_match(&[a, a], &[a, c]));
}
