//! Standalone commitments to the columns of a dataset.
use crate::columns;
use crate::encode;
use crate::field;
use crate::field::FieldElement;
use halo2_proofs::pasta::group::ff::PrimeField;
use halo2_proofs::pasta::group::{Curve, GroupEncoding};
use halo2_proofs::pasta::{EqAffine, Fp};
use halo2_proofs::poly::commitment::{Blind, Params};
use halo2_proofs::poly::EvaluationDomain;
use vstd::arithmetic::power2::*;
use vstd::prelude::*;

verus! {

/// The public parameters of the inner product argument for polynomials with
/// `2^k` evaluations, in their serialized form.
pub uninterp spec fn ipa_params_encoding(k: u32) -> Seq<u8>;

/// The compressed bytes of the commitment, with the default blinding factor, to
/// the polynomial with the given evaluations, under serialized parameters.
pub uninterp spec fn lagrange_commitment(params: Seq<u8>, evaluations: Seq<nat>) -> Seq<u8>;

/// `Params::new` of `halo2_proofs`, written out by `Params::write`: the
/// parameters are derived from `k` alone, which must be below 32.
#[verifier::external_body]
fn new_params(k: u32) -> (params: Vec<u8>)
    requires
        k < 32,
    ensures
        params@ == ipa_params_encoding(k),
{
    let mut params = Vec::new();
    Params::<EqAffine>::new(k).write(&mut params).unwrap();
    params
}

/// `Params::commit_lagrange` of `halo2_proofs`, under parameters that
/// `Params::read` reads back: the commitment depends on the parameters and the
/// evaluations alone. It takes exactly `2^k` evaluations, and `Fp::from_repr`
/// takes canonical bytes only. Nothing is said of the commitment beyond that.
#[verifier::external_body]
fn commit_evaluations(params: &[u8], k: u32, evaluations: &[FieldElement]) -> (commitment: [u8; 32])
    requires
        k < 32,
        params@ == ipa_params_encoding(k),
        evaluations@.len() == pow2(k as nat),
        forall|i: int|
            0 <= i < evaluations@.len() ==> (#[trigger] evaluations@[i])@ < field::field_modulus(),
    ensures
        commitment@ == lagrange_commitment(params@, field::values(evaluations@)),
{
    let params = Params::<EqAffine>::read(&mut &params[..]).unwrap();
    let values = evaluations.iter().map(|e| Fp::from_repr(e.repr).unwrap()).collect();
    let poly = EvaluationDomain::new(1, k).lagrange_from_vec(values);
    params.commit_lagrange(&poly, Blind::default()).to_affine().to_bytes()
}

/// Public commitment parameters for circuits of one size.
#[derive(Debug)]
pub struct IpaParams {
    k: u32,
    encoding: Vec<u8>,
}

impl IpaParams {
    #[verifier::type_invariant]
    spec fn derived(self) -> bool {
        self.k < 32 && self.encoding@ == ipa_params_encoding(self.k)
    }

    /// The size exponent for which these parameters were made.
    pub closed spec fn size_exponent(self) -> u32 {
        self.k
    }

    /// The parameters for polynomials with `2^k` evaluations.
    pub fn new(k: u32) -> (params: IpaParams)
        requires
            k < 32,
        ensures
            params.size_exponent() == k,
    {
        IpaParams { k, encoding: new_params(k) }
    }

    /// The size exponent for which these parameters were made.
    pub fn k(&self) -> (k: u32)
        ensures
            k == self.size_exponent(),
            k < 32,
    {
        proof {
            use_type_invariant(self);
        }
        self.k
    }

    /// The serialized parameters.
    pub fn encoding(&self) -> (encoding: &[u8])
        ensures
            encoding@ == ipa_params_encoding(self.size_exponent()),
    {
        proof {
            use_type_invariant(self);
        }
        self.encoding.as_slice()
    }
}

/// Commits to one column directly: its evaluation vector is the column and then
/// zeros, and it is committed under `params`.
pub fn lagrange_commit(params: &IpaParams, column: &[FieldElement], logrows: u32) -> (commitment: [u8;
    32])
    requires
        logrows == params.size_exponent(),
        column@.len() <= pow2(logrows as nat),
    ensures
        commitment@ == lagrange_commitment(
            ipa_params_encoding(logrows),
            columns::padded(field::values(column@), pow2(logrows as nat)),
        ),
{
    proof {
        use_type_invariant(params);
    }
    let evaluations = columns::lagrange_evaluations(column, logrows);
    assert(evaluations@.len() == field::values(evaluations@).len());
    commit_evaluations(params.encoding.as_slice(), logrows, evaluations.as_slice())
}

/// The standalone commitments to all columns of a dataset, in column order.
pub fn standalone_commitments(
    params: &IpaParams,
    rows: &[Vec<FieldElement>],
    logrows: u32,
) -> (commitments: Vec<[u8; 32]>)
    requires
        logrows == params.size_exponent(),
        rows@.len() <= pow2(logrows as nat),
        forall|i: int|
            0 <= i < rows@.len() ==> (#[trigger] rows@[i])@.len() <= encode::MAX_COLUMNS,
    ensures
        commitments@.len() == encode::MAX_COLUMNS,
        forall|j: int|
            0 <= j < encode::MAX_COLUMNS ==> (#[trigger] commitments@[j])@ == lagrange_commitment(
                ipa_params_encoding(logrows),
                columns::padded(
                    columns::column_values(field::row_values(rows@), j),
                    pow2(logrows as nat),
                ),
            ),
{
    let columns = columns::committed_columns(rows);
    let mut commitments: Vec<[u8; 32]> = Vec::with_capacity(columns.len());
    let mut j: usize = 0;
    while j < columns.len()
        invariant
            j <= columns@.len() == encode::MAX_COLUMNS,
            commitments@.len() == j,
            logrows == params.size_exponent(),
            rows@.len() <= pow2(logrows as nat),
            forall|i: int|
                0 <= i < encode::MAX_COLUMNS ==> field::values((#[trigger] columns@[i])@)
                    == columns::column_values(field::row_values(rows@), i),
            forall|i: int|
                0 <= i < j ==> (#[trigger] commitments@[i])@ == lagrange_commitment(
                    ipa_params_encoding(logrows),
                    columns::padded(
                        columns::column_values(field::row_values(rows@), i),
                        pow2(logrows as nat),
                    ),
                ),
        decreases columns@.len() - j,
    {
        proof {
            columns::lemma_column_no_longer_than_rows(field::row_values(rows@), j as int);
            assert(field::values(columns@[j as int]@).len() == columns@[j as int]@.len());
        }
        let commitment: [u8; 32] = lagrange_commit(params, columns[j].as_slice(), logrows);
        commitments.push(commitment);
        j = j + 1;
    }
    commitments
}

fn same_bytes(a: &[u8; 32], b: &[u8; 32]) -> (r: bool)
    ensures
        r == (a@ == b@),
{
    let mut i: usize = 0;
    while i < 32
        invariant
            i <= 32,
            forall|j: int| 0 <= j < i ==> a@[j] == b@[j],
        decreases 32 - i,
    {
        if a[i] != b[i] {
            return false;
        }
        i = i + 1;
    }
    assert(a@ =~= b@);
    true
}

/// Whether the first fixed-column commitments of a verifying key are the
/// standalone commitments. A key with fewer fixed columns than there are
/// standalone commitments cannot be compared.
pub fn fixed_commitments_match(fixed: &[[u8; 32]], expected: &[[u8; 32]]) -> (r: bool)
    requires
        fixed@.len() >= expected@.len(),
    ensures
        r <==> forall|i: int|
            0 <= i < expected@.len() ==> (#[trigger] fixed@[i])@ == expected@[i]@,
{
    let mut i: usize = 0;
    while i < expected.len()
        invariant
            i <= expected@.len() <= fixed@.len(),
            forall|j: int| 0 <= j < i ==> (#[trigger] fixed@[j])@ == expected@[j]@,
        decreases expected@.len() - i,
    {
        if !same_bytes(&fixed[i], &expected[i]) {
            assert(fixed@[i as int]@ != expected@[i as int]@);
            return false;
        }
        i = i + 1;
    }
    true
}

} // verus!
