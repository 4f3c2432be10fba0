//! Elements of the scalar field in which datasets are committed.
use halo2_proofs::pasta::group::ff::PrimeField;
use halo2_proofs::pasta::Fp;
use vstd::prelude::*;

verus! {

/// The order of the field.
pub open spec fn field_modulus() -> nat {
    0x40000000000000000000000000000000224698fc094cf91b992d30ed00000001nat
}

/// The number whose little-endian bytes are `bytes`.
pub open spec fn le_value(bytes: Seq<u8>) -> nat
    decreases bytes.len(),
{
    if bytes.len() == 0 {
        0
    } else {
        bytes[0] as nat + 256 * le_value(bytes.skip(1))
    }
}

/// An element of the field, held as the little-endian bytes of its canonical
/// representative. Its view is that representative.
#[derive(Clone, Copy, Debug, PartialEq, Eq)]
pub struct FieldElement {
    pub(crate) repr: [u8; 32],
}

impl View for FieldElement {
    type V = nat;

    closed spec fn view(&self) -> nat {
        le_value(self.repr@)
    }
}

/// The values of a sequence of elements.
pub open spec fn values(elements: Seq<FieldElement>) -> Seq<nat> {
    Seq::new(elements.len(), |i: int| elements[i]@)
}

/// The values of a sequence of rows.
pub open spec fn row_values(rows: Seq<Vec<FieldElement>>) -> Seq<Seq<nat>> {
    Seq::new(rows.len(), |i: int| values(rows[i]@))
}

/// `Fp::from(value).to_repr()` of `halo2_proofs::pasta`: the canonical
/// little-endian bytes of the field element that the integer `value` names are
/// the bytes of `value` itself, since `value` is below the modulus.
#[verifier::external_body]
fn fp_from_u64(value: u64) -> (repr: [u8; 32])
    ensures
        le_value(repr@) == value,
{
    Fp::from(value).to_repr()
}

/// `Fp::from_repr(repr)` of `halo2_proofs::pasta`: it accepts exactly the
/// little-endian bytes of the numbers below the modulus.
#[verifier::external_body]
fn fp_accepts(repr: [u8; 32]) -> (accepted: bool)
    ensures
        accepted == (le_value(repr@) < field_modulus()),
{
    Fp::from_repr(repr).is_some().into()
}

pub(crate) proof fn lemma_canonical_below_modulus(element: FieldElement)
    requires
        element.canonical(),
    ensures
        element@ < field_modulus(),
{
}

impl FieldElement {
    #[verifier::type_invariant]
    pub(crate) closed spec fn canonical(self) -> bool {
        le_value(self.repr@) < field_modulus()
    }

    /// The element that the integer `value` names.
    pub fn from_u64(value: u64) -> (element: FieldElement)
        ensures
            element@ == value,
    {
        FieldElement { repr: fp_from_u64(value) }
    }

    /// The element whose canonical little-endian bytes are `repr`, if there is
    /// one.
    pub fn from_repr(repr: [u8; 32]) -> (element: Option<FieldElement>)
        ensures
            element is Some <==> le_value(repr@) < field_modulus(),
            element matches Some(e) ==> e@ == le_value(repr@),
    {
        if fp_accepts(repr) {
            Some(FieldElement { repr })
        } else {
            None
        }
    }

    /// The canonical little-endian bytes of this element.
    pub fn to_repr(&self) -> (repr: [u8; 32])
        ensures
            le_value(repr@) == self@,
            self@ < field_modulus(),
    {
        proof {
            use_type_invariant(self);
        }
        self.repr
    }
}

/// A copy of a sequence of elements.
pub(crate) fn copy_elements(elements: &Vec<FieldElement>) -> (copy: Vec<FieldElement>)
    ensures
        values(copy@) == values(elements@),
{
    let mut copy: Vec<FieldElement> = Vec::with_capacity(elements.len());
    let mut i: usize = 0;
    while i < elements.len()
        invariant
            i <= elements@.len(),
            copy@ == elements@.take(i as int),
        decreases elements@.len() - i,
    {
        copy.push(elements[i]);
        i = i + 1;
    }
    copy
}

/// A copy of a sequence of rows.
pub(crate) fn copy_rows(rows: &Vec<Vec<FieldElement>>) -> (copy: Vec<Vec<FieldElement>>)
    ensures
        row_values(copy@) == row_values(rows@),
{
    let mut copy: Vec<Vec<FieldElement>> = Vec::with_capacity(rows.len());
    let mut i: usize = 0;
    while i < rows.len()
        invariant
            i <= rows@.len(),
            copy@.len() == i,
            forall|j: int| 0 <= j < i ==> values((#[trigger] copy@[j])@) == values(rows@[j]@),
        decreases rows@.len() - i,
    {
        copy.push(copy_elements(&rows[i]));
        i = i + 1;
    }
    copy
}

/// The values stand for the elements one for one.
pub proof fn law_values_stand_for_elements(elements: Seq<FieldElement>, i: int)
    requires
        0 <= i < elements.len(),
    ensures
        values(elements).len() == elements.len(),
        values(elements)[i] == elements[i]@,
{
}

/// The row values stand for the rows one for one, and entry for entry.
pub proof fn law_row_values_stand_for_rows(rows: Seq<Vec<FieldElement>>, i: int, j: int)
    requires
        0 <= i < rows.len(),
        0 <= j < rows[i]@.len(),
    ensures
        row_values(rows).len() == rows.len(),
        row_values(rows)[i].len() == rows[i]@.len(),
        row_values(rows)[i][j] == rows[i]@[j]@,
{
}

/// Bytes of one length that write the same number are the same.
pub proof fn law_bytes_are_fixed_by_their_value(a: Seq<u8>, b: Seq<u8>)
    requires
        a.len() == b.len(),
        le_value(a) == le_value(b),
    ensures
        a == b,
    decreases a.len(),
{
    if a.len() > 0 {
        law_bytes_are_fixed_by_their_value(a.skip(1), b.skip(1));
        assert(a =~= seq![a[0]] + a.skip(1));
        assert(b =~= seq![b[0]] + b.skip(1));
    } else {
        assert(a =~= b);
    }
}

/// A byte put before the others counts once, and they count 256 times as much.
pub proof fn law_value_of_a_prepended_byte(byte: u8, bytes: Seq<u8>)
    ensures
        le_value(Seq::empty()) == 0,
        le_value(seq![byte] + bytes) == byte + 256 * le_value(bytes),
{
    assert((seq![byte] + bytes).skip(1) =~= bytes);
}

/// An element stands for the number that its bytes write.
pub(crate) proof fn law_element_is_its_bytes(element: FieldElement)
    ensures
        element@ == le_value(element.repr@),
{
}

} // verus!
