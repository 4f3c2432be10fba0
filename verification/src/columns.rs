//! Column polynomials of a dataset, by their evaluations.
use crate::encode;
use crate::field;
use crate::field::FieldElement;
use vstd::arithmetic::power2::*;
use vstd::prelude::*;

verus! {

/// The entries of column `j`, over the rows that have one, in row order.
pub open spec fn column_values(rows: Seq<Seq<nat>>, j: int) -> Seq<nat>
    decreases rows.len(),
{
    if rows.len() == 0 {
        Seq::empty()
    } else {
        let before = column_values(rows.drop_last(), j);
        if j < rows.last().len() {
            before.push(rows.last()[j])
        } else {
            before
        }
    }
}

/// A column continued with zeros to `size` entries.
pub open spec fn padded(column: Seq<nat>, size: nat) -> Seq<nat> {
    Seq::new(
        size,
        |i: int|
            if i < column.len() {
                column[i]
            } else {
                0
            },
    )
}

pub(crate) proof fn lemma_column_no_longer_than_rows(rows: Seq<Seq<nat>>, j: int)
    ensures
        column_values(rows, j).len() <= rows.len(),
    decreases rows.len(),
{
    if rows.len() > 0 {
        lemma_column_no_longer_than_rows(rows.drop_last(), j);
    }
}

/// Transposes row-major data into `MAX_COLUMNS` columns, because commitments are
/// made to one column polynomial at a time. A row with more entries than that
/// has no place in them.
pub fn committed_columns(rows: &[Vec<FieldElement>]) -> (columns: Vec<Vec<FieldElement>>)
    requires
        forall|i: int|
            0 <= i < rows@.len() ==> (#[trigger] rows@[i])@.len() <= encode::MAX_COLUMNS,
    ensures
        columns@.len() == encode::MAX_COLUMNS,
        forall|j: int|
            0 <= j < encode::MAX_COLUMNS ==> field::values((#[trigger] columns@[j])@)
                == column_values(field::row_values(rows@), j),
{
    let ghost all = field::row_values(rows@);
    let mut columns: Vec<Vec<FieldElement>> = Vec::with_capacity(encode::MAX_COLUMNS);
    while columns.len() < encode::MAX_COLUMNS
        invariant
            columns@.len() <= encode::MAX_COLUMNS,
            forall|j: int| 0 <= j < columns@.len() ==> (#[trigger] columns@[j])@.len() == 0,
        decreases encode::MAX_COLUMNS - columns@.len(),
    {
        columns.push(Vec::with_capacity(rows.len()));
    }
    assert forall|j: int| 0 <= j < encode::MAX_COLUMNS implies field::values(
        (#[trigger] columns@[j])@,
    ) == column_values(all.take(0), j) by {
        assert(field::values(columns@[j]@) =~= Seq::<nat>::empty());
    }
    let mut i: usize = 0;
    while i < rows.len()
        invariant
            i <= rows@.len(),
            all == field::row_values(rows@),
            columns@.len() == encode::MAX_COLUMNS,
            forall|a: int|
                0 <= a < rows@.len() ==> (#[trigger] rows@[a])@.len() <= encode::MAX_COLUMNS,
            forall|j: int|
                0 <= j < encode::MAX_COLUMNS ==> field::values((#[trigger] columns@[j])@)
                    == column_values(all.take(i as int), j),
        decreases rows@.len() - i,
    {
        let row = &rows[i];
        let ghost before = columns@;
        assert(all.take(i + 1).drop_last() == all.take(i as int));
        assert(all[i as int] == field::values(row@));
        let mut idx: usize = 0;
        while idx < row.len()
            invariant
                idx <= row@.len() <= encode::MAX_COLUMNS,
                columns@.len() == encode::MAX_COLUMNS,
                before.len() == encode::MAX_COLUMNS,
                forall|j: int|
                    0 <= j < idx ==> (#[trigger] columns@[j])@ == before[j]@.push(row@[j]),
                forall|j: int|
                    idx <= j < encode::MAX_COLUMNS ==> (#[trigger] columns@[j])@ == before[j]@,
            decreases row@.len() - idx,
        {
            columns[idx].push(row[idx]);
            idx = idx + 1;
        }
        assert forall|j: int| 0 <= j < encode::MAX_COLUMNS implies field::values(
            (#[trigger] columns@[j])@,
        ) == column_values(all.take(i + 1), j) by {
            assert(field::values(before[j]@) == column_values(all.take(i as int), j));
            if j < row@.len() {
                assert(field::values(columns@[j]@) =~= field::values(before[j]@).push(row@[j]@));
            }
        }
        i = i + 1;
    }
    assert(all.take(i as int) == all);
    columns
}

/// The number of rows of a circuit with size exponent `logrows`.
pub fn domain_size(logrows: u32) -> (size: usize)
    requires
        logrows < 32,
    ensures
        size == pow2(logrows as nat),
{
    let mut size: usize = 1;
    let mut k: u32 = 0;
    proof {
        lemma2_to64();
    }
    while k < logrows
        invariant
            k <= logrows < 32,
            size == pow2(k as nat),
        decreases logrows - k,
    {
        proof {
            lemma_pow2_unfold((k + 1) as nat);
            lemma2_to64();
            if k + 1 < 31 {
                lemma_pow2_strictly_increases((k + 1) as nat, 31);
            }
        }
        size = size * 2;
        k = k + 1;
    }
    size
}

/// The evaluation vector of one column over the domain of size `2^logrows`: the
/// column itself and then zeros. Every value in it is below the field modulus.
pub fn lagrange_evaluations(column: &[FieldElement], logrows: u32) -> (evaluations: Vec<
    FieldElement,
>)
    requires
        logrows < 32,
        column@.len() <= pow2(logrows as nat),
    ensures
        field::values(evaluations@) == padded(field::values(column@), pow2(logrows as nat)),
        forall|i: int|
            0 <= i < evaluations@.len() ==> (#[trigger] evaluations@[i])@ < field::field_modulus(),
{
    let size: usize = domain_size(logrows);
    let mut evaluations: Vec<FieldElement> = Vec::with_capacity(size);
    let mut i: usize = 0;
    while i < size
        invariant
            i <= size,
            size == pow2(logrows as nat),
            evaluations@.len() == i,
            forall|j: int|
                0 <= j < i ==> (#[trigger] evaluations@[j])@ == padded(
                    field::values(column@),
                    size as nat,
                )[j],
            forall|j: int| 0 <= j < i ==> (#[trigger] evaluations@[j])@ < field::field_modulus(),
        decreases size - i,
    {
        if i < column.len() {
            let element: FieldElement = column[i];
            proof {
                use_type_invariant(&element);
                field::lemma_canonical_below_modulus(element);
            }
            evaluations.push(element);
        } else {
            evaluations.push(FieldElement::from_u64(0));
        }
        i = i + 1;
    }
    evaluations
}

/// Where every row fills all columns, the columns are the transpose: entry `i`
/// of column `j` is entry `j` of row `i`.
pub proof fn law_columns_transpose_rows(rows: Seq<Seq<nat>>, j: int)
    requires
        forall|i: int| 0 <= i < rows.len() ==> (#[trigger] rows[i]).len() == encode::MAX_COLUMNS,
        0 <= j < encode::MAX_COLUMNS,
    ensures
        column_values(rows, j).len() == rows.len(),
        forall|i: int| 0 <= i < rows.len() ==> #[trigger] column_values(rows, j)[i] == rows[i][j],
    decreases rows.len(),
{
    if rows.len() > 0 {
        let before = rows.drop_last();
        assert forall|i: int| 0 <= i < before.len() implies (#[trigger] before[i]).len()
            == encode::MAX_COLUMNS by {
            assert(before[i] == rows[i]);
        }
        law_columns_transpose_rows(before, j);
        assert forall|i: int| 0 <= i < rows.len() implies #[trigger] column_values(rows, j)[i]
            == rows[i][j] by {
            if i < before.len() {
                assert(before[i] == rows[i]);
                assert(column_values(before, j)[i] == before[i][j]);
            }
        }
    }
}

/// The columns of two blocks of rows follow each other, and one row adds its own
/// entry where it has one.
pub proof fn law_columns_follow_the_rows(
    rows1: Seq<Seq<nat>>,
    rows2: Seq<Seq<nat>>,
    row: Seq<nat>,
    j: int,
)
    requires
        0 <= j,
    ensures
        column_values(rows1 + rows2, j) == column_values(rows1, j) + column_values(rows2, j),
        j < row.len() ==> column_values(seq![row], j) == seq![row[j]],
        j >= row.len() ==> column_values(seq![row], j).len() == 0,
    decreases rows2.len(),
{
    let none = Seq::<Seq<nat>>::empty();
    assert(seq![row].drop_last() =~= none);
    assert(column_values(none, j).len() == 0);
    if j < row.len() {
        assert(column_values(seq![row], j) =~= seq![row[j]]);
    }
    if rows2.len() == 0 {
        assert(rows1 + rows2 =~= rows1);
        assert(column_values(rows1, j) + column_values(rows2, j) =~= column_values(rows1, j));
    } else {
        let both = rows1 + rows2;
        assert(both.drop_last() =~= rows1 + rows2.drop_last());
        assert(both.last() == rows2.last());
        law_columns_follow_the_rows(rows1, rows2.drop_last(), row, j);
        assert(column_values(both, j) =~= column_values(rows1, j) + column_values(rows2, j));
    }
}

/// Padding keeps the column and adds zeros only, up to the size.
pub proof fn law_padding_keeps_the_column(column: Seq<nat>, size: nat)
    requires
        column.len() <= size,
    ensures
        padded(column, size).len() == size,
        padded(column, size).take(column.len() as int) == column,
        forall|i: int| column.len() <= i < size ==> #[trigger] padded(column, size)[i] == 0,
{
    assert(padded(column, size).take(column.len() as int) =~= column);
}

} // verus!
