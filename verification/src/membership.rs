//! What the membership circuit proves.
use crate::capacity;
use crate::circuit;
use crate::circuit::{
    CellValue, CopyColumn, DatabaseCommitCircuit, DatabaseCommitConfig, LookupPair, Synthesis,
};
use crate::columns;
use crate::commit;
use crate::dataset::DatasetRecord;
use crate::encode;
use crate::field;
use vstd::arithmetic::power2::*;
use vstd::prelude::*;

verus! {

/// The selector is on in this row.
pub open spec fn selected(selector_rows: Seq<usize>, row: int) -> bool {
    exists|i: int| 0 <= i < selector_rows.len() && #[trigger] selector_rows[i] == row
}

/// What the lookup looks up in `row` for an advice column: the cell where the
/// selector is on, and zero where it is off.
pub open spec fn lookup_input(
    selector_rows: Seq<usize>,
    advice: spec_fn(int, int) -> nat,
    column: int,
    row: int,
) -> nat {
    if selected(selector_rows, row) {
        advice(column, row)
    } else {
        0
    }
}

/// The lookup input in `row` is the table row `table_row`: over all pairs, and
/// the selector is the tag.
pub open spec fn lookup_matches(
    pairs: Seq<LookupPair>,
    tag_col: usize,
    synthesis: Synthesis,
    advice: spec_fn(int, int) -> nat,
    row: int,
    table_row: int,
) -> bool {
    &&& (if selected(synthesis.selector_rows@, row) {
        1nat
    } else {
        0nat
    }) == circuit::cell_content(
        circuit::cell_values(synthesis.tags@),
        tag_col as int,
        table_row,
    )
    &&& forall|p: int|
        0 <= p < pairs.len() ==> lookup_input(
            synthesis.selector_rows@,
            advice,
            (#[trigger] pairs[p]).witness as int,
            row,
        ) == circuit::cell_content(
            circuit::cell_values(synthesis.fixed@),
            pairs[p].table as int,
            table_row,
        )
}

/// The lookup finds its input in `row` in one of the first `usable_rows` rows.
pub open spec fn lookup_finds(
    pairs: Seq<LookupPair>,
    tag_col: usize,
    synthesis: Synthesis,
    advice: spec_fn(int, int) -> nat,
    row: int,
    usable_rows: int,
) -> bool {
    exists|table_row: int|
        0 <= table_row < usable_rows && #[trigger] lookup_matches(
            pairs,
            tag_col,
            synthesis,
            advice,
            row,
            table_row,
        )
}

/// Row `row` of the public input; rows that are not given hold zero.
pub open spec fn instance_content(instance: Seq<nat>, row: int) -> nat {
    if 0 <= row < instance.len() {
        instance[row]
    } else {
        0
    }
}

/// The constraints of the circuit hold for the advice values `advice` and the
/// public input `instance`, over the first `usable_rows` rows: in each of them
/// the lookup finds its input in some of them, and the exposed cells equal the
/// public input.
pub open spec fn constraints_hold(
    config: DatabaseCommitConfig,
    synthesis: Synthesis,
    advice: spec_fn(int, int) -> nat,
    instance: Seq<nat>,
    usable_rows: int,
) -> bool {
    &&& forall|row: int|
        0 <= row < usable_rows ==> #[trigger] lookup_finds(
            config.lookup@,
            config.tag_col,
            synthesis,
            advice,
            row,
            usable_rows,
        )
    &&& forall|e: int|
        0 <= e < synthesis.exposed@.len() ==> advice(
            (#[trigger] synthesis.exposed@[e]).column as int,
            synthesis.exposed@[e].row as int,
        ) == instance_content(instance, synthesis.exposed@[e].instance_row as int)
}

/// The advice values that a synthesis puts into the circuit.
pub open spec fn assigned_advice(synthesis: Synthesis) -> spec_fn(int, int) -> nat {
    |column: int, row: int|
        circuit::cell_content(circuit::cell_values(synthesis.advice@), column, row)
}

/// What a cell of the fixed columns holds: the dataset, the tags, and zero.
pub open spec fn fixed_content(synthesis: Synthesis, column: int, row: int) -> nat {
    circuit::cell_content(
        circuit::cell_values(synthesis.fixed@) + circuit::cell_values(synthesis.tags@),
        column,
        row,
    )
}

/// Every row fills all slots.
pub open spec fn full_rows(rows: Seq<Seq<nat>>) -> bool {
    forall|i: int| 0 <= i < rows.len() ==> (#[trigger] rows[i]).len() == encode::MAX_COLUMNS
}

proof fn lemma_content_of_untouched_cell(
    a: Seq<CellValue>,
    b: Seq<CellValue>,
    column: int,
    row: int,
)
    requires
        forall|i: int|
            0 <= i < b.len() ==> (#[trigger] b[i]).column != column || b[i].row != row,
    ensures
        circuit::cell_content(a + b, column, row) == circuit::cell_content(a, column, row),
    decreases b.len(),
{
    if b.len() == 0 {
        assert(a + b =~= a);
    } else {
        assert((a + b).drop_last() =~= a + b.drop_last());
        assert((a + b).last() == b.last());
        assert(b.last() == b[b.len() - 1]);
        assert forall|i: int| 0 <= i < b.drop_last().len() implies (
        #[trigger] b.drop_last()[i]).column != column || b.drop_last()[i].row != row by {
            assert(b.drop_last()[i] == b[i]);
        }
        lemma_content_of_untouched_cell(a, b.drop_last(), column, row);
    }
}

/// Where no later assignment goes to the same cell, the value put there stays.
proof fn lemma_content_of_cell_at(cells: Seq<CellValue>, at: int, column: int, row: int)
    requires
        0 <= at < cells.len(),
        cells[at].column == column,
        cells[at].row == row,
        forall|i: int|
            at < i < cells.len() ==> (#[trigger] cells[i]).column != column || cells[i].row != row,
    ensures
        circuit::cell_content(cells, column, row) == cells[at].value,
{
    let a = cells.take(at + 1);
    let b = cells.skip(at + 1);
    assert(a + b =~= cells);
    assert forall|i: int| 0 <= i < b.len() implies (#[trigger] b[i]).column != column || b[i].row
        != row by {
        assert(b[i] == cells[at + 1 + i]);
    }
    lemma_content_of_untouched_cell(a, b, column, row);
    assert(a.last() == cells[at]);
}

/// What the fixed columns hold: the table, and zeros below it.
proof fn lemma_table_content(rows: Seq<Seq<nat>>, column: int, row: int)
    requires
        full_rows(rows),
        0 <= column < encode::MAX_COLUMNS,
        0 <= row,
    ensures
        circuit::cell_content(
            circuit::table_cells(rows, circuit::numbered(encode::MAX_COLUMNS as nat)),
            column,
            row,
        ) == if row < rows.len() {
            rows[row][column]
        } else {
            0
        },
    decreases rows.len(),
{
    let cols = circuit::numbered(encode::MAX_COLUMNS as nat);
    if rows.len() > 0 {
        let before = rows.drop_last();
        let n = rows.len() - 1;
        let a = circuit::table_cells(before, cols);
        let b = circuit::row_cells(rows.last(), cols, n);
        assert(rows[n] == rows.last());
        if row == n {
            let at = a.len() + column;
            let cells = a + b;
            assert(cells[at] == b[column]);
            assert forall|i: int| at < i < cells.len() implies (#[trigger] cells[i]).column
                != column || cells[i].row != row by {
                assert(cells[i] == b[i - a.len()]);
            }
            lemma_content_of_cell_at(cells, at, column, row);
        } else {
            assert(full_rows(before)) by {
                assert forall|i: int| 0 <= i < before.len() implies (#[trigger] before[i]).len()
                    == encode::MAX_COLUMNS by {
                    assert(before[i] == rows[i]);
                }
            }
            lemma_content_of_untouched_cell(a, b, column, row);
            lemma_table_content(before, column, row);
            if row < n {
                assert(before[row] == rows[row]);
            }
        }
    }
}

proof fn lemma_witness_content(values: Seq<nat>, column: int)
    requires
        values.len() >= encode::MAX_COLUMNS,
        0 <= column < encode::MAX_COLUMNS,
    ensures
        circuit::cell_content(
            circuit::witness_cells(values, circuit::numbered(encode::MAX_COLUMNS as nat)),
            column,
            0,
        ) == values[column],
{
    let cells = circuit::witness_cells(values, circuit::numbered(encode::MAX_COLUMNS as nat));
    assert forall|i: int| column < i < cells.len() implies (#[trigger] cells[i]).column != column
        || cells[i].row != 0 by {}
    lemma_content_of_cell_at(cells, column, column, 0);
}

/// What the tag column holds: one in the rows of the table, and zero below them.
proof fn lemma_tag_content(n: nat, tag_col: usize, row: int)
    requires
        0 <= row,
    ensures
        circuit::cell_content(circuit::tag_cells(n, tag_col), tag_col as int, row) == if row < n {
            1nat
        } else {
            0
        },
{
    let cells = circuit::tag_cells(n, tag_col);
    if row < n {
        lemma_content_of_cell_at(cells, row, tag_col as int, row);
    } else {
        let none = Seq::<CellValue>::empty();
        assert(none + cells =~= cells);
        lemma_content_of_untouched_cell(none, cells, tag_col as int, row);
    }
}

/// Completeness: where the queried row is in the table and the circuit has at
/// least one usable row below the table, the circuit's own assignment meets all
/// constraints with the queried row as public input.
pub proof fn law_member_row_is_accepted(
    circuit: DatabaseCommitCircuit,
    config: DatabaseCommitConfig,
    synthesis: Synthesis,
    usable_rows: int,
)
    requires
        config.is_standard(),
        synthesis.is_of(circuit, config),
        full_rows(field::row_values(circuit.committed_rows@)),
        field::row_values(circuit.committed_rows@).contains(
            field::values(circuit.membership_row@),
        ),
        circuit.committed_rows@.len() < usable_rows,
    ensures
        constraints_hold(
            config,
            synthesis,
            assigned_advice(synthesis),
            field::values(circuit.membership_row@),
            usable_rows,
        ),
{
    let rows = field::row_values(circuit.committed_rows@);
    let member = field::values(circuit.membership_row@);
    let advice = assigned_advice(synthesis);
    let at = choose|i: int| 0 <= i < rows.len() && rows[i] == member;
    assert(rows[at] == member);
    assert forall|row: int| 0 <= row < usable_rows implies #[trigger] lookup_finds(
        config.lookup@,
        config.tag_col,
        synthesis,
        advice,
        row,
        usable_rows,
    ) by {
        let table_row = if row == 0 {
            at
        } else {
            rows.len() as int
        };
        if row == 0 {
            assert(synthesis.selector_rows@[0] == row);
        }
        lemma_tag_content(rows.len(), config.tag_col, table_row);
        assert forall|p: int| 0 <= p < config.lookup@.len() implies lookup_input(
            synthesis.selector_rows@,
            advice,
            (#[trigger] config.lookup@[p]).witness as int,
            row,
        ) == circuit::cell_content(
            circuit::cell_values(synthesis.fixed@),
            config.lookup@[p].table as int,
            table_row,
        ) by {
            lemma_table_content(rows, p, table_row);
            lemma_witness_content(member, p);
        }
        assert(lookup_matches(config.lookup@, config.tag_col, synthesis, advice, row, table_row));
    }
    assert forall|e: int| 0 <= e < synthesis.exposed@.len() implies advice(
        (#[trigger] synthesis.exposed@[e]).column as int,
        synthesis.exposed@[e].row as int,
    ) == instance_content(member, synthesis.exposed@[e].instance_row as int) by {
        lemma_witness_content(member, e);
    }
}

/// Soundness: whatever advice values a prover chooses, public input that meets
/// the constraints is a row of the table.
pub proof fn law_accepted_row_is_member(
    circuit: DatabaseCommitCircuit,
    config: DatabaseCommitConfig,
    synthesis: Synthesis,
    advice: spec_fn(int, int) -> nat,
    instance: Seq<nat>,
    usable_rows: int,
)
    requires
        config.is_standard(),
        synthesis.is_of(circuit, config),
        full_rows(field::row_values(circuit.committed_rows@)),
        instance.len() == encode::MAX_COLUMNS,
        usable_rows > 0,
        constraints_hold(config, synthesis, advice, instance, usable_rows),
    ensures
        field::row_values(circuit.committed_rows@).contains(instance),
{
    let rows = field::row_values(circuit.committed_rows@);
    assert(lookup_finds(config.lookup@, config.tag_col, synthesis, advice, 0, usable_rows));
    let table_row = choose|table_row: int|
        0 <= table_row < usable_rows && #[trigger] lookup_matches(
            config.lookup@,
            config.tag_col,
            synthesis,
            advice,
            0,
            table_row,
        );
    assert(lookup_matches(config.lookup@, config.tag_col, synthesis, advice, 0, table_row));
    assert(synthesis.selector_rows@[0] == 0);
    lemma_tag_content(rows.len(), config.tag_col, table_row);
    assert(table_row < rows.len());
    assert forall|i: int| 0 <= i < encode::MAX_COLUMNS implies #[trigger] instance[i]
        == rows[table_row][i] by {
        assert(config.lookup@[i].witness == i);
        assert(synthesis.exposed@[i].column == i);
        assert(synthesis.exposed@[i].instance_row == i);
        lemma_table_content(rows, i, table_row);
    }
    assert(rows[table_row] =~= instance);
}

/// The membership row of a loaded dataset is accepted by the circuit of its
/// size, whatever number of rows below the headroom the proving system keeps for
/// itself.
pub proof fn law_loaded_dataset_is_accepted(
    dataset: DatasetRecord,
    circuit: DatabaseCommitCircuit,
    config: DatabaseCommitConfig,
    synthesis: Synthesis,
    unusable_rows: nat,
)
    requires
        dataset.well_formed(),
        field::row_values(circuit.committed_rows@) == field::row_values(dataset.rows@),
        field::values(circuit.membership_row@) == field::values(dataset.membership_row@),
        config.is_standard(),
        synthesis.is_of(circuit, config),
        unusable_rows < capacity::LOGROWS_HEADROOM,
    ensures
        constraints_hold(
            config,
            synthesis,
            assigned_advice(synthesis),
            field::values(dataset.membership_row@),
            pow2(dataset.logrows as nat) - unusable_rows,
        ),
{
    let rows = field::row_values(dataset.rows@);
    capacity::law_headroom_leaves_padding(rows.len(), dataset.logrows as nat, unusable_rows);
    assert(rows[0] == field::values(dataset.membership_row@));
    assert(circuit.committed_rows@.len() == field::row_values(circuit.committed_rows@).len());
    law_member_row_is_accepted(
        circuit,
        config,
        synthesis,
        pow2(dataset.logrows as nat) - unusable_rows,
    );
}

/// The fixed columns of a circuit with `size` rows hold exactly the evaluations
/// that the standalone commitments are made to: column `j` is column `j` of the
/// dataset, continued with zeros.
pub proof fn law_fixed_columns_are_committed_columns(
    circuit: DatabaseCommitCircuit,
    config: DatabaseCommitConfig,
    synthesis: Synthesis,
    j: int,
    size: nat,
)
    requires
        config.is_standard(),
        synthesis.is_of(circuit, config),
        full_rows(field::row_values(circuit.committed_rows@)),
        0 <= j < encode::MAX_COLUMNS,
    ensures
        Seq::new(
            size,
            |row: int|
                fixed_content(synthesis, config.table_cols@[j] as int, row),
        ) == columns::padded(
            columns::column_values(field::row_values(circuit.committed_rows@), j),
            size,
        ),
{
    let rows = field::row_values(circuit.committed_rows@);
    let held = Seq::new(
        size,
        |row: int|
            fixed_content(synthesis, config.table_cols@[j] as int, row),
    );
    columns::law_columns_transpose_rows(rows, j);
    assert forall|row: int| 0 <= row < size implies #[trigger] held[row] == columns::padded(
        columns::column_values(rows, j),
        size,
    )[row] by {
        lemma_table_content(rows, j, row);
        lemma_content_of_untouched_cell(
            circuit::cell_values(synthesis.fixed@),
            circuit::cell_values(synthesis.tags@),
            j,
            row,
        );
    }
    assert(held =~= columns::padded(columns::column_values(rows, j), size));
}

/// The key depends on the table alone: two circuits over the same table, such as
/// a circuit and the same circuit without its witness, agree on everything but
/// their advice.
pub proof fn law_key_ignores_witness(
    a: DatabaseCommitCircuit,
    b: DatabaseCommitCircuit,
    config: DatabaseCommitConfig,
    of_a: Synthesis,
    of_b: Synthesis,
)
    requires
        field::row_values(a.committed_rows@) == field::row_values(b.committed_rows@),
        of_a.is_of(a, config),
        of_b.is_of(b, config),
    ensures
        circuit::cell_values(of_a.fixed@) == circuit::cell_values(of_b.fixed@),
        circuit::cell_values(of_a.tags@) == circuit::cell_values(of_b.tags@),
        of_a.selector_rows@ == of_b.selector_rows@,
        of_a.exposed@ == of_b.exposed@,
{
    assert(a.committed_rows@.len() == field::row_values(a.committed_rows@).len());
    assert(b.committed_rows@.len() == field::row_values(b.committed_rows@).len());
}

/// A key whose fixed commitments are made to the fixed columns of the circuit
/// has the standalone commitments of the dataset first.
pub proof fn law_key_has_the_standalone_commitments(
    circuit: DatabaseCommitCircuit,
    config: DatabaseCommitConfig,
    synthesis: Synthesis,
    logrows: u32,
    fixed: Seq<Seq<u8>>,
    standalone: Seq<Seq<u8>>,
)
    requires
        config.is_standard(),
        synthesis.is_of(circuit, config),
        full_rows(field::row_values(circuit.committed_rows@)),
        fixed.len() >= encode::MAX_COLUMNS,
        standalone.len() == encode::MAX_COLUMNS,
        forall|j: int|
            0 <= j < encode::MAX_COLUMNS ==> #[trigger] fixed[j] == commit::lagrange_commitment(
                commit::ipa_params_encoding(logrows),
                Seq::new(
                    pow2(logrows as nat),
                    |row: int|
                        fixed_content(synthesis, config.table_cols@[j] as int, row),
                ),
            ),
        forall|j: int|
            0 <= j < encode::MAX_COLUMNS ==> #[trigger] standalone[j]
                == commit::lagrange_commitment(
                commit::ipa_params_encoding(logrows),
                columns::padded(
                    columns::column_values(field::row_values(circuit.committed_rows@), j),
                    pow2(logrows as nat),
                ),
            ),
    ensures
        fixed.take(encode::MAX_COLUMNS as int) == standalone,
{
    assert forall|j: int| 0 <= j < encode::MAX_COLUMNS implies #[trigger] fixed[j]
        == standalone[j] by {
        law_fixed_columns_are_committed_columns(
            circuit,
            config,
            synthesis,
            j,
            pow2(logrows as nat),
        );
    }
    assert(fixed.take(encode::MAX_COLUMNS as int) =~= standalone);
}

/// Every table value is found where it was put, and zero elsewhere, in any
/// columns that differ from each other and whatever the widths of the rows.
pub proof fn law_table_is_found_where_it_was_put(
    rows: Seq<Seq<nat>>,
    table_cols: Seq<usize>,
    j: int,
    row: int,
)
    requires
        forall|i: int| 0 <= i < rows.len() ==> (#[trigger] rows[i]).len() <= table_cols.len(),
        forall|a: int, b: int|
            0 <= a < b < table_cols.len() ==> #[trigger] table_cols[a] != #[trigger] table_cols[b],
        0 <= j < table_cols.len(),
        0 <= row,
    ensures
        circuit::cell_content(
            circuit::table_cells(rows, table_cols),
            table_cols[j] as int,
            row,
        ) == if row < rows.len() && j < rows[row].len() {
            rows[row][j]
        } else {
            0
        },
    decreases rows.len(),
{
    if rows.len() > 0 {
        let before = rows.drop_last();
        let n = rows.len() - 1;
        let column = table_cols[j] as int;
        let a = circuit::table_cells(before, table_cols);
        let b = circuit::row_cells(rows.last(), table_cols, n);
        assert(rows[n] == rows.last());
        assert forall|i: int| 0 <= i < before.len() implies (#[trigger] before[i]).len()
            <= table_cols.len() by {
            assert(before[i] == rows[i]);
        }
        law_table_is_found_where_it_was_put(before, table_cols, j, row);
        if row == n && j < rows.last().len() {
            let at = a.len() + j;
            let cells = a + b;
            assert(cells[at] == b[j]);
            assert forall|i: int| at < i < cells.len() implies (#[trigger] cells[i]).column
                != column || cells[i].row != row by {
                assert(cells[i] == b[i - a.len()]);
                assert(table_cols[j] != table_cols[i - a.len()]);
            }
            lemma_content_of_cell_at(cells, at, column, row);
        } else {
            assert forall|i: int| 0 <= i < b.len() implies (#[trigger] b[i]).column != column
                || b[i].row != row by {
                if row == n {
                    assert(table_cols[i] != table_cols[j]);
                }
            }
            lemma_content_of_untouched_cell(a, b, column, row);
            if row < n {
                assert(before[row] == rows[row]);
            }
        }
    }
}

/// Every value of the queried row is found in the first row of its witness
/// column, and zero in the rows below, in any columns that differ from each
/// other; and its cell is the public input of the same number.
pub proof fn law_witness_is_found_where_it_was_put(
    values: Seq<nat>,
    witness_cols: Seq<usize>,
    i: int,
    row: int,
)
    requires
        witness_cols.len() <= values.len(),
        forall|a: int, b: int|
            0 <= a < b < witness_cols.len() ==> #[trigger] witness_cols[a]
                != #[trigger] witness_cols[b],
        0 <= i < witness_cols.len() <= usize::MAX,
        0 < row,
    ensures
        circuit::cell_content(
            circuit::witness_cells(values, witness_cols),
            witness_cols[i] as int,
            0,
        ) == values[i],
        circuit::cell_content(
            circuit::witness_cells(values, witness_cols),
            witness_cols[i] as int,
            row,
        ) == 0,
        circuit::exposed_cells(witness_cols).len() == witness_cols.len(),
        circuit::exposed_cells(witness_cols)[i].column == witness_cols[i],
        circuit::exposed_cells(witness_cols)[i].row == 0,
        circuit::exposed_cells(witness_cols)[i].instance_row == i,
{
    let cells = circuit::witness_cells(values, witness_cols);
    let column = witness_cols[i] as int;
    assert forall|k: int| i < k < cells.len() implies (#[trigger] cells[k]).column != column
        || cells[k].row != 0 by {
        assert(witness_cols[i] != witness_cols[k]);
    }
    lemma_content_of_cell_at(cells, i, column, 0);
    let none = Seq::<CellValue>::empty();
    assert(none + cells =~= cells);
    lemma_content_of_untouched_cell(none, cells, column, row);
}

/// The tags are found on the rows of the table and nowhere else.
pub proof fn law_tags_mark_the_table(n: nat, tag_col: usize, row: int)
    requires
        0 <= row,
    ensures
        circuit::cell_content(circuit::tag_cells(n, tag_col), tag_col as int, row) == if row < n {
            1nat
        } else {
            0
        },
{
    lemma_tag_content(n, tag_col, row);
}

/// Every cell that is exposed, and the column that it is exposed in, can be tied
/// by a copy constraint; the lookup covers every slot of a row once; and no two
/// columns of a kind coincide.
pub proof fn law_standard_columns_suffice(
    circuit: DatabaseCommitCircuit,
    config: DatabaseCommitConfig,
    synthesis: Synthesis,
    i: int,
)
    requires
        config.is_standard(),
        synthesis.is_of(circuit, config),
        0 <= i < encode::MAX_COLUMNS,
    ensures
        synthesis.exposed@.len() == encode::MAX_COLUMNS,
        synthesis.exposed@[i].instance_row == i,
        config.equality@.contains(CopyColumn::Advice(synthesis.exposed@[i].column)),
        config.equality@.contains(CopyColumn::Instance(config.instance)),
        config.lookup@.len() == encode::MAX_COLUMNS,
        config.lookup@[i].witness == config.witness_cols@[i],
        config.lookup@[i].table == config.table_cols@[i],
        forall|k: int|
            0 <= k < encode::MAX_COLUMNS && k != i ==> #[trigger] config.table_cols@[k]
                != config.table_cols@[i] && config.witness_cols@[k] != config.witness_cols@[i],
        config.tag_col != config.table_cols@[i],
{
    assert(config.equality@[i] == CopyColumn::Advice(synthesis.exposed@[i].column));
    assert(config.equality@[encode::MAX_COLUMNS as int] == CopyColumn::Instance(config.instance));
}

} // verus!
