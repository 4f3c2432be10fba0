//! The circuit that shows one public row to be in a committed table.
use crate::dataset::DatasetRecord;
use crate::encode;
use crate::field;
use crate::field::FieldElement;
use vstd::prelude::*;
use vstd::string::*;

verus! {

/// A column that takes part in copy constraints.
#[derive(Clone, Copy, Debug, PartialEq, Eq, Structural)]
pub enum CopyColumn {
    /// The advice column with this number.
    Advice(usize),
    /// The instance column with this number.
    Instance(usize),
}

/// One column pair of a lookup: where the selector is on, the witness cell must
/// match the table cell; where it is off, zero must.
#[derive(Clone, Copy, Debug, PartialEq, Eq, Structural)]
pub struct LookupPair {
    /// The number of the advice column.
    pub witness: usize,
    /// The number of the fixed column.
    pub table: usize,
}

/// The columns and constraints of the circuit. Columns of each kind are numbered
/// from zero in the order in which they are allocated.
#[derive(Clone, Debug)]
pub struct DatabaseCommitConfig {
    /// The number of the selector of the membership lookup.
    pub q_lookup: usize,
    /// The advice columns that carry the row being proven.
    pub witness_cols: Vec<usize>,
    /// The fixed columns that hold the committed dataset.
    pub table_cols: Vec<usize>,
    /// The fixed column that tags the rows of the committed dataset. The lookup
    /// pairs the selector with it, so that padding does not count as a row.
    pub tag_col: usize,
    /// The instance column that exposes the queried row.
    pub instance: usize,
    /// The columns with copy constraints enabled.
    pub equality: Vec<CopyColumn>,
    /// The pairs of the membership lookup.
    pub lookup: Vec<LookupPair>,
}

/// One value put into a cell of an advice or fixed column.
#[derive(Clone, Copy, Debug, PartialEq, Eq)]
pub struct CellAssignment {
    /// The number of the column.
    pub column: usize,
    /// The row in the region.
    pub row: usize,
    /// The value.
    pub value: FieldElement,
}

/// One advice cell made equal to a cell of the instance column.
#[derive(Clone, Copy, Debug, PartialEq, Eq, Structural)]
pub struct ExposedCell {
    /// The number of the advice column.
    pub column: usize,
    /// The row of the advice cell.
    pub row: usize,
    /// The row of the instance cell.
    pub instance_row: usize,
}

/// Everything that the circuit puts into its columns.
#[derive(Clone, Debug)]
pub struct Synthesis {
    /// The committed dataset.
    pub fixed: Vec<CellAssignment>,
    /// The tags of its rows.
    pub tags: Vec<CellAssignment>,
    /// The rows on which the lookup selector is on.
    pub selector_rows: Vec<usize>,
    /// The queried row.
    pub advice: Vec<CellAssignment>,
    /// The queried row as public input.
    pub exposed: Vec<ExposedCell>,
}

/// A committed table and the row whose membership is proven.
#[derive(Clone, Debug)]
pub struct DatabaseCommitCircuit {
    /// The name of the dataset, for labels and messages.
    pub dataset_name: String,
    /// The canonical table contents.
    pub committed_rows: Vec<Vec<FieldElement>>,
    /// The canonical row whose membership is proven.
    pub membership_row: Vec<FieldElement>,
}

/// The value put into a cell.
pub struct CellValue {
    pub column: int,
    pub row: int,
    pub value: nat,
}

impl View for CellAssignment {
    type V = CellValue;

    open spec fn view(&self) -> CellValue {
        CellValue { column: self.column as int, row: self.row as int, value: self.value@ }
    }
}

/// The values put into a sequence of cells.
pub open spec fn cell_values(cells: Seq<CellAssignment>) -> Seq<CellValue> {
    Seq::new(cells.len(), |i: int| cells[i]@)
}

/// What a cell holds after the assignments `cells`: the value put there last,
/// and zero where there was none.
pub open spec fn cell_content(cells: Seq<CellValue>, column: int, row: int) -> nat
    decreases cells.len(),
{
    if cells.len() == 0 {
        0
    } else if cells.last().column == column && cells.last().row == row {
        cells.last().value
    } else {
        cell_content(cells.drop_last(), column, row)
    }
}

/// The assignments of one table row.
pub open spec fn row_cells(values: Seq<nat>, table_cols: Seq<usize>, row: int) -> Seq<CellValue> {
    Seq::new(
        values.len(),
        |j: int| CellValue { column: table_cols[j] as int, row, value: values[j] },
    )
}

/// The assignments of a whole table, row by row.
pub open spec fn table_cells(rows: Seq<Seq<nat>>, table_cols: Seq<usize>) -> Seq<CellValue>
    decreases rows.len(),
{
    if rows.len() == 0 {
        Seq::empty()
    } else {
        table_cells(rows.drop_last(), table_cols) + row_cells(
            rows.last(),
            table_cols,
            rows.len() - 1,
        )
    }
}

/// The tags of a table with `n` rows: one in each of them.
pub open spec fn tag_cells(n: nat, tag_col: usize) -> Seq<CellValue> {
    Seq::new(n, |row: int| CellValue { column: tag_col as int, row, value: 1 })
}

/// The assignments of the queried row: one for each witness column, in row zero.
pub open spec fn witness_cells(row: Seq<nat>, witness_cols: Seq<usize>) -> Seq<CellValue> {
    Seq::new(
        witness_cols.len(),
        |i: int| CellValue { column: witness_cols[i] as int, row: 0, value: row[i] },
    )
}

/// Cell `i` of the queried row is public input `i`.
pub open spec fn exposed_cells(witness_cols: Seq<usize>) -> Seq<ExposedCell> {
    Seq::new(
        witness_cols.len(),
        |i: int| ExposedCell { column: witness_cols[i], row: 0, instance_row: i as usize },
    )
}

/// The numbers from zero to `n`, `n` excluded.
pub open spec fn numbered(n: nat) -> Seq<usize> {
    Seq::new(n, |i: int| i as usize)
}

impl DatabaseCommitConfig {
    /// The shape that serves every dataset: one selector, one instance column,
    /// as many advice and fixed columns as a row has slots, one more fixed column
    /// for the tags, copy constraints on the advice columns and the instance
    /// column, and a lookup that pairs each advice column with the fixed column of
    /// the same number.
    pub open spec fn is_standard(self) -> bool {
        &&& self.q_lookup == 0
        &&& self.witness_cols@ == numbered(encode::MAX_COLUMNS as nat)
        &&& self.table_cols@ == numbered(encode::MAX_COLUMNS as nat)
        &&& self.tag_col == encode::MAX_COLUMNS
        &&& self.instance == 0
        &&& self.equality@ == Seq::new(
            encode::MAX_COLUMNS as nat,
            |i: int| CopyColumn::Advice(i as usize),
        ).push(CopyColumn::Instance(0))
        &&& self.lookup@ == Seq::new(
            encode::MAX_COLUMNS as nat,
            |i: int| LookupPair { witness: i as usize, table: i as usize },
        )
    }
}

impl Synthesis {
    /// The synthesis of `circuit` in the columns of `config`.
    pub open spec fn is_of(
        self,
        circuit: DatabaseCommitCircuit,
        config: DatabaseCommitConfig,
    ) -> bool {
        &&& cell_values(self.fixed@) == table_cells(
            field::row_values(circuit.committed_rows@),
            config.table_cols@,
        )
        &&& cell_values(self.tags@) == tag_cells(circuit.committed_rows@.len(), config.tag_col)
        &&& self.selector_rows@ == seq![0usize]
        &&& cell_values(self.advice@) == witness_cells(
            field::values(circuit.membership_row@),
            config.witness_cols@,
        )
        &&& self.exposed@ == exposed_cells(config.witness_cols@)
    }
}

impl DatabaseCommitCircuit {
    /// The circuit that proves the membership row of a dataset.
    pub fn for_dataset(dataset: &DatasetRecord) -> (circuit: DatabaseCommitCircuit)
        ensures
            circuit.dataset_name@ == dataset.name@,
            field::row_values(circuit.committed_rows@) == field::row_values(dataset.rows@),
            field::values(circuit.membership_row@) == field::values(dataset.membership_row@),
    {
        DatabaseCommitCircuit {
            dataset_name: dataset.name.clone(),
            committed_rows: field::copy_rows(&dataset.rows),
            membership_row: field::copy_elements(&dataset.membership_row),
        }
    }

    /// The same circuit with the queried row blanked: the table is part of the
    /// key and stays.
    pub fn without_witnesses(&self) -> (blank: DatabaseCommitCircuit)
        ensures
            blank.dataset_name@ == self.dataset_name@,
            field::row_values(blank.committed_rows@) == field::row_values(self.committed_rows@),
            field::values(blank.membership_row@) == Seq::new(
                encode::MAX_COLUMNS as nat,
                |i: int| 0nat,
            ),
    {
        let mut zeros: Vec<FieldElement> = Vec::with_capacity(encode::MAX_COLUMNS);
        while zeros.len() < encode::MAX_COLUMNS
            invariant
                zeros@.len() <= encode::MAX_COLUMNS,
                forall|i: int| 0 <= i < zeros@.len() ==> (#[trigger] zeros@[i])@ == 0,
            decreases encode::MAX_COLUMNS - zeros@.len(),
        {
            zeros.push(FieldElement::from_u64(0));
        }
        DatabaseCommitCircuit {
            dataset_name: self.dataset_name.clone(),
            committed_rows: field::copy_rows(&self.committed_rows),
            membership_row: zeros,
        }
    }

    /// Allocates the maximum width up front, so that one circuit shape can be
    /// used for all datasets.
    pub fn configure() -> (config: DatabaseCommitConfig)
        ensures
            config.is_standard(),
            config.q_lookup == 0,
            config.instance == 0,
            config.tag_col == 16,
            config.witness_cols@.len() == 16,
            config.table_cols@.len() == 16,
            config.equality@.len() == 17,
            config.equality@[16] == CopyColumn::Instance(0),
            config.lookup@.len() == 16,
            forall|i: int| 0 <= i < 16 ==> #[trigger] config.witness_cols@[i] == i,
            forall|i: int| 0 <= i < 16 ==> #[trigger] config.table_cols@[i] == i,
            forall|i: int|
                0 <= i < 16 ==> #[trigger] config.equality@[i] == CopyColumn::Advice(i as usize),
            forall|i: int|
                0 <= i < 16 ==> (#[trigger] config.lookup@[i]).witness == i
                    && config.lookup@[i].table == i,
    {
        let mut witness_cols: Vec<usize> = Vec::with_capacity(encode::MAX_COLUMNS);
        let mut table_cols: Vec<usize> = Vec::with_capacity(encode::MAX_COLUMNS);
        let mut equality: Vec<CopyColumn> = Vec::new();
        let mut lookup: Vec<LookupPair> = Vec::with_capacity(encode::MAX_COLUMNS);
        let mut i: usize = 0;
        while i < encode::MAX_COLUMNS
            invariant
                i <= encode::MAX_COLUMNS,
                witness_cols@ == numbered(i as nat),
                table_cols@ == numbered(i as nat),
                equality@ == Seq::new(i as nat, |j: int| CopyColumn::Advice(j as usize)),
                lookup@ == Seq::new(
                    i as nat,
                    |j: int| LookupPair { witness: j as usize, table: j as usize },
                ),
            decreases encode::MAX_COLUMNS - i,
        {
            witness_cols.push(i);
            table_cols.push(i);
            equality.push(CopyColumn::Advice(i));
            lookup.push(LookupPair { witness: i, table: i });
            i = i + 1;
        }
        equality.push(CopyColumn::Instance(0));
        DatabaseCommitConfig {
            q_lookup: 0,
            witness_cols,
            table_cols,
            tag_col: encode::MAX_COLUMNS,
            instance: 0,
            equality,
            lookup,
        }
    }

    /// Loads the committed dataset into the fixed columns and tags its rows, puts
    /// the queried row into the advice columns with the lookup enabled, and exposes
    /// it as public input. A table row needs a column for each entry, and each witness column
    /// an entry of the queried row.
    pub fn synthesize(&self, config: &DatabaseCommitConfig) -> (synthesis: Synthesis)
        requires
            forall|i: int|
                0 <= i < self.committed_rows@.len() ==> (#[trigger] self.committed_rows@[i])@.len()
                    <= config.table_cols@.len(),
            config.witness_cols@.len() <= self.membership_row@.len(),
        ensures
            synthesis.is_of(*self, *config),
            synthesis.tags@.len() == self.committed_rows@.len(),
            forall|i: int|
                0 <= i < synthesis.tags@.len() ==> (#[trigger] synthesis.tags@[i]).column
                    == config.tag_col && synthesis.tags@[i].row == i && synthesis.tags@[i].value@
                    == 1,
            synthesis.selector_rows@.len() == 1,
            synthesis.selector_rows@[0] == 0,
            synthesis.advice@.len() == config.witness_cols@.len(),
            forall|i: int|
                0 <= i < synthesis.advice@.len() ==> (#[trigger] synthesis.advice@[i]).column
                    == config.witness_cols@[i] && synthesis.advice@[i].row == 0
                    && synthesis.advice@[i].value@ == self.membership_row@[i]@,
            synthesis.exposed@.len() == config.witness_cols@.len(),
            forall|i: int|
                0 <= i < synthesis.exposed@.len() ==> (#[trigger] synthesis.exposed@[i]).column
                    == config.witness_cols@[i] && synthesis.exposed@[i].row == 0
                    && synthesis.exposed@[i].instance_row == i,
    {
        let fixed = self.load_table(config);
        let tags = self.tag_rows(config);
        let mut selector_rows: Vec<usize> = Vec::new();
        selector_rows.push(0);
        let mut advice: Vec<CellAssignment> = Vec::with_capacity(config.witness_cols.len());
        let mut exposed: Vec<ExposedCell> = Vec::with_capacity(config.witness_cols.len());
        let ghost row = field::values(self.membership_row@);
        let mut i: usize = 0;
        while i < config.witness_cols.len()
            invariant
                i <= config.witness_cols@.len() <= self.membership_row@.len(),
                row == field::values(self.membership_row@),
                advice@.len() == i,
                exposed@.len() == i,
                forall|j: int|
                    0 <= j < i ==> (#[trigger] advice@[j])@ == witness_cells(
                        row,
                        config.witness_cols@,
                    )[j],
                forall|j: int|
                    0 <= j < i ==> #[trigger] exposed@[j] == exposed_cells(config.witness_cols@)[j],
            decreases config.witness_cols@.len() - i,
        {
            let column: usize = config.witness_cols[i];
            advice.push(CellAssignment { column, row: 0, value: self.membership_row[i] });
            exposed.push(ExposedCell { column, row: 0, instance_row: i });
            i = i + 1;
        }
        assert(cell_values(advice@) =~= witness_cells(row, config.witness_cols@));
        assert(exposed@ =~= exposed_cells(config.witness_cols@));
        assert(selector_rows@ =~= seq![0usize]);
        proof {
            let held = cell_values(tags@);
            assert(held.len() == tags@.len());
            assert forall|j: int| 0 <= j < tags@.len() implies (#[trigger] tags@[j]).column
                == config.tag_col && tags@[j].row == j && tags@[j].value@ == 1 by {
                assert(held[j] == tags@[j]@);
            }
            assert forall|j: int| 0 <= j < advice@.len() implies (#[trigger] advice@[j]).column
                == config.witness_cols@[j] && advice@[j].row == 0 && advice@[j].value@
                == self.membership_row@[j]@ by {
                assert(advice@[j]@ == witness_cells(row, config.witness_cols@)[j]);
            }
        }
        Synthesis { fixed, tags, selector_rows, advice, exposed }
    }

    fn tag_rows(&self, config: &DatabaseCommitConfig) -> (tags: Vec<CellAssignment>)
        ensures
            cell_values(tags@) == tag_cells(self.committed_rows@.len(), config.tag_col),
    {
        let mut tags: Vec<CellAssignment> = Vec::with_capacity(self.committed_rows.len());
        let mut row: usize = 0;
        while row < self.committed_rows.len()
            invariant
                row <= self.committed_rows@.len(),
                tags@.len() == row,
                forall|i: int|
                    0 <= i < row ==> (#[trigger] tags@[i])@ == tag_cells(
                        self.committed_rows@.len(),
                        config.tag_col,
                    )[i],
            decreases self.committed_rows@.len() - row,
        {
            tags.push(
                CellAssignment { column: config.tag_col, row, value: FieldElement::from_u64(1) },
            );
            row = row + 1;
        }
        assert(cell_values(tags@) =~= tag_cells(self.committed_rows@.len(), config.tag_col));
        tags
    }

    fn load_table(&self, config: &DatabaseCommitConfig) -> (fixed: Vec<CellAssignment>)
        requires
            forall|i: int|
                0 <= i < self.committed_rows@.len() ==> (#[trigger] self.committed_rows@[i])@.len()
                    <= config.table_cols@.len(),
        ensures
            cell_values(fixed@) == table_cells(
                field::row_values(self.committed_rows@),
                config.table_cols@,
            ),
    {
        let ghost rows = field::row_values(self.committed_rows@);
        let ghost cols = config.table_cols@;
        let mut fixed: Vec<CellAssignment> = Vec::new();
        let mut row: usize = 0;
        assert(cell_values(fixed@) =~= table_cells(rows.take(0), cols));
        while row < self.committed_rows.len()
            invariant
                row <= self.committed_rows@.len(),
                rows == field::row_values(self.committed_rows@),
                cols == config.table_cols@,
                forall|i: int|
                    0 <= i < self.committed_rows@.len() ==> (
                    #[trigger] self.committed_rows@[i])@.len() <= config.table_cols@.len(),
                cell_values(fixed@) == table_cells(rows.take(row as int), cols),
            decreases self.committed_rows@.len() - row,
        {
            let dataset_row = &self.committed_rows[row];
            let ghost before = cell_values(fixed@);
            let ghost cells = row_cells(rows[row as int], cols, row as int);
            assert(rows[row as int] == field::values(dataset_row@));
            assert(rows.take(row + 1).drop_last() == rows.take(row as int));
            let mut idx: usize = 0;
            assert(before + cells.take(0) =~= cell_values(fixed@));
            while idx < dataset_row.len()
                invariant
                    idx <= dataset_row@.len() <= cols.len(),
                    cols == config.table_cols@,
                    rows[row as int] == field::values(dataset_row@),
                    cells == row_cells(rows[row as int], cols, row as int),
                    cell_values(fixed@) == before + cells.take(idx as int),
                decreases dataset_row@.len() - idx,
            {
                let ghost held = cell_values(fixed@);
                let cell = CellAssignment {
                    column: config.table_cols[idx],
                    row,
                    value: dataset_row[idx],
                };
                fixed.push(cell);
                assert(cell_values(fixed@) =~= held.push(cell@));
                assert(cell@ == cells[idx as int]);
                assert(held.push(cell@) =~= before + cells.take(idx + 1));
                idx = idx + 1;
            }
            assert(cells.take(idx as int) =~= cells);
            row = row + 1;
        }
        assert(rows.take(row as int) =~= rows);
        fixed
    }
}

/// The cell values stand for the assignments one for one.
pub proof fn law_cell_values_stand_for_assignments(cells: Seq<CellAssignment>, i: int)
    requires
        0 <= i < cells.len(),
    ensures
        cell_values(cells).len() == cells.len(),
        cell_values(cells)[i].column == cells[i].column,
        cell_values(cells)[i].row == cells[i].row,
        cell_values(cells)[i].value == cells[i].value@,
{
}

/// One more table row adds one cell for each of its entries, in the next row and
/// in the column of the entry, and changes nothing before them; an empty table
/// has no cells.
pub proof fn law_table_row_adds_its_cells(
    rows: Seq<Seq<nat>>,
    row: Seq<nat>,
    table_cols: Seq<usize>,
    j: int,
)
    requires
        0 <= j < row.len(),
    ensures
        table_cells(Seq::empty(), table_cols).len() == 0,
        ({
            let before = table_cells(rows, table_cols);
            let after = table_cells(rows.push(row), table_cols);
            &&& after.len() == before.len() + row.len()
            &&& after.take(before.len() as int) == before
            &&& after[before.len() + j] == (CellValue {
                column: table_cols[j] as int,
                row: rows.len() as int,
                value: row[j],
            })
        }),
{
    let before = table_cells(rows, table_cols);
    let after = table_cells(rows.push(row), table_cols);
    assert(rows.push(row).drop_last() =~= rows);
    assert(after.take(before.len() as int) =~= before);
}

/// What a cell holds is the value put there last, and zero before any is put.
pub proof fn law_last_assignment_stays(
    cells: Seq<CellValue>,
    cell: CellValue,
    column: int,
    row: int,
)
    ensures
        cell_content(Seq::empty(), column, row) == 0,
        cell_content(cells.push(cell), cell.column, cell.row) == cell.value,
        cell.column != column || cell.row != row ==> cell_content(cells.push(cell), column, row)
            == cell_content(cells, column, row),
{
    assert(cells.push(cell).drop_last() =~= cells);
}

} // verus!
