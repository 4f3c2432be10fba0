//! A dataset read from its lines.
use crate::capacity;
use crate::encode;
use crate::field;
use crate::field::FieldElement;
use crate::files;
use crate::text;
use vstd::arithmetic::power2::*;
use vstd::prelude::*;
use vstd::string::*;

verus! {

/// A dataset in canonical form.
#[derive(Clone, Debug)]
pub struct DatasetRecord {
    /// The file name of the dataset.
    pub name: String,
    /// The source file, for diagnostics.
    pub path: String,
    /// The width of the widest row before padding.
    pub width: usize,
    /// The size exponent of the circuit that holds the dataset.
    pub logrows: u32,
    /// The canonical rows.
    pub rows: Vec<Vec<FieldElement>>,
    /// A row of the dataset that serves as membership witness.
    pub membership_row: Vec<FieldElement>,
}

/// The fields of every line that is not blank.
pub open spec fn table_fields(lines: Seq<Seq<char>>) -> Seq<Seq<Seq<char>>>
    decreases lines.len(),
{
    if lines.len() == 0 {
        Seq::empty()
    } else {
        let before = table_fields(lines.drop_last());
        if text::trimmed(lines.last()).len() == 0 {
            before
        } else {
            before.push(text::normalized_fields(lines.last()))
        }
    }
}

/// The largest number of fields in a row.
pub open spec fn widest(table: Seq<Seq<Seq<char>>>) -> nat
    decreases table.len(),
{
    if table.len() == 0 {
        0
    } else {
        let before = widest(table.drop_last());
        if table.last().len() > before {
            table.last().len()
        } else {
            before
        }
    }
}

/// The encoded rows of a table with the scaled readings of its cells.
pub open spec fn encoded_rows(
    table: Seq<Seq<Seq<char>>>,
    scaled: Seq<Vec<Option<i128>>>,
) -> Seq<Seq<nat>> {
    Seq::new(table.len(), |i: int| encode::encoded_row(table[i], scaled[i]@))
}

/// The characters of every field of every row.
pub open spec fn table_views(table: Seq<Vec<&str>>) -> Seq<Seq<Seq<char>>> {
    Seq::new(table.len(), |i: int| text::field_views(table[i]@))
}

/// One scaled reading, or its absence, for each cell of the table.
pub open spec fn readings_fit(
    table: Seq<Seq<Seq<char>>>,
    scaled: Seq<Vec<Option<i128>>>,
) -> bool {
    &&& scaled.len() == table.len()
    &&& forall|i: int| 0 <= i < table.len() ==> (#[trigger] scaled[i])@.len() == table[i].len()
}

/// A table that can be loaded: it has a row, no row is too wide, and its circuit
/// has a size.
pub open spec fn loadable(table: Seq<Seq<Seq<char>>>) -> bool {
    &&& table.len() > 0
    &&& table.len() + capacity::LOGROWS_HEADROOM <= usize::MAX / 2 + 1
    &&& forall|i: int| 0 <= i < table.len() ==> (#[trigger] table[i]).len() <= encode::MAX_COLUMNS
}

impl DatasetRecord {
    /// What holds of every loaded dataset: there is a row, every row fills all
    /// slots, the slots beyond the width hold zero, the circuit size is the
    /// least one that fits, and the membership row is the first row.
    pub open spec fn well_formed(self) -> bool {
        let rows = field::row_values(self.rows@);
        &&& rows.len() > 0
        &&& self.width <= encode::MAX_COLUMNS
        &&& capacity::is_minimum_logrows(rows.len(), self.logrows as nat)
        &&& forall|i: int| 0 <= i < rows.len() ==> (#[trigger] rows[i]).len() == encode::MAX_COLUMNS
        &&& forall|i: int, j: int|
            0 <= i < rows.len() && self.width <= j < encode::MAX_COLUMNS
                ==> #[trigger] rows[i][j] == 0
        &&& field::values(self.membership_row@) == rows[0]
    }
}

proof fn lemma_widest_bounds(table: Seq<Seq<Seq<char>>>)
    ensures
        forall|i: int| 0 <= i < table.len() ==> (#[trigger] table[i]).len() <= widest(table),
    decreases table.len(),
{
    if table.len() > 0 {
        lemma_widest_bounds(table.drop_last());
        assert forall|i: int| 0 <= i < table.len() implies (#[trigger] table[i]).len() <= widest(
            table,
        ) by {
            if i < table.len() - 1 {
                assert(table.drop_last()[i] == table[i]);
            }
        }
    }
}

/// The fields of every line that is not blank.
pub fn dataset_fields<'a>(lines: &'a [String]) -> (table: Vec<Vec<&'a str>>)
    ensures
        table_views(table@) == table_fields(text::string_views(lines@)),
{
    let ghost all = text::string_views(lines@);
    let mut table: Vec<Vec<&'a str>> = Vec::new();
    let mut i: usize = 0;
    assert(table_views(table@) =~= table_fields(all.take(0)));
    while i < lines.len()
        invariant
            i <= lines@.len(),
            all == text::string_views(lines@),
            table_views(table@) == table_fields(all.take(i as int)),
        decreases lines@.len() - i,
    {
        assert(all.take(i + 1).drop_last() == all.take(i as int));
        let line: &'a str = lines[i].as_str();
        if !text::is_blank(line) {
            let ghost before = table@;
            table.push(text::normalize_fields(line));
            assert(table_views(table@) =~= table_views(before).push(
                text::field_views(table@.last()@),
            ));
        }
        i = i + 1;
    }
    assert(all.take(i as int) == all);
    table
}

/// Canonicalizes every row of the dataset in the file `name` of the directory
/// `dir` and records its first row as a concrete membership witness. `lines` are
/// the lines of the file, and `scaled` holds the scaled readings of the cells of
/// `dataset_fields(lines)`.
pub fn load_dataset(
    dir: &str,
    name: &str,
    lines: &[String],
    scaled: &[Vec<Option<i128>>],
) -> (record: DatasetRecord)
    requires
        loadable(table_fields(text::string_views(lines@))),
        readings_fit(table_fields(text::string_views(lines@)), scaled@),
    ensures
        record.name@ == name@,
        record.path@ == files::joined(dir@, name@),
        record.width == widest(table_fields(text::string_views(lines@))),
        field::row_values(record.rows@) == encoded_rows(
            table_fields(text::string_views(lines@)),
            scaled@,
        ),
        record.well_formed(),
        record.rows@.len() == table_fields(text::string_views(lines@)).len(),
        forall|i: int|
            0 <= i < record.rows@.len() ==> (#[trigger] record.rows@[i])@.len()
                == encode::MAX_COLUMNS,
        forall|i: int, j: int|
            0 <= i < record.rows@.len() && 0 <= j < encode::MAX_COLUMNS ==> (
            #[trigger] record.rows@[i]@[j])@ == if j < table_fields(
                text::string_views(lines@),
            )[i].len() {
                encode::cell_code(
                    table_fields(text::string_views(lines@))[i][j],
                    scaled@[i]@[j],
                ) as nat
            } else {
                0
            },
        record.rows@.len() + 32 <= pow2(record.logrows as nat),
        record.logrows > 4 ==> pow2((record.logrows - 1) as nat) < record.rows@.len() + 32,
        record.membership_row@.len() == encode::MAX_COLUMNS,
        forall|j: int|
            0 <= j < encode::MAX_COLUMNS ==> (#[trigger] record.membership_row@[j])@
                == record.rows@[0]@[j]@,
{
    let ghost spec_table = table_fields(text::string_views(lines@));
    let table = dataset_fields(lines);
    let mut rows: Vec<Vec<FieldElement>> = Vec::new();
    let mut width: usize = 0;
    let mut i: usize = 0;
    assert(widest(spec_table.take(0)) == 0);
    while i < table.len()
        invariant
            i <= table@.len(),
            table_views(table@) == spec_table,
            loadable(spec_table),
            readings_fit(spec_table, scaled@),
            rows@.len() == i,
            forall|j: int|
                0 <= j < i ==> field::values((#[trigger] rows@[j])@) == encode::encoded_row(
                    spec_table[j],
                    scaled@[j]@,
                ),
            width == widest(spec_table.take(i as int)),
            width <= encode::MAX_COLUMNS,
        decreases table@.len() - i,
    {
        assert(spec_table[i as int] == text::field_views(table@[i as int]@));
        assert(scaled@[i as int]@.len() == spec_table[i as int].len());
        assert(spec_table.take(i + 1).drop_last() == spec_table.take(i as int));
        let fields = &table[i];
        if fields.len() > width {
            width = fields.len();
        }
        rows.push(encode::encode_dataset_row(fields.as_slice(), scaled[i].as_slice()));
        i = i + 1;
    }
    assert(spec_table.take(i as int) == spec_table);
    let membership_row = field::copy_elements(&rows[0]);
    let record = DatasetRecord {
        name: String::from_str(name),
        path: files::join_path(dir, name),
        width,
        logrows: capacity::minimum_logrows(rows.len()),
        rows,
        membership_row,
    };
    proof {
        assert(field::row_values(record.rows@) =~= encoded_rows(spec_table, scaled@));
        lemma_widest_bounds(spec_table);
        assert forall|a: int, b: int|
            0 <= a < spec_table.len() && record.width <= b < encode::MAX_COLUMNS implies
            #[trigger] field::row_values(record.rows@)[a][b] == 0 by {
            assert(spec_table[a].len() <= record.width);
        }
        let rows = field::row_values(record.rows@);
        assert forall|a: int| 0 <= a < record.rows@.len() implies (
        #[trigger] record.rows@[a])@.len() == encode::MAX_COLUMNS by {
            assert(rows[a] == encode::encoded_row(spec_table[a], scaled@[a]@));
            assert(rows[a] == field::values(record.rows@[a]@));
        }
        assert forall|a: int, b: int|
            0 <= a < record.rows@.len() && 0 <= b < encode::MAX_COLUMNS implies (
        #[trigger] record.rows@[a]@[b])@ == if b < spec_table[a].len() {
            encode::cell_code(spec_table[a][b], scaled@[a]@[b]) as nat
        } else {
            0
        } by {
            assert(rows[a] == encode::encoded_row(spec_table[a], scaled@[a]@));
            assert(rows[a][b] == record.rows@[a]@[b]@);
        }
        let member = field::values(record.membership_row@);
        assert(member == rows[0]);
        assert(record.membership_row@.len() == member.len());
        assert forall|b: int| 0 <= b < encode::MAX_COLUMNS implies (
        #[trigger] record.membership_row@[b])@ == record.rows@[0]@[b]@ by {
            assert(member[b] == record.membership_row@[b]@);
            assert(rows[0][b] == record.rows@[0]@[b]@);
        }
    }
    record
}

/// The rows of two blocks of lines follow each other.
pub proof fn law_blocks_of_lines_concatenate(a: Seq<Seq<char>>, b: Seq<Seq<char>>)
    ensures
        table_fields(a + b) == table_fields(a) + table_fields(b),
    decreases b.len(),
{
    if b.len() == 0 {
        assert(a + b =~= a);
        assert(table_fields(a) + table_fields(b) =~= table_fields(a));
    } else {
        law_blocks_of_lines_concatenate(a, b.drop_last());
        assert((a + b).drop_last() =~= a + b.drop_last());
        assert((a + b).last() == b.last());
        assert(table_fields(a + b) =~= table_fields(a) + table_fields(b));
    }
}

/// A blank line anywhere changes nothing.
pub proof fn law_blank_lines_are_ignored(a: Seq<Seq<char>>, blank: Seq<char>, b: Seq<Seq<char>>)
    requires
        text::trimmed(blank).len() == 0,
    ensures
        table_fields(a.push(blank) + b) == table_fields(a + b),
{
    law_blocks_of_lines_concatenate(a.push(blank), b);
    law_blocks_of_lines_concatenate(a, b);
    assert(a.push(blank).drop_last() =~= a);
}

/// The width is the largest number of fields: no row has more, and some row has
/// as many.
pub proof fn law_width_is_the_maximum(table: Seq<Seq<Seq<char>>>)
    requires
        table.len() > 0,
    ensures
        forall|i: int| 0 <= i < table.len() ==> (#[trigger] table[i]).len() <= widest(table),
        exists|i: int| 0 <= i < table.len() && (#[trigger] table[i]).len() == widest(table),
    decreases table.len(),
{
    lemma_widest_bounds(table);
    let before = table.drop_last();
    if table.last().len() > widest(before) || before.len() == 0 {
        assert(table[table.len() - 1].len() == widest(table));
    } else {
        law_width_is_the_maximum(before);
        let i = choose|i: int| 0 <= i < before.len() && (#[trigger] before[i]).len() == widest(before);
        assert(table[i] == before[i]);
    }
}

/// The membership row of a loaded dataset is one of its rows.
pub proof fn law_membership_row_is_a_row(record: DatasetRecord)
    requires
        record.well_formed(),
    ensures
        field::row_values(record.rows@).contains(field::values(record.membership_row@)),
{
    assert(field::row_values(record.rows@)[0] == field::values(record.membership_row@));
}

/// The number of lines that are not blank.
pub open spec fn text_lines(lines: Seq<Seq<char>>) -> nat
    decreases lines.len(),
{
    if lines.len() == 0 {
        0
    } else {
        text_lines(lines.drop_last()) + if text::all_white_space(lines.last()) {
            0nat
        } else {
            1nat
        }
    }
}

proof fn lemma_blank_means_white_space(line: Seq<char>)
    ensures
        text::trimmed(line).len() == 0 <==> text::all_white_space(line),
{
    let none = Seq::<char>::empty();
    if text::all_white_space(line) {
        assert(line + none + none =~= line);
        text::law_trimming_takes_the_margins_only(line, none, none);
    } else if text::trimmed(line).len() == 0 {
        text::lemma_untrimmed_is_white_space(line);
    }
}

/// There are as many rows as lines that are not blank.
pub proof fn law_every_text_line_is_a_row(lines: Seq<Seq<char>>)
    ensures
        table_fields(lines).len() == text_lines(lines),
    decreases lines.len(),
{
    if lines.len() > 0 {
        law_every_text_line_is_a_row(lines.drop_last());
        lemma_blank_means_white_space(lines.last());
    }
}

/// A line that is not blank has its own row, behind those of the lines before it,
/// and that row holds the fields of the line.
pub proof fn law_row_of_a_line(lines: Seq<Seq<char>>, l: int)
    requires
        0 <= l < lines.len(),
        !text::all_white_space(lines[l]),
    ensures
        text_lines(lines.take(l)) < table_fields(lines).len(),
        table_fields(lines)[text_lines(lines.take(l)) as int] == text::normalized_fields(lines[l]),
    decreases lines.len(),
{
    let before = lines.drop_last();
    law_every_text_line_is_a_row(before);
    lemma_blank_means_white_space(lines.last());
    if l < before.len() {
        assert(before[l] == lines[l]);
        assert(before.take(l) =~= lines.take(l));
        law_row_of_a_line(before, l);
    } else {
        assert(lines.take(l) =~= before);
    }
}

/// Every cell of every line arrives: in the row of a line that is not blank, each
/// slot holds the code of the field of that line at its place, with its own
/// reading, and zero beyond the fields.
pub proof fn law_every_cell_arrives(
    lines: Seq<Seq<char>>,
    scaled: Seq<Vec<Option<i128>>>,
    l: int,
    j: int,
)
    requires
        readings_fit(table_fields(lines), scaled),
        0 <= l < lines.len(),
        !text::all_white_space(lines[l]),
        0 <= j < encode::MAX_COLUMNS,
    ensures
        encoded_rows(table_fields(lines), scaled).len() == text_lines(lines),
        ({
            let i = text_lines(lines.take(l)) as int;
            let fields = text::normalized_fields(lines[l]);
            let row = encoded_rows(table_fields(lines), scaled)[i];
            &&& i < text_lines(lines)
            &&& row.len() == encode::MAX_COLUMNS
            &&& j < fields.len() ==> row[j] == encode::cell_code(fields[j], scaled[i]@[j])
            &&& j >= fields.len() ==> row[j] == 0
        }),
{
    law_every_text_line_is_a_row(lines);
    law_row_of_a_line(lines, l);
}

/// Loading two blocks of lines together gives the rows of the first and then
/// those of the second.
pub proof fn law_loaded_blocks_concatenate(
    lines1: Seq<Seq<char>>,
    scaled1: Seq<Vec<Option<i128>>>,
    lines2: Seq<Seq<char>>,
    scaled2: Seq<Vec<Option<i128>>>,
)
    requires
        readings_fit(table_fields(lines1), scaled1),
        readings_fit(table_fields(lines2), scaled2),
    ensures
        readings_fit(table_fields(lines1 + lines2), scaled1 + scaled2),
        encoded_rows(table_fields(lines1 + lines2), scaled1 + scaled2) == encoded_rows(
            table_fields(lines1),
            scaled1,
        ) + encoded_rows(table_fields(lines2), scaled2),
{
    let table1 = table_fields(lines1);
    let table2 = table_fields(lines2);
    law_blocks_of_lines_concatenate(lines1, lines2);
    assert forall|i: int| 0 <= i < (table1 + table2).len() implies (
    #[trigger] (scaled1 + scaled2)[i])@.len() == (table1 + table2)[i].len() by {
        if i < table1.len() {
            assert(scaled1[i]@.len() == table1[i].len());
        } else {
            assert(scaled2[i - table1.len()]@.len() == table2[i - table1.len()].len());
        }
    }
    assert(encoded_rows(table1 + table2, scaled1 + scaled2) =~= encoded_rows(table1, scaled1)
        + encoded_rows(table2, scaled2));
}

/// What holds of a record that holds together: every row fills the slots with
/// zeros beyond the width, the size is the least that leaves 32 rows free, and the
/// witness is the first row.
pub proof fn law_record_holds_together(record: DatasetRecord, other: nat, i: int, j: int)
    requires
        record.well_formed(),
        0 <= j < encode::MAX_COLUMNS,
    ensures
        record.width <= 16,
        0 <= i < record.rows@.len() ==> record.rows@[i]@.len() == 16,
        0 <= i < record.rows@.len() && j >= record.width ==> record.rows@[i]@[j]@ == 0,
        record.rows@.len() > 0,
        record.rows@.len() + 32 <= pow2(record.logrows as nat),
        other >= 4 && record.rows@.len() + 32 <= pow2(other) ==> record.logrows <= other,
        record.membership_row@.len() == encode::MAX_COLUMNS,
        record.rows@[0]@.len() == encode::MAX_COLUMNS,
        record.membership_row@[j]@ == record.rows@[0]@[j]@,
{
    let rows = field::row_values(record.rows@);
    let member = field::values(record.membership_row@);
    capacity::law_minimum_logrows_is_the_least(rows.len(), record.logrows as nat, other);
    if 0 <= i < rows.len() {
        assert(rows[i].len() == encode::MAX_COLUMNS);
        assert(rows[i] == field::values(record.rows@[i]@));
        assert(rows[i][j] == record.rows@[i]@[j]@);
    }
    assert(rows[0].len() == encode::MAX_COLUMNS);
    assert(rows[0] == field::values(record.rows@[0]@));
    assert(member[j] == record.membership_row@[j]@);
    assert(rows[0][j] == record.rows@[0]@[j]@);
}

/// The views stand for the table row for row and field for field.
pub proof fn law_table_views_stand_for_the_table(table: Seq<Vec<&str>>, i: int, j: int)
    requires
        0 <= i < table.len(),
        0 <= j < table[i]@.len(),
    ensures
        table_views(table).len() == table.len(),
        table_views(table)[i].len() == table[i]@.len(),
        table_views(table)[i][j] == table[i]@[j]@,
{
}

} // verus!
