//! Text of dataset lines: white space, trimming and the pipe-delimited fields.
use vstd::prelude::*;
use vstd::string::*;

verus! {

/// The characters with the Unicode property `White_Space`.
pub open spec fn is_white_space(c: char) -> bool {
    let v = c as u32;
    ||| 0x9 <= v <= 0xd
    ||| v == 0x20
    ||| v == 0x85
    ||| v == 0xa0
    ||| v == 0x1680
    ||| 0x2000 <= v <= 0x200a
    ||| v == 0x2028
    ||| v == 0x2029
    ||| v == 0x202f
    ||| v == 0x205f
    ||| v == 0x3000
}

/// `s` without its leading white space.
pub open spec fn trim_start(s: Seq<char>) -> Seq<char>
    decreases s.len(),
{
    if s.len() > 0 && is_white_space(s[0]) {
        trim_start(s.skip(1))
    } else {
        s
    }
}

/// `s` without its trailing white space.
pub open spec fn trim_end(s: Seq<char>) -> Seq<char>
    decreases s.len(),
{
    if s.len() > 0 && is_white_space(s.last()) {
        trim_end(s.drop_last())
    } else {
        s
    }
}

/// `s` without white space at either end.
pub open spec fn trimmed(s: Seq<char>) -> Seq<char> {
    trim_end(trim_start(s))
}

/// The pieces of `s` between the separators `sep`: one more than there are
/// separators, so the empty text has one empty piece.
pub open spec fn split_on(s: Seq<char>, sep: char) -> Seq<Seq<char>>
    decreases s.len(),
{
    if s.len() == 0 {
        seq![Seq::<char>::empty()]
    } else {
        let before = split_on(s.drop_last(), sep);
        if s.last() == sep {
            before.push(Seq::<char>::empty())
        } else {
            before.update(before.len() - 1, before.last().push(s.last()))
        }
    }
}

/// `fields` up to and including its last field that is not empty.
pub open spec fn drop_trailing_empty(fields: Seq<Seq<char>>) -> Seq<Seq<char>>
    decreases fields.len(),
{
    if fields.len() > 0 && fields.last().len() == 0 {
        drop_trailing_empty(fields.drop_last())
    } else {
        fields
    }
}

/// Every field trimmed.
pub open spec fn trim_each(fields: Seq<Seq<char>>) -> Seq<Seq<char>> {
    Seq::new(fields.len(), |i: int| trimmed(fields[i]))
}

/// The logical fields of one dataset line: the trimmed pieces between pipes,
/// less the empty ones at the end.
pub open spec fn normalized_fields(line: Seq<char>) -> Seq<Seq<char>> {
    drop_trailing_empty(trim_each(split_on(line, '|')))
}

/// The characters of each string slice.
pub open spec fn field_views(fields: Seq<&str>) -> Seq<Seq<char>> {
    Seq::new(fields.len(), |i: int| fields[i]@)
}

/// The characters of each string.
pub open spec fn string_views(strings: Seq<String>) -> Seq<Seq<char>> {
    Seq::new(strings.len(), |i: int| strings[i]@)
}

proof fn lemma_trim_each_push(fields: Seq<Seq<char>>, field: Seq<char>)
    ensures
        trim_each(fields.push(field)) == trim_each(fields).push(trimmed(field)),
{
    assert(trim_each(fields.push(field)) =~= trim_each(fields).push(trimmed(field)));
}

proof fn lemma_field_views_push(fields: Seq<&str>, field: &str)
    ensures
        field_views(fields.push(field)) == field_views(fields).push(field@),
{
    assert(field_views(fields.push(field)) =~= field_views(fields).push(field@));
}

/// Whether `c` is white space.
pub fn white_space(c: char) -> (r: bool)
    ensures
        r == is_white_space(c),
{
    let v: u32 = c as u32;
    (0x9 <= v && v <= 0xd) || v == 0x20 || v == 0x85 || v == 0xa0 || v == 0x1680 || (0x2000 <= v
        && v <= 0x200a) || v == 0x2028 || v == 0x2029 || v == 0x202f || v == 0x205f || v == 0x3000
}

/// The characters of `s`, in order.
pub fn chars_of(s: &str) -> (r: Vec<char>)
    ensures
        r@ == s@,
{
    let mut out: Vec<char> = Vec::new();
    for c in it: s.chars()
        invariant
            out@ == s@.take(it.index() as int),
            it.seq() == s@,
    {
        out.push(c);
    }
    out
}

/// `s` without white space at either end.
pub fn trim_text(s: &str) -> (r: &str)
    ensures
        r@ == trimmed(s@),
{
    let chars = chars_of(s);
    let n: usize = chars.len();
    let mut start: usize = 0;
    assert(s@.skip(0) == s@);
    while start < n && white_space(chars[start])
        invariant
            start <= n,
            n == chars@.len(),
            chars@ == s@,
            trim_start(s@) == trim_start(s@.skip(start as int)),
        decreases n - start,
    {
        assert(s@.skip(start as int).skip(1) == s@.skip(start + 1));
        start = start + 1;
    }
    let ghost rest = s@.skip(start as int);
    assert(trim_start(s@) == rest);
    let mut end: usize = n;
    assert(s@.subrange(start as int, n as int) == rest);
    while start < end && white_space(chars[end - 1])
        invariant
            start <= end <= n,
            n == chars@.len(),
            chars@ == s@,
            trim_end(rest) == trim_end(s@.subrange(start as int, end as int)),
        decreases end,
    {
        assert(s@.subrange(start as int, end as int).drop_last() == s@.subrange(
            start as int,
            end - 1,
        ));
        end = end - 1;
    }
    s.substring_char(start, end)
}

/// Whether `s` holds nothing but white space.
pub fn is_blank(s: &str) -> (r: bool)
    ensures
        r == (trimmed(s@).len() == 0),
{
    trim_text(s).is_empty()
}

/// The logical fields of one pipe-delimited line. Rows usually end with a
/// trailing pipe; without the empty fields at the end the row width is stable.
pub fn normalize_fields(line: &str) -> (fields: Vec<&str>)
    ensures
        field_views(fields@) == normalized_fields(line@),
{
    let chars = chars_of(line);
    let n: usize = chars.len();
    let mut fields: Vec<&str> = Vec::new();
    let mut start: usize = 0;
    let mut i: usize = 0;
    let ghost mut raw: Seq<Seq<char>> = Seq::empty();
    assert(line@.take(0) == Seq::<char>::empty());
    assert(line@.subrange(0, 0) == Seq::<char>::empty());
    assert(raw.push(Seq::<char>::empty()) == seq![Seq::<char>::empty()]);
    while i < n
        invariant
            start <= i <= n,
            n == chars@.len(),
            chars@ == line@,
            split_on(line@.take(i as int), '|') == raw.push(line@.subrange(start as int, i as int)),
            field_views(fields@) == trim_each(raw),
        decreases n - i,
    {
        let ghost seen = line@.take(i + 1);
        let ghost open = line@.subrange(start as int, i as int);
        assert(seen.drop_last() == line@.take(i as int));
        let ghost closed = fields@;
        if chars[i] == '|' {
            fields.push(trim_text(line.substring_char(start, i)));
            proof {
                lemma_trim_each_push(raw, open);
                lemma_field_views_push(closed, fields@.last());
                assert(fields@ == closed.push(fields@.last()));
                raw = raw.push(open);
                assert(line@.subrange(i + 1, i + 1) == Seq::<char>::empty());
            }
            start = i + 1;
        } else {
            assert(open.push(chars@[i as int]) == line@.subrange(start as int, i + 1));
            assert(raw.push(open).update(raw.len() as int, open.push(chars@[i as int])) == raw.push(
                open.push(chars@[i as int]),
            ));
        }
        i = i + 1;
    }
    assert(line@.take(n as int) == line@);
    let ghost open = line@.subrange(start as int, n as int);
    let ghost closed = fields@;
    fields.push(trim_text(line.substring_char(start, n)));
    proof {
        lemma_trim_each_push(raw, open);
        lemma_field_views_push(closed, fields@.last());
        assert(fields@ == closed.push(fields@.last()));
    }
    while fields.len() > 0 && fields[fields.len() - 1].is_empty()
        invariant
            drop_trailing_empty(field_views(fields@)) == normalized_fields(line@),
        decreases fields.len(),
    {
        let ghost before = field_views(fields@);
        let _ = fields.pop();
        assert(field_views(fields@) == before.drop_last());
    }
    fields
}

proof fn lemma_trim_start_result(s: Seq<char>)
    ensures
        trim_start(s).len() > 0 ==> !is_white_space(trim_start(s)[0]),
        exists|n: int| 0 <= n <= s.len() && trim_start(s) == #[trigger] s.skip(n),
    decreases s.len(),
{
    if s.len() > 0 && is_white_space(s[0]) {
        lemma_trim_start_result(s.skip(1));
        let n = choose|n: int|
            0 <= n <= s.skip(1).len() && trim_start(s.skip(1)) == #[trigger] s.skip(1).skip(n);
        assert(s.skip(1).skip(n) =~= s.skip(n + 1));
    } else {
        assert(s.skip(0) =~= s);
    }
}

proof fn lemma_trim_end_result(s: Seq<char>)
    ensures
        trim_end(s).len() > 0 ==> !is_white_space(trim_end(s).last()),
        exists|n: int| 0 <= n <= s.len() && trim_end(s) == #[trigger] s.take(n),
    decreases s.len(),
{
    if s.len() > 0 && is_white_space(s.last()) {
        lemma_trim_end_result(s.drop_last());
        let n = choose|n: int|
            0 <= n <= s.drop_last().len() && trim_end(s.drop_last()) == #[trigger] s.drop_last().take(
                n,
            );
        assert(s.drop_last().take(n) =~= s.take(n));
    } else {
        assert(s.take(s.len() as int) =~= s);
    }
}

/// Trimming leaves nothing to trim: neither end of the result is white space,
/// and trimming again changes nothing.
pub proof fn law_trimmed_is_stable(s: Seq<char>)
    ensures
        trimmed(s).len() > 0 ==> !is_white_space(trimmed(s)[0]) && !is_white_space(
            trimmed(s).last(),
        ),
        trimmed(trimmed(s)) == trimmed(s),
{
    let t = trim_start(s);
    lemma_trim_start_result(s);
    lemma_trim_end_result(t);
    let n = choose|n: int| 0 <= n <= t.len() && trim_end(t) == #[trigger] t.take(n);
    if trimmed(s).len() > 0 {
        assert(trimmed(s)[0] == t[0]);
    }
}

proof fn lemma_trimmed_is_part(s: Seq<char>)
    ensures
        exists|a: int, b: int|
            0 <= a <= b <= s.len() && trimmed(s) == #[trigger] s.subrange(a, b),
{
    let t = trim_start(s);
    lemma_trim_start_result(s);
    lemma_trim_end_result(t);
    let m = choose|m: int| 0 <= m <= s.len() && t == #[trigger] s.skip(m);
    let n = choose|n: int| 0 <= n <= t.len() && trim_end(t) == #[trigger] t.take(n);
    assert(s.skip(m).take(n) =~= s.subrange(m, m + n));
}

proof fn lemma_pieces_hold_no_separator(s: Seq<char>, sep: char)
    ensures
        split_on(s, sep).len() > 0,
        forall|i: int| 0 <= i < split_on(s, sep).len() ==> !(#[trigger] split_on(s, sep)[i]).contains(
            sep,
        ),
    decreases s.len(),
{
    if s.len() > 0 {
        let before = split_on(s.drop_last(), sep);
        lemma_pieces_hold_no_separator(s.drop_last(), sep);
        assert forall|i: int| 0 <= i < split_on(s, sep).len() implies !(#[trigger] split_on(
            s,
            sep,
        )[i]).contains(sep) by {
            if s.last() != sep && i == before.len() - 1 {
                let piece = before.last().push(s.last());
                assert(!before[i].contains(sep));
                assert forall|j: int| 0 <= j < piece.len() implies piece[j] != sep by {
                    if j < before.last().len() {
                        assert(before[i][j] == piece[j]);
                    }
                }
            } else if i < before.len() {
                assert(split_on(s, sep)[i] == before[i]);
            }
        }
    }
}

proof fn lemma_drop_trailing_empty_result(fields: Seq<Seq<char>>)
    ensures
        drop_trailing_empty(fields).len() <= fields.len(),
        drop_trailing_empty(fields) == fields.take(drop_trailing_empty(fields).len() as int),
        drop_trailing_empty(fields).len() > 0 ==> drop_trailing_empty(fields).last().len() > 0,
        forall|i: int|
            drop_trailing_empty(fields).len() <= i < fields.len() ==> (#[trigger] fields[i]).len()
                == 0,
    decreases fields.len(),
{
    if fields.len() > 0 && fields.last().len() == 0 {
        let shorter = fields.drop_last();
        lemma_drop_trailing_empty_result(shorter);
        assert(shorter.take(drop_trailing_empty(fields).len() as int) =~= fields.take(
            drop_trailing_empty(fields).len() as int,
        ));
        assert forall|i: int|
            drop_trailing_empty(fields).len() <= i < fields.len() implies (
        #[trigger] fields[i]).len() == 0 by {
            if i < shorter.len() {
                assert(shorter[i] == fields[i]);
            }
        }
    } else {
        assert(fields.take(fields.len() as int) =~= fields);
    }
}

/// The fields of a line are clean: no field has white space at its ends or holds
/// a pipe, and the last one is not empty.
pub proof fn law_fields_are_clean(line: Seq<char>)
    ensures
        normalized_fields(line).len() > 0 ==> normalized_fields(line).last().len() > 0,
        forall|i: int|
            0 <= i < normalized_fields(line).len() ==> trimmed(#[trigger] normalized_fields(line)[i])
                == normalized_fields(line)[i] && !normalized_fields(line)[i].contains('|'),
{
    let pieces = split_on(line, '|');
    let fields = trim_each(pieces);
    lemma_pieces_hold_no_separator(line, '|');
    lemma_drop_trailing_empty_result(fields);
    assert forall|i: int| 0 <= i < normalized_fields(line).len() implies trimmed(
        #[trigger] normalized_fields(line)[i],
    ) == normalized_fields(line)[i] && !normalized_fields(line)[i].contains('|') by {
        assert(normalized_fields(line)[i] == fields[i]);
        law_trimmed_is_stable(pieces[i]);
        lemma_trimmed_is_part(pieces[i]);
        let (a, b) = choose|a: int, b: int|
            0 <= a <= b <= pieces[i].len() && trimmed(pieces[i]) == #[trigger] pieces[i].subrange(
                a,
                b,
            );
        assert(!pieces[i].contains('|'));
        assert forall|j: int| 0 <= j < fields[i].len() implies fields[i][j] != '|' by {
            assert(fields[i][j] == pieces[i][a + j]);
        }
    }
}

/// A tail without text: pipes and white space only.
pub open spec fn is_textless_tail(tail: Seq<char>) -> bool {
    forall|i: int| 0 <= i < tail.len() ==> #[trigger] tail[i] == '|' || is_white_space(tail[i])
}

proof fn lemma_trailing_white_space_is_trimmed(s: Seq<char>, c: char)
    requires
        is_white_space(c),
    ensures
        trim_start(s).len() == 0 ==> trim_start(s.push(c)).len() == 0,
        trim_start(s).len() > 0 ==> trim_start(s.push(c)) == trim_start(s).push(c),
        trimmed(s.push(c)) == trimmed(s),
    decreases s.len(),
{
    let longer = s.push(c);
    if s.len() == 0 {
        assert(longer.skip(1) =~= s);
        assert(trim_start(s) == s);
        assert(trim_start(longer) == trim_start(longer.skip(1)));
    } else if is_white_space(s[0]) {
        assert(longer.skip(1) =~= s.skip(1).push(c));
        lemma_trailing_white_space_is_trimmed(s.skip(1), c);
    } else {
        assert(longer.drop_last() =~= s);
    }
}

proof fn lemma_textless_char_is_ignored(line: Seq<char>, c: char)
    requires
        c == '|' || is_white_space(c),
    ensures
        normalized_fields(line.push(c)) == normalized_fields(line),
{
    let pieces = split_on(line, '|');
    assert(line.push(c).drop_last() =~= line);
    if c == '|' {
        let empty = Seq::<char>::empty();
        lemma_trim_each_push(pieces, empty);
        assert(trim_each(pieces).push(trimmed(empty)).drop_last() =~= trim_each(pieces));
    } else {
        lemma_pieces_hold_no_separator(line, '|');
        lemma_trailing_white_space_is_trimmed(pieces.last(), c);
        assert(trim_each(split_on(line.push(c), '|')) =~= trim_each(pieces));
    }
}

/// Pipes and white space at the end of a line change nothing, so the row width
/// is the same however many empty cells rows end with.
pub proof fn law_textless_tail_is_ignored(line: Seq<char>, tail: Seq<char>)
    requires
        is_textless_tail(tail),
    ensures
        normalized_fields(line + tail) == normalized_fields(line),
    decreases tail.len(),
{
    if tail.len() == 0 {
        assert(line + tail =~= line);
    } else {
        let shorter = tail.drop_last();
        assert forall|i: int| 0 <= i < shorter.len() implies #[trigger] shorter[i] == '|'
            || is_white_space(shorter[i]) by {
            assert(shorter[i] == tail[i]);
        }
        law_textless_tail_is_ignored(line, shorter);
        assert(tail[tail.len() - 1] == tail.last());
        lemma_textless_char_is_ignored(line + shorter, tail.last());
        assert((line + shorter).push(tail.last()) =~= line + tail);
    }
}

proof fn lemma_text_without_separator_is_one_piece(s: Seq<char>, sep: char)
    requires
        !s.contains(sep),
    ensures
        split_on(s, sep) == seq![s],
    decreases s.len(),
{
    if s.len() > 0 {
        let shorter = s.drop_last();
        assert forall|i: int| 0 <= i < shorter.len() implies shorter[i] != sep by {
            assert(s[i] == shorter[i]);
        }
        assert(s[s.len() - 1] == s.last());
        lemma_text_without_separator_is_one_piece(shorter, sep);
        assert(shorter.push(s.last()) =~= s);
        assert(split_on(s, sep) =~= seq![s]);
    } else {
        assert(s =~= Seq::<char>::empty());
    }
}

proof fn lemma_trim_start_skips_white_space_only(s: Seq<char>)
    ensures
        forall|i: int| 0 <= i < s.len() - trim_start(s).len() ==> is_white_space(#[trigger] s[i]),
        trim_start(s).len() <= s.len(),
    decreases s.len(),
{
    if s.len() > 0 && is_white_space(s[0]) {
        lemma_trim_start_skips_white_space_only(s.skip(1));
        assert forall|i: int| 0 <= i < s.len() - trim_start(s).len() implies is_white_space(
            #[trigger] s[i],
        ) by {
            if i > 0 {
                assert(s.skip(1)[i - 1] == s[i]);
            }
        }
    }
}

/// A blank line has no fields.
pub proof fn law_blank_line_has_no_fields(line: Seq<char>)
    requires
        trimmed(line).len() == 0,
    ensures
        normalized_fields(line).len() == 0,
{
    let t = trim_start(line);
    lemma_trim_start_result(line);
    lemma_trim_start_skips_white_space_only(line);
    if t.len() > 0 {
        lemma_first_char_survives(t);
    }
    assert forall|i: int| 0 <= i < line.len() implies line[i] != '|' by {
        assert(is_white_space(line[i]));
    }
    lemma_text_without_separator_is_one_piece(line, '|');
    let fields = trim_each(split_on(line, '|'));
    assert(fields[0] == trimmed(line));
    lemma_drop_trailing_empty_result(fields);
    let kept = drop_trailing_empty(fields);
    if kept.len() > 0 {
        assert(kept.last() == fields[kept.len() - 1]);
    }
}

proof fn lemma_first_char_survives(s: Seq<char>)
    requires
        s.len() > 0,
        !is_white_space(s[0]),
    ensures
        trim_end(s).len() > 0,
    decreases s.len(),
{
    if is_white_space(s.last()) {
        assert(s.len() > 1);
        lemma_first_char_survives(s.drop_last());
    }
}

/// White space only.
pub open spec fn all_white_space(s: Seq<char>) -> bool {
    forall|i: int| 0 <= i < s.len() ==> is_white_space(#[trigger] s[i])
}

/// No white space at either end.
pub open spec fn has_no_margin(s: Seq<char>) -> bool {
    s.len() > 0 ==> !is_white_space(s[0]) && !is_white_space(s.last())
}

/// The pieces with one separator between each two that follow each other.
pub open spec fn join_with(pieces: Seq<Seq<char>>, sep: char) -> Seq<char>
    decreases pieces.len(),
{
    if pieces.len() == 0 {
        Seq::empty()
    } else if pieces.len() == 1 {
        pieces[0]
    } else {
        join_with(pieces.drop_last(), sep).push(sep) + pieces.last()
    }
}

/// The fields with white space around them: `before[i]` and `after[i]` around
/// field `i`.
pub open spec fn with_margins(
    before: Seq<Seq<char>>,
    fields: Seq<Seq<char>>,
    after: Seq<Seq<char>>,
) -> Seq<Seq<char>> {
    Seq::new(fields.len(), |i: int| before[i] + fields[i] + after[i])
}

proof fn lemma_trim_start_of_white_space(s: Seq<char>, rest: Seq<char>)
    requires
        all_white_space(s),
    ensures
        trim_start(s + rest) == trim_start(rest),
    decreases s.len(),
{
    if s.len() == 0 {
        assert(s + rest =~= rest);
    } else {
        assert((s + rest)[0] == s[0]);
        assert((s + rest).skip(1) =~= s.skip(1) + rest);
        assert forall|i: int| 0 <= i < s.skip(1).len() implies is_white_space(
            #[trigger] s.skip(1)[i],
        ) by {
            assert(s.skip(1)[i] == s[i + 1]);
        }
        lemma_trim_start_of_white_space(s.skip(1), rest);
    }
}

proof fn lemma_trim_end_of_white_space(rest: Seq<char>, s: Seq<char>)
    requires
        all_white_space(s),
    ensures
        trim_end(rest + s) == trim_end(rest),
    decreases s.len(),
{
    if s.len() == 0 {
        assert(rest + s =~= rest);
    } else {
        assert((rest + s).last() == s[s.len() - 1]);
        assert((rest + s).drop_last() =~= rest + s.drop_last());
        assert forall|i: int| 0 <= i < s.drop_last().len() implies is_white_space(
            #[trigger] s.drop_last()[i],
        ) by {
            assert(s.drop_last()[i] == s[i]);
        }
        lemma_trim_end_of_white_space(rest, s.drop_last());
    }
}

/// Trimming takes the white space at both ends and nothing else: any text without
/// margins comes back from between any white space.
pub proof fn law_trimming_takes_the_margins_only(
    before: Seq<char>,
    core: Seq<char>,
    after: Seq<char>,
)
    requires
        all_white_space(before),
        has_no_margin(core),
        all_white_space(after),
    ensures
        trimmed(before + core + after) == core,
{
    assert(before + core + after =~= before + (core + after));
    lemma_trim_start_of_white_space(before, core + after);
    if core.len() == 0 {
        assert(core + after =~= after);
        assert(after + core =~= after);
        lemma_trim_start_of_white_space(after, core);
        assert(trim_start(core) == core);
        assert(trim_end(core) == core);
    } else {
        assert((core + after)[0] == core[0]);
        assert(trim_start(core + after) == core + after);
        lemma_trim_end_of_white_space(core, after);
        assert(trim_end(core) == core);
    }
}

proof fn lemma_split_at_last_separator(s: Seq<char>, sep: char, t: Seq<char>)
    requires
        !t.contains(sep),
    ensures
        split_on(s.push(sep) + t, sep) == split_on(s, sep).push(t),
    decreases t.len(),
{
    let whole = s.push(sep) + t;
    if t.len() == 0 {
        assert(whole =~= s.push(sep));
        assert(whole.drop_last() =~= s);
        assert(t =~= Seq::<char>::empty());
    } else {
        let shorter = t.drop_last();
        assert forall|i: int| 0 <= i < shorter.len() implies shorter[i] != sep by {
            assert(t[i] == shorter[i]);
        }
        assert(t[t.len() - 1] == t.last());
        assert(whole.drop_last() =~= s.push(sep) + shorter);
        assert(whole.last() == t.last());
        lemma_split_at_last_separator(s, sep, shorter);
        assert(shorter.push(t.last()) =~= t);
        assert(split_on(whole, sep) =~= split_on(s, sep).push(t));
    }
}

/// Splitting undoes joining: any number of pieces that hold no separator come
/// back.
pub proof fn law_splitting_undoes_joining(pieces: Seq<Seq<char>>, sep: char)
    requires
        pieces.len() > 0,
        forall|i: int| 0 <= i < pieces.len() ==> !(#[trigger] pieces[i]).contains(sep),
    ensures
        split_on(join_with(pieces, sep), sep) == pieces,
    decreases pieces.len(),
{
    if pieces.len() == 1 {
        assert(!pieces[0].contains(sep));
        lemma_text_without_separator_is_one_piece(pieces[0], sep);
        assert(pieces =~= seq![pieces[0]]);
    } else {
        let shorter = pieces.drop_last();
        assert forall|i: int| 0 <= i < shorter.len() implies !(#[trigger] shorter[i]).contains(
            sep,
        ) by {
            assert(shorter[i] == pieces[i]);
        }
        assert(!pieces[pieces.len() - 1].contains(sep));
        law_splitting_undoes_joining(shorter, sep);
        lemma_split_at_last_separator(join_with(shorter, sep), sep, pieces.last());
        assert(shorter.push(pieces.last()) =~= pieces);
    }
}

/// Joining undoes splitting: the pieces of a text, joined with the separator,
/// are the text.
pub proof fn law_joining_undoes_splitting(s: Seq<char>, sep: char)
    ensures
        split_on(s, sep).len() > 0,
        join_with(split_on(s, sep), sep) == s,
    decreases s.len(),
{
    if s.len() > 0 {
        let before = split_on(s.drop_last(), sep);
        law_joining_undoes_splitting(s.drop_last(), sep);
        assert(s.drop_last().push(s.last()) =~= s);
        if s.last() == sep {
            let pieces = before.push(Seq::<char>::empty());
            assert(pieces.drop_last() =~= before);
            assert(join_with(pieces, sep) =~= s);
        } else {
            let pieces = before.update(before.len() - 1, before.last().push(s.last()));
            assert(pieces.drop_last() =~= before.drop_last());
            assert(join_with(pieces, sep) =~= s);
        }
    } else {
        assert(join_with(split_on(s, sep), sep) =~= s);
    }
}

/// The fields of a line, of any number, are what stands between its pipes
/// without white space around it: any fields without margins and pipes, the last
/// of them not empty, come back from a line that joins them with pipes, whatever
/// white space surrounds each and whatever pipes and white space follow.
pub proof fn law_fields_come_back_from_their_line(
    before: Seq<Seq<char>>,
    fields: Seq<Seq<char>>,
    after: Seq<Seq<char>>,
    tail: Seq<char>,
)
    requires
        before.len() == fields.len(),
        after.len() == fields.len(),
        forall|i: int|
            0 <= i < fields.len() ==> all_white_space(#[trigger] before[i]) && all_white_space(
                after[i],
            ),
        forall|i: int|
            0 <= i < fields.len() ==> has_no_margin(#[trigger] fields[i]) && !fields[i].contains(
                '|',
            ),
        fields.len() > 0 ==> fields.last().len() > 0,
        is_textless_tail(tail),
    ensures
        normalized_fields(join_with(with_margins(before, fields, after), '|') + tail) == fields,
{
    let pieces = with_margins(before, fields, after);
    let line = join_with(pieces, '|');
    law_textless_tail_is_ignored(line, tail);
    if fields.len() == 0 {
        assert(line =~= Seq::<char>::empty());
        assert(trim_start(line) == line);
        assert(trim_end(line) == line);
        law_blank_line_has_no_fields(line);
        assert(normalized_fields(line) =~= fields);
    } else {
        assert forall|i: int| 0 <= i < pieces.len() implies !(#[trigger] pieces[i]).contains(
            '|',
        ) by {
            assert(all_white_space(before[i]));
            assert(has_no_margin(fields[i]));
            assert forall|j: int| 0 <= j < pieces[i].len() implies pieces[i][j] != '|' by {
                if j < before[i].len() {
                    assert(is_white_space(before[i][j]));
                } else if j < before[i].len() + fields[i].len() {
                    assert(pieces[i][j] == fields[i][j - before[i].len()]);
                } else {
                    assert(is_white_space(after[i][j - before[i].len() - fields[i].len()]));
                }
            }
        }
        law_splitting_undoes_joining(pieces, '|');
        assert forall|i: int| 0 <= i < fields.len() implies #[trigger] trim_each(pieces)[i]
            == fields[i] by {
            assert(all_white_space(before[i]));
            assert(has_no_margin(fields[i]));
            law_trimming_takes_the_margins_only(before[i], fields[i], after[i]);
        }
        assert(trim_each(pieces) =~= fields);
    }
}

pub(crate) proof fn lemma_untrimmed_is_white_space(line: Seq<char>)
    requires
        trimmed(line).len() == 0,
    ensures
        all_white_space(line),
{
    let t = trim_start(line);
    lemma_trim_start_result(line);
    lemma_trim_start_skips_white_space_only(line);
    if t.len() > 0 {
        lemma_first_char_survives(t);
    }
}

/// The white space characters: tab, line feed, vertical tab, form feed, carriage
/// return, space, next line, the no-break spaces, the other Unicode spaces, and
/// the line and paragraph separators. No other character is one.
pub proof fn law_white_space_characters(c: char)
    ensures
        is_white_space(c) <==> seq![
            '\t',
            '\n',
            '\u{b}',
            '\u{c}',
            '\r',
            ' ',
            '\u{85}',
            '\u{a0}',
            '\u{1680}',
            '\u{2000}',
            '\u{2001}',
            '\u{2002}',
            '\u{2003}',
            '\u{2004}',
            '\u{2005}',
            '\u{2006}',
            '\u{2007}',
            '\u{2008}',
            '\u{2009}',
            '\u{200a}',
            '\u{2028}',
            '\u{2029}',
            '\u{202f}',
            '\u{205f}',
            '\u{3000}',
        ].contains(c),
{
    let all = seq![
        '\t',
        '\n',
        '\u{b}',
        '\u{c}',
        '\r',
        ' ',
        '\u{85}',
        '\u{a0}',
        '\u{1680}',
        '\u{2000}',
        '\u{2001}',
        '\u{2002}',
        '\u{2003}',
        '\u{2004}',
        '\u{2005}',
        '\u{2006}',
        '\u{2007}',
        '\u{2008}',
        '\u{2009}',
        '\u{200a}',
        '\u{2028}',
        '\u{2029}',
        '\u{202f}',
        '\u{205f}',
        '\u{3000}',
    ];
    let v = c as int;
    if is_white_space(c) {
        let at: int = if v <= 0xd {
            v - 0x9
        } else if v == 0x20 {
            5
        } else if v == 0x85 {
            6
        } else if v == 0xa0 {
            7
        } else if v == 0x1680 {
            8
        } else if v <= 0x200a {
            9 + (v - 0x2000)
        } else if v <= 0x2029 {
            20 + (v - 0x2028)
        } else if v == 0x202f {
            22
        } else if v == 0x205f {
            23
        } else {
            24
        };
        assert(all[at] == c);
    }
}

/// The last separator of a text ends what comes before it and begins the last
/// piece; a text without a separator is one piece.
pub proof fn law_last_separator_splits(s: Seq<char>, sep: char, piece: Seq<char>)
    requires
        !piece.contains(sep),
    ensures
        split_on(piece, sep) == seq![piece],
        split_on(s.push(sep) + piece, sep) == split_on(s, sep).push(piece),
{
    lemma_text_without_separator_is_one_piece(piece, sep);
    lemma_split_at_last_separator(s, sep, piece);
}

/// The views stand for the string slices and strings one for one.
pub proof fn law_views_stand_for_strings(fields: Seq<&str>, strings: Seq<String>, i: int)
    ensures
        field_views(fields).len() == fields.len(),
        0 <= i < fields.len() ==> field_views(fields)[i] == fields[i]@,
        string_views(strings).len() == strings.len(),
        0 <= i < strings.len() ==> string_views(strings)[i] == strings[i]@,
{
}

} // verus!
