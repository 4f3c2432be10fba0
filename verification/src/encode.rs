//! Canonical encodings of dataset cells and rows.
use crate::decimal;
use crate::field;
use crate::field::FieldElement;
use crate::text;
use vstd::prelude::*;
use vstd::string::*;

verus! {

/// The number of field slots in every encoded row.
pub const MAX_COLUMNS: usize = 16;

/// The 64-bit FNV-1a hash of `bytes`.
pub open spec fn fnv1a(bytes: Seq<u8>) -> u64
    decreases bytes.len(),
{
    if bytes.len() == 0 {
        0xcbf29ce484222325
    } else {
        (((fnv1a(bytes.drop_last()) ^ (bytes.last() as u64)) * 0x100000001b3)
            % 0x1_0000_0000_0000_0000) as u64
    }
}

/// Stable encoding of text that is not a number: the FNV-1a hash of its UTF-8
/// bytes.
pub fn hash_string_to_u64(value: &str) -> (hash: u64)
    ensures
        hash == fnv1a(vstd::utf8::encode_utf8(value@)),
{
    let bytes = value.as_bytes();
    let mut hash: u64 = 0xcbf29ce484222325;
    let mut i: usize = 0;
    while i < bytes.len()
        invariant
            i <= bytes@.len(),
            hash == fnv1a(bytes@.take(i as int)),
        decreases bytes@.len() - i,
    {
        assert(bytes@.take(i + 1).drop_last() == bytes@.take(i as int));
        hash = hash ^ (bytes[i] as u64);
        hash = hash.wrapping_mul(0x100000001b3);
        i = i + 1;
    }
    assert(bytes@.take(i as int) == bytes@);
    hash
}

/// The zigzag image of an integer: 0, -1, 1, -2, 2, ... become 0, 1, 2, 3, 4, ...
pub open spec fn zigzag(value: int) -> nat {
    if value >= 0 {
        (2 * value) as nat
    } else {
        (-2 * value - 1) as nat
    }
}

/// The zigzag image of `value`, modulo 2^64, so that small negative values
/// remain compact.
pub fn zigzag_i128(value: i128) -> (r: u64)
    ensures
        r as int == zigzag(value as int) as int % 0x1_0000_0000_0000_0000,
{
    let r: u64 = #[verifier::truncate] (((value << 1) ^ (value >> 127)) as u64);
    assert(value >= 0 ==> ((value << 1u32) ^ (value >> 127u32)) as u64 == (2 * value)
        % 0x1_0000_0000_0000_0000) by (bit_vector);
    assert(value < 0 ==> ((value << 1u32) ^ (value >> 127u32)) as u64 == (-2 * value - 1)
        % 0x1_0000_0000_0000_0000) by (bit_vector);
    r
}

/// The code of one cell. `scaled` is the reading of the trimmed cell as a
/// decimal number, times 1000 and rounded, where it has one.
/// - an unsigned integer stays as it is
/// - a signed integer becomes its zigzag image
/// - another number becomes the zigzag image of its scaled reading
/// - everything else, a cell without text included, is hashed as text
pub open spec fn cell_code(cell: Seq<char>, scaled: Option<i128>) -> u64 {
    let trimmed = text::trimmed(cell);
    if decimal::read_u64(trimmed) is Some {
        decimal::read_u64(trimmed)->0
    } else if decimal::read_i64(trimmed) is Some {
        (zigzag(decimal::read_i64(trimmed)->0 as int) % 0x1_0000_0000_0000_0000) as u64
    } else if scaled is Some {
        (zigzag(scaled->0 as int) % 0x1_0000_0000_0000_0000) as u64
    } else {
        fnv1a(vstd::utf8::encode_utf8(trimmed))
    }
}

/// Canonical encoding of one cell before it becomes a field element.
pub fn encode_cell_to_u64(cell: &str, scaled: Option<i128>) -> (code: u64)
    ensures
        code == cell_code(cell@, scaled),
        decimal::read_u64(text::trimmed(cell@)) is Some ==> Some(code) == decimal::read_u64(
            text::trimmed(cell@),
        ),
        decimal::read_u64(text::trimmed(cell@)) is None && scaled is Some && decimal::read_i64(
            text::trimmed(cell@),
        ) is None ==> code as int == if scaled->0 >= 0 {
            (2 * scaled->0) % 0x1_0000_0000_0000_0000
        } else {
            (-2 * scaled->0 - 1) % 0x1_0000_0000_0000_0000
        },
{
    let trimmed = text::trim_text(cell);
    if let Some(value) = decimal::parse_u64(trimmed) {
        return value;
    }
    if let Some(value) = decimal::parse_i64(trimmed) {
        return zigzag_i128(value as i128);
    }
    if let Some(value) = scaled {
        return zigzag_i128(value);
    }
    hash_string_to_u64(trimmed)
}

/// The values of one encoded row: the codes of its first `MAX_COLUMNS` fields,
/// and zero in the slots beyond them.
pub open spec fn encoded_row(fields: Seq<Seq<char>>, scaled: Seq<Option<i128>>) -> Seq<nat> {
    Seq::new(
        MAX_COLUMNS as nat,
        |i: int|
            if i < fields.len() {
                cell_code(fields[i], scaled[i]) as nat
            } else {
                0
            },
    )
}

/// Converts one logical row into its fixed-width representation: the row is
/// padded with zeros or truncated. `scaled` holds the scaled reading of each
/// field.
pub fn encode_dataset_row(fields: &[&str], scaled: &[Option<i128>]) -> (row: Vec<FieldElement>)
    requires
        scaled@.len() == fields@.len(),
    ensures
        field::values(row@) == encoded_row(text::field_views(fields@), scaled@),
        row@.len() == 16,
        forall|i: int|
            0 <= i < 16 ==> (#[trigger] row@[i])@ == if i < fields@.len() {
                cell_code(fields@[i]@, scaled@[i]) as nat
            } else {
                0
            },
{
    let mut row: Vec<FieldElement> = Vec::with_capacity(MAX_COLUMNS);
    let mut i: usize = 0;
    while i < MAX_COLUMNS
        invariant
            i <= MAX_COLUMNS,
            row@.len() == i,
            scaled@.len() == fields@.len(),
            forall|j: int|
                0 <= j < i ==> (#[trigger] row@[j])@ == encoded_row(
                    text::field_views(fields@),
                    scaled@,
                )[j],
        decreases MAX_COLUMNS - i,
    {
        if i < fields.len() {
            row.push(FieldElement::from_u64(encode_cell_to_u64(fields[i], scaled[i])));
        } else {
            row.push(FieldElement::from_u64(0));
        }
        i = i + 1;
    }
    row
}

proof fn lemma_trimmed_keeps(s: Seq<char>)
    requires
        s.len() > 0,
        !text::is_white_space(s[0]),
        !text::is_white_space(s.last()),
    ensures
        text::trimmed(s) == s,
{
}

/// An unsigned integer stays as it is: the digits of a `u64` encode as that
/// number.
pub proof fn law_unsigned_integers_stay(value: u64, scaled: Option<i128>)
    ensures
        cell_code(decimal::decimal_text(value as nat), scaled) == value,
{
    let s = decimal::decimal_text(value as nat);
    decimal::law_decimal_text_has_its_value(value as nat);
    decimal::law_read_u64_of_its_text(value);
    assert(decimal::is_digit(s[0]));
    assert(decimal::is_digit(s[s.len() - 1]));
    lemma_trimmed_keeps(s);
}

/// A negative integer becomes its zigzag image.
pub proof fn law_negative_integers_zigzag(value: i64, scaled: Option<i128>)
    requires
        value < 0,
    ensures
        cell_code(seq!['-'] + decimal::decimal_text(-value as nat), scaled) == zigzag(value as int),
{
    let digits = decimal::decimal_text(-value as nat);
    let s = seq!['-'] + digits;
    decimal::law_decimal_text_has_its_value(-value as nat);
    decimal::law_read_i64_of_its_text(value);
    assert(decimal::is_digit(digits[digits.len() - 1]));
    assert(s[0] == '-');
    assert(s.last() == digits[digits.len() - 1]);
    lemma_trimmed_keeps(s);
}

/// Zigzag images are distinct, and compact: no image is more than twice the
/// magnitude.
pub proof fn law_zigzag_is_compact_and_distinct(a: int, b: int)
    ensures
        zigzag(a) == zigzag(b) ==> a == b,
        a >= 0 ==> zigzag(a) <= 2 * a,
        a < 0 ==> zigzag(a) <= 2 * -a,
{
}

/// No `i64` loses anything by being reduced modulo 2^64: its zigzag image fits.
pub proof fn law_zigzag_of_i64_fits(value: i64)
    ensures
        zigzag(value as int) < 0x1_0000_0000_0000_0000,
        zigzag(value as int) as int % 0x1_0000_0000_0000_0000 == zigzag(value as int),
{
}

/// White space around a cell does not change its code.
pub proof fn law_code_ignores_surrounding_white_space(cell: Seq<char>, scaled: Option<i128>)
    ensures
        cell_code(text::trimmed(cell), scaled) == cell_code(cell, scaled),
{
    text::law_trimmed_is_stable(cell);
}

/// A cell without text is not a number: without a reading it encodes as the hash
/// of the empty text.
pub proof fn law_cell_without_text_is_hashed(cell: Seq<char>)
    requires
        text::trimmed(cell).len() == 0,
    ensures
        cell_code(cell, None) == fnv1a(Seq::empty()),
{
    assert(text::trimmed(cell) =~= Seq::<char>::empty());
    assert(vstd::utf8::encode_utf8(text::trimmed(cell)) =~= Seq::<u8>::empty());
}

/// A row is truncated to the slots it has: fields beyond them change nothing.
pub proof fn law_long_rows_are_truncated(fields: Seq<Seq<char>>, scaled: Seq<Option<i128>>)
    requires
        fields.len() >= MAX_COLUMNS,
        scaled.len() == fields.len(),
    ensures
        encoded_row(fields, scaled) == encoded_row(
            fields.take(MAX_COLUMNS as int),
            scaled.take(MAX_COLUMNS as int),
        ),
{
    assert(encoded_row(fields, scaled) =~= encoded_row(
        fields.take(MAX_COLUMNS as int),
        scaled.take(MAX_COLUMNS as int),
    ));
}

/// Zigzag images are undone by halving: an even number is the image of its half,
/// an odd one the image of the negative number that rounds its half away from
/// zero.
pub proof fn law_zigzag_is_undone(code: nat)
    ensures
        code % 2 == 0 ==> zigzag(code as int / 2) == code,
        code % 2 == 1 ==> zigzag(-((code + 1) as int / 2)) == code,
{
}

/// A cell that reads as an unsigned integer has that integer as its code,
/// whatever else it reads as.
pub proof fn law_code_of_an_unsigned_cell(cell: Seq<char>, scaled: Option<i128>, value: u64)
    requires
        decimal::read_u64(text::trimmed(cell)) == Some(value),
    ensures
        cell_code(cell, scaled) == value,
{
}

/// A cell that reads as a signed and not as an unsigned integer has twice that
/// integer, or one less than twice its magnitude, as its code.
pub proof fn law_code_of_a_signed_cell(cell: Seq<char>, scaled: Option<i128>, value: i64)
    requires
        decimal::read_u64(text::trimmed(cell)) is None,
        decimal::read_i64(text::trimmed(cell)) == Some(value),
    ensures
        value >= 0 ==> cell_code(cell, scaled) == 2 * value,
        value < 0 ==> cell_code(cell, scaled) == -2 * value - 1,
{
}

/// A cell that reads as another number has twice its scaled reading, or one less
/// than twice the magnitude of that reading, as its code; a reading outside of
/// 64 bits counts modulo 2^64.
pub proof fn law_code_of_a_scaled_cell(cell: Seq<char>, reading: i128)
    requires
        decimal::read_u64(text::trimmed(cell)) is None,
        decimal::read_i64(text::trimmed(cell)) is None,
    ensures
        -0x8000_0000_0000_0000 <= reading < 0x8000_0000_0000_0000 ==> {
            &&& reading >= 0 ==> cell_code(cell, Some(reading)) == 2 * reading
            &&& reading < 0 ==> cell_code(cell, Some(reading)) == -2 * reading - 1
        },
        reading >= 0 ==> (2 * reading - cell_code(cell, Some(reading)))
            % 0x1_0000_0000_0000_0000 == 0,
        reading < 0 ==> (-2 * reading - 1 - cell_code(cell, Some(reading)))
            % 0x1_0000_0000_0000_0000 == 0,
{
}

/// Two such cells with different readings of 64 bits have different codes.
pub proof fn law_scaled_cells_are_told_apart(
    cell1: Seq<char>,
    reading1: i128,
    cell2: Seq<char>,
    reading2: i128,
)
    requires
        decimal::read_u64(text::trimmed(cell1)) is None,
        decimal::read_i64(text::trimmed(cell1)) is None,
        decimal::read_u64(text::trimmed(cell2)) is None,
        decimal::read_i64(text::trimmed(cell2)) is None,
        -0x8000_0000_0000_0000 <= reading1 < 0x8000_0000_0000_0000,
        -0x8000_0000_0000_0000 <= reading2 < 0x8000_0000_0000_0000,
        reading1 != reading2,
    ensures
        cell_code(cell1, Some(reading1)) != cell_code(cell2, Some(reading2)),
{
    law_code_of_a_scaled_cell(cell1, reading1);
    law_code_of_a_scaled_cell(cell2, reading2);
}

/// A cell that is no number has the hash of its trimmed text as its code.
pub proof fn law_code_of_a_text_cell(cell: Seq<char>)
    requires
        decimal::read_u64(text::trimmed(cell)) is None,
        decimal::read_i64(text::trimmed(cell)) is None,
    ensures
        cell_code(cell, None) == fnv1a(vstd::utf8::encode_utf8(text::trimmed(cell))),
{
}

/// How the hash grows: it starts at the offset basis, and each byte is xored in
/// before a multiplication by the prime, modulo 2^64.
pub proof fn law_hash_takes_one_byte_at_a_time(bytes: Seq<u8>, byte: u8)
    ensures
        fnv1a(Seq::empty()) == 0xcbf29ce484222325,
        fnv1a(bytes.push(byte)) as int == ((fnv1a(bytes) ^ (byte as u64)) * 0x100000001b3)
            % 0x1_0000_0000_0000_0000,
{
    assert(bytes.push(byte).drop_last() =~= bytes);
    assert(bytes.push(byte).last() == byte);
}

/// Multiplication by the prime loses nothing modulo 2^64.
proof fn lemma_prime_is_invertible(u: u64)
    ensures
        (((u * 0x100000001b3) % 0x1_0000_0000_0000_0000) * 0xce965057aff6957b)
            % 0x1_0000_0000_0000_0000 == u,
{
    let m: int = 0x1_0000_0000_0000_0000;
    let p: int = 0x100000001b3;
    let q: int = 0xce965057aff6957b;
    let t: int = 0xce9650590f;
    assert(p * q == 1 + t * m);
    vstd::arithmetic::div_mod::lemma_mul_mod_noop_left(u * p, q, m);
    assert((u * p) * q == u + (u * t) * m) by (nonlinear_arith)
        requires
            p * q == 1 + t * m,
    ;
    vstd::arithmetic::div_mod::lemma_mod_multiples_vanish(u * t, u as int, m);
    assert(m * (u * t) + u == u + (u * t) * m) by (nonlinear_arith);
    vstd::arithmetic::div_mod::lemma_small_mod(u as nat, m as nat);
}

/// The hash tells texts apart that differ in one byte at the same place and in
/// nothing else, and keeps states apart: equal hashes after the same byte come
/// from equal hashes before it, and after the same bytes from equal last bytes.
pub proof fn law_hash_step_loses_nothing(a: Seq<u8>, x: u8, b: Seq<u8>, y: u8)
    requires
        fnv1a(a.push(x)) == fnv1a(b.push(y)),
    ensures
        x == y ==> fnv1a(a) == fnv1a(b),
        fnv1a(a) == fnv1a(b) ==> x == y,
{
    let h = fnv1a(a);
    let k = fnv1a(b);
    assert(a.push(x).drop_last() =~= a);
    assert(b.push(y).drop_last() =~= b);
    lemma_prime_is_invertible(h ^ (x as u64));
    lemma_prime_is_invertible(k ^ (y as u64));
    assert(h ^ (x as u64) == k ^ (y as u64));
    assert((h ^ (x as u64)) == (k ^ (y as u64)) ==> (x == y ==> h == k) && (h == k ==> x == y))
        by (bit_vector);
}

/// Each slot of a row holds the code of the field at its place and of no other,
/// and the slots beyond the fields hold zero.
pub proof fn law_slot_holds_its_field(fields: Seq<Seq<char>>, scaled: Seq<Option<i128>>, i: int)
    requires
        scaled.len() == fields.len(),
        0 <= i < MAX_COLUMNS,
    ensures
        encoded_row(fields, scaled).len() == MAX_COLUMNS,
        i < fields.len() ==> encoded_row(fields, scaled)[i] == cell_code(fields[i], scaled[i]),
        i >= fields.len() ==> encoded_row(fields, scaled)[i] == 0,
{
}

/// Rows that agree on a field and its reading agree on the slot, whatever their
/// other fields are and however many.
pub proof fn law_slot_depends_on_its_field_alone(
    fields1: Seq<Seq<char>>,
    scaled1: Seq<Option<i128>>,
    fields2: Seq<Seq<char>>,
    scaled2: Seq<Option<i128>>,
    i: int,
)
    requires
        scaled1.len() == fields1.len(),
        scaled2.len() == fields2.len(),
        0 <= i < MAX_COLUMNS,
        i < fields1.len(),
        i < fields2.len(),
        fields1[i] == fields2[i],
        scaled1[i] == scaled2[i],
    ensures
        encoded_row(fields1, scaled1)[i] == encoded_row(fields2, scaled2)[i],
{
}

/// A field put before a row takes the first slot and moves every other field by
/// one slot.
pub proof fn law_prepended_field_shifts_the_row(
    field: Seq<char>,
    reading: Option<i128>,
    fields: Seq<Seq<char>>,
    scaled: Seq<Option<i128>>,
)
    requires
        scaled.len() == fields.len(),
    ensures
        encoded_row(seq![field] + fields, seq![reading] + scaled) == (seq![
            cell_code(field, reading) as nat,
        ] + encoded_row(fields, scaled)).take(MAX_COLUMNS as int),
{
    assert(encoded_row(seq![field] + fields, seq![reading] + scaled) =~= (seq![
        cell_code(field, reading) as nat,
    ] + encoded_row(fields, scaled)).take(MAX_COLUMNS as int));
}

} // verus!
