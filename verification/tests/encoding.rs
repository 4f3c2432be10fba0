use database_commitment::decimal::{parse_i64, parse_u64};
use database_commitment::encode::{
    encode_cell_to_u64, encode_dataset_row, hash_string_to_u64, zigzag_i128, MAX_COLUMNS,
};
use database_commitment::field::FieldElement;
use database_commitment::text::{chars_of, is_blank, normalize_fields, trim_text, white_space};

fn scaled(text: &str) -> Option<i128> {
    text.trim()
        .parse::<f64>()
        .ok()
        .map(|value| (value * 1000.0).round() as i128)
}

fn code(cell: &str) -> u64 {
    encode_cell_to_u64(cell, scaled(cell))
}

#[test]
fn white_space_is_the_unicode_property() {
    for v in 0..=0x10ffffu32 {
        if let Some(c) = char::from_u32(v) {
            assert_eq!(white_space(c), c.is_whitespace(), "{:x}", v);
        }
    }
}

#[test]
fn trimming_agrees_with_std() {
    for s in [
        "", " ", "a", " a", "a ", "  a b  ", "\t\n x \r", "\u{a0}é\u{3000}", "|", " | ", "\u{200b}a",
    ] {
        assert_eq!(trim_text(s), s.trim());
        assert_eq!(trim_text(trim_text(s)), s.trim());
        assert_eq!(is_blank(s), s.trim().is_empty());
    }
}

#[test]
fn characters_come_in_order() {
    assert_eq!(chars_of("aé漢"), vec!['a', 'é', '漢']);
    assert_eq!(chars_of(""), Vec::<char>::new());
}

#[test]
fn trailing_empty_fields_are_dropped() {
    assert_eq!(normalize_fields("0|AFRICA|lar deposits. |"), vec!["0", "AFRICA", "lar deposits."]);
    assert_eq!(normalize_fields("0|AFRICA|lar deposits."), vec!["0", "AFRICA", "lar deposits."]);
    assert_eq!(normalize_fields("a| | |"), vec!["a"]);
    assert_eq!(normalize_fields("|a"), vec!["", "a"]);
    assert_eq!(normalize_fields("a||b||"), vec!["a", "", "b"]);
    assert_eq!(normalize_fields(" é | 漢 |"), vec!["é", "漢"]);
    assert!(normalize_fields("").is_empty());
    assert!(normalize_fields("|").is_empty());
    assert!(normalize_fields(" | || ").is_empty());
    assert!(normalize_fields("   ").is_empty());
}

#[test]
fn a_tail_without_text_is_ignored() {
    for line in ["", "a", "a|b", "a|b|", " | ", "x| y |z"] {
        for tail in ["|", " ", "||", " | ", "|\t| |\u{a0}"] {
            let longer = format!("{}{}", line, tail);
            assert_eq!(normalize_fields(&longer), normalize_fields(line));
        }
    }
}

#[test]
fn fields_agree_with_splitting() {
    for line in ["", "a", "a|b", "|a|b|", " | x ", "1|2.5|-3|x y|  |", "漢|字|"] {
        let mut fields = line.split('|').map(str::trim).collect::<Vec<_>>();
        while fields.last().map_or(false, |last| last.is_empty()) {
            fields.pop();
        }
        assert_eq!(normalize_fields(line), fields);
    }
}

#[test]
fn integers_read_as_std_reads_them() {
    for s in [
        "", "+", "-", "0", "-0", "+0", "007", "+7", "-7", "--7", "+-7", "7 ", " 7", "1_000", "12a",
        "18446744073709551615", "18446744073709551616", "+18446744073709551615",
        "9223372036854775807", "9223372036854775808", "-9223372036854775808",
        "-9223372036854775809", "99999999999999999999999999x", "99999999999999999999999999",
        "-99999999999999999999999999", "٣", "1.5", "1e3", "00000000000000000000000000000000001",
    ] {
        assert_eq!(parse_u64(s), s.parse::<u64>().ok(), "{}", s);
        assert_eq!(parse_i64(s), s.parse::<i64>().ok(), "{}", s);
    }
}

#[test]
fn integers_survive_their_text() {
    for v in [0u64, 1, 9, 10, 99, 12345, u64::MAX] {
        assert_eq!(parse_u64(&v.to_string()), Some(v));
        assert_eq!(code(&v.to_string()), v);
    }
    for v in [-1i64, -10, -12345, i64::MIN] {
        assert_eq!(parse_i64(&v.to_string()), Some(v));
        assert_eq!(parse_u64(&v.to_string()), None);
        assert_eq!(code(&v.to_string()), zigzag_i128(v as i128));
    }
}

#[test]
fn zigzag_interleaves_signs() {
    assert_eq!(zigzag_i128(0), 0);
    assert_eq!(zigzag_i128(-1), 1);
    assert_eq!(zigzag_i128(1), 2);
    assert_eq!(zigzag_i128(-2), 3);
    assert_eq!(zigzag_i128(2), 4);
    assert_eq!(zigzag_i128(i64::MIN as i128), u64::MAX);
    assert_eq!(zigzag_i128(i64::MAX as i128), u64::MAX - 1);
}

#[test]
fn zigzag_keeps_the_low_bits_of_large_values() {
    assert_eq!(zigzag_i128(1i128 << 63), 0);
    assert_eq!(zigzag_i128(i128::MAX), u64::MAX - 1);
    assert_eq!(zigzag_i128(i128::MIN), u64::MAX);
    for v in [i128::MIN, i128::MAX, 1 << 100, -(1 << 100) + 17, 123456789, -987654321] {
        assert_eq!(zigzag_i128(v), ((v << 1) ^ (v >> 127)) as u64);
    }
}

#[test]
fn text_is_hashed_with_fnv() {
    assert_eq!(hash_string_to_u64(""), 0xcbf29ce484222325);
    assert_eq!(hash_string_to_u64("a"), 0xaf63dc4c8601ec8c);
    assert_eq!(hash_string_to_u64("foobar"), 0x85944171f73967e8);
}

#[test]
fn hashing_goes_over_the_utf8_bytes() {
    let mut hash = 0xcbf29ce484222325u64;
    for byte in "é漢".as_bytes() {
        hash ^= *byte as u64;
        hash = hash.wrapping_mul(0x100000001b3);
    }
    assert_eq!(hash_string_to_u64("é漢"), hash);
}

#[test]
fn cells_encode_by_kind() {
    assert_eq!(code(""), 0xcbf29ce484222325);
    assert_eq!(code("   "), 0xcbf29ce484222325);
    assert_eq!(code("42"), 42);
    assert_eq!(code("+42"), 42);
    assert_eq!(code(" 42 "), 42);
    assert_eq!(code("-5"), 9);
    assert_eq!(code("-0"), 0);
    assert_eq!(code("711.56"), 2 * 711560);
    assert_eq!(code("-0.5"), 999);
    assert_eq!(code("1e3"), 2000000);
    assert_eq!(code("18446744073709551616"), zigzag_i128(18446744073709551616000));
    assert_eq!(code("inf"), zigzag_i128(i128::MAX));
    assert_eq!(code("NaN"), 0);
    assert_eq!(code("foobar"), 0x85944171f73967e8);
    assert_eq!(code(" foobar "), 0x85944171f73967e8);
    assert_eq!(code("1996-03-13"), hash_string_to_u64("1996-03-13"));
}

#[test]
fn a_scaled_reading_counts_only_for_other_numbers() {
    assert_eq!(encode_cell_to_u64("7", Some(7000)), 7);
    assert_eq!(encode_cell_to_u64("-7", Some(-7000)), 13);
    assert_eq!(encode_cell_to_u64("", None), hash_string_to_u64(""));
    assert_eq!(encode_cell_to_u64("7.5", Some(7500)), 15000);
    assert_eq!(encode_cell_to_u64("7.5", None), hash_string_to_u64("7.5"));
}

#[test]
fn rows_are_padded_with_zeros() {
    let fields = ["0", "ALGERIA", "-3", "1.25", ""];
    let readings = fields.iter().map(|f| scaled(f)).collect::<Vec<_>>();
    let row = encode_dataset_row(&fields, &readings);
    assert_eq!(row.len(), MAX_COLUMNS);
    assert_eq!(row[0], FieldElement::from_u64(0));
    assert_eq!(row[1], FieldElement::from_u64(hash_string_to_u64("ALGERIA")));
    assert_eq!(row[2], FieldElement::from_u64(5));
    assert_eq!(row[3], FieldElement::from_u64(2500));
    assert_eq!(row[4], FieldElement::from_u64(0xcbf29ce484222325));
    for slot in &row[5..] {
        assert_eq!(*slot, FieldElement::from_u64(0));
    }
}

#[test]
fn an_empty_cell_differs_from_padding() {
    let short = encode_dataset_row(&["1", "2"], &[None, None]);
    let long = encode_dataset_row(&["1", "2", " "], &[None, None, None]);
    assert_eq!(short[2], FieldElement::from_u64(0));
    assert_eq!(long[2], FieldElement::from_u64(hash_string_to_u64("")));
    assert_eq!(short[3..], long[3..]);
}

#[test]
fn longer_rows_are_truncated() {
    let row = encode_dataset_row(&["1"; MAX_COLUMNS + 1], &[None; MAX_COLUMNS + 1]);
    assert_eq!(row, vec![FieldElement::from_u64(1); MAX_COLUMNS]);
    let mut fields = vec!["7"; 20];
    fields[16] = "9";
    let long = encode_dataset_row(&fields, &[None; 20]);
    assert_eq!(long, encode_dataset_row(&fields[..16], &[None; 16]));
}

#[test]
fn the_widest_row_fills_all_slots() {
    let fields = ["1"; MAX_COLUMNS];
    let readings = [None; MAX_COLUMNS];
    let row = encode_dataset_row(&fields, &readings);
    assert!(row.iter().all(|slot| *slot == FieldElement::from_u64(1)));
}
