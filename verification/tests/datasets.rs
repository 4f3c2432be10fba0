use database_commitment::capacity::minimum_logrows;
use database_commitment::dataset::{dataset_fields, load_dataset};
use database_commitment::encode::MAX_COLUMNS;
use database_commitment::field::FieldElement;
use database_commitment::files::{data_dir, dataset_file_paths, is_dataset_file, join_path, text_le};

fn strings(items: &[&str]) -> Vec<String> {
    items.iter().map(|item| item.to_string()).collect()
}

fn readings(lines: &[String]) -> Vec<Vec<Option<i128>>> {
    dataset_fields(lines)
        .iter()
        .map(|row| {
            row.iter()
                .map(|field| field.parse::<f64>().ok().map(|v| (v * 1000.0).round() as i128))
                .collect()
        })
        .collect()
}

#[test]
fn logrows_leave_the_headroom() {
    assert_eq!(minimum_logrows(0), 5);
    assert_eq!(minimum_logrows(1), 6);
    assert_eq!(minimum_logrows(25), 6);
    assert_eq!(minimum_logrows(32), 6);
    assert_eq!(minimum_logrows(33), 7);
    assert_eq!(minimum_logrows(96), 7);
    assert_eq!(minimum_logrows(97), 8);
    assert_eq!(minimum_logrows(60175), 16);
    assert_eq!(minimum_logrows((1usize << 63) - 32), 63);
}

#[test]
fn logrows_grow_with_the_rows() {
    let mut last = 0;
    for n in 0..5000 {
        let k = minimum_logrows(n);
        assert!(k >= last);
        assert!(n + 32 <= 1 << k);
        assert!(k == 4 || 1 << (k - 1) < n + 32);
        last = k;
    }
}

#[test]
fn the_data_directory_is_below_the_crate() {
    assert_eq!(data_dir("/home/x/project"), "/home/x/project/src/data");
    assert_eq!(data_dir("/"), "/src/data");
    assert_eq!(data_dir(""), "src/data");
    for base in ["/home/x/project", "/", "", "a/", "a"] {
        let expected = std::path::PathBuf::from(base).join("src").join("data");
        assert_eq!(data_dir(base), expected.to_str().unwrap());
    }
}

#[test]
fn paths_join_as_std_joins_them() {
    for dir in ["", "/", "a", "a/", "a/b", "é"] {
        let expected = std::path::Path::new(dir).join("n.tbl");
        assert_eq!(join_path(dir, "n.tbl"), expected.to_str().unwrap());
    }
}

#[test]
fn only_tables_are_datasets() {
    for name in [
        "nation.tbl", "region.cvs", "a.b.tbl", "..tbl", "x.tbl.tbl", "nation.TBL", "nation.csv",
        "mod.rs", ".tbl", "tbl", "ntbl", "", "a.", ".cvs", "é.cvs", "a.tbl ",
    ] {
        let extension = std::path::Path::new(name).extension().and_then(|e| e.to_str());
        let expected = extension == Some("tbl") || extension == Some("cvs");
        assert_eq!(is_dataset_file(name), expected, "{}", name);
    }
}

#[test]
fn dataset_files_come_in_order() {
    let listing = strings(&["region.cvs", "mod.rs", "nation.tbl", "lineitem.tbl", "a.txt"]);
    assert_eq!(
        dataset_file_paths("/data", &listing),
        strings(&["/data/lineitem.tbl", "/data/nation.tbl", "/data/region.cvs"])
    );
    assert_eq!(
        dataset_file_paths("", &listing),
        strings(&["lineitem.tbl", "nation.tbl", "region.cvs"])
    );
    assert!(dataset_file_paths("/data", &[]).is_empty());
}

#[test]
fn dataset_files_sort_as_paths_do() {
    let listing = strings(&["b.tbl", "a.tbl", "ab.tbl", "é.tbl", "a.tbl", "B.cvs", "漢.tbl", "a-.tbl"]);
    for dir in ["", "src/data", "/x.y/"] {
        let base = std::path::Path::new(dir);
        let mut paths = listing.iter().map(|name| base.join(name)).collect::<Vec<_>>();
        paths.sort();
        let sorted = paths.iter().map(|p| p.to_str().unwrap().to_string()).collect::<Vec<_>>();
        assert_eq!(dataset_file_paths(dir, &listing), sorted);
    }
}

#[test]
fn text_order_is_that_of_std() {
    let items = ["", "a", "ab", "b", "é", "\u{ffff}", "\u{10000}", "a\u{0}"];
    for a in items {
        for b in items {
            assert_eq!(text_le(a, b), a <= b);
        }
    }
}

#[test]
fn blank_lines_are_skipped() {
    let lines = strings(&["", "0|a|", "  ", "1|b|c|", "\t"]);
    assert_eq!(dataset_fields(&lines), vec![vec!["0", "a"], vec!["1", "b", "c"]]);
    let dense = strings(&["0|a|", "1|b|c|"]);
    assert_eq!(dataset_fields(&lines), dataset_fields(&dense));
}

#[test]
fn a_line_of_pipes_is_a_row_of_zeros() {
    let lines = strings(&["||", "1|2|"]);
    assert_eq!(dataset_fields(&lines), vec![vec![], vec!["1", "2"]]);
    let record = load_dataset("/", "x.tbl", &lines, &readings(&lines));
    assert_eq!(record.rows.len(), 2);
    assert_eq!(record.rows[0], vec![FieldElement::from_u64(0); MAX_COLUMNS]);
}

#[test]
fn a_loaded_dataset_keeps_its_first_row() {
    let lines = strings(&["7|-1|2.5|", "", "8|x|y|z|", "9|"]);
    let record = load_dataset("/data", "t.tbl", &lines, &readings(&lines));
    assert_eq!(record.name, "t.tbl");
    assert_eq!(record.path, "/data/t.tbl");
    assert_eq!(record.width, 4);
    assert_eq!(record.logrows, minimum_logrows(3));
    assert_eq!(record.rows.len(), 3);
    assert_eq!(record.membership_row, record.rows[0]);
    assert_eq!(record.membership_row[0], FieldElement::from_u64(7));
    assert_eq!(record.membership_row[1], FieldElement::from_u64(1));
    assert_eq!(record.membership_row[2], FieldElement::from_u64(5000));
    for row in &record.rows {
        assert_eq!(row.len(), MAX_COLUMNS);
        for slot in &row[record.width..] {
            assert_eq!(*slot, FieldElement::from_u64(0));
        }
    }
}

#[test]
fn every_row_is_encoded_like_a_single_row() {
    let lines = strings(&["1|a|2.5|", "x|-7|3|"]);
    let scaled = readings(&lines);
    let record = load_dataset("", "t.tbl", &lines, &scaled);
    let table = dataset_fields(&lines);
    for (i, row) in record.rows.iter().enumerate() {
        assert_eq!(*row, database_commitment::encode::encode_dataset_row(&table[i], &scaled[i]));
    }
}
