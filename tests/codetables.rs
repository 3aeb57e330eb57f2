use g2r::codetables::{
    key_cell_matches, subtitle_codes_of, table_name_of, Codetable, CodetableLoadError,
    CodetableManager, TableSource,
};

fn strings(v: &[&str]) -> Vec<String> {
    v.iter().map(|s| s.to_string()).collect()
}

fn table(records: &[&[&str]]) -> Codetable {
    let recs: Vec<Vec<String>> = records.iter().map(|r| strings(r)).collect();
    Codetable::from_records(String::from("t.csv"), recs).unwrap()
}

fn flag_table() -> Codetable {
    table(&[
        &["Title_en", "CodeFlag", "Meaning", "Unit"],
        &["t", "0", "Zero", "K"],
        &["t", "1-3", "Small", "m"],
        &["t", "7", "Seven", "s"],
        &["t", "10-191", "Reserved", ""],
    ])
}

#[test]
fn find_parameter_returns_meaning_title() {
    let t = table(&[&["CodeFlag", "Meaning", "Unit"]]);
    assert_eq!(t.find_parameter("Meaning").unwrap().as_str(), "Meaning");
    assert_eq!(t.find_parameter("Mean").unwrap().as_str(), "Meaning");
    assert!(t.find_parameter("Status").is_none());
}

#[test]
fn is_template_follows_header_only() {
    let tpl = table(&[&["Title_en", "OctetNo", "Contents"], &["x", "1-4", "CodeFlag"]]);
    assert!(tpl.is_template());
    let flags = table(&[&["Title_en", "CodeFlag", "Meaning"], &["OctetNo", "1", "OctetNo"]]);
    assert!(!flags.is_template());
    let near = table(&[&["OctetNumber", "Meaning"]]);
    assert!(!near.is_template());
}

#[test]
fn codepoint_lookup_literal_and_range() {
    let t = flag_table();
    assert_eq!(t.codepoint_lookup(0, "Meaning").unwrap(), "Zero");
    assert_eq!(t.codepoint_lookup(7, "Meaning").unwrap(), "Seven");
    assert_eq!(t.codepoint_lookup(2, "Unit").unwrap(), "m");
    assert_eq!(t.codepoint_lookup(100, "Meaning").unwrap(), "Reserved");
}

#[test]
fn codepoint_lookup_range_ends_inclusive() {
    let t = flag_table();
    assert_eq!(t.codepoint_lookup(1, "Meaning").unwrap(), "Small");
    assert_eq!(t.codepoint_lookup(3, "Meaning").unwrap(), "Small");
    assert_eq!(t.codepoint_lookup(10, "Meaning").unwrap(), "Reserved");
    assert_eq!(t.codepoint_lookup(191, "Meaning").unwrap(), "Reserved");
    assert!(t.codepoint_lookup(192, "Meaning").is_none());
}

#[test]
fn codepoint_lookup_misses() {
    let t = flag_table();
    assert!(t.codepoint_lookup(4, "Meaning").is_none());
    assert!(t.codepoint_lookup(-1, "Meaning").is_none());
    assert!(t.codepoint_lookup(0, "Mean").is_none());
    let no_key = table(&[&["Meaning"], &["a"]]);
    assert!(no_key.codepoint_lookup(0, "Meaning").is_none());
}

#[test]
fn codepoint_lookup_template_table_uses_octet_column() {
    let t = table(&[
        &["Title_en", "OctetNo", "CodeFlag", "Contents"],
        &["t", "1-4", "9", "Length"],
        &["t", "5", "0", "Section number"],
    ]);
    assert_eq!(t.codepoint_lookup(5, "Contents").unwrap(), "Section number");
    assert_eq!(t.codepoint_lookup(2, "Contents").unwrap(), "Length");
    assert!(t.codepoint_lookup(9, "Contents").is_none());
}

#[test]
fn codepoint_lookup_skips_unparsable_cells() {
    let t = table(&[&["CodeFlag", "Meaning"], &["n/a", "x"], &["4", "Four"]]);
    assert_eq!(t.codepoint_lookup(4, "Meaning").unwrap(), "Four");
}

#[test]
fn parameter_lookup_by_subtitle() {
    let t = table(&[
        &["Title_en", "SubTitle_en", "CodeFlag", "Meaning", "Unit"],
        &[
            "Code table 4.2",
            "Product discipline 0 - Meteorological products, parameter category 1: Moisture",
            "0-10",
            "Relative Humidity",
            "%",
        ],
    ]);
    let (m, u) = t.parameter_number_codepoint_lookup(0, 1, 2).unwrap();
    assert_eq!(m, "Relative Humidity");
    assert_eq!(u, "%");
    assert!(t.parameter_number_codepoint_lookup(1, 1, 2).is_none());
    assert!(t.parameter_number_codepoint_lookup(0, 2, 2).is_none());
    assert!(t.parameter_number_codepoint_lookup(0, 1, 11).is_none());
}

#[test]
fn parameter_lookup_picks_matching_category() {
    let t = table(&[
        &["SubTitle_en", "CodeFlag", "Meaning", "Unit"],
        &["Product discipline 0 - Meteorological products, parameter category 0: Temperature", "0", "Temperature", "K"],
        &["Product discipline 0 - Meteorological products, parameter category 1: Moisture", "0", "Specific humidity", "kg kg-1"],
        &["not a subtitle", "0", "Broken", "-"],
    ]);
    let (m, u) = t.parameter_number_codepoint_lookup(0, 1, 0).unwrap();
    assert_eq!(m, "Specific humidity");
    assert_eq!(u, "kg kg-1");
    let (m0, _) = t.parameter_number_codepoint_lookup(0, 0, 0).unwrap();
    assert_eq!(m0, "Temperature");
}

#[test]
fn parameter_lookup_needs_all_columns() {
    let t = table(&[
        &["SubTitle_en", "CodeFlag", "Meaning"],
        &["Product discipline 0 - Meteorological products, parameter category 1: Moisture", "0-10", "Relative Humidity"],
    ]);
    assert!(t.parameter_number_codepoint_lookup(0, 1, 2).is_none());
}

#[test]
fn subtitle_grammar() {
    assert_eq!(
        subtitle_codes_of("Product discipline 10 - Oceanographic products, parameter category 191: Miscellaneous"),
        Some((10, 191))
    );
    assert_eq!(subtitle_codes_of("Product discipline 0 - Meteorological products"), None);
    assert_eq!(subtitle_codes_of("Product discipline x - Meteorological products, parameter category 1: M"), None);
    assert_eq!(subtitle_codes_of(""), None);
}

#[test]
fn key_cells() {
    assert!(key_cell_matches("5", 5));
    assert!(!key_cell_matches("5", 6));
    assert!(key_cell_matches("192-254", 192));
    assert!(key_cell_matches("192-254", 254));
    assert!(!key_cell_matches("192-254", 255));
    assert!(!key_cell_matches("", 0));
    assert!(!key_cell_matches("-5", -5));
    assert!(!key_cell_matches("99999999999999999999", 0));
}

#[test]
fn column_access() {
    let t = flag_table();
    assert_eq!(t.columns(), 4);
    assert_eq!(t.rows(), 4);
    assert_eq!(t.column_index("Meaning"), Some(2));
    assert_eq!(t.column_index("Mean"), None);
    assert_eq!(t.column(1).unwrap(), strings(&["0", "1-3", "7", "10-191"]));
    assert!(t.column(4).is_none());
    assert_eq!(t.row(1).unwrap(), strings(&["t", "1-3", "Small", "m"]));
    assert!(t.row(4).is_none());
    assert_eq!(t.header(), &strings(&["Title_en", "CodeFlag", "Meaning", "Unit"]));
    assert_eq!(t.path(), "t.csv");
}

#[test]
fn lookup_by_value() {
    let t = flag_table();
    assert_eq!(t.lookup(String::from("7"), 1, 2).unwrap(), "Seven");
    assert_eq!(t.lookup(String::from("Small"), 2, 3).unwrap(), "m");
    assert!(t.lookup(String::from("8"), 1, 2).is_none());
    assert!(t.lookup(String::from("7"), 1, 9).is_none());
    assert!(t.lookup(String::from("7"), 9, 1).is_none());
}

#[test]
fn from_records_checks_shape() {
    let ragged = vec![strings(&["a", "b"]), strings(&["1"])];
    assert!(matches!(
        Codetable::from_records(String::from("r.csv"), ragged),
        Err(CodetableLoadError::InvalidCSV)
    ));
    let empty = Codetable::from_records(String::from("e.csv"), Vec::new()).unwrap();
    assert_eq!(empty.columns(), 0);
    assert_eq!(empty.rows(), 0);
}

#[test]
fn from_csv_reads_records() {
    let bytes = b"Title_en,CodeFlag,Meaning\nx,1-2,\"One, or two\"\ny,3,Three\n";
    let t = Codetable::from_csv(String::from("c.csv"), bytes).unwrap();
    assert_eq!(t.header(), &strings(&["Title_en", "CodeFlag", "Meaning"]));
    assert_eq!(t.rows(), 2);
    assert_eq!(t.codepoint_lookup(2, "Meaning").unwrap(), "One, or two");
    assert_eq!(t.codepoint_lookup(3, "Meaning").unwrap(), "Three");
}

#[test]
fn from_csv_rejects_ragged_and_invalid() {
    let ragged = b"a,b\n1\n";
    assert!(matches!(
        Codetable::from_csv(String::from("r.csv"), ragged),
        Err(CodetableLoadError::InvalidCSV)
    ));
    let bad_utf8: &[u8] = &[b'a', b'\n', 0xff, 0xfe, b'\n'];
    assert!(matches!(
        Codetable::from_csv(String::from("u.csv"), bad_utf8),
        Err(CodetableLoadError::InvalidCSV)
    ));
}

#[test]
fn table_names_from_files() {
    assert_eq!(table_name_of("CodeFlag_4_2_0_0_CodeTable_en.csv").unwrap(), "CodeFlag_4_2_0_0_CodeTable_en");
    assert_eq!(table_name_of("a.b.csv").unwrap(), "a");
    assert!(table_name_of("notes.txt").is_none());
    assert!(table_name_of("csv").is_none());
}

fn registry(names: &[&str]) -> CodetableManager {
    let mut m = CodetableManager::new();
    for n in names {
        let t = Codetable::from_records(
            format!("{}.csv", n),
            vec![strings(&["CodeFlag", "Meaning"]), strings(&["1", n])],
        )
        .unwrap();
        m.insert(n.to_string(), t);
    }
    m
}

#[test]
fn search_for_key_is_least_match() {
    let a = registry(&["CodeFlag_4_2_", "CodeFlag_0_0_", "Template_4_0", "CodeFlag_4_1_"]);
    assert_eq!(a.search_for_key("CodeFlag_4"), Some("CodeFlag_4_1_"));
    assert_eq!(a.search_for_key("CodeFlag"), Some("CodeFlag_0_0_"));
    assert_eq!(a.search_for_key("Missing"), None);
}

#[test]
fn search_for_key_independent_of_load_order() {
    let a = registry(&["CodeFlag_4_2_", "CodeFlag_0_0_", "CodeFlag_4_1_"]);
    let b = registry(&["CodeFlag_4_1_", "CodeFlag_4_2_", "CodeFlag_0_0_"]);
    for kw in ["CodeFlag", "4_", "_", "2", "zzz"] {
        assert_eq!(a.search_for_key(kw), b.search_for_key(kw));
        assert_eq!(a.search_for_key(kw), a.search_for_key(kw));
    }
}

#[test]
fn registry_lookups() {
    let mut m = registry(&["CodeFlag_4_2_", "CodeFlag_0_0_"]);
    assert_eq!(m.table_names(), strings(&["CodeFlag_4_2_", "CodeFlag_0_0_"]));
    assert_eq!(m.table("CodeFlag_0_0_").unwrap().path(), "CodeFlag_0_0_.csv");
    assert!(m.table("CodeFlag_0_").is_none());
    assert_eq!(m.search_for_table("4_2").unwrap().path(), "CodeFlag_4_2_.csv");
    assert_eq!(m.query_parameters("CodeFlag_4_2_").unwrap(), &strings(&["CodeFlag", "Meaning"]));
    assert!(m.query_parameters("x").is_none());
    let replacement = Codetable::from_records(String::from("new.csv"), vec![strings(&["OctetNo"])]).unwrap();
    m.insert(String::from("CodeFlag_0_0_"), replacement);
    assert_eq!(m.table_names().len(), 2);
    assert_eq!(m.table("CodeFlag_0_0_").unwrap().path(), "new.csv");
}

fn source(name: &str, contents: Result<&[u8], &str>) -> TableSource {
    TableSource {
        file_name: name.to_string(),
        path: format!("dir/{}", name),
        contents: contents.map(|b| b.to_vec()).map_err(|e| e.to_string()),
    }
}

#[test]
fn load_sources_counts_table_files() {
    let mut m = CodetableManager::new();
    let sources = vec![
        source("CodeFlag_0_0_CodeTable_en.csv", Ok(b"CodeFlag,Meaning\n0,Meteorological products\n")),
        source("README.md", Err("unreadable")),
        source("Template_3_0_en.csv", Ok(b"OctetNo,Contents\n15,Shape of the earth\n")),
    ];
    assert_eq!(m.load_sources(&sources).unwrap(), 2);
    let t = m.table("CodeFlag_0_0_CodeTable_en").unwrap();
    assert_eq!(t.codepoint_lookup(0, "Meaning").unwrap(), "Meteorological products");
    assert!(m.table("Template_3_0_en").unwrap().is_template());
}

#[test]
fn load_sources_stops_on_errors() {
    let mut m = CodetableManager::new();
    let io = vec![source("a.csv", Err("permission denied"))];
    match m.load_sources(&io) {
        Err(CodetableLoadError::IOError(msg)) => assert_eq!(msg, "permission denied"),
        other => panic!("unexpected {:?}", other),
    }
    let bad = vec![source("b.csv", Ok(b"a,b\n1\n"))];
    assert!(matches!(m.load_sources(&bad), Err(CodetableLoadError::InvalidCSV)));
}

#[test]
fn load_sources_last_file_wins() {
    let mut m = CodetableManager::new();
    let sources = vec![
        source("CodeFlag_4_5.csv", Ok(b"CodeFlag,Meaning\n1,Ground\n")),
        source("Other.csv", Ok(b"CodeFlag,Meaning\n2,Other\n")),
        source("CodeFlag_4_5.v2.csv", Ok(b"CodeFlag,Meaning\n1,Surface\n")),
    ];
    assert_eq!(m.load_sources(&sources).unwrap(), 3);
    assert_eq!(m.table_names(), strings(&["CodeFlag_4_5", "Other"]));
    let t = m.table("CodeFlag_4_5").unwrap();
    assert_eq!(t.path(), "dir/CodeFlag_4_5.v2.csv");
    assert_eq!(t.codepoint_lookup(1, "Meaning").unwrap(), "Surface");
}
