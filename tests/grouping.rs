use cargo_size_analyzer::aggregate::{aggregate, sort_by_size};
use cargo_size_analyzer::analyze::{analyze, report_rows, AnalyzeError};
use cargo_size_analyzer::group::{group_key, group_of_symbol_name, unknown_key};
use cargo_size_analyzer::{SymbolInfo, SymbolRecord};

fn sym(name: Option<&str>, size: u64, is_definition: bool) -> SymbolRecord {
    SymbolRecord { name: name.map(|n| n.to_string()), size, is_definition }
}

fn pairs(rows: &[SymbolInfo]) -> Vec<(String, u64)> {
    rows.iter().map(|r| (r.crate_name.clone(), r.size)).collect()
}

fn sorted_pairs(rows: &[SymbolInfo]) -> Vec<(String, u64)> {
    let mut p = pairs(rows);
    p.sort();
    p
}

#[test]
fn group_key_takes_first_segment() {
    assert_eq!(group_key("core::fmt::write"), "core");
    assert_eq!(group_key("alloc::vec::Vec<T>::push"), "alloc");
    assert_eq!(group_key("a:b::c"), "a:b");
    assert_eq!(group_key("größe::x"), "größe");
}

#[test]
fn group_key_without_separator_is_whole_name() {
    assert_eq!(group_key("memcpy"), "memcpy");
    assert_eq!(group_key("a:"), "a:");
    assert_eq!(group_key(":"), ":");
}

#[test]
fn group_key_empty_segment_is_unknown() {
    assert_eq!(group_key(""), "<unknown>");
    assert_eq!(group_key("::x"), "<unknown>");
    assert_eq!(unknown_key(), "<unknown>");
}

#[test]
fn group_of_mangled_names() {
    assert_eq!(group_of_symbol_name("_ZN4core3fmt5write17h0123456789abcdefE"), "core");
    assert_eq!(group_of_symbol_name("_ZN5alloc3vec12Vec$LT$T$GT$4push17h0123456789abcdefE"), "alloc");
    assert_eq!(group_of_symbol_name("memcpy"), "memcpy");
}

#[test]
fn totals_count_only_defined_symbols_with_size() {
    let syms = vec![
        sym(Some("_ZN4core3fmt5write17h0123456789abcdefE"), 100, true),
        sym(Some("_ZN4core3ptr4read17h0123456789abcdefE"), 20, true),
        sym(Some("_ZN5alloc3vec3new17h0123456789abcdefE"), 50, true),
        sym(Some("_ZN3std2io5stdout17h0123456789abcdefE"), 0, false),
        sym(Some("_ZN3std2io5stdin17h0123456789abcdefE"), 30, false),
        sym(Some("_ZN3std2io5empty17h0123456789abcdefE"), 0, true),
    ];
    let rows = aggregate(&syms).unwrap();
    let total: u64 = rows.iter().map(|r| r.size).sum();
    assert_eq!(total, 170);
    assert_eq!(
        sorted_pairs(&rows),
        vec![("alloc".to_string(), 50), ("core".to_string(), 120)]
    );
}

#[test]
fn same_first_segment_shares_a_group() {
    let syms = vec![
        sym(Some("_ZN5serde2de5Error17h0123456789abcdefE"), 7, true),
        sym(Some("_ZN5serde3ser10Serializer17h0123456789abcdefE"), 5, true),
        sym(Some("serde::x::y"), 3, true),
    ];
    let rows = aggregate(&syms).unwrap();
    assert_eq!(pairs(&rows), vec![("serde".to_string(), 15)]);
}

#[test]
fn nameless_symbol_is_unknown() {
    let syms = vec![sym(None, 8, true), sym(Some(""), 4, true), sym(Some("main"), 2, true)];
    let rows = report_rows(&syms).unwrap();
    assert_eq!(
        pairs(&rows),
        vec![("<unknown>".to_string(), 12), ("main".to_string(), 2)]
    );
}

#[test]
fn empty_table_gives_no_rows() {
    let rows = report_rows(&Vec::new()).unwrap();
    assert!(rows.is_empty());
}

#[test]
fn overflowing_group_total_is_refused() {
    let syms = vec![sym(Some("a::x"), u64::MAX, true), sym(Some("a::y"), 1, true)];
    assert!(aggregate(&syms).is_none());
    assert!(report_rows(&syms).is_none());
    let fits = vec![sym(Some("a::x"), u64::MAX - 1, true), sym(Some("a::y"), 1, true)];
    assert_eq!(pairs(&report_rows(&fits).unwrap()), vec![("a".to_string(), u64::MAX)]);
}

#[test]
fn groups_that_fit_alone_are_kept_when_their_sum_does_not() {
    let syms = vec![sym(Some("a::x"), u64::MAX, true), sym(Some("b::y"), 1, true)];
    assert_eq!(
        pairs(&report_rows(&syms).unwrap()),
        vec![("a".to_string(), u64::MAX), ("b".to_string(), 1)]
    );
}

#[test]
fn rows_come_largest_first() {
    let rows = vec![
        SymbolInfo { crate_name: "a".to_string(), size: 3 },
        SymbolInfo { crate_name: "b".to_string(), size: 9 },
        SymbolInfo { crate_name: "c".to_string(), size: 3 },
        SymbolInfo { crate_name: "d".to_string(), size: 1 },
        SymbolInfo { crate_name: "e".to_string(), size: 7 },
    ];
    let sorted = sort_by_size(rows);
    assert_eq!(
        pairs(&sorted),
        vec![
            ("b".to_string(), 9),
            ("e".to_string(), 7),
            ("a".to_string(), 3),
            ("c".to_string(), 3),
            ("d".to_string(), 1)
        ]
    );
    for w in sorted.windows(2) {
        assert!(w[0].size >= w[1].size);
    }
}

#[test]
fn scenario_from_symbol_records() {
    let syms = vec![
        sym(Some("_ZN4core3fmt5write17h0123456789abcdefE"), 100, true),
        sym(Some("_ZN5alloc3vec3new17h0123456789abcdefE"), 50, true),
        sym(Some("_ZN3std2io5stdout17h0123456789abcdefE"), 0, false),
    ];
    let rows = report_rows(&syms).unwrap();
    assert_eq!(
        pairs(&rows),
        vec![("core".to_string(), 100), ("alloc".to_string(), 50)]
    );
}

#[test]
fn text_bytes_are_not_an_object_file() {
    let r = analyze(b"this is plain text, not an object file\n");
    assert!(matches!(r, Err(AnalyzeError::Parse(_))));
    assert!(matches!(analyze(b""), Err(AnalyzeError::Parse(_))));
}
