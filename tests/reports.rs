use cargo_size_analyzer::report::{html_page, replace_text, to_csv, to_json, DATA_MARKER};
use cargo_size_analyzer::SymbolInfo;

fn row(name: &str, size: u64) -> SymbolInfo {
    SymbolInfo { crate_name: name.to_string(), size }
}

fn sample() -> Vec<SymbolInfo> {
    vec![row("core", 100), row("alloc", 50)]
}

fn parsed_json_pairs(text: &str) -> Vec<(String, u64)> {
    let v: serde_json::Value = serde_json::from_str(text).unwrap();
    v.as_array()
        .unwrap()
        .iter()
        .map(|o| {
            let o = o.as_object().unwrap();
            assert_eq!(o.len(), 2);
            (o["crate_name"].as_str().unwrap().to_string(), o["size"].as_u64().unwrap())
        })
        .collect()
}

fn pairs(rows: &[SymbolInfo]) -> Vec<(String, u64)> {
    rows.iter().map(|r| (r.crate_name.clone(), r.size)).collect()
}

#[test]
fn pretty_json_layout() {
    let text = to_json(&sample(), true).unwrap();
    assert_eq!(
        text,
        "[\n  {\n    \"crate_name\": \"core\",\n    \"size\": 100\n  },\n  {\n    \"crate_name\": \"alloc\",\n    \"size\": 50\n  }\n]"
    );
}

#[test]
fn compact_json_layout() {
    let text = to_json(&sample(), false).unwrap();
    assert_eq!(text, "[{\"crate_name\":\"core\",\"size\":100},{\"crate_name\":\"alloc\",\"size\":50}]");
}

#[test]
fn empty_json_arrays() {
    assert_eq!(to_json(&Vec::new(), true).unwrap(), "[]");
    assert_eq!(to_json(&Vec::new(), false).unwrap(), "[]");
}

#[test]
fn json_matches_serde_json_output() {
    let rows = vec![row("we\"ird\\name\n", 0), row("<unknown>", u64::MAX), row("ü", 7)];
    let values: Vec<serde_json::Value> = rows
        .iter()
        .map(|r| {
            let mut m = serde_json::Map::new();
            m.insert("crate_name".to_string(), serde_json::Value::String(r.crate_name.clone()));
            m.insert("size".to_string(), serde_json::Value::from(r.size));
            serde_json::Value::Object(m)
        })
        .collect();
    assert_eq!(to_json(&rows, true).unwrap(), serde_json::to_string_pretty(&values).unwrap());
    assert_eq!(to_json(&rows, false).unwrap(), serde_json::to_string(&values).unwrap());
}

#[test]
fn json_round_trips() {
    let rows = vec![row("core", 100), row("a,\"b\"", 50), row("<unknown>", 1)];
    for pretty in [true, false] {
        let text = to_json(&rows, pretty).unwrap();
        assert_eq!(parsed_json_pairs(&text), pairs(&rows));
    }
}

#[test]
fn csv_layout() {
    let bytes = to_csv(&sample()).unwrap();
    assert_eq!(String::from_utf8(bytes).unwrap(), "crate_name,size\ncore,100\nalloc,50\n");
}

#[test]
fn csv_quotes_special_fields() {
    let bytes = to_csv(&vec![row("a,b", 1), row("say \"hi\"", 2)]).unwrap();
    assert_eq!(
        String::from_utf8(bytes).unwrap(),
        "crate_name,size\n\"a,b\",1\n\"say \"\"hi\"\"\",2\n"
    );
}

#[test]
fn csv_of_no_rows_is_header_only() {
    let bytes = to_csv(&Vec::new()).unwrap();
    assert_eq!(String::from_utf8(bytes).unwrap(), "crate_name,size\n");
}

#[test]
fn csv_round_trips() {
    let rows = vec![row("core", 100), row("a,b", 50), row("line\nbreak", 3), row("q\"", 0)];
    let bytes = to_csv(&rows).unwrap();
    let mut reader = csv::Reader::from_reader(bytes.as_slice());
    let headers = reader.headers().unwrap().clone();
    assert_eq!(headers.iter().collect::<Vec<_>>(), vec!["crate_name", "size"]);
    let got: Vec<(String, u64)> = reader
        .records()
        .map(|r| {
            let r = r.unwrap();
            (r[0].to_string(), r[1].parse().unwrap())
        })
        .collect();
    assert_eq!(got, pairs(&rows));
}

#[test]
fn replace_text_replaces_every_occurrence() {
    assert_eq!(replace_text("a{{DATA}}b{{DATA}}", "{{DATA}}", "[1]"), "a[1]b[1]");
    assert_eq!(replace_text("no marker", "{{DATA}}", "x"), "no marker");
    assert_eq!(replace_text("{{DATA", "{{DATA}}", "x"), "{{DATA");
    assert_eq!(replace_text("aaa", "aa", "b"), "ba");
    assert_eq!(replace_text("", "a", "x"), "");
}

#[test]
fn html_page_embeds_compact_json() {
    assert_eq!(DATA_MARKER, "{{DATA}}");
    let page = html_page("<script>const data = {{DATA}};</script>", &sample()).unwrap();
    assert_eq!(
        page,
        "<script>const data = [{\"crate_name\":\"core\",\"size\":100},{\"crate_name\":\"alloc\",\"size\":50}];</script>"
    );
}

#[test]
fn csv_sizes_in_decimal() {
    let bytes = to_csv(&vec![row("big", u64::MAX), row("zero", 0), row("ten", 10)]).unwrap();
    assert_eq!(
        String::from_utf8(bytes).unwrap(),
        "crate_name,size\nbig,18446744073709551615\nzero,0\nten,10\n"
    );
}
