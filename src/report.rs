//! The texts of the reports: JSON, CSV and an HTML page that embeds the JSON.
use crate::aggregate::SymbolInfo;
use vstd::prelude::*;
use vstd::string::*;

verus! {

/// What `serde_json::to_string` gives for rows turned into an array of
/// objects, each with the group under `name_key` and the size under `size_key`.
pub uninterp spec fn json_compact_of(
    rows: Seq<(Seq<char>, u64)>,
    name_key: Seq<char>,
    size_key: Seq<char>,
) -> Seq<char>;

/// What `serde_json::to_string_pretty` gives for the same array of objects.
pub uninterp spec fn json_pretty_of(
    rows: Seq<(Seq<char>, u64)>,
    name_key: Seq<char>,
    size_key: Seq<char>,
) -> Seq<char>;

/// What a `csv::Writer` with default settings writes for one record.
pub uninterp spec fn csv_line(fields: Seq<Seq<char>>) -> Seq<u8>;

#[verifier::external_type_specification]
#[verifier::external_body]
pub struct ExJsonError(serde_json::Error);

#[verifier::external_type_specification]
#[verifier::external_body]
pub struct ExCsvError(csv::Error);

/// Why a report could not be produced.
#[derive(Debug)]
pub enum ReportError {
    Json(serde_json::Error),
    Csv(csv::Error),
}

/// The decimal digit for `d`.
pub open spec fn digit(d: nat) -> char {
    seq!['0', '1', '2', '3', '4', '5', '6', '7', '8', '9'][d as int]
}

/// The decimal notation of `n`, without leading zeros.
pub open spec fn decimal(n: nat) -> Seq<char>
    decreases n,
{
    if n < 10 {
        seq![digit(n)]
    } else {
        decimal(n / 10).push(digit(n % 10))
    }
}

/// The decimal digit `d` as a one-character string.
fn digit_text(d: u64) -> (r: &'static str)
    requires
        d < 10,
    ensures
        r@ == seq![digit(d as nat)],
{
    proof {
        reveal_strlit("0");
        reveal_strlit("1");
        reveal_strlit("2");
        reveal_strlit("3");
        reveal_strlit("4");
        reveal_strlit("5");
        reveal_strlit("6");
        reveal_strlit("7");
        reveal_strlit("8");
        reveal_strlit("9");
    }
    let r = if d == 0 {
        "0"
    } else if d == 1 {
        "1"
    } else if d == 2 {
        "2"
    } else if d == 3 {
        "3"
    } else if d == 4 {
        "4"
    } else if d == 5 {
        "5"
    } else if d == 6 {
        "6"
    } else if d == 7 {
        "7"
    } else if d == 8 {
        "8"
    } else {
        "9"
    };
    assert(r@ =~= seq![digit(d as nat)]);
    r
}

/// The decimal notation of `n`.
fn decimal_string(n: u64) -> (r: String)
    ensures
        r@ == decimal(n as nat),
    decreases n,
{
    if n < 10 {
        String::from_str(digit_text(n))
    } else {
        let mut s = decimal_string(n / 10);
        s.append(digit_text(n % 10));
        assert(s@ =~= decimal((n / 10) as nat).push(digit((n % 10) as nat)));
        s
    }
}

/// The rows as pairs of plain values: group and size.
pub open spec fn rows_view(rows: Seq<SymbolInfo>) -> Seq<(Seq<char>, u64)> {
    rows.map_values(|r: SymbolInfo| (r.crate_name@, r.size))
}

/// Relies on `serde_json::to_string` over a `Vec<serde_json::Value>` of
/// objects with string keys, which it documents as unable to fail.
#[verifier::external_body]
fn json_compact(rows: &Vec<SymbolInfo>, name_key: &str, size_key: &str) -> (r: Result<
    String,
    serde_json::Error,
>)
    ensures
        r is Ok,
        r matches Ok(t) ==> t@ == json_compact_of(rows_view(rows@), name_key@, size_key@),
{
    let values: Vec<serde_json::Value> = rows.iter().map(|r| {
        let mut m = serde_json::Map::new();
        m.insert(name_key.to_string(), serde_json::Value::from(r.crate_name.as_str()));
        m.insert(size_key.to_string(), serde_json::Value::from(r.size));
        serde_json::Value::Object(m)
    }).collect();
    serde_json::to_string(&values)
}

/// Relies on `serde_json::to_string_pretty` over a `Vec<serde_json::Value>`
/// of objects with string keys, which it documents as unable to fail.
#[verifier::external_body]
fn json_pretty(rows: &Vec<SymbolInfo>, name_key: &str, size_key: &str) -> (r: Result<
    String,
    serde_json::Error,
>)
    ensures
        r is Ok,
        r matches Ok(t) ==> t@ == json_pretty_of(rows_view(rows@), name_key@, size_key@),
{
    let values: Vec<serde_json::Value> = rows.iter().map(|r| {
        let mut m = serde_json::Map::new();
        m.insert(name_key.to_string(), serde_json::Value::from(r.crate_name.as_str()));
        m.insert(size_key.to_string(), serde_json::Value::from(r.size));
        serde_json::Value::Object(m)
    }).collect();
    serde_json::to_string_pretty(&values)
}

/// Relies on `csv::Writer::from_writer` over a `Vec<u8>`, `write_record`
/// and `into_inner`: the bytes written for one record. Writing fails only on
/// an I/O error or on records of unequal length, and a single record written
/// into a `Vec` meets neither.
#[verifier::external_body]
fn csv_record(fields: &Vec<String>) -> (r: Result<Vec<u8>, csv::Error>)
    ensures
        r is Ok,
        r matches Ok(b) ==> b@ == csv_line(fields@.map_values(|f: String| f@)),
{
    let mut w = csv::Writer::from_writer(Vec::new());
    w.write_record(fields)?;
    w.into_inner().map_err(|e| csv::Error::from(e.into_error()))
}

/// The rows as a JSON array of objects with fields `crate_name` and `size`,
/// on one line or pretty-printed.
pub open spec fn json_array(rows: Seq<SymbolInfo>, pretty: bool) -> Seq<char> {
    if pretty {
        json_pretty_of(rows_view(rows), "crate_name"@, "size"@)
    } else {
        json_compact_of(rows_view(rows), "crate_name"@, "size"@)
    }
}

/// The rows as a JSON array, compact or pretty-printed.
pub fn to_json(rows: &Vec<SymbolInfo>, pretty: bool) -> (r: Result<String, ReportError>)
    ensures
        r is Ok,
        r matches Ok(s) ==> s@ == json_array(rows@, pretty),
{
    let text = if pretty {
        json_pretty(rows, "crate_name", "size")
    } else {
        json_compact(rows, "crate_name", "size")
    };
    match text {
        Ok(t) => Ok(t),
        Err(e) => Err(ReportError::Json(e)),
    }
}

/// The header record: the names of the two fields of a row.
pub open spec fn csv_header() -> Seq<Seq<char>> {
    seq!["crate_name"@, "size"@]
}

/// The record of one row.
pub open spec fn csv_fields(r: SymbolInfo) -> Seq<Seq<char>> {
    seq![r.crate_name@, decimal(r.size as nat)]
}

/// The records of all rows, in order.
pub open spec fn csv_rows(rows: Seq<SymbolInfo>) -> Seq<u8>
    decreases rows.len(),
{
    if rows.len() == 0 {
        Seq::empty()
    } else {
        csv_rows(rows.drop_last()) + csv_line(csv_fields(rows.last()))
    }
}

/// The CSV text of the rows: a header, then one record per row.
pub open spec fn csv_document(rows: Seq<SymbolInfo>) -> Seq<u8> {
    csv_line(csv_header()) + csv_rows(rows)
}

/// Encodes two fields as one CSV record.
fn csv_pair(a: String, b: String) -> (r: Result<Vec<u8>, ReportError>)
    ensures
        r is Ok,
        r matches Ok(v) ==> v@ == csv_line(seq![a@, b@]),
{
    let ghost fields = seq![a@, b@];
    let mut v: Vec<String> = Vec::new();
    v.push(a);
    v.push(b);
    assert(v@.map_values(|f: String| f@) =~= fields);
    match csv_record(&v) {
        Ok(bytes) => Ok(bytes),
        Err(e) => Err(ReportError::Csv(e)),
    }
}

/// The rows as CSV: a header record, then one record per row.
pub fn to_csv(rows: &Vec<SymbolInfo>) -> (r: Result<Vec<u8>, ReportError>)
    ensures
        r is Ok,
        r matches Ok(b) ==> b@ == csv_document(rows@),
{
    let mut out = match csv_pair(String::from_str("crate_name"), String::from_str("size")) {
        Ok(h) => h,
        Err(e) => {
            return Err(e);
        },
    };
    let mut i: usize = 0;
    assert(rows@.take(0) =~= Seq::<SymbolInfo>::empty());
    assert(out@ =~= csv_line(csv_header()) + csv_rows(rows@.take(0)));
    while i < rows.len()
        invariant
            i <= rows@.len(),
            out@ == csv_line(csv_header()) + csv_rows(rows@.take(i as int)),
        decreases rows@.len() - i,
    {
        let row = &rows[i];
        let mut line = match csv_pair(row.crate_name.clone(), decimal_string(row.size)) {
            Ok(l) => l,
            Err(e) => {
                return Err(e);
            },
        };
        let ghost before = out@;
        out.append(&mut line);
        let ghost t = rows@.take(i + 1);
        assert(t.drop_last() =~= rows@.take(i as int));
        assert(t.last() == rows@[i as int]);
        assert(csv_fields(rows@[i as int]) =~= seq![row.crate_name@, decimal(row.size as nat)]);
        assert(out@ =~= csv_line(csv_header()) + csv_rows(t));
        i = i + 1;
    }
    assert(rows@.take(i as int) =~= rows@);
    Ok(out)
}

/// The marker in a page template that the data replaces.
pub const DATA_MARKER: &'static str = "{{DATA}}";

/// `s` with every occurrence of `pat`, scanning from the left, replaced by
/// `rep`.
pub open spec fn replace_all(s: Seq<char>, pat: Seq<char>, rep: Seq<char>) -> Seq<char>
    decreases s.len(),
{
    if s.len() == 0 {
        s
    } else if pat.len() > 0 && pat.len() <= s.len() && s.take(pat.len() as int) == pat {
        rep + replace_all(s.skip(pat.len() as int), pat, rep)
    } else {
        seq![s[0]] + replace_all(s.skip(1), pat, rep)
    }
}

/// Whether `pat` occurs in `s` at position `i`.
fn occurs_at(s: &str, n: usize, pat: &str, m: usize, i: usize) -> (r: bool)
    requires
        n == s@.len(),
        m == pat@.len(),
        i <= n,
    ensures
        r == (m <= n - i && s@.skip(i as int).take(m as int) == pat@),
{
    if m > n - i {
        return false;
    }
    let mut j: usize = 0;
    while j < m
        invariant
            m <= n - i,
            n == s@.len(),
            m == pat@.len(),
            j <= m,
            forall|k: int| 0 <= k < j ==> s@[i + k] == pat@[k],
        decreases m - j,
    {
        if s.get_char(i + j) != pat.get_char(j) {
            assert(s@.skip(i as int).take(m as int)[j as int] != pat@[j as int]);
            return false;
        }
        j = j + 1;
    }
    assert(s@.skip(i as int).take(m as int) =~= pat@);
    true
}

/// Replaces every occurrence of `pat` in `s` by `rep`. The pattern must not
/// be empty.
pub fn replace_text(s: &str, pat: &str, rep: &str) -> (r: String)
    requires
        pat@.len() > 0,
    ensures
        r@ == replace_all(s@, pat@, rep@),
{
    let n = s.unicode_len();
    let m = pat.unicode_len();
    let mut out = String::new();
    let mut i: usize = 0;
    assert(s@.skip(0) =~= s@);
    while i < n
        invariant
            n == s@.len(),
            m == pat@.len(),
            i <= n,
            out@ + replace_all(s@.skip(i as int), pat@, rep@) == replace_all(s@, pat@, rep@),
        decreases n - i,
    {
        let ghost rest = s@.skip(i as int);
        let ghost before = out@;
        if m > 0 && occurs_at(s, n, pat, m, i) {
            out.append(rep);
            assert(rest.skip(m as int) =~= s@.skip(i + m));
            assert(before + replace_all(rest, pat@, rep@) =~= out@ + replace_all(
                s@.skip(i + m),
                pat@,
                rep@,
            ));
            i = i + m;
        } else {
            out.append(s.substring_char(i, i + 1));
            assert(rest.skip(1) =~= s@.skip(i + 1));
            assert(s@.subrange(i as int, i + 1) =~= seq![rest[0]]);
            assert(before + replace_all(rest, pat@, rep@) =~= out@ + replace_all(
                s@.skip(i + 1),
                pat@,
                rep@,
            ));
            i = i + 1;
        }
    }
    assert(s@.skip(i as int) =~= Seq::<char>::empty());
    assert(out@ =~= out@ + replace_all(s@.skip(i as int), pat@, rep@));
    out
}

/// The page: the template with its data marker replaced by the rows as
/// compact JSON.
pub fn html_page(template: &str, rows: &Vec<SymbolInfo>) -> (r: Result<String, ReportError>)
    ensures
        r is Ok,
        r matches Ok(p) ==> p@ == replace_all(template@, DATA_MARKER@, json_array(rows@, false)),
{
    match to_json(rows, false) {
        Ok(json) => {
            proof {
                reveal_strlit("{{DATA}}");
            }
            Ok(replace_text(template, DATA_MARKER, json.as_str()))
        },
        Err(e) => Err(e),
    }
}

} // verus!
