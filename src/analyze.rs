//! From the bytes of an object file to the sorted rows of the report.
use crate::aggregate::{
    aggregate, describes, lemma_aggregates_describes, lemma_describes_permutation,
    qualifying_total, rows_total, sort_by_size, sorted_by_size, symbols_model, total_overflows,
    SymbolInfo, SymbolRecord,
};
use object::{Object, ObjectSymbol};
use vstd::prelude::*;

verus! {

/// The symbol table that `object` reads from a file's bytes, as plain
/// values; `None` where the bytes are not an object file it recognises.
pub uninterp spec fn object_symbols(data: Seq<u8>) -> Option<Seq<(Option<Seq<char>>, u64, bool)>>;

#[verifier::external_type_specification]
#[verifier::external_body]
pub struct ExObjectError(object::Error);

/// Why an analysis failed.
#[derive(Debug)]
pub enum AnalyzeError {
    /// The bytes are not an object file of a recognised format.
    Parse(object::Error),
    /// The total of some group does not fit in a `u64`.
    SizeOverflow,
}

/// Relies on `object::File::parse` and, for each entry of `symbols()`, on
/// `ObjectSymbol::name`, `size` and `is_definition`: the table is a function
/// of the bytes alone. A name that cannot be read is left out.
#[verifier::external_body]
fn parse_symbols(data: &[u8]) -> (r: Result<Vec<SymbolRecord>, object::Error>)
    ensures
        match r {
            Ok(v) => object_symbols(data@) == Some(symbols_model(v@)),
            Err(_) => object_symbols(data@) is None,
        },
{
    let file = object::File::parse(data)?;
    Ok(file.symbols().map(|s| SymbolRecord {
        name: s.name().ok().map(|n| n.to_string()),
        size: s.size(),
        is_definition: s.is_definition(),
    }).collect())
}

/// The report rows for a symbol table: one per group, largest first, their
/// sizes adding up to the total of the counted symbols. Returns `None` when
/// the total of some group does not fit in a `u64`.
pub fn report_rows(syms: &Vec<SymbolRecord>) -> (r: Option<Vec<SymbolInfo>>)
    ensures
        r is None <==> total_overflows(symbols_model(syms@)),
        r matches Some(rows) ==> describes(rows@, symbols_model(syms@)) && sorted_by_size(
            rows@,
        ),
        r matches Some(rows) ==> rows_total(rows@) == qualifying_total(symbols_model(syms@)),
{
    match aggregate(syms) {
        None => None,
        Some(rows) => {
            let ghost agg = rows@;
            proof {
                lemma_aggregates_describes(agg, symbols_model(syms@));
            }
            let sorted = sort_by_size(rows);
            proof {
                lemma_describes_permutation(agg, sorted@, symbols_model(syms@));
            }
            Some(sorted)
        },
    }
}

/// Reads the symbol table of an object file and returns the report rows.
pub fn analyze(data: &[u8]) -> (r: Result<Vec<SymbolInfo>, AnalyzeError>)
    ensures
        match object_symbols(data@) {
            None => r is Err && r->Err_0 is Parse,
            Some(syms) => if total_overflows(syms) {
                r is Err && r->Err_0 is SizeOverflow
            } else {
                r matches Ok(rows) && describes(rows@, syms) && sorted_by_size(rows@)
                    && rows_total(rows@) == qualifying_total(syms)
            },
        },
{
    match parse_symbols(data) {
        Err(e) => Err(AnalyzeError::Parse(e)),
        Ok(syms) => match report_rows(&syms) {
            None => Err(AnalyzeError::SizeOverflow),
            Some(rows) => Ok(rows),
        },
    }
}

} // verus!
