//! Summing symbol sizes per group.
use crate::group::{
    demangled_of, first_segment, group_of, group_of_symbol_name, unknown_group, unknown_key,
};
use vstd::multiset::Multiset;
use vstd::prelude::*;

verus! {

/// One entry of an object file's symbol table, as plain values.
#[derive(Clone, Debug)]
pub struct SymbolRecord {
    /// The raw (mangled) name, when the file gives one.
    pub name: Option<String>,
    /// Size in bytes.
    pub size: u64,
    /// Whether the symbol is defined in this file.
    pub is_definition: bool,
}

/// One row of the report: a group and the bytes attributed to it.
#[derive(Clone, Debug)]
pub struct SymbolInfo {
    pub crate_name: String,
    pub size: u64,
}

/// A symbol as plain values: its raw name, size and whether it is defined.
pub type SymbolModel = (Option<Seq<char>>, u64, bool);

impl View for SymbolRecord {
    type V = SymbolModel;

    open spec fn view(&self) -> SymbolModel {
        (
            match self.name {
                Some(n) => Some(n@),
                None => None,
            },
            self.size,
            self.is_definition,
        )
    }
}

/// The models of a list of symbols.
pub open spec fn symbols_model(v: Seq<SymbolRecord>) -> Seq<SymbolModel> {
    v.map_values(|s: SymbolRecord| s@)
}

/// A symbol counts toward the totals when it is defined and has a size.
pub open spec fn qualifies(s: SymbolModel) -> bool {
    s.2 && s.1 > 0
}

/// The group a symbol falls under: that of its demangled name, or
/// `<unknown>` when it has no name.
pub open spec fn symbol_group(s: SymbolModel) -> Seq<char> {
    match s.0 {
        Some(n) => group_of(demangled_of(n)),
        None => unknown_group(),
    }
}

/// Sum of the sizes of the qualifying symbols of group `k`.
pub open spec fn group_total(syms: Seq<SymbolModel>, k: Seq<char>) -> int
    decreases syms.len(),
{
    if syms.len() == 0 {
        0
    } else {
        let s = syms.last();
        group_total(syms.drop_last(), k) + if qualifies(s) && symbol_group(s) == k {
            s.1 as int
        } else {
            0
        }
    }
}

/// Sum of the sizes of all qualifying symbols.
pub open spec fn qualifying_total(syms: Seq<SymbolModel>) -> int
    decreases syms.len(),
{
    if syms.len() == 0 {
        0
    } else {
        let s = syms.last();
        qualifying_total(syms.drop_last()) + if qualifies(s) {
            s.1 as int
        } else {
            0
        }
    }
}

/// Sum of the sizes of the rows keyed `k`.
pub open spec fn row_total(rows: Seq<SymbolInfo>, k: Seq<char>) -> int
    decreases rows.len(),
{
    if rows.len() == 0 {
        0
    } else {
        row_total(rows.drop_last(), k) + if rows.last().crate_name@ == k {
            rows.last().size as int
        } else {
            0
        }
    }
}

/// Sum of the sizes of all rows.
pub open spec fn rows_total(rows: Seq<SymbolInfo>) -> int
    decreases rows.len(),
{
    if rows.len() == 0 {
        0
    } else {
        rows_total(rows.drop_last()) + rows.last().size as int
    }
}

/// No two rows share a key.
pub open spec fn keys_unique(rows: Seq<SymbolInfo>) -> bool {
    forall|i: int, j: int|
        0 <= i < rows.len() && 0 <= j < rows.len() && i != j ==> rows[i].crate_name@
            != rows[j].crate_name@
}

/// Every row has a positive size.
pub open spec fn sizes_positive(rows: Seq<SymbolInfo>) -> bool {
    forall|i: int| 0 <= i < rows.len() ==> rows[i].size > 0
}

/// A well-formed table of running totals.
pub open spec fn well_formed(rows: Seq<SymbolInfo>) -> bool {
    keys_unique(rows) && sizes_positive(rows)
}

/// `rows` holds, once per group, the total of that group over `syms`.
pub open spec fn aggregates(rows: Seq<SymbolInfo>, syms: Seq<SymbolModel>) -> bool {
    &&& well_formed(rows)
    &&& forall|k: Seq<char>| #[trigger] row_total(rows, k) == group_total(syms, k)
}

proof fn lemma_row_total_of_unique_key(rows: Seq<SymbolInfo>, j: int)
    requires
        keys_unique(rows),
        0 <= j < rows.len(),
    ensures
        row_total(rows, rows[j].crate_name@) == rows[j].size,
    decreases rows.len(),
{
    let k = rows[j].crate_name@;
    if j < rows.len() - 1 {
        lemma_row_total_of_unique_key(rows.drop_last(), j);
    } else {
        lemma_row_total_absent(rows.drop_last(), k);
    }
}

proof fn lemma_row_total_absent(rows: Seq<SymbolInfo>, k: Seq<char>)
    requires
        forall|i: int| 0 <= i < rows.len() ==> rows[i].crate_name@ != k,
    ensures
        row_total(rows, k) == 0,
    decreases rows.len(),
{
    if rows.len() > 0 {
        lemma_row_total_absent(rows.drop_last(), k);
    }
}

proof fn lemma_update_totals(rows: Seq<SymbolInfo>, j: int, x: SymbolInfo)
    requires
        0 <= j < rows.len(),
        x.crate_name@ == rows[j].crate_name@,
    ensures
        rows_total(rows.update(j, x)) == rows_total(rows) - rows[j].size + x.size,
        forall|k: Seq<char>|
            #[trigger] row_total(rows.update(j, x), k) == row_total(rows, k) + if k
                == x.crate_name@ {
                x.size - rows[j].size
            } else {
                0
            },
    decreases rows.len(),
{
    let u = rows.update(j, x);
    if j < rows.len() - 1 {
        lemma_update_totals(rows.drop_last(), j, x);
        assert(u.drop_last() =~= rows.drop_last().update(j, x));
        assert forall|k: Seq<char>| #[trigger]
            row_total(u, k) == row_total(rows, k) + if k == x.crate_name@ {
                x.size - rows[j].size
            } else {
                0
            } by {
            assert(row_total(u.drop_last(), k) == row_total(rows.drop_last().update(j, x), k));
        }
    } else {
        assert(u.drop_last() =~= rows.drop_last());
    }
}

/// Adds `size` bytes to the row keyed `key`, creating the row where there is
/// none. Returns whether the group's new total fits in a `u64`; where it does
/// not, the rows are left as they were.
pub fn add_to_group(rows: &mut Vec<SymbolInfo>, key: String, size: u64) -> (added: bool)
    requires
        well_formed(old(rows)@),
        size > 0,
    ensures
        added == (row_total(old(rows)@, key@) + size <= u64::MAX),
        !added ==> final(rows)@ == old(rows)@,
        added ==> well_formed(final(rows)@),
        added ==> rows_total(final(rows)@) == rows_total(old(rows)@) + size,
        added ==> forall|k: Seq<char>|
            #[trigger] row_total(final(rows)@, k) == row_total(old(rows)@, k) + if k == key@ {
                size as int
            } else {
                0
            },
{
    let n = rows.len();
    let mut j: usize = 0;
    while j < n
        invariant
            n == rows@.len(),
            j <= n,
            rows@ == old(rows)@,
            well_formed(rows@),
            size > 0,
            forall|m: int| 0 <= m < j ==> rows@[m].crate_name@ != key@,
        decreases n - j,
    {
        if rows[j].crate_name == key {
            proof {
                lemma_row_total_of_unique_key(rows@, j as int);
            }
            match rows[j].size.checked_add(size) {
                None => {
                    return false;
                },
                Some(total) => {
                    let x = SymbolInfo { crate_name: key, size: total };
                    let ghost before = rows@;
                    proof {
                        lemma_update_totals(rows@, j as int, x);
                    }
                    rows.set(j, x);
                    assert(rows@ == before.update(j as int, x));
                    return true;
                },
            }
        }
        j = j + 1;
    }
    proof {
        lemma_row_total_absent(rows@, key@);
    }
    let ghost before = rows@;
    rows.push(SymbolInfo { crate_name: key, size });
    assert(rows@.drop_last() =~= before);
    assert(rows@ == before.push(rows@.last()));
    true
}

proof fn lemma_group_total_prefix(syms: Seq<SymbolModel>, i: int, k: Seq<char>)
    requires
        0 <= i <= syms.len(),
    ensures
        group_total(syms.take(i), k) <= group_total(syms, k),
    decreases syms.len() - i,
{
    if i < syms.len() {
        lemma_group_total_prefix(syms, i + 1, k);
        assert(syms.take(i + 1).drop_last() =~= syms.take(i));
    } else {
        assert(syms.take(i) =~= syms);
    }
}

/// Some group's total does not fit in a `u64`.
pub open spec fn total_overflows(syms: Seq<SymbolModel>) -> bool {
    exists|k: Seq<char>| #[trigger] group_total(syms, k) > u64::MAX
}

/// Sums the sizes of the qualifying symbols per group. Returns `None` when
/// the total of some group does not fit in a `u64`.
pub fn aggregate(syms: &Vec<SymbolRecord>) -> (r: Option<Vec<SymbolInfo>>)
    ensures
        r is None <==> total_overflows(symbols_model(syms@)),
        r matches Some(rows) ==> aggregates(rows@, symbols_model(syms@)) && rows_total(rows@)
            == qualifying_total(symbols_model(syms@)),
{
    let ghost model = symbols_model(syms@);
    let mut rows: Vec<SymbolInfo> = Vec::new();
    let mut i: usize = 0;
    while i < syms.len()
        invariant
            i <= syms@.len(),
            model == symbols_model(syms@),
            well_formed(rows@),
            rows_total(rows@) == qualifying_total(model.take(i as int)),
            forall|k: Seq<char>|
                #[trigger] row_total(rows@, k) == group_total(model.take(i as int), k),
        decreases syms@.len() - i,
    {
        let s = &syms[i];
        assert(model.take(i + 1).drop_last() =~= model.take(i as int));
        if s.is_definition && s.size > 0 {
            let key = match &s.name {
                Some(n) => group_of_symbol_name(n.as_str()),
                None => unknown_key(),
            };
            let ghost k = key@;
            let ghost before = rows@;
            if !add_to_group(&mut rows, key, s.size) {
                proof {
                    assert(row_total(before, k) == group_total(model.take(i as int), k));
                    assert(group_total(model.take(i + 1), k) > u64::MAX);
                    lemma_group_total_prefix(model, i + 1, k);
                    assert(group_total(model, k) > u64::MAX);
                }
                return None;
            }
        }
        i = i + 1;
    }
    assert(model.take(i as int) =~= model);
    assert forall|k: Seq<char>| #[trigger] group_total(model, k) <= u64::MAX by {
        assert(row_total(rows@, k) == group_total(model, k));
        if exists|j: int| 0 <= j < rows@.len() && rows@[j].crate_name@ == k {
            let j = choose|j: int| 0 <= j < rows@.len() && rows@[j].crate_name@ == k;
            lemma_row_total_of_unique_key(rows@, j);
        } else {
            lemma_row_total_absent(rows@, k);
        }
    }
    Some(rows)
}

/// Sizes never increase from one row to a later one.
pub open spec fn sorted_by_size(rows: Seq<SymbolInfo>) -> bool {
    forall|i: int, j: int| 0 <= i < j < rows.len() ==> rows[i].size >= rows[j].size
}

/// `rows` lists each group of `syms` with a positive total exactly once,
/// with that total.
pub open spec fn describes(rows: Seq<SymbolInfo>, syms: Seq<SymbolModel>) -> bool {
    &&& keys_unique(rows)
    &&& forall|i: int|
        #![trigger rows[i]]
        0 <= i < rows.len() ==> rows[i].size > 0 && rows[i].size == group_total(
            syms,
            rows[i].crate_name@,
        )
    &&& forall|k: Seq<char>|
        #[trigger] group_total(syms, k) > 0 ==> exists|i: int|
            0 <= i < rows.len() && rows[i].crate_name@ == k
}

/// A table of running totals over `syms` lists each group once, with its total.
pub proof fn lemma_aggregates_describes(rows: Seq<SymbolInfo>, syms: Seq<SymbolModel>)
    requires
        aggregates(rows, syms),
    ensures
        describes(rows, syms),
{
    assert forall|i: int| #![trigger rows[i]] 0 <= i < rows.len() implies rows[i].size > 0
        && rows[i].size == group_total(syms, rows[i].crate_name@) by {
        lemma_row_total_of_unique_key(rows, i);
        assert(row_total(rows, rows[i].crate_name@) == group_total(syms, rows[i].crate_name@));
    }
    assert forall|k: Seq<char>| #[trigger] group_total(syms, k) > 0 implies exists|i: int|
        0 <= i < rows.len() && rows[i].crate_name@ == k by {
        if !exists|i: int| 0 <= i < rows.len() && rows[i].crate_name@ == k {
            lemma_row_total_absent(rows, k);
            assert(row_total(rows, k) == group_total(syms, k));
        }
    }
}

/// Reordering rows keeps what they describe.
pub proof fn lemma_describes_permutation(
    a: Seq<SymbolInfo>,
    b: Seq<SymbolInfo>,
    syms: Seq<SymbolModel>,
)
    requires
        describes(a, syms),
        a.to_multiset() == b.to_multiset(),
    ensures
        describes(b, syms),
{
    broadcast use vstd::seq_lib::to_multiset_contains;

    assert forall|i: int| #![trigger b[i]] 0 <= i < b.len() implies b[i].size > 0 && b[i].size
        == group_total(syms, b[i].crate_name@) by {
        assert(b.contains(b[i]));
        assert(b.to_multiset().count(b[i]) > 0);
        assert(a.to_multiset().count(b[i]) > 0);
        let j = choose|j: int| 0 <= j < a.len() && a[j] == b[i];
        assert(a[j].crate_name@ == b[i].crate_name@);
    }
    assert forall|k: Seq<char>| #[trigger] group_total(syms, k) > 0 implies exists|i: int|
        0 <= i < b.len() && b[i].crate_name@ == k by {
        let j = choose|j: int| 0 <= j < a.len() && a[j].crate_name@ == k;
        assert(a.contains(a[j]));
        assert(a.to_multiset().count(a[j]) > 0);
        assert(b.to_multiset().count(a[j]) > 0);
        let i = choose|i: int| 0 <= i < b.len() && b[i] == a[j];
        assert(b[i].crate_name@ == k);
    }
    assert(a.no_duplicates());
    a.lemma_multiset_has_no_duplicates();
    b.lemma_multiset_has_no_duplicates_conv();
    assert forall|i: int, j: int|
        0 <= i < b.len() && 0 <= j < b.len() && i != j implies b[i].crate_name@
        != b[j].crate_name@ by {
        if b[i].crate_name@ == b[j].crate_name@ {
            assert(b.contains(b[i]));
            assert(b.to_multiset().count(b[i]) > 0);
            assert(a.to_multiset().count(b[i]) > 0);
            assert(b.to_multiset().count(b[j]) > 0);
            assert(a.to_multiset().count(b[j]) > 0);
            let p = choose|p: int| 0 <= p < a.len() && a[p] == b[i];
            let q = choose|q: int| 0 <= q < a.len() && a[q] == b[j];
            assert(b[i].size == b[j].size);
            assert(p == q);
        }
    }
}

proof fn lemma_rows_total_insert(s: Seq<SymbolInfo>, p: int, x: SymbolInfo)
    requires
        0 <= p <= s.len(),
    ensures
        rows_total(s.insert(p, x)) == rows_total(s) + x.size,
    decreases s.len(),
{
    if p == s.len() {
        assert(s.insert(p, x).drop_last() =~= s);
    } else {
        lemma_rows_total_insert(s.drop_last(), p, x);
        assert(s.insert(p, x).drop_last() =~= s.drop_last().insert(p, x));
    }
}

/// Orders rows by size, largest first.
pub fn sort_by_size(rows: Vec<SymbolInfo>) -> (r: Vec<SymbolInfo>)
    ensures
        r@.to_multiset() == rows@.to_multiset(),
        rows_total(r@) == rows_total(rows@),
        sorted_by_size(r@),
{
    broadcast use vstd::seq_lib::group_to_multiset_ensures;
    broadcast use vstd::multiset::group_multiset_axioms;
    broadcast use vstd::multiset::group_multiset_properties;

    let ghost input = rows@;
    let mut rest = rows;
    let mut out: Vec<SymbolInfo> = Vec::new();
    assert(out@.to_multiset().add(rest@.to_multiset()) =~= input.to_multiset());
    while rest.len() > 0
        invariant
            out@.to_multiset().add(rest@.to_multiset()) == input.to_multiset(),
            rows_total(out@) + rows_total(rest@) == rows_total(input),
            sorted_by_size(out@),
        decreases rest@.len(),
    {
        let ghost before = rest@;
        match rest.pop() {
            None => {},
            Some(x) => {
                assert(before =~= rest@.push(x));
                let mut p: usize = 0;
                while p < out.len() && out[p].size > x.size
                    invariant
                        p <= out@.len(),
                        forall|m: int| 0 <= m < p ==> out@[m].size > x.size,
                    decreases out@.len() - p,
                {
                    p = p + 1;
                }
                let ghost prev = out@;
                out.insert(p, x);
                assert(out@ == prev.insert(p as int, x));
                proof {
                    lemma_rows_total_insert(prev, p as int, x);
                }
                proof {
                    vstd::seq_lib::to_multiset_insert(prev, p as int, x);
                    vstd::seq_lib::to_multiset_build(rest@, x);
                }
                assert(out@.to_multiset() == prev.to_multiset().insert(x));
                assert(out@.to_multiset().add(rest@.to_multiset()) =~= prev.to_multiset().add(
                    before.to_multiset(),
                ));
                assert forall|i: int, j: int| 0 <= i < j < out@.len() implies out@[i].size
                    >= out@[j].size by {
                    if i < p && j > p {
                        assert(out@[i] == prev[i]);
                        assert(out@[j] == prev[j - 1]);
                    }
                }
            },
        }
    }
    assert(rest@.to_multiset() =~= Multiset::empty());
    assert(out@.to_multiset() =~= input.to_multiset());
    out
}

/// A symbol that is undefined or has size zero adds nothing to any total.
pub proof fn lemma_non_qualifying_adds_nothing(syms: Seq<SymbolModel>, s: SymbolModel)
    requires
        !qualifies(s),
    ensures
        qualifying_total(syms.push(s)) == qualifying_total(syms),
        forall|k: Seq<char>| #[trigger] group_total(syms.push(s), k) == group_total(syms, k),
{
    assert(syms.push(s).drop_last() =~= syms);
}

/// Two symbols whose demangled names start with the same segment fall under
/// one group, and both of their sizes are added to that group's total.
pub proof fn lemma_same_segment_same_group(
    syms: Seq<SymbolModel>,
    a: SymbolModel,
    b: SymbolModel,
)
    requires
        a.0 is Some,
        b.0 is Some,
        first_segment(demangled_of(a.0->0)) == first_segment(demangled_of(b.0->0)),
        qualifies(a),
        qualifies(b),
    ensures
        symbol_group(a) == symbol_group(b),
        group_total(syms.push(a).push(b), symbol_group(a)) == group_total(syms, symbol_group(a))
            + a.1 + b.1,
{
    let k = symbol_group(a);
    assert(syms.push(a).push(b).drop_last() =~= syms.push(a));
    assert(syms.push(a).drop_last() =~= syms);
    assert(group_total(syms.push(a), k) == group_total(syms, k) + a.1);
    assert(group_total(syms.push(a).push(b), k) == group_total(syms.push(a), k) + b.1);
}

/// A symbol without a name, or whose demangled name has an empty first
/// segment, falls under `<unknown>`.
pub proof fn lemma_unknown_group(s: SymbolModel)
    ensures
        s.0 is None ==> symbol_group(s) == unknown_group(),
        s.0 matches Some(n) && first_segment(demangled_of(n)).len() == 0 ==> symbol_group(s)
            == unknown_group(),
{
}

/// Rows ordered by size never grow from one row to the next.
pub proof fn lemma_sorted_adjacent(rows: Seq<SymbolInfo>, i: int)
    requires
        sorted_by_size(rows),
        0 <= i,
        i + 1 < rows.len(),
    ensures
        rows[i].size >= rows[i + 1].size,
{
}

} // verus!
