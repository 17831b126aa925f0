//! The catalog-difference filter: which discovered `(path, size)` candidates
//! are not already present in the catalog's `allsongs` table.  The probe is
//! batched, with at most 998 OR-clauses per prepared statement.

use vstd::prelude::*;
use vstd::seq_lib::lemma_seq_contains_after_push;
use vstd::string::StrSliceExecFns;
use vstd::string::StringExecFns;

use crate::error::ScanError;
use crate::strutil::str_eq;
use crate::structs::entries_view;
use crate::structs::entry_view;

verus! {

/// Most OR-clauses one prepared statement may carry.
pub const EXPRESSION_LIMIT: usize = 998;

#[verifier::external_type_specification]
#[verifier::external_body]
pub struct ExConnection(sqlite3::Connection);

#[verifier::external_type_specification]
#[verifier::external_body]
pub struct ExStatement<'l>(sqlite3::Statement<'l>);

/// Relies on `sqlite3::open`: opens (or creates) the catalog database file.
#[verifier::external_body]
fn open_connection(path: &str) -> (r: Result<sqlite3::Connection, ScanError>)
    ensures
        r matches Err(e) ==> e is Sqlite3Error,
{
    sqlite3::open(path).map_err(|e| ScanError::Sqlite3Error(format!("{}", e)))
}

/// Relies on `sqlite3::Connection::prepare`: compiles one SQL statement.
#[verifier::external_body]
fn prepare_statement<'l>(conn: &'l sqlite3::Connection, sql: &str) -> (r: Result<
    sqlite3::Statement<'l>,
    ScanError,
>)
    ensures
        r matches Err(e) ==> e is Sqlite3Error,
{
    conn.prepare(sql).map_err(|e| ScanError::Sqlite3Error(format!("{}", e)))
}

/// Relies on `sqlite3::Statement::bind` for `&str`: binds a text parameter.
/// Parameter indices are 1-based; the crate asserts a positive index.
#[verifier::external_body]
fn bind_text<'l>(st: &mut sqlite3::Statement<'l>, i: usize, v: &str) -> (r: Result<(), ScanError>)
    requires
        i >= 1,
    ensures
        r matches Err(e) ==> e is Sqlite3Error,
{
    st.bind(i, v).map_err(|e| ScanError::Sqlite3Error(format!("{}", e)))
}

/// Relies on `sqlite3::Statement::bind` for `i64`: binds a size as a numeric
/// parameter (the catalog stores sizes as integers; a size beyond the
/// signed 64-bit range wraps).  Parameter indices are 1-based.
#[verifier::external_body]
fn bind_size<'l>(st: &mut sqlite3::Statement<'l>, i: usize, v: u64) -> (r: Result<(), ScanError>)
    requires
        i >= 1,
    ensures
        r matches Err(e) ==> e is Sqlite3Error,
{
    st.bind(i, v as i64).map_err(|e| ScanError::Sqlite3Error(format!("{}", e)))
}

/// Relies on `sqlite3::Statement::next`: steps the query; `true` means a row
/// is available for reading.
#[verifier::external_body]
fn step_row<'l>(st: &mut sqlite3::Statement<'l>) -> (r: Result<bool, ScanError>)
    ensures
        r matches Err(e) ==> e is Sqlite3Error,
{
    match st.next() {
        Ok(sqlite3::State::Row) => Ok(true),
        Ok(sqlite3::State::Done) => Ok(false),
        Err(e) => Err(ScanError::Sqlite3Error(format!("{}", e))),
    }
}

/// Relies on `sqlite3::Statement::read` for `String`: reads a text column.
/// Column indices are 0-based.
#[verifier::external_body]
fn read_text<'l>(st: &sqlite3::Statement<'l>, col: usize) -> (r: Result<String, ScanError>)
    ensures
        r matches Err(e) ==> e is Sqlite3Error,
{
    st.read::<String>(col).map_err(|e| ScanError::Sqlite3Error(format!("{}", e)))
}

/// Relies on `sqlite3::Statement::read` for `i64`: reads a numeric column as
/// a size in bytes (a negative stored value wraps).  Column indices are
/// 0-based.
#[verifier::external_body]
fn read_size<'l>(st: &sqlite3::Statement<'l>, col: usize) -> (r: Result<u64, ScanError>)
    ensures
        r matches Err(e) ==> e is Sqlite3Error,
{
    st.read::<i64>(col).map(|v| v as u64).map_err(|e| ScanError::Sqlite3Error(format!("{}", e)))
}

/// `k` OR-clauses of the probe, joined by ` OR `.
pub open spec fn where_clauses(k: nat) -> Seq<char>
    decreases k,
{
    if k == 0 {
        Seq::empty()
    } else if k == 1 {
        "(path = ? AND size = ?)"@
    } else {
        where_clauses((k - 1) as nat) + " OR "@ + "(path = ? AND size = ?)"@
    }
}

/// The probe statement for a batch of `k` candidates.
pub open spec fn query_text(k: nat) -> Seq<char> {
    "SELECT path, size from allsongs WHERE "@ + where_clauses(k)
}

/// Build the probe statement for one batch, exact against [`query_text`].
fn build_query(k: usize) -> (r: String)
    requires
        k >= 1,
    ensures
        r@ == query_text(k as nat),
{
    let mut q: String = "SELECT path, size from allsongs WHERE ".to_owned();
    q.append("(path = ? AND size = ?)");
    proof {
        assert(q@ =~= query_text(1));
    }
    let mut n: usize = 1;
    while n < k
        invariant
            1 <= n <= k,
            q@ == query_text(n as nat),
        decreases k - n,
    {
        q.append(" OR ");
        q.append("(path = ? AND size = ?)");
        proof {
            assert(q@ =~= query_text((n + 1) as nat));
        }
        n = n + 1;
    }
    q
}

/// The two candidates are the same `(path, size)` pair.
fn entry_eq(a: &(String, u64), b: &(String, u64)) -> (r: bool)
    ensures
        r == (entry_view(*a) == entry_view(*b)),
{
    a.1 == b.1 && str_eq(a.0.as_str(), b.0.as_str())
}

/// Whether the list holds the candidate.
fn contains_entry(v: &Vec<(String, u64)>, x: &(String, u64)) -> (r: bool)
    ensures
        r == entries_view(v@).contains(entry_view(*x)),
{
    let mut i: usize = 0;
    while i < v.len()
        invariant
            i <= v@.len(),
            forall|j: int| 0 <= j < i ==> entries_view(v@)[j] != entry_view(*x),
        decreases v@.len() - i,
    {
        if entry_eq(&v[i], x) {
            proof {
                assert(entries_view(v@)[i as int] == entry_view(*x));
            }
            return true;
        }
        i = i + 1;
    }
    proof {
        if entries_view(v@).contains(entry_view(*x)) {
            let j = choose|j: int|
                0 <= j < entries_view(v@).len() && entries_view(v@)[j] == entry_view(*x);
        }
    }
    false
}

/// Drop repeated `(path, size)` pairs, keeping first occurrences: the probe
/// has set semantics.
pub fn dedup_entries(v: &Vec<(String, u64)>) -> (r: Vec<(String, u64)>)
    ensures
        entries_view(r@).no_duplicates(),
        forall|x: (Seq<char>, u64)| entries_view(r@).contains(x) == entries_view(v@).contains(x),
{
    broadcast use lemma_seq_contains_after_push;

    let mut out: Vec<(String, u64)> = Vec::new();
    let mut i: usize = 0;
    proof {
        assert(entries_view(v@).take(0) =~= Seq::<(Seq<char>, u64)>::empty());
    }
    while i < v.len()
        invariant
            i <= v@.len(),
            entries_view(out@).no_duplicates(),
            forall|x: (Seq<char>, u64)| entries_view(out@).contains(x) == entries_view(
                v@,
            ).take(i as int).contains(x),
        decreases v@.len() - i,
    {
        let ghost prev = entries_view(out@);
        let ghost taken = entries_view(v@).take(i as int);
        let hit = contains_entry(&out, &v[i]);
        if !hit {
            let item = (v[i].0.clone(), v[i].1);
            proof {
                assert(entry_view(item) == entries_view(v@)[i as int]);
            }
            out.push(item);
            proof {
                assert(entries_view(out@) =~= prev.push(entries_view(v@)[i as int]));
            }
        }
        proof {
            let evi = entries_view(v@)[i as int];
            assert(entries_view(v@).take(i + 1) =~= taken.push(evi));
            assert forall|x: (Seq<char>, u64)| entries_view(out@).contains(x) == entries_view(
                v@,
            ).take(i + 1).contains(x) by {
                lemma_seq_contains_after_push(taken, evi, x);
                assert(taken.push(evi).contains(x) == (evi == x || taken.contains(x)));
                if !hit {
                    assert(entries_view(out@) == prev.push(evi));
                    lemma_seq_contains_after_push(prev, evi, x);
                    assert(prev.push(evi).contains(x) == (evi == x || prev.contains(x)));
                } else {
                    assert(taken.contains(evi));
                    if evi == x {
                        assert(entries_view(out@).contains(x));
                    }
                }
            }
        }
        i = i + 1;
    }
    proof {
        assert(entries_view(v@).take(v@.len() as int) =~= entries_view(v@));
    }
    out
}

/// The predicate "not present in `b`".
pub open spec fn absent_from(b: Seq<(Seq<char>, u64)>) -> spec_fn((Seq<char>, u64)) -> bool {
    |x: (Seq<char>, u64)| !b.contains(x)
}

/// The candidates of `a` that are not present in `b`, in `a`'s order.
pub fn difference(a: &Vec<(String, u64)>, b: &Vec<(String, u64)>) -> (r: Vec<(String, u64)>)
    ensures
        entries_view(r@) == entries_view(a@).filter(absent_from(entries_view(b@))),
{
    broadcast use Seq::lemma_filter_push;

    let ghost pred = absent_from(entries_view(b@));
    let mut out: Vec<(String, u64)> = Vec::new();
    let mut i: usize = 0;
    proof {
        assert(entries_view(a@).take(0) =~= Seq::<(Seq<char>, u64)>::empty());
        assert(Seq::<(Seq<char>, u64)>::empty().filter(pred) =~= Seq::<(Seq<char>, u64)>::empty())
            by {
            reveal_with_fuel(Seq::filter, 2);
        }
    }
    while i < a.len()
        invariant
            i <= a@.len(),
            pred == absent_from(entries_view(b@)),
            entries_view(out@) == entries_view(a@).take(i as int).filter(pred),
        decreases a@.len() - i,
    {
        let ghost prev = entries_view(out@);
        let ghost taken = entries_view(a@).take(i as int);
        let keep = !contains_entry(b, &a[i]);
        if keep {
            let item = (a[i].0.clone(), a[i].1);
            proof {
                assert(entry_view(item) == entries_view(a@)[i as int]);
            }
            out.push(item);
            proof {
                assert(entries_view(out@) =~= prev.push(entries_view(a@)[i as int]));
            }
        }
        proof {
            let x = entries_view(a@)[i as int];
            assert(entries_view(a@).take(i + 1) =~= taken.push(x));
            taken.lemma_filter_push(x, pred);
            let lhs = taken.push(x).filter(pred);
            assert(lhs == if pred(x) {
                taken.filter(pred).push(x)
            } else {
                taken.filter(pred)
            });
            assert(entries_view(out@) == lhs);
        }
        i = i + 1;
    }
    proof {
        assert(entries_view(a@).take(a@.len() as int) =~= entries_view(a@));
    }
    out
}

/// The candidates not already present in the catalog's `allsongs` table,
/// with set semantics: duplicates are dropped, order is not preserved in any
/// particular way.  With no candidates, no statement is prepared and the
/// catalog file is not even opened.  What the catalog returns is whatever is
/// on disk, so the contract promises what holds of every outcome: the result
/// is a duplicate-free subset of the candidates, and empty input gives empty
/// output without touching the database.
pub fn files_not_in_db(database: &str, file_list: &Vec<(String, u64)>) -> (r: Result<
    Vec<(String, u64)>,
    ScanError,
>)
    ensures
        match r {
            Ok(v) => {
                &&& forall|i: int|
                    0 <= i < v@.len() ==> entries_view(file_list@).contains(
                        #[trigger] entries_view(v@)[i],
                    )
                &&& entries_view(v@).no_duplicates()
            },
            Err(e) => file_list@.len() > 0 && e is Sqlite3Error,
        },
        file_list@.len() == 0 ==> (r matches Ok(v) && v@.len() == 0),
{
    let distinct = dedup_entries(file_list);
    if distinct.len() == 0 {
        let empty: Vec<(String, u64)> = Vec::new();
        proof {
            assert(entries_view(empty@) =~= Seq::<(Seq<char>, u64)>::empty());
        }
        return Ok(empty);
    }
    proof {
        assert(entries_view(distinct@).len() == distinct@.len());
        assert(entries_view(file_list@).len() == file_list@.len());
        assert(entries_view(distinct@).contains(entries_view(distinct@)[0]));
        assert(entries_view(file_list@).contains(entries_view(distinct@)[0]));
        assert(file_list@.len() > 0);
    }
    let conn = match open_connection(database) {
        Ok(c) => c,
        Err(e) => {
            return Err(e);
        },
    };
    let mut present: Vec<(String, u64)> = Vec::new();
    let mut start: usize = 0;
    while start < distinct.len()
        invariant
            file_list@.len() > 0,
            start <= distinct@.len(),
            distinct@.len() == entries_view(distinct@).len(),
        decreases distinct@.len() - start,
    {
        let remaining = distinct.len() - start;
        let count = if remaining > EXPRESSION_LIMIT {
            EXPRESSION_LIMIT
        } else {
            remaining
        };
        let sql = build_query(count);
        let mut st = match prepare_statement(&conn, sql.as_str()) {
            Ok(s) => s,
            Err(e) => {
                return Err(e);
            },
        };
        let mut k: usize = 0;
        while k < count
            invariant
                file_list@.len() > 0,
                k <= count,
                count <= EXPRESSION_LIMIT,
                start + count <= distinct@.len(),
                distinct@.len() == distinct.len(),
            decreases count - k,
        {
            let item = &distinct[start + k];
            match bind_text(&mut st, 2 * k + 1, item.0.as_str()) {
                Ok(()) => {},
                Err(e) => {
                    return Err(e);
                },
            }
            match bind_size(&mut st, 2 * k + 2, item.1) {
                Ok(()) => {},
                Err(e) => {
                    return Err(e);
                },
            }
            k = k + 1;
        }
        let mut budget: u64 = u64::MAX;
        let mut more = match step_row(&mut st) {
            Ok(m) => m,
            Err(e) => {
                return Err(e);
            },
        };
        while more
            invariant
                file_list@.len() > 0,
            decreases budget,
        {
            if budget == 0 {
                return Err(
                    ScanError::Sqlite3Error("catalog query returned too many rows".to_owned()),
                );
            }
            budget = budget - 1;
            let p = match read_text(&st, 0) {
                Ok(p) => p,
                Err(e) => {
                    return Err(e);
                },
            };
            let sz = match read_size(&st, 1) {
                Ok(s) => s,
                Err(e) => {
                    return Err(e);
                },
            };
            present.push((p, sz));
            more = match step_row(&mut st) {
                Ok(m) => m,
                Err(e) => {
                    return Err(e);
                },
            };
        }
        start = start + count;
    }
    let diff = difference(&distinct, &present);
    proof {
        let pred = absent_from(entries_view(present@));
        let dv = entries_view(distinct@);
        dv.lemma_filter_len(pred);
        assert forall|i: int| 0 <= i < entries_view(diff@).len() implies entries_view(
            file_list@,
        ).contains(#[trigger] entries_view(diff@)[i]) by {
            dv.lemma_filter_pred(pred, i);
            dv.lemma_filter_contains_rev(pred, entries_view(diff@)[i]);
        }
        lemma_filter_no_duplicates(dv, pred);
    }
    Ok(diff)
}

/// Filtering keeps a duplicate-free sequence duplicate-free.
proof fn lemma_filter_no_duplicates<A>(s: Seq<A>, pred: spec_fn(A) -> bool)
    requires
        s.no_duplicates(),
    ensures
        s.filter(pred).no_duplicates(),
    decreases s.len(),
{
    reveal(Seq::filter);
    if s.len() > 0 {
        lemma_filter_no_duplicates(s.drop_last(), pred);
        if pred(s.last()) {
            let f = s.drop_last().filter(pred);
            assert forall|i: int, j: int|
                0 <= i < j < f.push(s.last()).len() implies f.push(s.last())[i] != f.push(
                s.last(),
            )[j] by {
                if j < f.len() {
                } else {
                    s.drop_last().lemma_filter_contains_rev(pred, f[i]);
                    let w = choose|w: int|
                        0 <= w < s.drop_last().len() && s.drop_last()[w] == f[i];
                    assert(s[w] == f[i]);
                    assert(s[s.len() - 1] == s.last());
                }
            }
        }
    }
}


/// Nothing the filter keeps matches a present row: subtracting the rows the
/// catalog returned leaves only candidates absent from them.
pub proof fn lemma_difference_disjoint(
    a: Seq<(Seq<char>, u64)>,
    b: Seq<(Seq<char>, u64)>,
    i: int,
)
    requires
        0 <= i < a.filter(absent_from(b)).len(),
    ensures
        !b.contains(a.filter(absent_from(b))[i]),
{
    a.lemma_filter_pred(absent_from(b), i);
}

/// Rescanning an unchanged tree against a catalog that already holds every
/// candidate filters them all out: the difference is empty.
pub proof fn lemma_all_present_filters_out(a: Seq<(Seq<char>, u64)>, b: Seq<(Seq<char>, u64)>)
    requires
        forall|i: int| 0 <= i < a.len() ==> b.contains(#[trigger] a[i]),
    ensures
        a.filter(absent_from(b)).len() == 0,
    decreases a.len(),
{
    reveal(Seq::filter);
    if a.len() > 0 {
        assert(forall|i: int| 0 <= i < a.drop_last().len() ==> b.contains(
            #[trigger] a.drop_last()[i],
        ));
        lemma_all_present_filters_out(a.drop_last(), b);
        assert(b.contains(a[a.len() - 1]));
        assert(!absent_from(b)(a.last()));
    }
}

/// The candidate batches a probe runs: chunks of at most `cap`, in order.
pub open spec fn batches_of(s: Seq<(Seq<char>, u64)>, cap: int) -> Seq<Seq<(Seq<char>, u64)>>
    decreases s.len(),
{
    if cap < 1 || s.len() == 0 {
        Seq::empty()
    } else if s.len() <= cap {
        seq![s]
    } else {
        seq![s.take(cap)] + batches_of(s.skip(cap), cap)
    }
}

/// Batching covers every candidate exactly once: the batches concatenate
/// back to the whole candidate list, and none is empty or over the limit.
pub proof fn lemma_batches_cover(s: Seq<(Seq<char>, u64)>, cap: int)
    requires
        cap >= 1,
    ensures
        batches_of(s, cap).flatten() == s,
        forall|i: int| 0 <= i < batches_of(s, cap).len() ==> 1 <= (
        #[trigger] batches_of(s, cap)[i]).len() <= cap,
    decreases s.len(),
{
    let bs = batches_of(s, cap);
    if s.len() == 0 {
        assert(bs.flatten() =~= s);
    } else if s.len() <= cap {
        assert(bs == seq![s]);
        assert(bs.flatten() =~= s) by {
            reveal_with_fuel(Seq::<_>::flatten, 3);
            assert(bs.drop_first() =~= Seq::<Seq<(Seq<char>, u64)>>::empty());
            assert(bs.flatten() == s + bs.drop_first().flatten());
        }
    } else {
        lemma_batches_cover(s.skip(cap), cap);
        assert(bs == seq![s.take(cap)] + batches_of(s.skip(cap), cap));
        assert(bs.drop_first() =~= batches_of(s.skip(cap), cap));
        assert(bs[0] == s.take(cap));
        assert(bs.flatten() == s.take(cap) + bs.drop_first().flatten()) by {
            reveal_with_fuel(Seq::<_>::flatten, 2);
        }
        assert(s.take(cap) + s.skip(cap) =~= s);
    }
}

/// Uniting the rows of all batches before subtracting filters exactly as the
/// per-part subtractions would: a candidate is absent from the union exactly
/// when it is absent from each part.
pub proof fn lemma_union_filters_like_parts(
    b1: Seq<(Seq<char>, u64)>,
    b2: Seq<(Seq<char>, u64)>,
    x: (Seq<char>, u64),
)
    ensures
        absent_from(b1 + b2)(x) == (absent_from(b1)(x) && absent_from(b2)(x)),
{
    if b1.contains(x) {
        let i = choose|i: int| 0 <= i < b1.len() && b1[i] == x;
        assert((b1 + b2)[i] == x);
    }
    if b2.contains(x) {
        let i = choose|i: int| 0 <= i < b2.len() && b2[i] == x;
        assert((b1 + b2)[b1.len() + i] == x);
    }
    if (b1 + b2).contains(x) {
        let i = choose|i: int| 0 <= i < (b1 + b2).len() && (b1 + b2)[i] == x;
        if i < b1.len() {
            assert(b1[i] == x);
        } else {
            assert(b2[i - b1.len()] == x);
        }
    }
}

} // verus!
