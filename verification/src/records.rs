//! The rows of a CSV file, as the `csv` crate reads them.

use vstd::prelude::*;
use crate::config::string_views;

verus! {

pub open spec fn rec_views(recs: Seq<Vec<String>>) -> Seq<Seq<Seq<char>>> {
    recs.map_values(|r: Vec<String>| string_views(r@))
}

pub open spec fn row_views(rows: Seq<Option<Vec<String>>>) -> Seq<Option<Seq<Seq<char>>>> {
    rows.map_values(
        |r: Option<Vec<String>>|
            match r {
                Some(v) => Some(string_views(v@)),
                None => None,
            },
    )
}

/// What a `csv::Reader` reads from `data`: a header row first, then each
/// record in order as its fields, or `None` for a record it cannot read
/// (not UTF-8, or, unless `flexible`, of another length than the header).
pub uninterp spec fn csv_rows(data: Seq<u8>, flexible: bool) -> Seq<Option<Seq<Seq<char>>>>;

/// Reads every record of `data` with a `csv::Reader` built by
/// `csv::ReaderBuilder::new().flexible(flexible)`, keeping `None` for each
/// record it reports an error for. The contract names the result; it does
/// not restate CSV.
#[verifier::external_body]
pub(crate) fn read_csv_rows(data: &[u8], flexible: bool) -> (r: Vec<Option<Vec<String>>>)
    ensures
        row_views(r@) == csv_rows(data@, flexible),
{
    let mut rdr = csv::ReaderBuilder::new().flexible(flexible).from_reader(data);
    rdr.records().map(|rec| rec.ok().map(|f| f.iter().map(|x| x.to_string()).collect())).collect()
}

/// The records before the first unreadable one, and whether every record
/// was readable.
pub open spec fn readable_prefix(rows: Seq<Option<Seq<Seq<char>>>>) -> (Seq<Seq<Seq<char>>>, bool)
    decreases rows.len(),
{
    if rows.len() == 0 {
        (Seq::empty(), true)
    } else {
        let (p, ok) = readable_prefix(rows.drop_last());
        if !ok {
            (p, false)
        } else {
            match rows.last() {
                Some(r) => (p.push(r), true),
                None => (p, false),
            }
        }
    }
}

fn clone_row(r: &Vec<String>) -> (o: Vec<String>)
    ensures
        string_views(o@) == string_views(r@),
{
    let mut o: Vec<String> = Vec::new();
    let mut i: usize = 0;
    while i < r.len()
        invariant
            0 <= i <= r.len(),
            string_views(o@) == string_views(r@).take(i as int),
        decreases r.len() - i,
    {
        let ghost before = o@;
        let c = r[i].clone();
        o.push(c);
        assert(string_views(o@) =~= string_views(before).push(r@[i as int]@));
        assert(string_views(o@) =~= string_views(r@).take(i + 1));
        i += 1;
    }
    assert(string_views(r@).take(r.len() as int) =~= string_views(r@));
    o
}

/// The records before the first unreadable one, and whether there was none.
pub(crate) fn rows_before_bad(rows: &Vec<Option<Vec<String>>>) -> (r: (Vec<Vec<String>>, bool))
    ensures
        (rec_views(r.0@), r.1) == readable_prefix(row_views(rows@)),
{
    let ghost rv = row_views(rows@);
    let mut out: Vec<Vec<String>> = Vec::new();
    let mut ok = true;
    let mut i: usize = 0;
    while i < rows.len()
        invariant
            0 <= i <= rows.len(),
            rv == row_views(rows@),
            (rec_views(out@), ok) == readable_prefix(rv.take(i as int)),
        decreases rows.len() - i,
    {
        assert(rv.take(i + 1).drop_last() =~= rv.take(i as int));
        assert(rv.take(i + 1).last() == rv[i as int]);
        if ok {
            match &rows[i] {
                Some(rec) => {
                    let c = clone_row(rec);
                    let ghost before = out@;
                    out.push(c);
                    assert(rec_views(out@) =~= rec_views(before).push(string_views(rec@)));
                },
                None => {
                    ok = false;
                },
            }
        }
        i += 1;
    }
    assert(rv.take(rows.len() as int) =~= rv);
    (out, ok)
}

} // verus!
