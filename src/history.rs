use vstd::prelude::*;
use vstd::string::StringExecFns;
use vstd::utf8::encode_utf8;
use crate::order::{bytes_le, bytes_lt, lemma_lt_asymmetric, lemma_lt_le};
use crate::record::{FetchTarget, target_urls};

verus! {

/// The view of an optional string.
pub open spec fn opt_view(s: Option<String>) -> Option<Seq<char>> {
    match s {
        Some(t) => Some(t@),
        None => None,
    }
}

/// The later of two optional instants; either where the other is unknown.
pub open spec fn latest(a: Option<i64>, b: Option<i64>) -> Option<i64> {
    match (a, b) {
        (Some(x), Some(y)) => Some(if x >= y { x } else { y }),
        (Some(x), None) => Some(x),
        (None, y) => y,
    }
}

/// Merges a second history record of the same URL into the first: the first
/// known title stays, and the latest known visit is kept.
pub fn merge_visit(previous: &mut FetchTarget, item: FetchTarget)
    ensures
        final(previous).url == old(previous).url,
        opt_view(final(previous).title) == (if old(previous).title is Some {
            opt_view(old(previous).title)
        } else {
            opt_view(item.title)
        }),
        final(previous).last_visit_micros == latest(old(previous).last_visit_micros, item.last_visit_micros),
{
    if previous.title.is_none() {
        previous.title = item.title;
    }
    previous.last_visit_micros = match (previous.last_visit_micros, item.last_visit_micros) {
        (Some(a), Some(b)) => Some(if a >= b { a } else { b }),
        (Some(a), None) => Some(a),
        (None, b) => b,
    };
}

/// The title to index for a page, from the history's title and the one
/// found in the page: either where the other is missing, one of them where
/// they agree, both joined by `, ` where they differ.
pub open spec fn title_of(history: Option<Seq<char>>, extracted: Option<Seq<char>>) -> Option<Seq<char>> {
    match (history, extracted) {
        (None, None) => None,
        (Some(t), None) => Some(t),
        (None, Some(t)) => Some(t),
        (Some(h), Some(e)) => if h == e { Some(h) } else { Some(h + ", "@ + e) },
    }
}

/// The title of a history record, if there is a record and it has one.
pub open spec fn history_title(item: Option<&FetchTarget>) -> Option<Seq<char>> {
    match item {
        Some(t) => opt_view(t.title),
        None => None,
    }
}

/// Decides the title to index for a page, see `title_of`.
pub fn decide_title(history_item: Option<&FetchTarget>, extracted_title: Option<String>) -> (r: Option<String>)
    ensures
        opt_view(r) == title_of(history_title(history_item), opt_view(extracted_title)),
{
    let history_title = match history_item {
        None => None,
        Some(item) => match &item.title {
            Some(t) => Some(t.clone()),
            None => None,
        },
    };
    match (history_title, extracted_title) {
        (None, None) => None,
        (Some(t), None) => Some(t),
        (None, Some(t)) => Some(t),
        (Some(h), Some(e)) => {
            if h == e {
                Some(h)
            } else {
                let mut joined = h;
                joined.append(", ");
                joined.append(e.as_str());
                proof {
                    assert(joined@ =~= h@ + ", "@ + e@);
                }
                Some(joined)
            }
        },
    }
}

/// The millisecond that holds a microsecond instant (rounding down, also
/// before the epoch).
pub open spec fn micros_to_millis(micros: int) -> int {
    micros / 1000
}

/// The millisecond that holds a microsecond instant, see `micros_to_millis`.
pub fn millis_of_micros(micros: i64) -> (r: i64)
    ensures
        r as int == micros_to_millis(micros as int),
{
    if micros >= 0 {
        let q = (micros as u64) / 1000;
        proof {
            assert(q as int == (micros as int) / 1000);
        }
        q as i64
    } else {
        let n: u64 = (-(micros + 1)) as u64;
        let q: u64 = n / 1000;
        proof {
            let m = micros as int;
            assert(n as int == -m - 1);
            assert(q as int == (-m - 1) / 1000);
            assert(-(q as int) - 1 == m / 1000) by (nonlinear_arith)
                requires
                    q as int == (-m - 1) / 1000,
                    m < 0,
            ;
        }
        -(q as i64) - 1
    }
}

/// The last visit to index for a page, in milliseconds: that of its history
/// record, if there is a record and it knows one.
pub fn decide_last_visit(item: Option<&FetchTarget>) -> (r: Option<i64>)
    ensures
        match item {
            Some(t) => match t.last_visit_micros {
                Some(m) => r == Some(micros_to_millis(m as int) as i64),
                None => r is None,
            },
            None => r is None,
        },
{
    match item {
        None => None,
        Some(t) => match t.last_visit_micros {
            None => None,
            Some(m) => Some(millis_of_micros(m)),
        },
    }
}

/// A history record as plain values: URL, title and last visit.
pub type VisitView = (Seq<char>, Option<Seq<char>>, Option<i64>);

/// The plain values of a history record.
pub open spec fn visit_view(t: FetchTarget) -> VisitView {
    (t.url@, opt_view(t.title), t.last_visit_micros)
}

/// Two records of one URL merged, see `merge_visit`.
pub open spec fn merged_visit(a: VisitView, b: VisitView) -> VisitView {
    (a.0, if a.1 is Some { a.1 } else { b.1 }, latest(a.2, b.2))
}

/// Records in order, each run of records of one URL merged into one.
pub open spec fn merge_runs(rows: Seq<VisitView>) -> Seq<VisitView>
    decreases rows.len(),
{
    if rows.len() == 0 {
        Seq::empty()
    } else {
        let m = merge_runs(rows.drop_last());
        let x = rows.last();
        if m.len() > 0 && m.last().0 == x.0 {
            m.update(m.len() - 1, merged_visit(m.last(), x))
        } else {
            m.push(x)
        }
    }
}

/// Records ordered by the bytes of their URL.
pub open spec fn sorted_by_url(v: Seq<FetchTarget>) -> bool {
    forall|i: int, j: int|
        0 <= i < j < v.len() ==> bytes_le(encode_utf8((#[trigger] v[i]).url@), encode_utf8((#[trigger] v[j]).url@))
}

/// Record views ordered by the bytes of their URL.
pub open spec fn views_sorted(v: Seq<VisitView>) -> bool {
    forall|i: int, j: int| 0 <= i < j < v.len() ==> bytes_le(encode_utf8((#[trigger] v[i]).0), encode_utf8((#[trigger] v[j]).0))
}

/// Merging the runs of records ordered by URL leaves records whose URLs
/// strictly increase, the last being that of the last record.
pub proof fn lemma_merge_runs_strict(rows: Seq<VisitView>)
    requires
        views_sorted(rows),
    ensures
        forall|i: int, j: int| 0 <= i < j < merge_runs(rows).len() ==> bytes_lt(
            encode_utf8((#[trigger] merge_runs(rows)[i]).0),
            encode_utf8((#[trigger] merge_runs(rows)[j]).0),
        ),
        rows.len() > 0 ==> merge_runs(rows).len() > 0 && merge_runs(rows).last().0 == rows.last().0,
    decreases rows.len(),
{
    if rows.len() > 0 {
        let prev = rows.drop_last();
        let x = rows.last();
        assert(views_sorted(prev)) by {
            assert forall|i: int, j: int| 0 <= i < j < prev.len() implies bytes_le(encode_utf8((#[trigger] prev[i]).0), encode_utf8((#[trigger] prev[j]).0)) by {
                assert(prev[i] == rows[i] && prev[j] == rows[j]);
            }
        }
        lemma_merge_runs_strict(prev);
        let m = merge_runs(prev);
        if m.len() > 0 && m.last().0 != x.0 {
            let last = m.last();
            assert(rows[rows.len() - 2] == prev.last());
            assert(bytes_le(encode_utf8(last.0), encode_utf8(x.0)));
            vstd::utf8::encode_utf8_decode_utf8(last.0);
            vstd::utf8::encode_utf8_decode_utf8(x.0);
            assert(encode_utf8(last.0) != encode_utf8(x.0));
            let r = merge_runs(rows);
            assert(r == m.push(x));
            assert forall|i: int, j: int| 0 <= i < j < r.len() implies bytes_lt(
                encode_utf8((#[trigger] r[i]).0),
                encode_utf8((#[trigger] r[j]).0),
            ) by {
                if j == r.len() - 1 {
                    assert(r[j] == x);
                    if i < m.len() - 1 {
                        assert(r[i] == m[i]);
                        assert(bytes_lt(encode_utf8(m[i].0), encode_utf8(m[m.len() - 1].0)));
                        lemma_lt_le(encode_utf8(m[i].0), encode_utf8(last.0), encode_utf8(x.0));
                    }
                } else {
                    assert(r[i] == m[i] && r[j] == m[j]);
                }
            }
        } else if m.len() > 0 {
            let r = merge_runs(rows);
            assert forall|i: int, j: int| 0 <= i < j < r.len() implies bytes_lt(
                encode_utf8((#[trigger] r[i]).0),
                encode_utf8((#[trigger] r[j]).0),
            ) by {
                assert(r[i].0 == m[i].0 && r[j].0 == m[j].0);
            }
        }
    }
}

/// Relies on `slice::sort_unstable_by` comparing URLs with `Ord for String`,
/// which orders strings lexicographically by their bytes: afterwards the
/// vector holds the same records, ordered by URL.
#[verifier::external_body]
fn sort_by_url(v: &mut Vec<FetchTarget>)
    ensures
        final(v)@.to_multiset() == old(v)@.to_multiset(),
        sorted_by_url(final(v)@),
{
    v.sort_unstable_by(|a, b| a.url.cmp(&b.url));
}

/// The history with one record per URL: the records are ordered by URL and
/// each run of records of one URL is merged, see `merge_visit`. Which of
/// several records of one URL comes first in its run is left open, as is
/// the order of the records in `rows`.
pub fn merge_history(rows: Vec<FetchTarget>) -> (r: Vec<FetchTarget>)
    ensures
        exists|s: Seq<FetchTarget>|
            #![trigger s.to_multiset()]
            s.to_multiset() == rows@.to_multiset() && sorted_by_url(s)
                && r@.map_values(|t: FetchTarget| visit_view(t)) == merge_runs(
                s.map_values(|t: FetchTarget| visit_view(t)),
            ),
        target_urls(r@).no_duplicates(),
{
    let mut rows = rows;
    sort_by_url(&mut rows);
    let ghost s = rows@;
    let ghost sv = s.map_values(|t: FetchTarget| visit_view(t));
    // Taken from the back, the rows come out last first.
    let mut rev: Vec<FetchTarget> = Vec::new();
    while rows.len() > 0
        invariant
            rows@ + rev@.reverse() == s,
        decreases rows@.len(),
    {
        let row = rows.pop().unwrap();
        proof {
            assert(rows@ + rev@.push(row).reverse() =~= s) by {
                assert(rev@.push(row).reverse() =~= seq![row] + rev@.reverse());
            }
        }
        rev.push(row);
    }
    let mut out: Vec<FetchTarget> = Vec::new();
    let ghost n = s.len();
    assert(rev@.reverse() =~= s);
    while rev.len() > 0
        invariant
            rev@.reverse() == s.subrange(n - rev@.len(), n as int),
            n == s.len(),
            rev@.len() <= n,
            sv == s.map_values(|t: FetchTarget| visit_view(t)),
            out@.map_values(|t: FetchTarget| visit_view(t)) == merge_runs(sv.subrange(0, n - rev@.len())),
        decreases rev@.len(),
    {
        let ghost k = n - rev@.len();
        let ghost old_rev = rev@;
        let row = rev.pop().unwrap();
        proof {
            assert(old_rev.reverse()[0] == old_rev[old_rev.len() - 1]);
            assert(s.subrange(k, n as int)[0] == s[k]);
            assert(row == s[k]);
            assert(rev@.reverse() =~= old_rev.reverse().drop_first());
            assert(sv.subrange(0, k + 1).drop_last() =~= sv.subrange(0, k));
            assert(sv.subrange(0, k + 1).last() == visit_view(row));
            assert(rev@.reverse() =~= s.subrange(k + 1, n as int)) by {
                assert(s.subrange(k, n as int).drop_first() =~= s.subrange(k + 1, n as int));
            }
        }
        let ghost before = out@;
        let same = match out.last() {
            Some(last) => last.url == row.url,
            None => false,
        };
        if same {
            let mut last = out.pop().unwrap();
            merge_visit(&mut last, row);
            out.push(last);
            proof {
                assert(out@.map_values(|t: FetchTarget| visit_view(t)) =~= before.map_values(
                    |t: FetchTarget| visit_view(t),
                ).update(before.len() - 1, merged_visit(visit_view(before.last()), visit_view(row))));
            }
        } else {
            out.push(row);
            proof {
                assert(out@.map_values(|t: FetchTarget| visit_view(t)) =~= before.map_values(
                    |t: FetchTarget| visit_view(t),
                ).push(visit_view(row)));
            }
        }
    }
    proof {
        assert(sv.subrange(0, n as int) =~= sv);
        assert(views_sorted(sv)) by {
            assert forall|i: int, j: int| 0 <= i < j < sv.len() implies bytes_le(encode_utf8((#[trigger] sv[i]).0), encode_utf8((#[trigger] sv[j]).0)) by {
                assert(sv[i].0 == s[i].url@ && sv[j].0 == s[j].url@);
            }
        }
        lemma_merge_runs_strict(sv);
        let m = merge_runs(sv);
        assert forall|i: int, j: int| 0 <= i < target_urls(out@).len() && 0 <= j < target_urls(out@).len() && i != j
            implies target_urls(out@)[i] != target_urls(out@)[j] by {
            assert(target_urls(out@)[i] == m[i].0 && target_urls(out@)[j] == m[j].0);
            if i < j {
                lemma_lt_asymmetric(encode_utf8(m[i].0), encode_utf8(m[j].0));
            } else {
                lemma_lt_asymmetric(encode_utf8(m[j].0), encode_utf8(m[i].0));
            }
        }
    }
    out
}

} // verus!
