//! The order in which watches are listed: the search filter, the sort
//! columns and the direction, with ties kept in the order of the list.
use vstd::prelude::*;

use crate::models::{Timestamp, Watch, WatchView};
use crate::text::{
    chars_of, contains_chars, flip, has_substring, lowercase, lowercase_chars, order_chars,
    seq_order, Rank, lemma_seq_order_flip, lemma_seq_order_transitive,
};

verus! {

/// The column the list is sorted by.
#[derive(Clone, Copy, Debug, PartialEq, Eq, Structural)]
pub enum SortColumn {
    Name,
    LastChecked,
    SuccessRate,
}

/// A watch is listed for a search when the search is empty, or when the
/// search occurs in its name or its URL, ignoring case.
pub open spec fn matches_search(w: WatchView, query: Seq<char>) -> bool {
    ||| query.len() == 0
    ||| has_substring(lowercase(w.name), lowercase(query))
    ||| has_substring(lowercase(w.url), lowercase(query))
}

/// Time order: by whole seconds, then by the nanoseconds within the second.
pub open spec fn time_order(a: Timestamp, b: Timestamp) -> Rank {
    if a.secs < b.secs {
        Rank::Less
    } else if a.secs > b.secs {
        Rank::Greater
    } else if a.nanos < b.nanos {
        Rank::Less
    } else if a.nanos > b.nanos {
        Rank::Greater
    } else {
        Rank::Equal
    }
}

/// Last-checked order: never checked comes first, then by time.
pub open spec fn checked_order(a: Option<Timestamp>, b: Option<Timestamp>) -> Rank {
    match (a, b) {
        (None, None) => Rank::Equal,
        (None, Some(_)) => Rank::Less,
        (Some(_), None) => Rank::Greater,
        (Some(x), Some(y)) => time_order(x, y),
    }
}

/// The success rate as a fraction (successes, checks); a watch never
/// checked has rate 0 (taken as 0/1).
pub open spec fn rate_fraction(w: WatchView) -> (int, int) {
    if w.total_checks > 0 {
        (w.total_successes as int, w.total_checks as int)
    } else {
        (0, 1)
    }
}

/// Success-rate order, compared exactly.
pub open spec fn rate_order(a: WatchView, b: WatchView) -> Rank {
    let (sa, ca) = rate_fraction(a);
    let (sb, cb) = rate_fraction(b);
    if sa * cb < sb * ca {
        Rank::Less
    } else if sa * cb > sb * ca {
        Rank::Greater
    } else {
        Rank::Equal
    }
}

/// How two watches compare in a column, ascending: names ignore case.
pub open spec fn column_order(column: SortColumn, a: WatchView, b: WatchView) -> Rank {
    match column {
        SortColumn::Name => seq_order(lowercase(a.name), lowercase(b.name)),
        SortColumn::LastChecked => checked_order(a.last_checked, b.last_checked),
        SortColumn::SuccessRate => rate_order(a, b),
    }
}

/// How two watches compare in a column and direction.
pub open spec fn sort_order(column: SortColumn, ascending: bool, a: WatchView, b: WatchView) -> Rank {
    if ascending {
        column_order(column, a, b)
    } else {
        flip(column_order(column, a, b))
    }
}

/// The watch at index `i` is listed before the one at index `j`: it sorts
/// first, or it sorts the same and comes first in the list.
pub open spec fn listed_before(
    watches: Seq<WatchView>,
    column: SortColumn,
    ascending: bool,
    i: usize,
    j: usize,
) -> bool {
    let r = sort_order(column, ascending, watches[i as int], watches[j as int]);
    r == Rank::Less || (r == Rank::Equal && i < j)
}

/// `order` lists the indices of exactly the watches that match `query`,
/// each once, sorted by `column` in the given direction, ties in list order.
pub open spec fn is_listing(
    watches: Seq<WatchView>,
    query: Seq<char>,
    column: SortColumn,
    ascending: bool,
    order: Seq<usize>,
) -> bool {
    &&& forall|k: int|
        0 <= k < order.len() ==> #[trigger] order[k] < watches.len() && matches_search(
            watches[order[k] as int],
            query,
        )
    &&& forall|i: usize|
        i < watches.len() && matches_search(#[trigger] watches[i as int], query)
            ==> order.contains(i)
    &&& forall|a: int, b: int|
        0 <= a < b < order.len() ==> listed_before(
            watches,
            column,
            ascending,
            #[trigger] order[a],
            #[trigger] order[b],
        )
}

/// The listing of `watches` for a search, column and direction; there is
/// exactly one (`lemma_listing_unique`).
pub open spec fn listing_of(
    watches: Seq<WatchView>,
    query: Seq<char>,
    column: SortColumn,
    ascending: bool,
) -> Seq<usize> {
    choose|order: Seq<usize>| is_listing(watches, query, column, ascending, order)
}

// ---------------------------------------------------------------------------
// The orders are total preorders
// ---------------------------------------------------------------------------

proof fn lemma_rate_order(a: WatchView, b: WatchView, c: WatchView)
    ensures
        rate_order(b, a) == flip(rate_order(a, b)),
        rate_order(a, b) != Rank::Greater && rate_order(b, c) != Rank::Greater ==> rate_order(a, c)
            != Rank::Greater,
        rate_order(a, b) != Rank::Greater && rate_order(b, c) != Rank::Greater && (rate_order(a, b)
            == Rank::Less || rate_order(b, c) == Rank::Less) ==> rate_order(a, c) == Rank::Less,
{
    let (sa, ca) = rate_fraction(a);
    let (sb, cb) = rate_fraction(b);
    let (sc, cc) = rate_fraction(c);
    assert(ca > 0 && cb > 0 && cc > 0);
    assert(sa * cb <= sb * ca && sb * cc <= sc * cb ==> sa * cc <= sc * ca) by (nonlinear_arith)
        requires
            ca > 0,
            cb > 0,
            cc > 0,
    ;
    assert((sa * cb < sb * ca && sb * cc <= sc * cb) || (sa * cb <= sb * ca && sb * cc < sc * cb)
        ==> sa * cc < sc * ca) by (nonlinear_arith)
        requires
            ca > 0,
            cb > 0,
            cc > 0,
    ;
}

/// Comparing the other way round gives the opposite outcome.
pub proof fn lemma_column_order_flip(column: SortColumn, a: WatchView, b: WatchView)
    ensures
        column_order(column, b, a) == flip(column_order(column, a, b)),
{
    match column {
        SortColumn::Name => lemma_seq_order_flip(lowercase(a.name), lowercase(b.name)),
        SortColumn::LastChecked => {},
        SortColumn::SuccessRate => lemma_rate_order(a, b, a),
    }
}

/// Each column order is transitive, strictly so when one step is strict.
pub proof fn lemma_column_order_transitive(
    column: SortColumn,
    a: WatchView,
    b: WatchView,
    c: WatchView,
)
    requires
        column_order(column, a, b) != Rank::Greater,
        column_order(column, b, c) != Rank::Greater,
    ensures
        column_order(column, a, c) != Rank::Greater,
        column_order(column, a, b) == Rank::Less || column_order(column, b, c) == Rank::Less
            ==> column_order(column, a, c) == Rank::Less,
{
    match column {
        SortColumn::Name => lemma_seq_order_transitive(
            lowercase(a.name),
            lowercase(b.name),
            lowercase(c.name),
        ),
        SortColumn::LastChecked => {},
        SortColumn::SuccessRate => lemma_rate_order(a, b, c),
    }
}

proof fn lemma_sort_order_flip(column: SortColumn, ascending: bool, a: WatchView, b: WatchView)
    ensures
        sort_order(column, ascending, b, a) == flip(sort_order(column, ascending, a, b)),
{
    lemma_column_order_flip(column, a, b);
}

proof fn lemma_sort_order_transitive(
    column: SortColumn,
    ascending: bool,
    a: WatchView,
    b: WatchView,
    c: WatchView,
)
    requires
        sort_order(column, ascending, a, b) != Rank::Greater,
        sort_order(column, ascending, b, c) != Rank::Greater,
    ensures
        sort_order(column, ascending, a, c) != Rank::Greater,
        sort_order(column, ascending, a, b) == Rank::Less || sort_order(column, ascending, b, c)
            == Rank::Less ==> sort_order(column, ascending, a, c) == Rank::Less,
{
    if ascending {
        lemma_column_order_transitive(column, a, b, c);
    } else {
        lemma_column_order_flip(column, a, b);
        lemma_column_order_flip(column, b, c);
        lemma_column_order_flip(column, a, c);
        lemma_column_order_transitive(column, c, b, a);
    }
}

/// "Listed before" is a strict total order on the indices of a list.
pub proof fn lemma_listed_before_strict_total(
    watches: Seq<WatchView>,
    column: SortColumn,
    ascending: bool,
    i: usize,
    j: usize,
    k: usize,
)
    requires
        i < watches.len(),
        j < watches.len(),
        k < watches.len(),
    ensures
        !listed_before(watches, column, ascending, i, i),
        listed_before(watches, column, ascending, i, j) ==> !listed_before(
            watches,
            column,
            ascending,
            j,
            i,
        ),
        i != j ==> listed_before(watches, column, ascending, i, j) || listed_before(
            watches,
            column,
            ascending,
            j,
            i,
        ),
        listed_before(watches, column, ascending, i, j) && listed_before(
            watches,
            column,
            ascending,
            j,
            k,
        ) ==> listed_before(watches, column, ascending, i, k),
{
    let wi = watches[i as int];
    let wj = watches[j as int];
    let wk = watches[k as int];
    lemma_sort_order_flip(column, ascending, wi, wi);
    lemma_sort_order_flip(column, ascending, wi, wj);
    if listed_before(watches, column, ascending, i, j) && listed_before(
        watches,
        column,
        ascending,
        j,
        k,
    ) {
        lemma_sort_order_transitive(column, ascending, wi, wj, wk);
    }
}

/// Two sequences sorted strictly by the same asymmetric relation, holding
/// the same elements, are equal.
pub proof fn lemma_sorted_unique(a: Seq<usize>, b: Seq<usize>, before: spec_fn(usize, usize) -> bool)
    requires
        forall|x: usize, y: usize| #[trigger] before(x, y) ==> !before(y, x),
        forall|p: int, q: int| 0 <= p < q < a.len() ==> before(#[trigger] a[p], #[trigger] a[q]),
        forall|p: int, q: int| 0 <= p < q < b.len() ==> before(#[trigger] b[p], #[trigger] b[q]),
        forall|x: usize| a.contains(x) <==> b.contains(x),
    ensures
        a == b,
    decreases a.len(),
{
    if a.len() == 0 {
        if b.len() > 0 {
            assert(b.contains(b[0]));
        }
        assert(a =~= b);
    } else {
        assert(a.contains(a[0]));
        let m = choose|m: int| 0 <= m < b.len() && b[m] == a[0];
        assert(b.contains(b[0]));
        let n = choose|n: int| 0 <= n < a.len() && a[n] == b[0];
        if m > 0 {
            assert(before(b[0], b[m]));
            if n > 0 {
                assert(before(a[0], a[n]));
            }
        }
        assert(a[0] == b[0]);
        let a1 = a.drop_first();
        let b1 = b.drop_first();
        assert forall|x: usize| a1.contains(x) <==> b1.contains(x) by {
            if a1.contains(x) {
                let p = choose|p: int| 0 <= p < a1.len() && a1[p] == x;
                assert(before(a[0], a[p + 1]));
                assert(a.contains(x));
                let q = choose|q: int| 0 <= q < b.len() && b[q] == x;
                if q == 0 {
                    assert(before(x, x));
                }
                assert(b1[q - 1] == x);
            }
            if b1.contains(x) {
                let p = choose|p: int| 0 <= p < b1.len() && b1[p] == x;
                assert(before(b[0], b[p + 1]));
                assert(b.contains(x));
                let q = choose|q: int| 0 <= q < a.len() && a[q] == x;
                if q == 0 {
                    assert(before(x, x));
                }
                assert(a1[q - 1] == x);
            }
        }
        assert forall|p: int, q: int| 0 <= p < q < a1.len() implies before(
            #[trigger] a1[p],
            #[trigger] a1[q],
        ) by {
            assert(before(a[p + 1], a[q + 1]));
        }
        assert forall|p: int, q: int| 0 <= p < q < b1.len() implies before(
            #[trigger] b1[p],
            #[trigger] b1[q],
        ) by {
            assert(before(b[p + 1], b[q + 1]));
        }
        lemma_sorted_unique(a1, b1, before);
        assert(a =~= b) by {
            assert forall|p: int| 0 <= p < a.len() implies a[p] == b[p] by {
                if p > 0 {
                    assert(a[p] == a1[p - 1]);
                    assert(b[p] == b1[p - 1]);
                }
            }
        }
    }
}

/// A search, column and direction determine the listing: any two
/// sequences that list the matching watches in sorted order are the same.
pub proof fn lemma_listing_unique(
    watches: Seq<WatchView>,
    query: Seq<char>,
    column: SortColumn,
    ascending: bool,
    a: Seq<usize>,
    b: Seq<usize>,
)
    requires
        is_listing(watches, query, column, ascending, a),
        is_listing(watches, query, column, ascending, b),
    ensures
        a == b,
{
    let n = watches.len();
    let before = |x: usize, y: usize|
        x < n && y < n && listed_before(watches, column, ascending, x, y);
    assert forall|x: usize, y: usize| #[trigger] before(x, y) implies !before(y, x) by {
        lemma_listed_before_strict_total(watches, column, ascending, x, y, x);
    }
    assert forall|p: int, q: int| 0 <= p < q < a.len() implies before(
        #[trigger] a[p],
        #[trigger] a[q],
    ) by {
        assert(a[p] < n);
        assert(a[q] < n);
    }
    assert forall|p: int, q: int| 0 <= p < q < b.len() implies before(
        #[trigger] b[p],
        #[trigger] b[q],
    ) by {
        assert(b[p] < n);
        assert(b[q] < n);
    }
    assert forall|x: usize| a.contains(x) <==> b.contains(x) by {
        if a.contains(x) {
            let p = choose|p: int| 0 <= p < a.len() && a[p] == x;
            assert(a[p] < n);
            assert(matches_search(watches[x as int], query));
        }
        if b.contains(x) {
            let p = choose|p: int| 0 <= p < b.len() && b[p] == x;
            assert(b[p] < n);
            assert(matches_search(watches[x as int], query));
        }
    }
    lemma_sorted_unique(a, b, before);
}

// ---------------------------------------------------------------------------
// Computing the listing
// ---------------------------------------------------------------------------

/// The views of a list of watches.
pub open spec fn watches_view(ws: Seq<Watch>) -> Seq<WatchView> {
    ws.map_values(|w: Watch| w@)
}

fn time_rank(a: Timestamp, b: Timestamp) -> (r: Rank)
    ensures
        r == time_order(a, b),
{
    if a.secs < b.secs {
        Rank::Less
    } else if a.secs > b.secs {
        Rank::Greater
    } else if a.nanos < b.nanos {
        Rank::Less
    } else if a.nanos > b.nanos {
        Rank::Greater
    } else {
        Rank::Equal
    }
}

fn checked_rank(a: Option<Timestamp>, b: Option<Timestamp>) -> (r: Rank)
    ensures
        r == checked_order(a, b),
{
    match (a, b) {
        (None, None) => Rank::Equal,
        (None, Some(_)) => Rank::Less,
        (Some(_), None) => Rank::Greater,
        (Some(x), Some(y)) => time_rank(x, y),
    }
}

fn rate_rank(a: &Watch, b: &Watch) -> (r: Rank)
    ensures
        r == rate_order(a@, b@),
{
    let (sa, ca): (u128, u128) = if a.total_checks > 0 {
        (a.total_successes as u128, a.total_checks as u128)
    } else {
        (0, 1)
    };
    let (sb, cb): (u128, u128) = if b.total_checks > 0 {
        (b.total_successes as u128, b.total_checks as u128)
    } else {
        (0, 1)
    };
    assert(sa * cb <= u64::MAX * u64::MAX) by (nonlinear_arith)
        requires
            sa <= u64::MAX,
            cb <= u64::MAX,
    ;
    assert(sb * ca <= u64::MAX * u64::MAX) by (nonlinear_arith)
        requires
            sb <= u64::MAX,
            ca <= u64::MAX,
    ;
    let left = sa * cb;
    let right = sb * ca;
    if left < right {
        Rank::Less
    } else if left > right {
        Rank::Greater
    } else {
        Rank::Equal
    }
}

/// The lowercase names of the watches, computed once for sorting.
fn lowercase_names(watches: &Vec<Watch>) -> (r: Vec<Vec<char>>)
    ensures
        r.len() == watches.len(),
        forall|i: int| 0 <= i < r.len() ==> #[trigger] r[i]@ == lowercase(watches[i].name@),
{
    let mut r: Vec<Vec<char>> = Vec::new();
    let n = watches.len();
    let mut i: usize = 0;
    while i < n
        invariant
            n == watches.len(),
            i <= n,
            r.len() == i,
            forall|k: int| 0 <= k < i ==> #[trigger] r[k]@ == lowercase(watches[k].name@),
        decreases n - i,
    {
        r.push(lowercase_chars(watches[i].name.as_str()));
        i = i + 1;
    }
    r
}

fn listed_before_exec(
    watches: &Vec<Watch>,
    names: &Vec<Vec<char>>,
    column: SortColumn,
    ascending: bool,
    i: usize,
    j: usize,
) -> (r: bool)
    requires
        i < watches.len(),
        j < watches.len(),
        names.len() == watches.len(),
        forall|k: int| 0 <= k < names.len() ==> #[trigger] names[k]@ == lowercase(watches[k].name@),
    ensures
        r == listed_before(watches_view(watches@), column, ascending, i, j),
{
    let c = match column {
        SortColumn::Name => order_chars(&names[i], &names[j]),
        SortColumn::LastChecked => checked_rank(watches[i].last_checked, watches[j].last_checked),
        SortColumn::SuccessRate => rate_rank(&watches[i], &watches[j]),
    };
    let c = if ascending {
        c
    } else {
        crate::text::flip_rank(c)
    };
    match c {
        Rank::Less => true,
        Rank::Equal => i < j,
        Rank::Greater => false,
    }
}

/// The indices of the watches that match `query`, sorted by `column` in the
/// given direction, ties in list order.
pub fn list_order(watches: &Vec<Watch>, query: &str, column: SortColumn, ascending: bool) -> (r: Vec<
    usize,
>)
    ensures
        r@ == listing_of(watches_view(watches@), query@, column, ascending),
        is_listing(watches_view(watches@), query@, column, ascending, r@),
{
    let ghost ws = watches_view(watches@);
    let names = lowercase_names(watches);
    let q = lowercase_chars(query);
    let query_empty = chars_of(query).len() == 0;
    let n = watches.len();
    let mut out: Vec<usize> = Vec::new();
    let mut i: usize = 0;
    while i < n
        invariant
            n == watches.len(),
            ws == watches_view(watches@),
            i <= n,
            names.len() == n,
            forall|k: int| 0 <= k < names.len() ==> #[trigger] names[k]@ == lowercase(watches[k].name@),
            q@ == lowercase(query@),
            query_empty == (query@.len() == 0),
            forall|k: int|
                0 <= k < out.len() ==> #[trigger] out[k] < i && matches_search(
                    ws[out[k] as int],
                    query@,
                ),
            forall|x: usize| x < i && matches_search(#[trigger] ws[x as int], query@) ==> out@.contains(x),
            forall|a: int, b: int|
                0 <= a < b < out.len() ==> listed_before(ws, column, ascending, #[trigger] out[a], #[trigger] out[b]),
        decreases n - i,
    {
        let shown = query_empty || contains_chars(&names[i], &q) || contains_chars(
            &lowercase_chars(watches[i].url.as_str()),
            &q,
        );
        assert(shown == matches_search(ws[i as int], query@));
        if shown {
            let m = out.len();
            let mut p: usize = 0;
            while p < m && listed_before_exec(watches, &names, column, ascending, out[p], i)
                invariant
                    n == watches.len(),
                    ws == watches_view(watches@),
                    i < n,
                    m == out.len(),
                    p <= m,
                    names.len() == n,
                    forall|k: int| 0 <= k < names.len() ==> #[trigger] names[k]@ == lowercase(watches[k].name@),
                    forall|k: int| 0 <= k < out.len() ==> #[trigger] out[k] < i,
                    forall|k: int| 0 <= k < p ==> listed_before(ws, column, ascending, #[trigger] out[k], i),
                decreases m - p,
            {
                p = p + 1;
            }
            proof {
                assert forall|k: int| p <= k < m implies listed_before(ws, column, ascending, i, #[trigger] out[k]) by {
                    lemma_listed_before_strict_total(ws, column, ascending, out[p as int], out[k], i);
                    lemma_listed_before_strict_total(ws, column, ascending, i, out[k], i);
                    if k > p {
                        assert(listed_before(ws, column, ascending, out[p as int], out[k]));
                    }
                }
            }
            proof {
                lemma_insert_in_order(ws, query@, column, ascending, out@, i, p as int);
            }
            out.insert(p, i);
        }
        i = i + 1;
    }
    proof {
        assert(is_listing(ws, query@, column, ascending, out@));
        let chosen = listing_of(ws, query@, column, ascending);
        assert(is_listing(ws, query@, column, ascending, chosen));
        lemma_listing_unique(ws, query@, column, ascending, out@, chosen);
    }
    out
}

/// A listing exists for every list, search, column and direction, so
/// `listing_of` is one.
pub proof fn lemma_listing_exists(
    watches: Seq<WatchView>,
    query: Seq<char>,
    column: SortColumn,
    ascending: bool,
)
    ensures
        is_listing(watches, query, column, ascending, listing_of(watches, query, column, ascending)),
        listing_of(watches, query, column, ascending).len() <= watches.len(),
        listing_of(watches, query, column, ascending).len() <= usize::MAX + 1,
        watches.len() <= usize::MAX && (forall|j: int|
            0 <= j < watches.len() ==> matches_search(#[trigger] watches[j], query))
            ==> listing_of(watches, query, column, ascending).len() == watches.len(),
{
    let n = if watches.len() <= usize::MAX {
        watches.len() as int
    } else {
        usize::MAX + 1
    };
    let order = sorted_prefix(watches, query, column, ascending, n);
    lemma_sorted_prefix(watches, query, column, ascending, n);
    assert(is_listing(watches, query, column, ascending, order));
    lemma_listing_unique(
        watches,
        query,
        column,
        ascending,
        order,
        listing_of(watches, query, column, ascending),
    );
}

/// Whether a watch is listed depends on the search alone, not on the sort:
/// it is listed exactly when it matches the search.
pub proof fn lemma_listed_iff_matches(
    watches: Seq<WatchView>,
    query: Seq<char>,
    column: SortColumn,
    ascending: bool,
    i: usize,
)
    ensures
        listing_of(watches, query, column, ascending).contains(i) <==> i < watches.len()
            && matches_search(watches[i as int], query),
{
    lemma_listing_exists(watches, query, column, ascending);
    let l = listing_of(watches, query, column, ascending);
    if l.contains(i) {
        let k = choose|k: int| 0 <= k < l.len() && l[k] == i;
        assert(l[k] < watches.len());
    }
}

/// The search looks at names and URLs: a watch is listed exactly when the
/// search is empty or its name or its URL, in lowercase, contains the
/// search in lowercase.
pub proof fn lemma_search_by_name_or_url(
    watches: Seq<WatchView>,
    query: Seq<char>,
    column: SortColumn,
    ascending: bool,
    i: usize,
)
    ensures
        listing_of(watches, query, column, ascending).contains(i) <==> i < watches.len() && (
        query.len() == 0 || has_substring(lowercase(watches[i as int].name), lowercase(query))
            || has_substring(lowercase(watches[i as int].url), lowercase(query))),
{
    lemma_listed_iff_matches(watches, query, column, ascending, i);
}

/// With an empty search every watch is listed, each exactly once.
pub proof fn lemma_empty_search_lists_all(
    watches: Seq<WatchView>,
    column: SortColumn,
    ascending: bool,
)
    requires
        watches.len() <= usize::MAX,
    ensures
        listing_of(watches, Seq::empty(), column, ascending).len() == watches.len(),
        forall|i: usize|
            i < watches.len() ==> #[trigger] listing_of(
                watches,
                Seq::empty(),
                column,
                ascending,
            ).contains(i),
{
    assert forall|j: int| 0 <= j < watches.len() implies matches_search(
        #[trigger] watches[j],
        Seq::empty(),
    ) by {}
    lemma_listing_exists(watches, Seq::empty(), column, ascending);
    assert forall|i: usize| i < watches.len() implies #[trigger] listing_of(
        watches,
        Seq::empty(),
        column,
        ascending,
    ).contains(i) by {
        assert(matches_search(watches[i as int], Seq::empty()));
    }
}

/// Every index in the listing is an index of the list.
pub proof fn lemma_listing_in_range(
    watches: Seq<WatchView>,
    query: Seq<char>,
    column: SortColumn,
    ascending: bool,
    k: int,
)
    requires
        0 <= k < listing_of(watches, query, column, ascending).len(),
    ensures
        listing_of(watches, query, column, ascending)[k] < watches.len(),
        matches_search(watches[listing_of(watches, query, column, ascending)[k] as int], query),
{
    lemma_listing_exists(watches, query, column, ascending);
}

/// The fields that decide whether and where a watch is listed.
pub open spec fn same_listing_keys(a: WatchView, b: WatchView) -> bool {
    &&& a.name == b.name
    &&& a.url == b.url
    &&& a.last_checked == b.last_checked
    &&& a.total_checks == b.total_checks
    &&& a.total_successes == b.total_successes
}

proof fn lemma_listing_keys_one_way(
    ws1: Seq<WatchView>,
    ws2: Seq<WatchView>,
    query: Seq<char>,
    column: SortColumn,
    ascending: bool,
    order: Seq<usize>,
)
    requires
        ws1.len() == ws2.len(),
        forall|j: int| 0 <= j < ws1.len() ==> same_listing_keys(#[trigger] ws1[j], ws2[j]),
        is_listing(ws1, query, column, ascending, order),
    ensures
        is_listing(ws2, query, column, ascending, order),
{
    assert forall|k: int| 0 <= k < order.len() implies #[trigger] order[k] < ws2.len()
        && matches_search(ws2[order[k] as int], query) by {
        assert(same_listing_keys(ws1[order[k] as int], ws2[order[k] as int]));
    }
    assert forall|x: usize| x < ws2.len() && matches_search(#[trigger] ws2[x as int], query)
        implies order.contains(x) by {
        assert(same_listing_keys(ws1[x as int], ws2[x as int]));
        assert(matches_search(ws1[x as int], query));
    }
    assert forall|a: int, b: int| 0 <= a < b < order.len() implies listed_before(
        ws2,
        column,
        ascending,
        #[trigger] order[a],
        #[trigger] order[b],
    ) by {
        assert(listed_before(ws1, column, ascending, order[a], order[b]));
        assert(same_listing_keys(ws1[order[a] as int], ws2[order[a] as int]));
        assert(same_listing_keys(ws1[order[b] as int], ws2[order[b] as int]));
    }
}

/// The listing depends only on the names, URLs, last-check times and
/// counters of the watches.
pub proof fn lemma_listing_same_keys(
    ws1: Seq<WatchView>,
    ws2: Seq<WatchView>,
    query: Seq<char>,
    column: SortColumn,
    ascending: bool,
)
    requires
        ws1.len() == ws2.len(),
        forall|j: int| 0 <= j < ws1.len() ==> same_listing_keys(#[trigger] ws1[j], ws2[j]),
    ensures
        listing_of(ws1, query, column, ascending) == listing_of(ws2, query, column, ascending),
{
    lemma_listing_exists(ws1, query, column, ascending);
    lemma_listing_exists(ws2, query, column, ascending);
    let l1 = listing_of(ws1, query, column, ascending);
    lemma_listing_keys_one_way(ws1, ws2, query, column, ascending, l1);
    lemma_listing_unique(ws2, query, column, ascending, l1, listing_of(ws2, query, column, ascending));
}

/// The number of indices in `order` that are listed before `i`.
pub open spec fn count_before(
    watches: Seq<WatchView>,
    column: SortColumn,
    ascending: bool,
    order: Seq<usize>,
    i: usize,
) -> nat
    decreases order.len(),
{
    if order.len() == 0 {
        0
    } else if listed_before(watches, column, ascending, order.last(), i) {
        count_before(watches, column, ascending, order.drop_last(), i) + 1
    } else {
        count_before(watches, column, ascending, order.drop_last(), i)
    }
}

/// The listing of the first `n` watches, built by inserting each matching
/// index after the indices listed before it.
pub open spec fn sorted_prefix(
    watches: Seq<WatchView>,
    query: Seq<char>,
    column: SortColumn,
    ascending: bool,
    n: int,
) -> Seq<usize>
    decreases n,
{
    if n <= 0 {
        Seq::empty()
    } else {
        let before = sorted_prefix(watches, query, column, ascending, n - 1);
        let i = (n - 1) as usize;
        if matches_search(watches[n - 1], query) {
            before.insert(count_before(watches, column, ascending, before, i) as int, i)
        } else {
            before
        }
    }
}

proof fn lemma_sorted_prefix(
    watches: Seq<WatchView>,
    query: Seq<char>,
    column: SortColumn,
    ascending: bool,
    n: int,
)
    requires
        0 <= n <= watches.len(),
        n <= usize::MAX + 1,
    ensures
        ({
            let out = sorted_prefix(watches, query, column, ascending, n);
            &&& out.len() <= n
            &&& (forall|j: int| 0 <= j < n ==> matches_search(#[trigger] watches[j], query)) ==> out.len() == n
            &&& forall|k: int|
                0 <= k < out.len() ==> #[trigger] out[k] < n && matches_search(
                    watches[out[k] as int],
                    query,
                )
            &&& forall|x: usize|
                x < n && matches_search(#[trigger] watches[x as int], query) ==> out.contains(x)
            &&& forall|a: int, b: int|
                0 <= a < b < out.len() ==> listed_before(
                    watches,
                    column,
                    ascending,
                    #[trigger] out[a],
                    #[trigger] out[b],
                )
        }),
    decreases n,
{
    if n > 0 {
        lemma_sorted_prefix(watches, query, column, ascending, n - 1);
        let out = sorted_prefix(watches, query, column, ascending, n - 1);
        let i = (n - 1) as usize;
        if matches_search(watches[n - 1], query) {
            let p = count_before(watches, column, ascending, out, i) as int;
            lemma_count_before_prefix(watches, column, ascending, out, i);
            lemma_insert_in_order(watches, query, column, ascending, out, i, p);
        }
    }
}

/// Inserting `i` where `count_before` puts it keeps a sorted listing of the
/// watches below `i` sorted, and makes it list `i` too.
proof fn lemma_insert_in_order(
    watches: Seq<WatchView>,
    query: Seq<char>,
    column: SortColumn,
    ascending: bool,
    out: Seq<usize>,
    i: usize,
    p: int,
)
    requires
        i < watches.len(),
        matches_search(watches[i as int], query),
        0 <= p <= out.len(),
        forall|k: int|
            0 <= k < out.len() ==> #[trigger] out[k] < i && matches_search(
                watches[out[k] as int],
                query,
            ),
        forall|x: usize| x < i && matches_search(#[trigger] watches[x as int], query) ==> out.contains(x),
        forall|a: int, b: int|
            0 <= a < b < out.len() ==> listed_before(
                watches,
                column,
                ascending,
                #[trigger] out[a],
                #[trigger] out[b],
            ),
        forall|k: int| 0 <= k < p ==> listed_before(watches, column, ascending, #[trigger] out[k], i),
        forall|k: int| p <= k < out.len() ==> listed_before(watches, column, ascending, i, #[trigger] out[k]),
    ensures
        ({
            let new = out.insert(p, i);
            &&& forall|k: int|
                0 <= k < new.len() ==> #[trigger] new[k] < i + 1 && matches_search(
                    watches[new[k] as int],
                    query,
                )
            &&& forall|x: usize|
                x < i + 1 && matches_search(#[trigger] watches[x as int], query) ==> new.contains(x)
            &&& forall|a: int, b: int|
                0 <= a < b < new.len() ==> listed_before(
                    watches,
                    column,
                    ascending,
                    #[trigger] new[a],
                    #[trigger] new[b],
                )
        }),
{
    let new = out.insert(p, i);
    assert forall|a: int, b: int| 0 <= a < b < new.len() implies listed_before(
        watches,
        column,
        ascending,
        #[trigger] new[a],
        #[trigger] new[b],
    ) by {
        if b < p {
            assert(new[a] == out[a] && new[b] == out[b]);
        } else if b == p {
            assert(new[a] == out[a]);
        } else if a < p {
            assert(new[a] == out[a] && new[b] == out[b - 1]);
            lemma_listed_before_strict_total(watches, column, ascending, new[a], i, new[b]);
        } else if a == p {
            assert(new[b] == out[b - 1]);
        } else {
            assert(new[a] == out[a - 1] && new[b] == out[b - 1]);
        }
    }
    assert forall|x: usize| x < i + 1 && matches_search(#[trigger] watches[x as int], query) implies new.contains(x) by {
        if x == i {
            assert(new[p] == i);
        } else {
            assert(out.contains(x));
            let k = choose|k: int| 0 <= k < out.len() && out[k] == x;
            if k < p {
                assert(new[k] == x);
            } else {
                assert(new[k + 1] == x);
            }
        }
    }
    assert forall|k: int| 0 <= k < new.len() implies #[trigger] new[k] < i + 1 && matches_search(watches[new[k] as int], query) by {
        if k < p {
            assert(new[k] == out[k]);
        } else if k > p {
            assert(new[k] == out[k - 1]);
        }
    }
}

/// In a sorted sequence of indices below `i`, the ones listed before `i`
/// come first: `count_before` of them, then the ones `i` is listed before.
proof fn lemma_count_before_prefix(
    watches: Seq<WatchView>,
    column: SortColumn,
    ascending: bool,
    out: Seq<usize>,
    i: usize,
)
    requires
        i < watches.len(),
        forall|k: int| 0 <= k < out.len() ==> #[trigger] out[k] < i,
        forall|a: int, b: int|
            0 <= a < b < out.len() ==> listed_before(
                watches,
                column,
                ascending,
                #[trigger] out[a],
                #[trigger] out[b],
            ),
    ensures
        count_before(watches, column, ascending, out, i) <= out.len(),
        forall|k: int|
            0 <= k < count_before(watches, column, ascending, out, i) ==> listed_before(
                watches,
                column,
                ascending,
                #[trigger] out[k],
                i,
            ),
        forall|k: int|
            count_before(watches, column, ascending, out, i) <= k < out.len() ==> listed_before(
                watches,
                column,
                ascending,
                i,
                #[trigger] out[k],
            ),
    decreases out.len(),
{
    if out.len() > 0 {
        let init = out.drop_last();
        assert forall|k: int| 0 <= k < init.len() implies #[trigger] init[k] < i by {
            assert(init[k] == out[k]);
        }
        assert forall|a: int, b: int| 0 <= a < b < init.len() implies listed_before(
            watches,
            column,
            ascending,
            #[trigger] init[a],
            #[trigger] init[b],
        ) by {
            assert(init[a] == out[a] && init[b] == out[b]);
        }
        lemma_count_before_prefix(watches, column, ascending, init, i);
        let c = count_before(watches, column, ascending, init, i);
        let last = out.last();
        assert(last < i);
        lemma_listed_before_strict_total(watches, column, ascending, last, i, last);
        if listed_before(watches, column, ascending, last, i) {
            assert forall|k: int| 0 <= k < out.len() implies listed_before(
                watches,
                column,
                ascending,
                #[trigger] out[k],
                i,
            ) by {
                if k < out.len() - 1 {
                    assert(listed_before(watches, column, ascending, out[k], last));
                    lemma_listed_before_strict_total(watches, column, ascending, out[k], last, i);
                }
            }
            if c < init.len() {
                assert(listed_before(watches, column, ascending, i, init[c as int]));
                assert(listed_before(watches, column, ascending, out[c as int], i));
                lemma_listed_before_strict_total(watches, column, ascending, i, init[c as int], i);
                assert(false);
            }
            assert(count_before(watches, column, ascending, out, i) == out.len());
        } else {
            assert(listed_before(watches, column, ascending, i, last));
            assert(count_before(watches, column, ascending, out, i) == c);
            assert forall|k: int|
                0 <= k < c implies listed_before(
                watches,
                column,
                ascending,
                #[trigger] out[k],
                i,
            ) by {
                assert(init[k] == out[k]);
            }
            assert forall|k: int|
                c <= k < out.len() implies listed_before(
                watches,
                column,
                ascending,
                i,
                #[trigger] out[k],
            ) by {
                if k < init.len() {
                    assert(init[k] == out[k]);
                }
            }
        }
    }
}

} // verus!
