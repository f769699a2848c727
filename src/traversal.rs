//! A model of the store over a fixed dataset, and what paging through it
//! returns: forward pages and backward pages are exactly the runs of items
//! next to the cursor, so paging back retraces the pages met going forward.

use vstd::prelude::*;

use crate::bindings::doc_entries;
use crate::filter::{
    agree_on, comes_after, cursor_position, filter_selects, lemma_order_trichotomy,
    lemma_range_filter_partition, range_branches, record_position, strict_total_order, Comparison,
};
use crate::model::{lemma_projection_names, projection, value_of};
use crate::option::{fetch_limit, CursorOptions};
use crate::page::{edge_of, expect_next, expect_previous, page_items, pages_backwards, reversed, trimmed, window_has_more};
use crate::sort::{fields_unique, has_field, id_field, sort_view, SortOrder};

verus! {

/// A document's place in the order.
pub open spec fn position_of(d: bson::Document) -> spec_fn(Seq<char>) -> Option<bson::Bson> {
    record_position(doc_entries(d))
}

/// The range restriction that `get_filter` gives for the options.
pub open spec fn range_of(options: CursorOptions) -> Option<Seq<Seq<(Seq<char>, Comparison, Option<bson::Bson>)>>> {
    match options.cursor {
        None => None,
        Some(c) => if c.edge()@.len() == 0 {
            None
        } else {
            Some(range_branches(sort_view(options.sort@), c.edge()@, c.is_backwards()))
        },
    }
}

/// The store keeps the document under the options' range restriction.
pub open spec fn kept_by_store(options: CursorOptions, less: spec_fn(Option<bson::Bson>, Option<bson::Bson>) -> bool, d: bson::Document) -> bool {
    match range_of(options) {
        None => true,
        Some(f) => filter_selects(f, less, position_of(d)),
    }
}

/// The documents of `data` that the store keeps, in the order of `data`.
pub open spec fn select(
    data: Seq<bson::Document>,
    options: CursorOptions,
    less: spec_fn(Option<bson::Bson>, Option<bson::Bson>) -> bool,
) -> Seq<bson::Document>
    decreases data.len(),
{
    if data.len() == 0 {
        Seq::empty()
    } else {
        let rest = select(data.drop_last(), options, less);
        if kept_by_store(options, less, data.last()) {
            rest.push(data.last())
        } else {
            rest
        }
    }
}

pub open spec fn min(a: int, b: int) -> int {
    if a <= b { a } else { b }
}

/// What the store returns for the options over `data`, which is in display
/// order: the kept documents in the order of the directed sort, after the
/// skip, at most `limit` of them.
pub open spec fn store_window(
    data: Seq<bson::Document>,
    options: CursorOptions,
    less: spec_fn(Option<bson::Bson>, Option<bson::Bson>) -> bool,
) -> Seq<bson::Document> {
    let kept = select(data, options, less);
    let ordered = if pages_backwards(options) { reversed(kept) } else { kept };
    let skip = match options.skip {
        Some(k) => k as int,
        None => 0,
    };
    let start = min(skip, ordered.len() as int);
    ordered.subrange(start, min(start + options.limit, ordered.len() as int))
}

/// Every document of `data` comes after the ones before it in the sort.
pub open spec fn in_display_order(
    data: Seq<bson::Document>,
    sort: Seq<(Seq<char>, SortOrder)>,
    less: spec_fn(Option<bson::Bson>, Option<bson::Bson>) -> bool,
) -> bool {
    forall|i: int, j: int| 0 <= i < j < data.len() ==> comes_after(sort, less, #[trigger] position_of(data[j]), #[trigger] position_of(data[i]))
}

proof fn lemma_value_of_push(s: Seq<(Seq<char>, bson::Bson)>, x: (Seq<char>, bson::Bson), name: Seq<char>)
    ensures
        value_of(s.push(x), name) == (if value_of(s, name) is Some {
            value_of(s, name)
        } else if x.0 == name {
            Some(x.1)
        } else {
            None
        }),
    decreases s.len(),
{
    if s.len() > 0 {
        assert(s.push(x)[0] == s[0]);
        assert(s.push(x).drop_first() =~= s.drop_first().push(x));
        lemma_value_of_push(s.drop_first(), x, name);
    } else {
        assert(s.push(x)[0] == x);
        assert(s.push(x).drop_first() =~= Seq::<(Seq<char>, bson::Bson)>::empty());
        assert(value_of(s.push(x).drop_first(), name) is None);
    }
}

proof fn lemma_value_of_absent(s: Seq<(Seq<char>, bson::Bson)>, name: Seq<char>)
    requires
        forall|i: int| 0 <= i < s.len() ==> #[trigger] s[i].0 != name,
    ensures
        value_of(s, name) is None,
    decreases s.len(),
{
    if s.len() > 0 {
        assert forall|i: int| 0 <= i < s.drop_first().len() implies #[trigger] s.drop_first()[i].0 != name by {
            assert(s.drop_first()[i] == s[i + 1]);
        }
        lemma_value_of_absent(s.drop_first(), name);
    }
}

/// A cursor made from a document holds the document's value of each field
/// of the sort.
proof fn lemma_projection_value(entries: Map<Seq<char>, bson::Bson>, sort: Seq<(Seq<char>, SortOrder)>, name: Seq<char>)
    requires
        fields_unique(sort),
        has_field(sort, name),
    ensures
        value_of(projection(entries, sort), name) == record_position(entries)(name),
    decreases sort.len(),
{
    let s = sort.drop_last();
    let g = sort.last().0;
    let ps = projection(entries, s);
    assert(fields_unique(s)) by {
        assert forall|i: int, j: int| 0 <= i < s.len() && 0 <= j < s.len() && i != j implies s[i].0 != s[j].0 by {
            assert(s[i] == sort[i] && s[j] == sort[j]);
        }
    }
    if name == g {
        lemma_projection_names(entries, s);
        assert forall|i: int| 0 <= i < ps.len() implies #[trigger] ps[i].0 != name by {
            let j = choose|j: int| 0 <= j < s.len() && s[j].0 == #[trigger] ps[i].0;
            assert(s[j] == sort[j]);
        }
        lemma_value_of_absent(ps, name);
        if entries.contains_key(g) {
            lemma_value_of_push(ps, (g, entries[g]), name);
        }
    } else {
        let j = choose|j: int| 0 <= j < sort.len() && #[trigger] sort[j].0 == name;
        assert(j < sort.len() - 1);
        assert(s[j] == sort[j]);
        lemma_projection_value(entries, s, name);
        if entries.contains_key(g) {
            lemma_value_of_push(ps, (g, entries[g]), name);
        }
    }
}

proof fn lemma_comes_after_congruent(
    sort: Seq<(Seq<char>, SortOrder)>,
    less: spec_fn(Option<bson::Bson>, Option<bson::Bson>) -> bool,
    a: spec_fn(Seq<char>) -> Option<bson::Bson>,
    a2: spec_fn(Seq<char>) -> Option<bson::Bson>,
    b: spec_fn(Seq<char>) -> Option<bson::Bson>,
    b2: spec_fn(Seq<char>) -> Option<bson::Bson>,
)
    requires
        agree_on(sort, a, a2),
        agree_on(sort, b, b2),
    ensures
        comes_after(sort, less, a, b) == comes_after(sort, less, a2, b2),
    decreases sort.len(),
{
    if sort.len() > 0 {
        let t = sort.drop_first();
        assert(a(sort[0].0) == a2(sort[0].0) && b(sort[0].0) == b2(sort[0].0));
        assert forall|j: int| 0 <= j < t.len() implies a(#[trigger] t[j].0) == a2(t[j].0) && b(t[j].0) == b2(t[j].0) by {
            assert(t[j] == sort[j + 1]);
        }
        lemma_comes_after_congruent(t, less, a, a2, b, b2);
    }
}

/// The store keeps exactly the documents whose index lies in `lo..hi`.
proof fn lemma_select_interval(
    data: Seq<bson::Document>,
    options: CursorOptions,
    less: spec_fn(Option<bson::Bson>, Option<bson::Bson>) -> bool,
    lo: int,
    hi: int,
)
    requires
        0 <= lo <= hi <= data.len(),
        forall|i: int| 0 <= i < data.len() ==> (kept_by_store(options, less, #[trigger] data[i]) <==> lo <= i < hi),
    ensures
        select(data, options, less) == data.subrange(lo, hi),
    decreases data.len(),
{
    if data.len() > 0 {
        let d = data.drop_last();
        let n1 = d.len() as int;
        let lo1 = min(lo, n1);
        let hi1 = min(hi, n1);
        assert forall|i: int| 0 <= i < d.len() implies (kept_by_store(options, less, #[trigger] d[i]) <==> lo1 <= i < hi1) by {
            assert(d[i] == data[i]);
        }
        lemma_select_interval(d, options, less, lo1, hi1);
        assert(kept_by_store(options, less, data[n1]) <==> lo <= n1 < hi);
        if lo <= n1 && n1 < hi {
            assert(data.subrange(lo1, hi1).push(data.last()) =~= data.subrange(lo, hi));
        } else {
            assert(d.subrange(lo1, hi1) =~= data.subrange(lo, hi));
        }
    }
}

/// Under a strict total order, index order in sorted data is the sort's order.
proof fn lemma_index_order(
    data: Seq<bson::Document>,
    sort: Seq<(Seq<char>, SortOrder)>,
    less: spec_fn(Option<bson::Bson>, Option<bson::Bson>) -> bool,
    i: int,
    k: int,
)
    requires
        strict_total_order(less),
        in_display_order(data, sort, less),
        0 <= i < data.len(),
        0 <= k < data.len(),
    ensures
        comes_after(sort, less, position_of(data[i]), position_of(data[k])) <==> i > k,
        comes_after(sort, less, position_of(data[k]), position_of(data[i])) <==> i < k,
{
    lemma_order_trichotomy(sort, less, position_of(data[i]), position_of(data[k]));
    if i == k {
        assert(agree_on(sort, position_of(data[i]), position_of(data[k])));
    }
}

/// Requirements shared by the page laws: a dataset in display order, whose
/// documents all hold the tie-breaker, and options over that sort.
pub open spec fn paging_setup(
    data: Seq<bson::Document>,
    options: CursorOptions,
    less: spec_fn(Option<bson::Bson>, Option<bson::Bson>) -> bool,
) -> bool {
    &&& strict_total_order(less)
    &&& options.wf()
    &&& fields_unique(sort_view(options.sort@))
    &&& in_display_order(data, sort_view(options.sort@), less)
    &&& forall|i: int| 0 <= i < data.len() ==> doc_entries(#[trigger] data[i]).contains_key(id_field())
    &&& options.limit >= 1
}

/// The options page from the cursor of the document at index `k`.
pub open spec fn cursor_at(data: Seq<bson::Document>, options: CursorOptions, k: int, backwards: bool) -> bool {
    &&& 0 <= k < data.len()
    &&& options.cursor is Some
    &&& options.cursor->0.is_backwards() == backwards
    &&& options.cursor->0.edge()@ == edge_of(data[k], options)
}

/// Whether the store keeps document `i`, for a cursor at document `k`.
proof fn lemma_kept_by_cursor(
    data: Seq<bson::Document>,
    options: CursorOptions,
    less: spec_fn(Option<bson::Bson>, Option<bson::Bson>) -> bool,
    k: int,
    backwards: bool,
)
    requires
        paging_setup(data, options, less),
        cursor_at(data, options, k, backwards),
    ensures
        forall|i: int| 0 <= i < data.len() ==> (kept_by_store(options, less, #[trigger] data[i]) <==> if backwards { i < k } else { i > k }),
{
    let sort = sort_view(options.sort@);
    let edge = options.cursor->0.edge()@;
    let entries = doc_entries(data[k]);
    let cp = cursor_position(edge);
    assert forall|j: int| 0 <= j < sort.len() implies cp(#[trigger] sort[j].0) == position_of(data[k])(sort[j].0) by {
        assert(has_field(sort, sort[j].0));
        lemma_projection_value(entries, sort, sort[j].0);
    }
    assert(agree_on(sort, cp, position_of(data[k])));
    lemma_projection_value(entries, sort, id_field());
    assert(edge.len() > 0);
    assert forall|i: int| 0 <= i < data.len() implies (kept_by_store(options, less, #[trigger] data[i]) <==> if backwards { i < k } else { i > k }) by {
        let p = position_of(data[i]);
        lemma_range_filter_partition(sort, edge, doc_entries(data[i]), less);
        assert(agree_on(sort, p, p));
        lemma_comes_after_congruent(sort, less, p, p, cp, position_of(data[k]));
        lemma_comes_after_congruent(sort, less, cp, position_of(data[k]), p, p);
        lemma_index_order(data, sort, less, i, k);
    }
}

/// The first page: without a cursor or skip, the first `limit - 1` items,
/// with a next page exactly where more items remain.
pub proof fn lemma_first_page(
    data: Seq<bson::Document>,
    options: CursorOptions,
    less: spec_fn(Option<bson::Bson>, Option<bson::Bson>) -> bool,
)
    requires
        paging_setup(data, options, less),
        options.cursor is None,
        options.skip is None,
    ensures
        page_items(store_window(data, options, less), options) == data.subrange(0, min(options.limit - 1, data.len() as int)),
        expect_next(store_window(data, options, less).len() as int, options) == (data.len() > options.limit - 1),
        !expect_previous(store_window(data, options, less).len() as int, options),
{
    let n = data.len() as int;
    lemma_select_interval(data, options, less, 0, n);
    assert(data.subrange(0, n) =~= data);
    let w = store_window(data, options, less);
    assert(w =~= data.subrange(0, min(options.limit as int, n)));
    if window_has_more(w.len() as int, options) {
        assert(trimmed(w, options) =~= data.subrange(0, options.limit - 1));
    }
}

/// The first page for a page size of `size` items: over a dataset of
/// exactly `size` items it holds them all, with no page before or after;
/// over `size + 1` items it holds the first `size` and reports a next page.
pub proof fn lemma_first_page_size(
    data: Seq<bson::Document>,
    options: CursorOptions,
    less: spec_fn(Option<bson::Bson>, Option<bson::Bson>) -> bool,
    size: i64,
)
    requires
        paging_setup(data, options, less),
        options.cursor is None,
        options.skip is None,
        1 <= size < i64::MAX,
        options.limit == fetch_limit(Some(size)),
    ensures
        data.len() == size ==> {
            &&& page_items(store_window(data, options, less), options) == data
            &&& !expect_next(store_window(data, options, less).len() as int, options)
            &&& !expect_previous(store_window(data, options, less).len() as int, options)
        },
        data.len() == size + 1 ==> {
            &&& page_items(store_window(data, options, less), options) == data.subrange(0, size as int)
            &&& expect_next(store_window(data, options, less).len() as int, options)
        },
{
    lemma_first_page(data, options, less);
    assert(data.subrange(0, data.len() as int) =~= data);
}

/// Paging forwards from the item at index `k` returns the next `limit - 1`
/// items after it, with a next page exactly where more items remain.
pub proof fn lemma_forward_page(
    data: Seq<bson::Document>,
    options: CursorOptions,
    less: spec_fn(Option<bson::Bson>, Option<bson::Bson>) -> bool,
    k: int,
)
    requires
        paging_setup(data, options, less),
        cursor_at(data, options, k, false),
    ensures
        page_items(store_window(data, options, less), options) == data.subrange(k + 1, min(k + options.limit, data.len() as int)),
        expect_next(store_window(data, options, less).len() as int, options) == (k + options.limit < data.len()),
        expect_previous(store_window(data, options, less).len() as int, options),
{
    let n = data.len() as int;
    lemma_kept_by_cursor(data, options, less, k, false);
    lemma_select_interval(data, options, less, k + 1, n);
    let w = store_window(data, options, less);
    assert(w =~= data.subrange(k + 1, min(k + 1 + options.limit, n)));
    if window_has_more(w.len() as int, options) {
        assert(trimmed(w, options) =~= data.subrange(k + 1, k + options.limit));
    }
}

/// Paging backwards from the item at index `m` returns the `limit - 1`
/// items before it, in display order, with a previous page exactly where
/// more items remain before them.
pub proof fn lemma_backward_page(
    data: Seq<bson::Document>,
    options: CursorOptions,
    less: spec_fn(Option<bson::Bson>, Option<bson::Bson>) -> bool,
    m: int,
)
    requires
        paging_setup(data, options, less),
        cursor_at(data, options, m, true),
    ensures
        page_items(store_window(data, options, less), options) == data.subrange(
            if m > options.limit - 1 { m - (options.limit - 1) } else { 0 },
            m,
        ),
        expect_previous(store_window(data, options, less).len() as int, options) == (m > options.limit - 1),
        expect_next(store_window(data, options, less).len() as int, options),
{
    let l = options.limit - 1;
    lemma_kept_by_cursor(data, options, less, m, true);
    lemma_select_interval(data, options, less, 0, m);
    let before = data.subrange(0, m);
    let w = store_window(data, options, less);
    assert(w =~= reversed(before).subrange(0, min(options.limit as int, m)));
    if window_has_more(w.len() as int, options) {
        assert(trimmed(w, options) =~= reversed(before).subrange(0, l));
        assert(reversed(reversed(before).subrange(0, l)) =~= data.subrange(m - l, m));
    } else {
        assert(reversed(w) =~= data.subrange(0, m));
    }
}

/// Paging back retraces paging forward. For pages of `limit - 1` items: the
/// page reached backwards from the item at index `s` is the page reached
/// forwards from the item at index `s - limit` (the first page where
/// `s == limit - 1`), for the same dataset, sort and limit.
pub proof fn lemma_forward_backward_symmetry(
    data: Seq<bson::Document>,
    forward: CursorOptions,
    backward: CursorOptions,
    less: spec_fn(Option<bson::Bson>, Option<bson::Bson>) -> bool,
    s: int,
)
    requires
        paging_setup(data, forward, less),
        paging_setup(data, backward, less),
        forward.limit == backward.limit,
        forward.sort@ == backward.sort@,
        cursor_at(data, backward, s, true),
        s >= forward.limit - 1,
        s == forward.limit - 1 ==> forward.cursor is None && forward.skip is None,
        s > forward.limit - 1 ==> cursor_at(data, forward, s - forward.limit, false),
    ensures
        page_items(store_window(data, backward, less), backward) == page_items(store_window(data, forward, less), forward),
{
    lemma_backward_page(data, backward, less, s);
    if s == forward.limit - 1 {
        lemma_first_page(data, forward, less);
    } else {
        lemma_forward_page(data, forward, less, s - forward.limit);
    }
}

} // verus!
