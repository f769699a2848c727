use vstd::prelude::*;

use crate::bindings::doc_entries;
use crate::codec::{is_base64_token, token_fields};
use crate::error::CursorError;
use crate::model::{projection, CursorDirections, DirectedCursor, Edge, FindResult, PageInfo};
use crate::option::{fetch_limit, CursorOptions, QueryOptions};
use crate::sort::{normalized_sort, sort_view};

verus! {

/// `s` back to front.
pub open spec fn reversed<A>(s: Seq<A>) -> Seq<A> {
    Seq::new(s.len(), |i: int| s[s.len() - 1 - i])
}

/// The options page backwards from a cursor.
pub open spec fn pages_backwards(options: CursorOptions) -> bool {
    match options.cursor {
        Some(DirectedCursor::Backwards(_)) => true,
        _ => false,
    }
}

/// The store returned more than a page: the window holds the extra item.
pub open spec fn window_has_more(n: int, options: CursorOptions) -> bool {
    n > 0 && n > options.limit - 1
}

/// The window without its extra item. The store returns the items nearest
/// the cursor first, so the extra one is the last.
pub open spec fn trimmed(window: Seq<bson::Document>, options: CursorOptions) -> Seq<bson::Document> {
    if window_has_more(window.len() as int, options) {
        window.drop_last()
    } else {
        window
    }
}

/// The items of the page in display order.
pub open spec fn page_items(window: Seq<bson::Document>, options: CursorOptions) -> Seq<bson::Document> {
    if pages_backwards(options) {
        reversed(trimmed(window, options))
    } else {
        trimmed(window, options)
    }
}

/// Items lie before the page: when paging backwards, where the window held
/// the extra item; else, where a cursor or a positive skip was given.
pub open spec fn expect_previous(n: int, options: CursorOptions) -> bool {
    if pages_backwards(options) {
        window_has_more(n, options)
    } else {
        options.cursor is Some || (options.skip is Some && options.skip->0 > 0)
    }
}

/// Items lie after the page: when paging backwards, always, since the
/// cursor's own item follows; else, where the window held the extra item.
pub open spec fn expect_next(n: int, options: CursorOptions) -> bool {
    if pages_backwards(options) {
        true
    } else {
        window_has_more(n, options)
    }
}

/// The cursor of `document` under the options' sort.
pub open spec fn edge_of(document: bson::Document, options: CursorOptions) -> Seq<(Seq<char>, bson::Bson)> {
    projection(doc_entries(document), sort_view(options.sort@))
}

/// The page that the window of documents fetched for `options` makes. The
/// window is what the store returned for the range filter, the directed
/// sort and the options' limit and skip, in the store's order; `total_count`
/// is the number of all documents that match the caller's filter. Where it
/// is zero the page is empty.
pub fn assemble_page(window: Vec<bson::Document>, options: &CursorOptions, total_count: u64) -> (r: FindResult<bson::Document>)
    ensures
        r.total_count == total_count,
        r.edges@.len() == r.items@.len(),
        total_count == 0 ==> {
            &&& r.items@.len() == 0
            &&& !r.page_info.has_previous_page
            &&& !r.page_info.has_next_page
            &&& r.page_info.start_cursor is None
            &&& r.page_info.end_cursor is None
        },
        total_count != 0 ==> {
            let n = window@.len() as int;
            let items = page_items(window@, *options);
            &&& r.items@ == items
            &&& forall|i: int| 0 <= i < items.len() ==> #[trigger] r.edges@[i]@ == edge_of(items[i], *options)
            &&& r.page_info.has_previous_page == expect_previous(n, *options)
            &&& r.page_info.has_next_page == expect_next(n, *options)
            &&& match r.page_info.start_cursor {
                None => items.len() == 0,
                Some(c) => items.len() > 0 && c.is_backwards() && c.edge()@ == edge_of(items[0], *options),
            }
            &&& match r.page_info.end_cursor {
                None => items.len() == 0,
                Some(c) => items.len() > 0 && !c.is_backwards()
                    && c.edge()@ == edge_of(items[items.len() - 1], *options),
            }
        },
{
    if total_count == 0 {
        return FindResult { page_info: PageInfo::default(), edges: Vec::new(), total_count, items: Vec::new() };
    }
    let ghost n = window@.len() as int;
    let ghost w0 = window@;
    let backwards = match &options.cursor {
        Some(DirectedCursor::Backwards(_)) => true,
        _ => false,
    };
    let has_more = window.len() > 0 && window.len() as i128 > options.limit as i128 - 1;
    assert(has_more == window_has_more(n, *options));
    assert(backwards == pages_backwards(*options));
    let mut window = window;
    if has_more {
        window.pop();
    }
    assert(window@ =~= trimmed(w0, *options));
    let items = if backwards {
        let ghost kept = window@;
        let mut items: Vec<bson::Document> = Vec::new();
        while window.len() > 0
            invariant
                window@.len() <= kept.len(),
                window@ == kept.subrange(0, window@.len() as int),
                items@ == reversed(kept).subrange(0, kept.len() - window@.len()),
            decreases window.len(),
        {
            let ghost before = items@;
            let ghost m = window@.len() as int;
            match window.pop() {
                Some(d) => {
                    assert(d == kept[m - 1]);
                    items.push(d);
                    assert(reversed(kept)[kept.len() - m] == kept[m - 1]);
                    assert(items@ =~= reversed(kept).subrange(0, kept.len() - window@.len()));
                },
                None => {},
            }
        }
        assert(items@ =~= reversed(kept));
        items
    } else {
        window
    };
    assert(items@ == page_items(w0, *options));
    let mut edges: Vec<Edge> = Vec::new();
    let mut i: usize = 0;
    while i < items.len()
        invariant
            0 <= i <= items.len(),
            edges@.len() == i,
            forall|j: int| 0 <= j < i ==> #[trigger] edges@[j]@ == edge_of(items@[j], *options),
        decreases items.len() - i,
    {
        edges.push(Edge::new(&items[i], options));
        i = i + 1;
    }
    let (start_cursor, end_cursor) = if items.len() > 0 {
        (
            Some(DirectedCursor::Backwards(Edge::new(&items[0], options))),
            Some(DirectedCursor::Forward(Edge::new(&items[items.len() - 1], options))),
        )
    } else {
        (None, None)
    };
    let has_previous_page = if backwards {
        has_more
    } else {
        options.cursor.is_some() || match options.skip {
            Some(k) => k > 0,
            None => false,
        }
    };
    let has_next_page = if backwards { true } else { has_more };
    let page_info = PageInfo { has_previous_page, has_next_page, start_cursor, end_cursor };
    FindResult { page_info, edges, total_count, items }
}

/// Paging forwards, or without a cursor, over a dataset of exactly a page's
/// worth of items (the store returns them all) reports no next page and
/// keeps them all; over one more item (the store returns the page plus the
/// extra one) it reports a next page and keeps exactly a page's worth.
pub proof fn lemma_has_next_accuracy(window: Seq<bson::Document>, options: CursorOptions)
    requires
        !pages_backwards(options),
        options.limit >= 1,
    ensures
        window.len() == options.limit - 1 ==> !expect_next(window.len() as int, options)
            && page_items(window, options) == window,
        window.len() == options.limit ==> expect_next(window.len() as int, options)
            && page_items(window, options) == window.subrange(0, options.limit - 1),
{
    if window.len() == options.limit {
        assert(window.drop_last() =~= window.subrange(0, options.limit - 1));
    }
}

/// The entry point: the caller's options prepared for paging from a cursor
/// token in the given direction.
#[derive(Debug)]
pub struct PaginatedCursor {
    pub options: CursorOptions,
}

impl PaginatedCursor {
    /// Reads the cursor token, if any, and prepares the options. A token that
    /// is not a valid cursor is an error, never a panic. Without
    /// options, the defaults apply; without a direction, the cursor is
    /// followed forwards.
    pub fn new(
        options: Option<QueryOptions>,
        cursor: Option<String>,
        direction: Option<CursorDirections>,
    ) -> (r: Result<Self, CursorError>)
        ensures
            cursor is None ==> r is Ok && r->Ok_0.options.cursor is None,
            cursor is Some ==> (r is Ok <==> token_fields(cursor->0@) is Some),
            cursor is Some && r is Ok ==> r->Ok_0.options.cursor is Some
                && Some(r->Ok_0.options.cursor->0.edge()@) == token_fields(cursor->0@),
            cursor is Some && r is Ok ==> r->Ok_0.options.cursor is Some
                && r->Ok_0.options.cursor->0.is_backwards() == (direction == Some(CursorDirections::Previous)),
            r is Err ==> cursor is Some && (r->Err_0 is DecodeError || r->Err_0 is BsonDeError),
            r is Err ==> (r->Err_0 is DecodeError <==> !is_base64_token(cursor->0@)),
            r is Ok ==> r->Ok_0.options.wf(),
            r is Ok ==> match options {
                Some(o) => {
                    &&& r->Ok_0.options.limit == fetch_limit(o.limit)
                    &&& sort_view(r->Ok_0.options.sort@) == normalized_sort(sort_view(o.sort@))
                    &&& r->Ok_0.options.skip == (if cursor is Some { None } else { o.skip })
                },
                None => {
                    &&& r->Ok_0.options.limit == fetch_limit(None)
                    &&& sort_view(r->Ok_0.options.sort@) == normalized_sort(Seq::empty())
                    &&& r->Ok_0.options.skip is None
                },
            },
    {
        let options = match options {
            Some(o) => o,
            None => QueryOptions { limit: None, skip: None, sort: Vec::new() },
        };
        let directed = match cursor {
            None => None,
            Some(token) => {
                let edge = Edge::decode(token.as_str())?;
                match direction {
                    Some(CursorDirections::Previous) => Some(DirectedCursor::Backwards(edge)),
                    _ => Some(DirectedCursor::Forward(edge)),
                }
            },
        };
        Ok(PaginatedCursor { options: CursorOptions::new(options, directed) })
    }
}

} // verus!
