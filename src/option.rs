use vstd::prelude::*;

use crate::model::DirectedCursor;
use crate::sort::{
    copy_sort,    fields_unique, has_field, id_field, lemma_normalized_sort_unique, normalize_sort,
    normalized_sort, reverse_sort, reversed_sort, sort_view, SortKey, DEFAULT_LIMIT,
};

verus! {

/// The options of a query as the caller gives them.
#[derive(Clone, Debug)]
pub struct QueryOptions {
    /// Items per page; `DEFAULT_LIMIT` when absent.
    pub limit: Option<i64>,
    /// Items to skip; honoured only on a call without a cursor.
    pub skip: Option<u64>,
    /// The fields to sort by, highest priority first.
    pub sort: Vec<SortKey>,
}

/// `l + 1`, or `l` where that would overflow.
pub open spec fn saturating_inc(l: i64) -> i64 {
    if l == i64::MAX { l } else { (l + 1) as i64 }
}

/// The number of items to fetch: one more than a page holds, to learn
/// whether more items exist.
pub open spec fn fetch_limit(limit: Option<i64>) -> i64 {
    saturating_inc(
        match limit {
            Some(l) => l,
            None => DEFAULT_LIMIT,
        },
    )
}

/// Options made ready for paging: a sort that always ends in the unique
/// tie-breaking field, a limit one above the page size, and the cursor.
#[derive(Clone, Debug)]
pub struct CursorOptions {
    /// The number of documents to fetch: the page size plus one.
    pub limit: i64,
    /// Documents to skip; never set together with a cursor.
    pub skip: Option<u64>,
    /// The sort in display order, ending in the tie-breaking field.
    pub sort: Vec<SortKey>,
    /// Where to page from.
    pub cursor: Option<DirectedCursor>,
}

impl CursorOptions {
    /// The options' invariant: the sort names the tie-breaker, and a cursor
    /// leaves no skip.
    pub open spec fn wf(&self) -> bool {
        &&& has_field(sort_view(self.sort@), id_field())
        &&& (self.cursor is Some ==> self.skip is None)
    }

    /// Prepares the caller's options for paging from `cursor`.
    pub fn new(options: QueryOptions, cursor: Option<DirectedCursor>) -> (r: Self)
        ensures
            r.wf(),
            fields_unique(sort_view(options.sort@)) ==> fields_unique(sort_view(r.sort@)),
            r.limit == fetch_limit(options.limit),
            sort_view(r.sort@) == normalized_sort(sort_view(options.sort@)),
            r.skip == (if cursor is Some { None } else { options.skip }),
            r.cursor == cursor,
    {
        let limit = match options.limit {
            Some(l) => l,
            None => DEFAULT_LIMIT,
        };
        let limit = if limit == i64::MAX { limit } else { limit + 1 };
        let sort = normalize_sort(&options.sort);
        proof {
            if fields_unique(sort_view(options.sort@)) {
                lemma_normalized_sort_unique(sort_view(options.sort@));
            }
            crate::sort::lemma_normalized_sort_idempotent(sort_view(options.sort@));
        }
        let skip = match cursor {
            Some(_) => None,
            None => options.skip,
        };
        CursorOptions { limit, skip, sort, cursor }
    }

    /// Pages from `cursor` from now on; the cursor overrides any skip.
    pub fn set_cursor(&mut self, cursor: DirectedCursor)
        requires
            old(self).wf(),
        ensures
            final(self).wf(),
            final(self).cursor == Some(cursor),
            final(self).skip is None,
            final(self).limit == old(self).limit,
            final(self).sort == old(self).sort,
    {
        self.cursor = Some(cursor);
        self.skip = None;
    }

    /// The sort to send to the store: the display sort, inverted when paging
    /// backwards so that the items nearest the cursor come first.
    pub fn get_directed(&self) -> (r: Vec<SortKey>)
        ensures
            sort_view(r@) == (match self.cursor {
                Some(DirectedCursor::Backwards(_)) => reversed_sort(sort_view(self.sort@)),
                _ => sort_view(self.sort@),
            }),
    {
        match &self.cursor {
            Some(DirectedCursor::Backwards(_)) => reverse_sort(&self.sort),
            _ => copy_sort(&self.sort),
        }
    }
}

/// Normalizing is meant to happen once per caller's options: the sort of
/// normalized options is already normal and stays as it is, while the limit
/// would grow by one more.
pub proof fn lemma_normalize_twice(options: QueryOptions, cursor: Option<DirectedCursor>)
    ensures
        normalized_sort(normalized_sort(sort_view(options.sort@))) == normalized_sort(sort_view(options.sort@)),
        fetch_limit(Some(fetch_limit(options.limit))) == saturating_inc(fetch_limit(options.limit)),
        fetch_limit(options.limit) < i64::MAX ==> fetch_limit(Some(fetch_limit(options.limit)))
            == fetch_limit(options.limit) + 1,
{
    crate::sort::lemma_normalized_sort_idempotent(sort_view(options.sort@));
}

} // verus!
