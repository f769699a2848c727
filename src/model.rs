use vstd::prelude::*;

use crate::bindings::{doc_entries, document_get, fields_view, names_unique};
use crate::option::CursorOptions;
use crate::sort::{fields_unique, sort_view, SortOrder};

verus! {

/// The position of one item: the values of the sort's fields in the item,
/// in the sort's order. Its text form (see `encode`) is the opaque cursor.
#[derive(Clone, Debug)]
pub struct Edge {
    pub fields: Vec<(String, bson::Bson)>,
}

impl View for Edge {
    type V = Seq<(Seq<char>, bson::Bson)>;

    open spec fn view(&self) -> Seq<(Seq<char>, bson::Bson)> {
        fields_view(self.fields@)
    }
}

/// The document restricted to the fields of the sort, in the sort's order;
/// a field that the document lacks is left out.
pub open spec fn projection(
    entries: Map<Seq<char>, bson::Bson>,
    sort: Seq<(Seq<char>, SortOrder)>,
) -> Seq<(Seq<char>, bson::Bson)>
    decreases sort.len(),
{
    if sort.len() == 0 {
        Seq::empty()
    } else {
        let rest = projection(entries, sort.drop_last());
        let name = sort.last().0;
        if entries.contains_key(name) {
            rest.push((name, entries[name]))
        } else {
            rest
        }
    }
}

/// The value stored under `name` in a sequence of (name, value) pairs.
pub open spec fn value_of(f: Seq<(Seq<char>, bson::Bson)>, name: Seq<char>) -> Option<bson::Bson>
    decreases f.len(),
{
    if f.len() == 0 {
        None
    } else if f[0].0 == name {
        Some(f[0].1)
    } else {
        value_of(f.drop_first(), name)
    }
}

/// Every name of the projection is a field of the sort.
pub proof fn lemma_projection_names(
    entries: Map<Seq<char>, bson::Bson>,
    sort: Seq<(Seq<char>, SortOrder)>,
)
    ensures
        forall|i: int|
            0 <= i < projection(entries, sort).len() ==> exists|j: int|
                0 <= j < sort.len() && sort[j].0 == #[trigger] projection(entries, sort)[i].0,
    decreases sort.len(),
{
    if sort.len() > 0 {
        let s = sort.drop_last();
        lemma_projection_names(entries, s);
        let p = projection(entries, sort);
        assert forall|i: int| 0 <= i < p.len() implies exists|j: int|
            0 <= j < sort.len() && sort[j].0 == #[trigger] p[i].0 by {
            if i < projection(entries, s).len() {
                let j = choose|j: int| 0 <= j < s.len() && s[j].0 == projection(entries, s)[i].0;
                assert(sort[j].0 == p[i].0);
            } else {
                assert(sort[sort.len() - 1].0 == p[i].0);
            }
        }
    }
}

/// Projecting onto a sort that names each field once names each field once.
pub proof fn lemma_projection_unique(
    entries: Map<Seq<char>, bson::Bson>,
    sort: Seq<(Seq<char>, SortOrder)>,
)
    requires
        fields_unique(sort),
    ensures
        names_unique(projection(entries, sort)),
    decreases sort.len(),
{
    if sort.len() > 0 {
        let s = sort.drop_last();
        assert(fields_unique(s)) by {
            assert forall|i: int, j: int|
                0 <= i < s.len() && 0 <= j < s.len() && i != j implies s[i].0 != s[j].0 by {
                assert(s[i] == sort[i] && s[j] == sort[j]);
            }
        }
        lemma_projection_unique(entries, s);
        lemma_projection_names(entries, s);
        let ps = projection(entries, s);
        let name = sort.last().0;
        assert forall|i: int| 0 <= i < ps.len() implies ps[i].0 != name by {
            let j = choose|j: int| 0 <= j < s.len() && s[j].0 == #[trigger] ps[i].0;
            assert(s[j] == sort[j]);
        }
    }
}

impl Edge {
    /// The cursor of `document`: its values of the fields of the options'
    /// sort, in the sort's order. Fields that it lacks are left out.
    pub fn new(document: &bson::Document, options: &CursorOptions) -> (r: Edge)
        ensures
            r@ == projection(doc_entries(*document), sort_view(options.sort@)),
            fields_unique(sort_view(options.sort@)) ==> names_unique(r@),
    {
        let sort = &options.sort;
        let ghost entries = doc_entries(*document);
        let mut fields: Vec<(String, bson::Bson)> = Vec::new();
        let mut i: usize = 0;
        while i < sort.len()
            invariant
                0 <= i <= sort.len(),
                entries == doc_entries(*document),
                fields_view(fields@) == projection(entries, sort_view(sort@).subrange(0, i as int)),
            decreases sort.len() - i,
        {
            let ghost before = fields@;
            let ghost s_next = sort_view(sort@).subrange(0, i + 1);
            assert(s_next.drop_last() =~= sort_view(sort@).subrange(0, i as int));
            match document_get(document, sort[i].field.as_str()) {
                Some(value) => {
                    fields.push((sort[i].field.clone(), value));
                    assert(fields_view(fields@) =~= fields_view(before).push(
                        (sort[i as int].field@, value),
                    ));
                },
                None => {},
            }
            i = i + 1;
        }
        assert(sort_view(sort@).subrange(0, sort.len() as int) =~= sort_view(sort@));
        proof {
            if fields_unique(sort_view(sort@)) {
                lemma_projection_unique(entries, sort_view(sort@));
            }
        }
        Edge { fields }
    }

    /// The value that the cursor holds for the field `name`.
    pub fn get(&self, name: &String) -> (r: Option<bson::Bson>)
        ensures
            r == value_of(self@, name@),
    {
        let mut i: usize = 0;
        assert(self@.subrange(0, self@.len() as int) =~= self@);
        while i < self.fields.len()
            invariant
                0 <= i <= self.fields.len(),
                value_of(self@, name@) == value_of(self@.subrange(i as int, self@.len() as int), name@),
            decreases self.fields.len() - i,
        {
            let ghost rest = self@.subrange(i as int, self@.len() as int);
            assert(rest.drop_first() =~= self@.subrange(i + 1, self@.len() as int));
            if self.fields[i].0 == *name {
                return Some(self.fields[i].1.clone());
            }
            i = i + 1;
        }
        None
    }
}

/// A cursor together with the direction in which to page from it.
#[derive(Clone, Debug)]
pub enum DirectedCursor {
    /// Page backwards: to the items before the cursor.
    Backwards(Edge),
    /// Page forwards: to the items after the cursor.
    Forward(Edge),
}

impl DirectedCursor {
    pub open spec fn edge(&self) -> Edge {
        match self {
            DirectedCursor::Backwards(e) => *e,
            DirectedCursor::Forward(e) => *e,
        }
    }

    pub open spec fn is_backwards(&self) -> bool {
        self is Backwards
    }

    /// The same cursor with the opposite direction.
    pub fn reverse(self) -> (r: Self)
        ensures
            r.edge() == self.edge(),
            r.is_backwards() == !self.is_backwards(),
    {
        match self {
            DirectedCursor::Backwards(edge) => DirectedCursor::Forward(edge),
            DirectedCursor::Forward(edge) => DirectedCursor::Backwards(edge),
        }
    }

    /// The cursor, whatever its direction.
    pub fn inner(&self) -> (r: &Edge)
        ensures
            *r == self.edge(),
    {
        match self {
            DirectedCursor::Forward(edge) | DirectedCursor::Backwards(edge) => edge,
        }
    }

    /// The cursor without its direction.
    pub fn into_inner(self) -> (r: Edge)
        ensures
            r == self.edge(),
    {
        match self {
            DirectedCursor::Forward(edge) | DirectedCursor::Backwards(edge) => edge,
        }
    }
}

/// The direction in which a caller's cursor token is to be followed.
#[derive(Clone, Debug, PartialEq, Eq, Structural)]
pub enum CursorDirections {
    Previous,
    Next,
}

/// Whether more items lie before and after the page, and the cursors of its
/// first and last item. A cursor is set even where nothing lies beyond it.
#[derive(Clone, Debug)]
pub struct PageInfo {
    /// Items exist before the page.
    pub has_previous_page: bool,
    /// Items exist after the page.
    pub has_next_page: bool,
    /// Backwards from the first item of the page.
    pub start_cursor: Option<DirectedCursor>,
    /// Forwards from the last item of the page.
    pub end_cursor: Option<DirectedCursor>,
}

impl Default for PageInfo {
    fn default() -> (r: PageInfo)
        ensures
            !r.has_previous_page,
            !r.has_next_page,
            r.start_cursor is None,
            r.end_cursor is None,
    {
        PageInfo { has_previous_page: false, has_next_page: false, start_cursor: None, end_cursor: None }
    }
}

/// One page: its items, the cursor of each, whether more pages exist, and
/// the number of all documents that match the filter.
#[derive(Debug)]
pub struct FindResult<T> {
    pub page_info: PageInfo,
    pub edges: Vec<Edge>,
    pub total_count: u64,
    pub items: Vec<T>,
}

} // verus!
