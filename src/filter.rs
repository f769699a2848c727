use vstd::prelude::*;

use crate::error::CursorError;
use crate::model::{value_of, DirectedCursor, Edge};
use crate::option::CursorOptions;
use crate::sort::{has_field, id_field, sort_view, SortOrder};

verus! {

/// How a condition compares a document's field with the cursor's value.
#[derive(Clone, Copy, Debug, PartialEq, Eq, Structural)]
pub enum Comparison {
    Equal,
    GreaterThan,
    LessThan,
}

/// One condition on one field. A value of `None` stands for null, which is
/// also what a missing field compares as.
#[derive(Clone, Debug)]
pub struct Condition {
    pub field: String,
    pub comparison: Comparison,
    pub value: Option<bson::Bson>,
}

/// The range restriction that seeks past a cursor: a disjunction of
/// branches, each a conjunction of conditions. The caller's own filter is
/// to be conjoined with it as a whole, never merged field by field, so that
/// operators in the caller's filter keep their meaning.
#[derive(Clone, Debug)]
pub struct RangeFilter {
    pub branches: Vec<Vec<Condition>>,
}

pub open spec fn condition_view(c: Condition) -> (Seq<char>, Comparison, Option<bson::Bson>) {
    (c.field@, c.comparison, c.value)
}

pub open spec fn branch_view(b: Seq<Condition>) -> Seq<(Seq<char>, Comparison, Option<bson::Bson>)> {
    b.map_values(|c: Condition| condition_view(c))
}

impl View for RangeFilter {
    type V = Seq<Seq<(Seq<char>, Comparison, Option<bson::Bson>)>>;

    open spec fn view(&self) -> Self::V {
        self.branches@.map_values(|b: Vec<Condition>| branch_view(b@))
    }
}

/// The comparison that selects the documents beyond the cursor on a field
/// sorted by `order`: beyond means later in the sort when paging forwards,
/// earlier when paging backwards.
pub open spec fn comparison_for(order: SortOrder, backwards: bool) -> Comparison {
    if (order == SortOrder::Ascending) != backwards {
        Comparison::GreaterThan
    } else {
        Comparison::LessThan
    }
}

/// Branch `i`: equal to the cursor on every field before `i`, and beyond it
/// on field `i`.
pub open spec fn range_branch(
    sort: Seq<(Seq<char>, SortOrder)>,
    cursor: Seq<(Seq<char>, bson::Bson)>,
    backwards: bool,
    i: int,
) -> Seq<(Seq<char>, Comparison, Option<bson::Bson>)> {
    Seq::new(
        (i + 1) as nat,
        |j: int|
            if j < i {
                (sort[j].0, Comparison::Equal, value_of(cursor, sort[j].0))
            } else {
                (sort[i].0, comparison_for(sort[i].1, backwards), value_of(cursor, sort[i].0))
            },
    )
}

/// One branch per field of the sort.
pub open spec fn range_branches(
    sort: Seq<(Seq<char>, SortOrder)>,
    cursor: Seq<(Seq<char>, bson::Bson)>,
    backwards: bool,
) -> Seq<Seq<(Seq<char>, Comparison, Option<bson::Bson>)>> {
    Seq::new(sort.len(), |i: int| range_branch(sort, cursor, backwards, i))
}

impl Condition {
    /// A copy of this condition.
    pub fn duplicate(&self) -> (r: Condition)
        ensures
            condition_view(r) == condition_view(*self),
    {
        let value = match &self.value {
            Some(v) => Some(v.clone()),
            None => None,
        };
        Condition { field: self.field.clone(), comparison: self.comparison, value }
    }
}

fn copy_branch(b: &Vec<Condition>) -> (r: Vec<Condition>)
    ensures
        branch_view(r@) == branch_view(b@),
{
    let mut r: Vec<Condition> = Vec::new();
    let mut i: usize = 0;
    while i < b.len()
        invariant
            0 <= i <= b.len(),
            r@.len() == i,
            forall|j: int| 0 <= j < i ==> condition_view(#[trigger] r@[j]) == condition_view(b@[j]),
        decreases b.len() - i,
    {
        r.push(b[i].duplicate());
        i = i + 1;
    }
    assert(branch_view(r@) =~= branch_view(b@));
    r
}

/// The range restriction for paging from the options' cursor: `None` where
/// there is no cursor or it holds no field, so that the caller's filter
/// stands alone. Where the sort has the tie-breaker alone, the cursor must
/// hold its value.
pub fn get_filter(options: &CursorOptions) -> (r: Result<Option<RangeFilter>, CursorError>)
    requires
        options.wf(),
    ensures
        match options.cursor {
            None => r == Ok::<Option<RangeFilter>, CursorError>(None),
            Some(c) => {
                let sort = sort_view(options.sort@);
                if c.edge()@.len() == 0 {
                    r == Ok::<Option<RangeFilter>, CursorError>(None)
                } else if sort.len() == 1 && value_of(c.edge()@, sort[0].0) is None {
                    r is Err && r->Err_0 is InvalidCursor
                } else {
                    r is Ok && r->Ok_0 is Some
                        && r->Ok_0->Some_0@ == range_branches(sort, c.edge()@, c.is_backwards())
                }
            },
        },
{
    let cursor = match &options.cursor {
        None => return Ok(None),
        Some(c) => c,
    };
    let backwards = match cursor {
        DirectedCursor::Backwards(_) => true,
        DirectedCursor::Forward(_) => false,
    };
    let edge: &Edge = cursor.inner();
    if edge.fields.len() == 0 {
        return Ok(None);
    }
    let sort = &options.sort;
    let ghost sv = sort_view(sort@);
    let ghost cv = edge@;
    if sort.len() == 1 {
        if edge.get(&sort[0].field).is_none() {
            return Err(CursorError::InvalidCursor);
        }
    }
    let mut branches: Vec<Vec<Condition>> = Vec::new();
    let mut previous: Vec<Condition> = Vec::new();
    let mut i: usize = 0;
    while i < sort.len()
        invariant
            0 <= i <= sort.len(),
            sv == sort_view(sort@),
            cv == edge@,
            branches@.len() == i,
            forall|k: int| 0 <= k < i ==> branch_view(#[trigger] branches@[k]@) == range_branch(sv, cv, backwards, k),
            previous@.len() == i,
            forall|j: int| 0 <= j < i ==> condition_view(#[trigger] previous@[j]) == (sv[j].0, Comparison::Equal, value_of(cv, sv[j].0)),
        decreases sort.len() - i,
    {
        let comparison = match (sort[i].order, backwards) {
            (SortOrder::Ascending, false) | (SortOrder::Descending, true) => Comparison::GreaterThan,
            _ => Comparison::LessThan,
        };
        assert(comparison == comparison_for(sv[i as int].1, backwards));
        let mut branch = copy_branch(&previous);
        let ghost copied = branch@;
        assert(branch_view(copied).len() == branch_view(previous@).len());
        assert(copied.len() == i);
        branch.push(Condition { field: sort[i].field.clone(), comparison, value: edge.get(&sort[i].field) });
        assert forall|j: int| 0 <= j <= i implies #[trigger] branch_view(branch@)[j] == range_branch(sv, cv, backwards, i as int)[j] by {
            if j < i {
                assert(branch@[j] == copied[j]);
                assert(branch_view(copied)[j] == branch_view(previous@)[j]);
            }
        }
        assert(branch_view(branch@) =~= range_branch(sv, cv, backwards, i as int));
        branches.push(branch);
        previous.push(Condition { field: sort[i].field.clone(), comparison: Comparison::Equal, value: edge.get(&sort[i].field) });
        i = i + 1;
    }
    let filter = RangeFilter { branches };
    assert(filter@ =~= range_branches(sv, cv, backwards));
    Ok(Some(filter))
}

/// The value of each field at a document's place in the order: `None` for
/// a missing field, which the store compares as null.
pub open spec fn record_position(entries: Map<Seq<char>, bson::Bson>) -> spec_fn(Seq<char>) -> Option<bson::Bson> {
    |f: Seq<char>| if entries.contains_key(f) { Some(entries[f]) } else { None }
}

/// The value of each field at a cursor's place in the order: `None` where
/// the cursor holds none.
pub open spec fn cursor_position(c: Seq<(Seq<char>, bson::Bson)>) -> spec_fn(Seq<char>) -> Option<bson::Bson> {
    |f: Seq<char>| value_of(c, f)
}

/// `less` is a strict total order: the order in which the store sorts and
/// compares field values.
pub open spec fn strict_total_order(less: spec_fn(Option<bson::Bson>, Option<bson::Bson>) -> bool) -> bool {
    &&& forall|x: Option<bson::Bson>| !#[trigger] less(x, x)
    &&& forall|x: Option<bson::Bson>, y: Option<bson::Bson>, z: Option<bson::Bson>|
        #[trigger] less(x, y) && #[trigger] less(y, z) ==> less(x, z)
    &&& forall|x: Option<bson::Bson>, y: Option<bson::Bson>| x != y ==> #[trigger] less(x, y) || less(y, x)
}

/// A condition holds at a position.
pub open spec fn condition_holds(
    c: (Seq<char>, Comparison, Option<bson::Bson>),
    less: spec_fn(Option<bson::Bson>, Option<bson::Bson>) -> bool,
    pos: spec_fn(Seq<char>) -> Option<bson::Bson>,
) -> bool {
    match c.1 {
        Comparison::Equal => pos(c.0) == c.2,
        Comparison::GreaterThan => less(c.2, pos(c.0)),
        Comparison::LessThan => less(pos(c.0), c.2),
    }
}

/// All conditions of a branch hold at a position.
pub open spec fn branch_holds(
    b: Seq<(Seq<char>, Comparison, Option<bson::Bson>)>,
    less: spec_fn(Option<bson::Bson>, Option<bson::Bson>) -> bool,
    pos: spec_fn(Seq<char>) -> Option<bson::Bson>,
) -> bool {
    forall|k: int| 0 <= k < b.len() ==> condition_holds(#[trigger] b[k], less, pos)
}

/// A range filter selects a position: some branch holds there.
pub open spec fn filter_selects(
    f: Seq<Seq<(Seq<char>, Comparison, Option<bson::Bson>)>>,
    less: spec_fn(Option<bson::Bson>, Option<bson::Bson>) -> bool,
    pos: spec_fn(Seq<char>) -> Option<bson::Bson>,
) -> bool {
    exists|i: int| 0 <= i < f.len() && #[trigger] branch_holds(f[i], less, pos)
}

/// `x` comes strictly after `y` on a field sorted by `order`.
pub open spec fn later_value(
    order: SortOrder,
    less: spec_fn(Option<bson::Bson>, Option<bson::Bson>) -> bool,
    x: Option<bson::Bson>,
    y: Option<bson::Bson>,
) -> bool {
    match order {
        SortOrder::Ascending => less(y, x),
        SortOrder::Descending => less(x, y),
    }
}

/// `a` comes strictly after `b` in the order of the sort: equal on the
/// first fields, then later on the next one.
pub open spec fn comes_after(
    sort: Seq<(Seq<char>, SortOrder)>,
    less: spec_fn(Option<bson::Bson>, Option<bson::Bson>) -> bool,
    a: spec_fn(Seq<char>) -> Option<bson::Bson>,
    b: spec_fn(Seq<char>) -> Option<bson::Bson>,
) -> bool
    decreases sort.len(),
{
    if sort.len() == 0 {
        false
    } else if a(sort[0].0) == b(sort[0].0) {
        comes_after(sort.drop_first(), less, a, b)
    } else {
        later_value(sort[0].1, less, a(sort[0].0), b(sort[0].0))
    }
}

/// `a` and `b` hold equal values on every field of the sort.
pub open spec fn agree_on(
    sort: Seq<(Seq<char>, SortOrder)>,
    a: spec_fn(Seq<char>) -> Option<bson::Bson>,
    b: spec_fn(Seq<char>) -> Option<bson::Bson>,
) -> bool {
    forall|j: int| 0 <= j < sort.len() ==> a(#[trigger] sort[j].0) == b(sort[j].0)
}

/// Some field `i` splits `a` from `b`: equal before it, later on it.
pub open spec fn later_at_some_field(
    sort: Seq<(Seq<char>, SortOrder)>,
    less: spec_fn(Option<bson::Bson>, Option<bson::Bson>) -> bool,
    a: spec_fn(Seq<char>) -> Option<bson::Bson>,
    b: spec_fn(Seq<char>) -> Option<bson::Bson>,
) -> bool {
    exists|i: int|
        0 <= i < sort.len() && (forall|j: int| 0 <= j < i ==> a(#[trigger] sort[j].0) == b(sort[j].0))
            && #[trigger] later_value(sort[i].1, less, a(sort[i].0), b(sort[i].0))
}

proof fn lemma_later_at_some_field(
    sort: Seq<(Seq<char>, SortOrder)>,
    less: spec_fn(Option<bson::Bson>, Option<bson::Bson>) -> bool,
    a: spec_fn(Seq<char>) -> Option<bson::Bson>,
    b: spec_fn(Seq<char>) -> Option<bson::Bson>,
)
    requires
        forall|x: Option<bson::Bson>| !#[trigger] less(x, x),
    ensures
        later_at_some_field(sort, less, a, b) <==> comes_after(sort, less, a, b),
    decreases sort.len(),
{
    if sort.len() > 0 {
        let t = sort.drop_first();
        lemma_later_at_some_field(t, less, a, b);
        let f0 = sort[0].0;
        if later_at_some_field(sort, less, a, b) {
            let i = choose|i: int|
                0 <= i < sort.len() && (forall|j: int| 0 <= j < i ==> a(#[trigger] sort[j].0) == b(sort[j].0))
                    && #[trigger] later_value(sort[i].1, less, a(sort[i].0), b(sort[i].0));
            if a(f0) == b(f0) {
                assert(i != 0);
                assert forall|j: int| 0 <= j < i - 1 implies a(#[trigger] t[j].0) == b(t[j].0) by {
                    assert(t[j] == sort[j + 1]);
                }
                assert(t[i - 1] == sort[i]);
                assert(later_at_some_field(t, less, a, b));
            } else if i > 0 {
                assert(a(sort[0].0) == b(sort[0].0));
            }
        }
        if comes_after(sort, less, a, b) {
            if a(f0) == b(f0) {
                let i = choose|i: int|
                    0 <= i < t.len() && (forall|j: int| 0 <= j < i ==> a(#[trigger] t[j].0) == b(t[j].0))
                        && #[trigger] later_value(t[i].1, less, a(t[i].0), b(t[i].0));
                assert forall|j: int| 0 <= j < i + 1 implies a(#[trigger] sort[j].0) == b(sort[j].0) by {
                    if j > 0 {
                        assert(sort[j] == t[j - 1]);
                    }
                }
                assert(sort[i + 1] == t[i]);
                assert(later_value(sort[i + 1].1, less, a(sort[i + 1].0), b(sort[i + 1].0)));
            } else {
                assert(later_value(sort[0].1, less, a(sort[0].0), b(sort[0].0)));
            }
        }
    }
}

proof fn lemma_filter_is_later_at_some_field(
    sort: Seq<(Seq<char>, SortOrder)>,
    c: Seq<(Seq<char>, bson::Bson)>,
    backwards: bool,
    less: spec_fn(Option<bson::Bson>, Option<bson::Bson>) -> bool,
    pos: spec_fn(Seq<char>) -> Option<bson::Bson>,
)
    ensures
        !backwards ==> (filter_selects(range_branches(sort, c, backwards), less, pos)
            <==> later_at_some_field(sort, less, pos, cursor_position(c))),
        backwards ==> (filter_selects(range_branches(sort, c, backwards), less, pos)
            <==> later_at_some_field(sort, less, cursor_position(c), pos)),
{
    let f = range_branches(sort, c, backwards);
    let cp = cursor_position(c);
    let (a, b) = if backwards { (cp, pos) } else { (pos, cp) };
    if filter_selects(f, less, pos) {
        let i = choose|i: int| 0 <= i < f.len() && #[trigger] branch_holds(f[i], less, pos);
        assert forall|j: int| 0 <= j < i implies a(#[trigger] sort[j].0) == b(sort[j].0) by {
            assert(condition_holds(f[i][j], less, pos));
        }
        assert(condition_holds(f[i][i], less, pos));
        assert(later_value(sort[i].1, less, a(sort[i].0), b(sort[i].0)));
    }
    if later_at_some_field(sort, less, a, b) {
        let i = choose|i: int|
            0 <= i < sort.len() && (forall|j: int| 0 <= j < i ==> a(#[trigger] sort[j].0) == b(sort[j].0))
                && #[trigger] later_value(sort[i].1, less, a(sort[i].0), b(sort[i].0));
        assert forall|k: int| 0 <= k < f[i].len() implies condition_holds(#[trigger] f[i][k], less, pos) by {
            if k < i {
                assert(a(sort[k].0) == b(sort[k].0));
            }
        }
        assert(branch_holds(f[i], less, pos));
    }
}

/// Under a strict total order, of two positions at most one comes after
/// the other; neither does where they agree on every field, and one does
/// where they differ on some field.
pub proof fn lemma_order_trichotomy(
    sort: Seq<(Seq<char>, SortOrder)>,
    less: spec_fn(Option<bson::Bson>, Option<bson::Bson>) -> bool,
    a: spec_fn(Seq<char>) -> Option<bson::Bson>,
    b: spec_fn(Seq<char>) -> Option<bson::Bson>,
)
    requires
        strict_total_order(less),
    ensures
        !(comes_after(sort, less, a, b) && comes_after(sort, less, b, a)),
        agree_on(sort, a, b) ==> !comes_after(sort, less, a, b),
        !agree_on(sort, a, b) ==> comes_after(sort, less, a, b) || comes_after(sort, less, b, a),
    decreases sort.len(),
{
    if sort.len() > 0 {
        let t = sort.drop_first();
        lemma_order_trichotomy(t, less, a, b);
        let f0 = sort[0].0;
        if a(f0) == b(f0) {
            if agree_on(sort, a, b) {
                assert forall|j: int| 0 <= j < t.len() implies a(#[trigger] t[j].0) == b(t[j].0) by {
                    assert(t[j] == sort[j + 1]);
                }
            }
            if !agree_on(sort, a, b) {
                let j = choose|j: int| 0 <= j < sort.len() && a(#[trigger] sort[j].0) != b(sort[j].0);
                assert(t[j - 1] == sort[j]);
                assert(!agree_on(t, a, b));
            }
        } else {
            if less(a(f0), b(f0)) && less(b(f0), a(f0)) {
                assert(less(a(f0), a(f0)));
            }
        }
    }
}

/// Paging from a cursor loses no document and repeats none. The range
/// filter built for paging forwards selects exactly the documents that
/// come after the cursor in the order of the sort, the one for paging
/// backwards exactly those that come before it; no document is selected by
/// both, and one whose tie-breaking field differs from the cursor's is
/// selected by one of them. This holds wherever the store sorts and
/// compares values by one strict total order.
pub proof fn lemma_range_filter_partition(
    sort: Seq<(Seq<char>, SortOrder)>,
    cursor: Seq<(Seq<char>, bson::Bson)>,
    document: Map<Seq<char>, bson::Bson>,
    less: spec_fn(Option<bson::Bson>, Option<bson::Bson>) -> bool,
)
    requires
        strict_total_order(less),
    ensures
        filter_selects(range_branches(sort, cursor, false), less, record_position(document))
            <==> comes_after(sort, less, record_position(document), cursor_position(cursor)),
        filter_selects(range_branches(sort, cursor, true), less, record_position(document))
            <==> comes_after(sort, less, cursor_position(cursor), record_position(document)),
        !(filter_selects(range_branches(sort, cursor, false), less, record_position(document))
            && filter_selects(range_branches(sort, cursor, true), less, record_position(document))),
        has_field(sort, id_field()) && record_position(document)(id_field()) != value_of(cursor, id_field())
            ==> filter_selects(range_branches(sort, cursor, false), less, record_position(document))
            || filter_selects(range_branches(sort, cursor, true), less, record_position(document)),
{
    let pos = record_position(document);
    let cp = cursor_position(cursor);
    lemma_filter_is_later_at_some_field(sort, cursor, false, less, pos);
    lemma_filter_is_later_at_some_field(sort, cursor, true, less, pos);
    lemma_later_at_some_field(sort, less, pos, cp);
    lemma_later_at_some_field(sort, less, cp, pos);
    lemma_order_trichotomy(sort, less, pos, cp);
    if has_field(sort, id_field()) && pos(id_field()) != value_of(cursor, id_field()) {
        let j = choose|j: int| 0 <= j < sort.len() && #[trigger] sort[j].0 == id_field();
        assert(pos(sort[j].0) != cp(sort[j].0));
    }
}

} // verus!
