use vstd::prelude::*;

verus! {

/// The number of items on a page when the caller asks for no limit.
pub const DEFAULT_LIMIT: i64 = 25;

/// The direction in which one field of a sort orders the documents.
#[derive(Clone, Copy, Debug, PartialEq, Eq, Structural)]
pub enum SortOrder {
    Ascending,
    Descending,
}

/// The direction given to the unique tie-breaking field when the caller's
/// sort does not name it.
pub const TIE_BREAKER_ORDER: SortOrder = SortOrder::Descending;

/// One field of a sort specification, with its direction.
#[derive(Clone, Debug)]
pub struct SortKey {
    pub field: String,
    pub order: SortOrder,
}

/// The name of the field that is unique per document and breaks every tie.
pub open spec fn id_field() -> Seq<char> {
    seq!['_', 'i', 'd']
}

/// A sort specification as a sequence of (field name, direction) pairs.
pub open spec fn sort_view(s: Seq<SortKey>) -> Seq<(Seq<char>, SortOrder)> {
    s.map_values(|k: SortKey| (k.field@, k.order))
}

pub open spec fn has_field(s: Seq<(Seq<char>, SortOrder)>, f: Seq<char>) -> bool {
    exists|i: int| 0 <= i < s.len() && #[trigger] s[i].0 == f
}

/// No field is named twice: a sort specification is a mapping.
pub open spec fn fields_unique(s: Seq<(Seq<char>, SortOrder)>) -> bool {
    forall|i: int, j: int| 0 <= i < s.len() && 0 <= j < s.len() && i != j ==> s[i].0 != s[j].0
}

/// The sort with the tie-breaking field appended last when it is absent.
pub open spec fn normalized_sort(s: Seq<(Seq<char>, SortOrder)>) -> Seq<(Seq<char>, SortOrder)> {
    if has_field(s, id_field()) {
        s
    } else {
        s.push((id_field(), TIE_BREAKER_ORDER))
    }
}

pub open spec fn flip(o: SortOrder) -> SortOrder {
    match o {
        SortOrder::Ascending => SortOrder::Descending,
        SortOrder::Descending => SortOrder::Ascending,
    }
}

/// The same fields, each with its direction inverted.
pub open spec fn reversed_sort(s: Seq<(Seq<char>, SortOrder)>) -> Seq<(Seq<char>, SortOrder)> {
    s.map_values(|p: (Seq<char>, SortOrder)| (p.0, flip(p.1)))
}

/// Normalizing twice gives what normalizing once gave.
pub proof fn lemma_normalized_sort_idempotent(s: Seq<(Seq<char>, SortOrder)>)
    ensures
        normalized_sort(normalized_sort(s)) == normalized_sort(s),
        has_field(normalized_sort(s), id_field()),
{
    if !has_field(s, id_field()) {
        let n = s.push((id_field(), TIE_BREAKER_ORDER));
        assert(n[s.len() as int].0 == id_field());
    }
}

/// Appending the tie-breaker keeps the field names distinct.
pub proof fn lemma_normalized_sort_unique(s: Seq<(Seq<char>, SortOrder)>)
    requires
        fields_unique(s),
    ensures
        fields_unique(normalized_sort(s)),
{
}

impl SortKey {
    /// A copy of this key.
    pub fn duplicate(&self) -> (r: SortKey)
        ensures
            r.field@ == self.field@,
            r.order == self.order,
    {
        SortKey { field: self.field.clone(), order: self.order }
    }
}

/// The name of the tie-breaking field.
pub fn id_field_name() -> (r: String)
    ensures
        r@ == id_field(),
{
    let s = "_id";
    proof {
        reveal_strlit("_id");
    }
    s.to_owned()
}

/// Whether the sort names the field `f`.
pub fn contains_field(sort: &Vec<SortKey>, f: &String) -> (r: bool)
    ensures
        r == has_field(sort_view(sort@), f@),
{
    let mut i: usize = 0;
    while i < sort.len()
        invariant
            0 <= i <= sort.len(),
            forall|j: int| 0 <= j < i ==> sort_view(sort@)[j].0 != f@,
        decreases sort.len() - i,
    {
        if sort[i].field == *f {
            assert(sort_view(sort@)[i as int].0 == f@);
            return true;
        }
        i = i + 1;
    }
    false
}

/// A copy of the sort.
pub fn copy_sort(sort: &Vec<SortKey>) -> (r: Vec<SortKey>)
    ensures
        sort_view(r@) == sort_view(sort@),
{
    let mut r: Vec<SortKey> = Vec::new();
    let mut i: usize = 0;
    while i < sort.len()
        invariant
            0 <= i <= sort.len(),
            r@.len() == i,
            forall|j: int| 0 <= j < i ==> r@[j].field@ == sort@[j].field@ && r@[j].order == sort@[j].order,
        decreases sort.len() - i,
    {
        r.push(sort[i].duplicate());
        i = i + 1;
    }
    assert(sort_view(r@) =~= sort_view(sort@));
    r
}

/// The sort with the tie-breaking field appended when the caller left it out.
pub fn normalize_sort(sort: &Vec<SortKey>) -> (r: Vec<SortKey>)
    ensures
        sort_view(r@) == normalized_sort(sort_view(sort@)),
{
    let mut r = copy_sort(sort);
    let id = id_field_name();
    if !contains_field(sort, &id) {
        let ghost before = r@;
        r.push(SortKey { field: id, order: TIE_BREAKER_ORDER });
        assert(sort_view(r@) =~= sort_view(before).push((id_field(), TIE_BREAKER_ORDER)));
    }
    r
}

/// The sort with every direction inverted, so that the store returns the
/// documents in the opposite order.
pub fn reverse_sort(sort: &Vec<SortKey>) -> (r: Vec<SortKey>)
    ensures
        sort_view(r@) == reversed_sort(sort_view(sort@)),
{
    let mut r: Vec<SortKey> = Vec::new();
    let mut i: usize = 0;
    while i < sort.len()
        invariant
            0 <= i <= sort.len(),
            r@.len() == i,
            forall|j: int| 0 <= j < i ==> r@[j].field@ == sort@[j].field@ && r@[j].order == flip(sort@[j].order),
        decreases sort.len() - i,
    {
        let order = match sort[i].order {
            SortOrder::Ascending => SortOrder::Descending,
            SortOrder::Descending => SortOrder::Ascending,
        };
        r.push(SortKey { field: sort[i].field.clone(), order });
        i = i + 1;
    }
    assert(sort_view(r@) =~= reversed_sort(sort_view(sort@)));
    r
}

} // verus!
