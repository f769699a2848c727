use std::cmp::Ordering;

use bson::{Bson, Document};
use mongodb_cursor_pagination::{
    assemble_page, get_filter, Comparison, Condition, CursorDirections, CursorOptions, FindResult,
    PaginatedCursor, QueryOptions, RangeFilter, SortKey, SortOrder,
};

fn fruit(id: i32, name: &str, how_many: i32) -> Document {
    let mut d = Document::new();
    d.insert("_id", Bson::Int32(id));
    d.insert("name", Bson::String(name.to_string()));
    d.insert("how_many", Bson::Int32(how_many));
    d
}

fn fruits() -> Vec<Document> {
    vec![
        fruit(1, "Apple", 5),
        fruit(2, "Orange", 3),
        fruit(3, "Blueberry", 25),
        fruit(4, "Bananas", 8),
        fruit(5, "Grapes", 12),
    ]
}

fn key(field: &str, order: SortOrder) -> SortKey {
    SortKey { field: field.to_string(), order }
}

fn rank(v: &Bson) -> u8 {
    match v {
        Bson::Null => 0,
        Bson::Int32(_) | Bson::Int64(_) => 1,
        Bson::String(_) => 2,
        _ => 3,
    }
}

fn compare(a: &Bson, b: &Bson) -> Ordering {
    match (a, b) {
        (Bson::Int32(x), Bson::Int32(y)) => x.cmp(y),
        (Bson::String(x), Bson::String(y)) => x.cmp(y),
        _ => rank(a).cmp(&rank(b)),
    }
}

fn field(d: &Document, name: &str) -> Bson {
    d.get(name).cloned().unwrap_or(Bson::Null)
}

fn holds(d: &Document, c: &Condition) -> bool {
    let v = field(d, &c.field);
    let w = c.value.clone().unwrap_or(Bson::Null);
    match c.comparison {
        Comparison::Equal => compare(&v, &w) == Ordering::Equal,
        Comparison::GreaterThan => compare(&v, &w) == Ordering::Greater,
        Comparison::LessThan => compare(&v, &w) == Ordering::Less,
    }
}

fn selects(filter: &Option<RangeFilter>, d: &Document) -> bool {
    match filter {
        None => true,
        Some(f) => f.branches.iter().any(|b| b.iter().all(|c| holds(d, c))),
    }
}

fn in_sort_order(a: &Document, b: &Document, sort: &[SortKey]) -> Ordering {
    for k in sort {
        let o = compare(&field(a, &k.field), &field(b, &k.field));
        let o = match k.order {
            SortOrder::Ascending => o,
            SortOrder::Descending => o.reverse(),
        };
        if o != Ordering::Equal {
            return o;
        }
    }
    Ordering::Equal
}

/// A store in memory: filter, sort, skip, limit.
fn store_find(docs: &[Document], options: &CursorOptions) -> Vec<Document> {
    let filter = get_filter(options).expect("filter");
    let sort = options.get_directed();
    let mut found: Vec<Document> = docs.iter().filter(|d| selects(&filter, d)).cloned().collect();
    found.sort_by(|a, b| in_sort_order(a, b, &sort));
    let skip = options.skip.unwrap_or(0) as usize;
    found.into_iter().skip(skip).take(options.limit as usize).collect()
}

fn page(
    docs: &[Document],
    query: QueryOptions,
    cursor: Option<String>,
    direction: Option<CursorDirections>,
) -> FindResult<Document> {
    let paginated = PaginatedCursor::new(Some(query), cursor, direction).expect("cursor");
    let window = store_find(docs, &paginated.options);
    assemble_page(window, &paginated.options, docs.len() as u64)
}

fn names(r: &FindResult<Document>) -> Vec<String> {
    r.items.iter().map(|d| d.get_str("name").expect("name").to_string()).collect()
}

fn by_name(limit: i64) -> QueryOptions {
    QueryOptions { limit: Some(limit), skip: None, sort: vec![key("name", SortOrder::Ascending)] }
}

fn next_token(r: &FindResult<Document>) -> Option<String> {
    Some(r.page_info.end_cursor.as_ref().expect("end cursor").encode().expect("token"))
}

fn previous_token(r: &FindResult<Document>) -> Option<String> {
    Some(r.page_info.start_cursor.as_ref().expect("start cursor").encode().expect("token"))
}

#[test]
fn first_three_pages_by_name() {
    let docs = fruits();
    let p1 = page(&docs, by_name(2), None, None);
    assert_eq!(names(&p1), vec!["Apple", "Bananas"]);
    assert!(!p1.page_info.has_previous_page);
    assert!(p1.page_info.has_next_page);
    assert_eq!(p1.total_count, 5);
    assert_eq!(p1.edges.len(), 2);

    let p2 = page(&docs, by_name(2), next_token(&p1), Some(CursorDirections::Next));
    assert_eq!(names(&p2), vec!["Blueberry", "Grapes"]);
    assert!(p2.page_info.has_previous_page);
    assert!(p2.page_info.has_next_page);

    let p3 = page(&docs, by_name(2), next_token(&p2), Some(CursorDirections::Next));
    assert_eq!(names(&p3), vec!["Orange"]);
    assert!(p3.page_info.has_previous_page);
    assert!(!p3.page_info.has_next_page);
}

#[test]
fn skip_three_by_name() {
    let docs = fruits();
    let query = QueryOptions { limit: Some(2), skip: Some(3), sort: vec![key("name", SortOrder::Ascending)] };
    let p = page(&docs, query, None, None);
    assert_eq!(names(&p), vec!["Grapes", "Orange"]);
    assert!(p.page_info.has_previous_page);
    assert!(!p.page_info.has_next_page);
}

#[test]
fn forward_then_backward_returns_the_same_pages() {
    let docs = fruits();
    let p1 = page(&docs, by_name(2), None, None);
    let p2 = page(&docs, by_name(2), next_token(&p1), Some(CursorDirections::Next));
    let p3 = page(&docs, by_name(2), next_token(&p2), Some(CursorDirections::Next));
    let b2 = page(&docs, by_name(2), previous_token(&p3), Some(CursorDirections::Previous));
    assert_eq!(names(&b2), names(&p2));
    assert!(b2.page_info.has_previous_page);
    assert!(b2.page_info.has_next_page);
    let b1 = page(&docs, by_name(2), previous_token(&b2), Some(CursorDirections::Previous));
    assert_eq!(names(&b1), names(&p1));
    assert!(!b1.page_info.has_previous_page);
    assert!(b1.page_info.has_next_page);
}

fn counted() -> Vec<Document> {
    vec![
        fruit(1, "A", 5),
        fruit(2, "B", 3),
        fruit(3, "C", 5),
        fruit(4, "D", 3),
        fruit(5, "E", 5),
        fruit(6, "F", 8),
        fruit(7, "C", 5),
    ]
}

fn by_count_then_name(limit: i64) -> QueryOptions {
    QueryOptions {
        limit: Some(limit),
        skip: None,
        sort: vec![key("how_many", SortOrder::Ascending), key("name", SortOrder::Descending)],
    }
}

fn ids(r: &FindResult<Document>) -> Vec<i32> {
    r.items.iter().map(|d| d.get_i32("_id").expect("id")).collect()
}

#[test]
fn multi_key_sort_keeps_order_both_ways() {
    let docs = counted();
    let mut forward: Vec<Vec<i32>> = Vec::new();
    let mut p = page(&docs, by_count_then_name(2), None, None);
    forward.push(ids(&p));
    while p.page_info.has_next_page {
        p = page(&docs, by_count_then_name(2), next_token(&p), Some(CursorDirections::Next));
        forward.push(ids(&p));
    }
    let all: Vec<i32> = forward.concat();
    assert_eq!(all, vec![4, 2, 5, 7, 3, 1, 6]);

    let mut backward: Vec<Vec<i32>> = vec![ids(&p)];
    while p.page_info.has_previous_page {
        p = page(&docs, by_count_then_name(2), previous_token(&p), Some(CursorDirections::Previous));
        backward.push(ids(&p));
    }
    backward.reverse();
    assert_eq!(backward, forward);
}

#[test]
fn ties_lose_and_repeat_nothing() {
    let docs = vec![
        fruit(1, "Same", 1),
        fruit(2, "Same", 1),
        fruit(3, "Same", 1),
        fruit(4, "Other", 1),
        fruit(5, "Same", 1),
    ];
    let query = || QueryOptions { limit: Some(2), skip: None, sort: vec![key("name", SortOrder::Ascending)] };
    let mut p = page(&docs, query(), None, None);
    let mut seen = ids(&p);
    while p.page_info.has_next_page {
        p = page(&docs, query(), next_token(&p), Some(CursorDirections::Next));
        seen.extend(ids(&p));
    }
    assert_eq!(seen, vec![4, 5, 3, 2, 1]);
}

#[test]
fn cursor_overrides_skip() {
    let docs = fruits();
    let p1 = page(&docs, by_name(2), None, None);
    let query = QueryOptions { limit: Some(2), skip: Some(3), sort: vec![key("name", SortOrder::Ascending)] };
    let paginated = PaginatedCursor::new(Some(query.clone()), next_token(&p1), None).expect("cursor");
    assert_eq!(paginated.options.skip, None);
    let p2 = page(&docs, query, next_token(&p1), None);
    assert_eq!(names(&p2), vec!["Blueberry", "Grapes"]);
}

#[test]
fn has_next_page_at_the_limit() {
    let docs: Vec<Document> = fruits().into_iter().take(2).collect();
    let p = page(&docs, by_name(2), None, None);
    assert_eq!(p.items.len(), 2);
    assert!(!p.page_info.has_next_page);

    let docs: Vec<Document> = fruits().into_iter().take(3).collect();
    let p = page(&docs, by_name(2), None, None);
    assert_eq!(p.items.len(), 2);
    assert!(p.page_info.has_next_page);
}

#[test]
fn empty_collection_gives_empty_page() {
    let query = by_name(2);
    let paginated = PaginatedCursor::new(Some(query), None, None).expect("options");
    let p = assemble_page(fruits(), &paginated.options, 0);
    assert!(p.items.is_empty());
    assert!(p.edges.is_empty());
    assert_eq!(p.total_count, 0);
    assert!(!p.page_info.has_next_page);
    assert!(!p.page_info.has_previous_page);
    assert!(p.page_info.start_cursor.is_none());
    assert!(p.page_info.end_cursor.is_none());
}

#[test]
fn page_cursors_point_at_first_and_last_item() {
    let docs = fruits();
    let p = page(&docs, by_name(2), None, None);
    let start = p.page_info.start_cursor.clone().expect("start");
    let end = p.page_info.end_cursor.clone().expect("end");
    assert!(matches!(start, mongodb_cursor_pagination::DirectedCursor::Backwards(_)));
    assert!(matches!(end, mongodb_cursor_pagination::DirectedCursor::Forward(_)));
    assert_eq!(start.inner().fields[0].1, Bson::String("Apple".to_string()));
    assert_eq!(end.inner().fields[0].1, Bson::String("Bananas".to_string()));
    assert_eq!(p.edges[1].fields, end.into_inner().fields);
}

#[test]
fn backwards_from_the_first_page_is_empty() {
    let docs = fruits();
    let p1 = page(&docs, by_name(2), None, None);
    let b = page(&docs, by_name(2), previous_token(&p1), Some(CursorDirections::Previous));
    assert!(b.items.is_empty());
    assert!(!b.page_info.has_previous_page);
    assert!(b.page_info.has_next_page);
    assert!(b.page_info.start_cursor.is_none());
}
