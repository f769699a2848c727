use bson::{Bson, Document};
use mongodb_cursor_pagination::{
    get_filter, Comparison, CursorError, CursorOptions, DirectedCursor, Edge, PageInfo,
    QueryOptions, SortKey, SortOrder, DEFAULT_LIMIT,
};

fn key(field: &str, order: SortOrder) -> SortKey {
    SortKey { field: field.to_string(), order }
}

fn view(sort: &[SortKey]) -> Vec<(String, SortOrder)> {
    sort.iter().map(|k| (k.field.clone(), k.order)).collect()
}

fn edge(pairs: &[(&str, Bson)]) -> Edge {
    Edge { fields: pairs.iter().map(|(k, v)| (k.to_string(), v.clone())).collect() }
}

#[test]
fn default_limit_and_tie_breaker() {
    let o = CursorOptions::new(QueryOptions { limit: None, skip: None, sort: vec![] }, None);
    assert_eq!(o.limit, DEFAULT_LIMIT + 1);
    assert_eq!(o.limit, 26);
    assert_eq!(view(&o.sort), vec![("_id".to_string(), SortOrder::Descending)]);
}

#[test]
fn tie_breaker_appended_last() {
    let q = QueryOptions { limit: Some(2), skip: Some(1), sort: vec![key("name", SortOrder::Ascending)] };
    let o = CursorOptions::new(q, None);
    assert_eq!(o.limit, 3);
    assert_eq!(o.skip, Some(1));
    assert_eq!(
        view(&o.sort),
        vec![("name".to_string(), SortOrder::Ascending), ("_id".to_string(), SortOrder::Descending)]
    );
}

#[test]
fn tie_breaker_kept_where_named() {
    let q = QueryOptions { limit: Some(4), skip: None, sort: vec![key("_id", SortOrder::Ascending), key("a", SortOrder::Descending)] };
    let o = CursorOptions::new(q, None);
    assert_eq!(
        view(&o.sort),
        vec![("_id".to_string(), SortOrder::Ascending), ("a".to_string(), SortOrder::Descending)]
    );
}

#[test]
fn normalizing_again_keeps_the_sort() {
    let q = QueryOptions { limit: Some(2), skip: None, sort: vec![key("name", SortOrder::Ascending)] };
    let once = CursorOptions::new(q, None);
    let again = CursorOptions::new(
        QueryOptions { limit: Some(once.limit), skip: once.skip, sort: once.sort.clone() },
        None,
    );
    assert_eq!(view(&again.sort), view(&once.sort));
    assert_eq!(again.limit, once.limit + 1);
}

#[test]
fn limit_saturates() {
    let q = QueryOptions { limit: Some(i64::MAX), skip: None, sort: vec![] };
    assert_eq!(CursorOptions::new(q, None).limit, i64::MAX);
}

#[test]
fn backwards_cursor_inverts_directed_sort() {
    let q = QueryOptions { limit: Some(2), skip: Some(4), sort: vec![key("name", SortOrder::Ascending)] };
    let c = DirectedCursor::Backwards(edge(&[("name", Bson::String("x".into())), ("_id", Bson::Int32(1))]));
    let o = CursorOptions::new(q, Some(c));
    assert_eq!(o.skip, None);
    assert_eq!(
        view(&o.get_directed()),
        vec![("name".to_string(), SortOrder::Descending), ("_id".to_string(), SortOrder::Ascending)]
    );
    assert_eq!(view(&o.sort)[0].1, SortOrder::Ascending);
}

#[test]
fn set_cursor_clears_skip() {
    let q = QueryOptions { limit: Some(2), skip: Some(4), sort: vec![] };
    let mut o = CursorOptions::new(q, None);
    assert_eq!(o.skip, Some(4));
    assert_eq!(view(&o.get_directed()), vec![("_id".to_string(), SortOrder::Descending)]);
    o.set_cursor(DirectedCursor::Backwards(edge(&[("_id", Bson::Int32(1))])));
    assert_eq!(o.skip, None);
    assert_eq!(view(&o.get_directed()), vec![("_id".to_string(), SortOrder::Ascending)]);
}

#[test]
fn no_cursor_no_range() {
    let o = CursorOptions::new(QueryOptions { limit: None, skip: None, sort: vec![] }, None);
    assert!(get_filter(&o).expect("filter").is_none());
    let o = CursorOptions::new(QueryOptions { limit: None, skip: None, sort: vec![] }, Some(DirectedCursor::Forward(edge(&[]))));
    assert!(get_filter(&o).expect("filter").is_none());
}

#[test]
fn single_key_range() {
    let c = DirectedCursor::Forward(edge(&[("_id", Bson::Int32(7))]));
    let o = CursorOptions::new(QueryOptions { limit: None, skip: None, sort: vec![] }, Some(c));
    let f = get_filter(&o).expect("filter").expect("range");
    assert_eq!(f.branches.len(), 1);
    assert_eq!(f.branches[0].len(), 1);
    assert_eq!(f.branches[0][0].field, "_id");
    assert_eq!(f.branches[0][0].comparison, Comparison::LessThan);
    assert_eq!(f.branches[0][0].value, Some(Bson::Int32(7)));
}

#[test]
fn single_key_range_needs_the_tie_breaker() {
    let c = DirectedCursor::Forward(edge(&[("name", Bson::Int32(7))]));
    let o = CursorOptions::new(QueryOptions { limit: None, skip: None, sort: vec![] }, Some(c));
    assert!(matches!(get_filter(&o), Err(CursorError::InvalidCursor)));
}

#[test]
fn multi_key_range_branches() {
    let sort = vec![key("a", SortOrder::Ascending), key("b", SortOrder::Descending)];
    let c = DirectedCursor::Backwards(edge(&[("a", Bson::Int32(1)), ("_id", Bson::Int32(9))]));
    let o = CursorOptions::new(QueryOptions { limit: None, skip: None, sort }, Some(c));
    let f = get_filter(&o).expect("filter").expect("range");
    let shape: Vec<Vec<(String, Comparison, Option<Bson>)>> = f
        .branches
        .iter()
        .map(|b| b.iter().map(|c| (c.field.clone(), c.comparison, c.value.clone())).collect())
        .collect();
    let a = || ("a".to_string(), Comparison::Equal, Some(Bson::Int32(1)));
    let b = || ("b".to_string(), Comparison::Equal, None);
    assert_eq!(
        shape,
        vec![
            vec![("a".to_string(), Comparison::LessThan, Some(Bson::Int32(1)))],
            vec![a(), ("b".to_string(), Comparison::GreaterThan, None)],
            vec![a(), b(), ("_id".to_string(), Comparison::GreaterThan, Some(Bson::Int32(9)))],
        ]
    );
}

#[test]
fn edge_keeps_sort_fields_in_sort_order() {
    let mut d = Document::new();
    d.insert("_id", Bson::Int32(3));
    d.insert("other", Bson::Int32(1));
    d.insert("name", Bson::String("Kiwi".into()));
    let o = CursorOptions::new(
        QueryOptions { limit: None, skip: None, sort: vec![key("name", SortOrder::Ascending), key("missing", SortOrder::Ascending)] },
        None,
    );
    let e = Edge::new(&d, &o);
    assert_eq!(
        e.fields,
        vec![("name".to_string(), Bson::String("Kiwi".into())), ("_id".to_string(), Bson::Int32(3))]
    );
    assert_eq!(e.get(&"_id".to_string()), Some(Bson::Int32(3)));
    assert_eq!(e.get(&"missing".to_string()), None);
}

#[test]
fn directed_cursor_reverse() {
    let c = DirectedCursor::Forward(edge(&[("_id", Bson::Int32(1))]));
    let r = c.reverse();
    assert!(matches!(r, DirectedCursor::Backwards(_)));
    assert!(matches!(r.clone().reverse(), DirectedCursor::Forward(_)));
    assert_eq!(r.inner().fields, vec![("_id".to_string(), Bson::Int32(1))]);
}

#[test]
fn page_info_default_is_empty() {
    let p = PageInfo::default();
    assert!(!p.has_previous_page && !p.has_next_page);
    assert!(p.start_cursor.is_none() && p.end_cursor.is_none());
}

#[test]
fn forward_range_follows_each_direction() {
    let sort = vec![key("a", SortOrder::Descending), key("_id", SortOrder::Ascending)];
    let c = DirectedCursor::Forward(edge(&[("a", Bson::Int32(2)), ("_id", Bson::Int32(5))]));
    let o = CursorOptions::new(QueryOptions { limit: None, skip: None, sort }, Some(c));
    let f = get_filter(&o).expect("filter").expect("range");
    assert_eq!(f.branches.len(), 2);
    assert_eq!(f.branches[0][0].comparison, Comparison::LessThan);
    assert_eq!(f.branches[1][0].comparison, Comparison::Equal);
    assert_eq!(f.branches[1][1].comparison, Comparison::GreaterThan);
    assert_eq!(f.branches[1][1].value, Some(Bson::Int32(5)));
}
