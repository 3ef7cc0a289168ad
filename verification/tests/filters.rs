use raphtory::filters::{Edge, EdgeFilter, PropertyHasFilter, StringFilter, StringVecFilter};
use raphtory::props::Prop;

fn edge() -> Edge {
    Edge {
        src: "alice".to_string(),
        dst: "bob".to_string(),
        layer_names: vec!["friends".to_string(), "work".to_string()],
        properties: vec![
            ("since".to_string(), Prop::I64(2019)),
            ("kind".to_string(), Prop::Str("close".to_string())),
        ],
    }
}

fn names(list: &[&str]) -> StringVecFilter {
    StringVecFilter { contains: list.iter().map(|s| s.to_string()).collect() }
}

#[test]
fn empty_filter_matches_everything() {
    assert!(EdgeFilter::new().matches(&edge()));
    let bare = Edge { src: String::new(), dst: String::new(), layer_names: vec![], properties: vec![] };
    assert!(EdgeFilter::new().matches(&bare));
}

#[test]
fn node_names_must_hold_both_endpoints() {
    let mut f = EdgeFilter::new();
    f.node_names = Some(names(&["alice", "bob", "carol"]));
    assert!(f.matches(&edge()));
    f.node_names = Some(names(&["alice", "carol"]));
    assert!(!f.matches(&edge()));
    f.node_names = Some(names(&["bob"]));
    assert!(!f.matches(&edge()));
    f.node_names = Some(names(&[]));
    assert!(!f.matches(&edge()));
}

#[test]
fn src_and_dst_filters_compare_names() {
    let mut f = EdgeFilter::new();
    f.src = Some(StringFilter { eq: Some("alice".to_string()), ne: None });
    assert!(f.matches(&edge()));
    f.src = Some(StringFilter { eq: Some("bob".to_string()), ne: None });
    assert!(!f.matches(&edge()));
    f.src = Some(StringFilter { eq: None, ne: Some("alice".to_string()) });
    assert!(!f.matches(&edge()));
    f.src = None;
    f.dst = Some(StringFilter { eq: Some("bob".to_string()), ne: Some("alice".to_string()) });
    assert!(f.matches(&edge()));
    f.dst = Some(StringFilter { eq: Some("bob".to_string()), ne: Some("bob".to_string()) });
    assert!(!f.matches(&edge()));
}

#[test]
fn layer_names_need_one_common_layer() {
    let mut f = EdgeFilter::new();
    f.layer_names = Some(names(&["work"]));
    assert!(f.matches(&edge()));
    f.layer_names = Some(names(&["family", "friends"]));
    assert!(f.matches(&edge()));
    f.layer_names = Some(names(&["family"]));
    assert!(!f.matches(&edge()));
}

#[test]
fn property_filter_looks_for_one_property() {
    let mut f = EdgeFilter::new();
    f.property_has = Some(PropertyHasFilter { key: Some("since".to_string()), value_str: None });
    assert!(f.matches(&edge()));
    f.property_has = Some(PropertyHasFilter { key: Some("until".to_string()), value_str: None });
    assert!(!f.matches(&edge()));
    f.property_has = Some(PropertyHasFilter { key: None, value_str: Some("close".to_string()) });
    assert!(f.matches(&edge()));
    f.property_has =
        Some(PropertyHasFilter { key: Some("since".to_string()), value_str: Some("close".to_string()) });
    assert!(!f.matches(&edge()));
    f.property_has =
        Some(PropertyHasFilter { key: Some("kind".to_string()), value_str: Some("close".to_string()) });
    assert!(f.matches(&edge()));
    f.property_has = Some(PropertyHasFilter { key: None, value_str: None });
    assert!(f.matches(&edge()));
    let bare = Edge { src: String::new(), dst: String::new(), layer_names: vec![], properties: vec![] };
    assert!(!f.matches(&bare));
}

#[test]
fn every_predicate_that_is_set_must_hold() {
    let mut f = EdgeFilter::new();
    f.node_names = Some(names(&["alice", "bob"]));
    f.src = Some(StringFilter { eq: Some("alice".to_string()), ne: None });
    f.dst = Some(StringFilter { eq: None, ne: Some("carol".to_string()) });
    f.layer_names = Some(names(&["work"]));
    f.property_has = Some(PropertyHasFilter { key: Some("kind".to_string()), value_str: None });
    assert!(f.matches(&edge()));
    f.property_has = Some(PropertyHasFilter { key: Some("missing".to_string()), value_str: None });
    assert!(!f.matches(&edge()));
    f.property_has = None;
    f.layer_names = Some(names(&["family"]));
    assert!(!f.matches(&edge()));
}

#[test]
fn string_filters_on_their_own() {
    let f = StringFilter { eq: None, ne: None };
    assert!(f.matches(&"anything".to_string()));
    let v = names(&["a", "b"]);
    assert!(v.contains(&"b".to_string()));
    assert!(!v.contains(&"c".to_string()));
    assert!(v.contains_any(&vec!["x".to_string(), "a".to_string()]));
    assert!(!v.contains_any(&vec![]));
    let p = PropertyHasFilter { key: Some("since".to_string()), value_str: None };
    assert!(p.matches_edge_properties(&edge()));
}
