use raphtory::layers::{vec_contains, LayerIds};
use raphtory::props::{Prop, PropItem, Props};

fn shown(pairs: &Vec<(i64, Prop)>) -> Vec<(i64, String)> {
    pairs.iter().map(|(t, p)| (*t, format!("{:?}", p))).collect()
}

#[test]
fn props_compare_by_tag_and_value() {
    assert!(Prop::I64(3).same(&Prop::I64(3)));
    assert!(!Prop::I64(3).same(&Prop::U64(3)));
    assert!(!Prop::I64(3).same(&Prop::I64(4)));
    assert!(Prop::Str("a".to_string()).same(&Prop::Str("a".to_string())));
    assert!(!Prop::Str("a".to_string()).same(&Prop::Str("b".to_string())));
    assert!(Prop::Bool(true).same(&Prop::Bool(true).clone()));
    assert!(!Prop::Bool(true).same(&Prop::Bool(false)));
    assert!(Prop::U64(u64::MAX).same(&Prop::U64(u64::MAX)));
    assert!(Prop::I32(-7).same(&Prop::I32(-7)));
    assert!(!Prop::I32(7).same(&Prop::U32(7)));
    assert!(Prop::U32(7).same(&Prop::U32(7).clone()));
    assert!(!Prop::U32(7).same(&Prop::U32(8)));
}

#[test]
fn temporal_values_are_ordered_by_time_then_insertion() {
    let mut p = Props::new();
    let name = "x".to_string();
    p.add_temporal(5, 0, &name, &Prop::I64(50));
    p.add_temporal(1, 0, &name, &Prop::I64(10));
    p.add_temporal(5, 0, &name, &Prop::I64(51));
    p.add_temporal(3, 1, &name, &Prop::I64(30));
    p.add_temporal(5, 0, &name, &Prop::I64(50));
    p.add_temporal(5, 0, &"y".to_string(), &Prop::I64(99));
    assert_eq!(
        shown(&p.temporal_vec(&name, None, &LayerIds::All)),
        vec![
            (1, "I64(10)".to_string()),
            (3, "I64(30)".to_string()),
            (5, "I64(50)".to_string()),
            (5, "I64(51)".to_string()),
        ]
    );
    assert_eq!(
        shown(&p.temporal_vec(&name, Some((3, 5)), &LayerIds::All)),
        vec![(3, "I64(30)".to_string())]
    );
    assert_eq!(
        shown(&p.temporal_vec(&name, None, &LayerIds::One(0))),
        vec![(1, "I64(10)".to_string()), (5, "I64(50)".to_string()), (5, "I64(51)".to_string())]
    );
    assert_eq!(shown(&p.temporal_vec(&name, None, &LayerIds::NoLayers)), vec![]);
    assert_eq!(shown(&p.temporal_vec(&"z".to_string(), None, &LayerIds::All)), vec![]);
}

#[test]
fn adding_a_list_twice_is_adding_it_once() {
    let list = vec![
        ("a".to_string(), Prop::I64(1)),
        ("b".to_string(), Prop::Bool(true)),
        ("a".to_string(), Prop::I64(2)),
    ];
    let mut once = Props::new();
    once.add_all(7, 0, &list);
    let mut twice = Props::new();
    twice.add_all(7, 0, &list);
    twice.add_all(7, 0, &list);
    assert_eq!(format!("{:?}", once), format!("{:?}", twice));
    assert_eq!(twice.temporal_vec(&"a".to_string(), None, &LayerIds::All).len(), 2);
}

#[test]
fn static_values_are_overwritten_in_place() {
    let mut p = Props::new();
    p.set_static(&"a".to_string(), &Prop::I64(1));
    p.set_static(&"b".to_string(), &Prop::I64(2));
    p.set_static(&"a".to_string(), &Prop::I64(3));
    assert_eq!(format!("{:?}", p.static_value(&"a".to_string())), "Some(I64(3))");
    assert_eq!(format!("{:?}", p.static_value(&"b".to_string())), "Some(I64(2))");
    assert_eq!(format!("{:?}", p.static_value(&"c".to_string())), "None");
    p.set_static_all(&vec![("b".to_string(), Prop::I64(9)), ("c".to_string(), Prop::I64(8))]);
    assert_eq!(format!("{:?}", p.static_value(&"b".to_string())), "Some(I64(9))");
    assert_eq!(format!("{:?}", p.static_value(&"c".to_string())), "Some(I64(8))");
}

#[test]
fn layer_sets_intersect() {
    let all = LayerIds::All;
    let none = LayerIds::NoLayers;
    let one = LayerIds::One(2);
    let many = LayerIds::Multiple(vec![1, 2, 3]);
    let other = LayerIds::Multiple(vec![3, 4, 1]);
    let members = |l: &LayerIds| (0..6).filter(|i| l.contains(*i)).collect::<Vec<usize>>();
    assert_eq!(members(&all), vec![0, 1, 2, 3, 4, 5]);
    assert_eq!(members(&none), Vec::<usize>::new());
    assert_eq!(members(&all.constrain(&many)), vec![1, 2, 3]);
    assert_eq!(members(&many.constrain(&all)), vec![1, 2, 3]);
    assert_eq!(members(&many.constrain(&none)), Vec::<usize>::new());
    assert_eq!(members(&none.constrain(&all)), Vec::<usize>::new());
    assert_eq!(members(&one.constrain(&many)), vec![2]);
    assert_eq!(members(&many.constrain(&one)), vec![2]);
    assert_eq!(members(&one.constrain(&other)), Vec::<usize>::new());
    assert_eq!(members(&one.constrain(&LayerIds::One(2))), vec![2]);
    assert_eq!(members(&one.constrain(&LayerIds::One(3))), Vec::<usize>::new());
    assert_eq!(members(&many.constrain(&other)), vec![1, 3]);
    assert_eq!(members(&many.clone()), vec![1, 2, 3]);
    assert!(vec_contains(&vec![4, 5], 5));
    assert!(!vec_contains(&vec![4, 5], 6));
}

#[test]
fn lists_and_dictionaries_compare_item_by_item() {
    let list = |items: &[i64]| Prop::List(items.iter().map(|v| PropItem::I64(*v)).collect());
    assert!(list(&[1, 2, 3]).same(&list(&[1, 2, 3])));
    assert!(list(&[]).same(&list(&[])));
    assert!(!list(&[1, 2, 3]).same(&list(&[1, 2])));
    assert!(!list(&[1, 2, 3]).same(&list(&[1, 3, 2])));
    assert!(list(&[4]).same(&list(&[4]).clone()));
    assert!(!list(&[4]).same(&Prop::I64(4)));
    let mixed = Prop::List(vec![PropItem::Str("a".to_string()), PropItem::Bool(true), PropItem::U32(1)]);
    assert!(mixed.same(&mixed.clone()));
    assert!(!mixed.same(&Prop::List(vec![
        PropItem::Str("a".to_string()),
        PropItem::Bool(true),
        PropItem::I32(1),
    ])));
    let dict = |entries: &[(&str, u64)]| {
        Prop::Dict(entries.iter().map(|(k, v)| (k.to_string(), PropItem::U64(*v))).collect())
    };
    assert!(dict(&[("a", 1), ("b", 2)]).same(&dict(&[("a", 1), ("b", 2)])));
    assert!(dict(&[("a", 1)]).same(&dict(&[("a", 1)]).clone()));
    assert!(!dict(&[("a", 1), ("b", 2)]).same(&dict(&[("b", 2), ("a", 1)])));
    assert!(!dict(&[("a", 1)]).same(&dict(&[("a", 2)])));
    assert!(!dict(&[("a", 1)]).same(&dict(&[("c", 1)])));
    assert!(!dict(&[]).same(&list(&[])));
    assert!(PropItem::I32(3).same(&PropItem::I32(3)));
    assert!(!PropItem::I32(3).same(&PropItem::I64(3)));
    assert!(PropItem::Str("x".to_string()).same(&PropItem::Str("x".to_string()).clone()));
}

#[test]
fn list_values_are_recorded_like_any_other() {
    let mut p = Props::new();
    let name = "tags".to_string();
    let tags = Prop::List(vec![PropItem::Str("red".to_string()), PropItem::Str("big".to_string())]);
    p.add_temporal(2, 0, &name, &tags);
    p.add_temporal(2, 0, &name, &tags);
    p.add_temporal(2, 0, &name, &Prop::List(vec![PropItem::Str("red".to_string())]));
    assert_eq!(p.temporal_vec(&name, None, &LayerIds::All).len(), 2);
}
