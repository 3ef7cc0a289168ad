//! Property values and the static and temporal property tables of an entity.

use vstd::prelude::*;
use crate::layers::LayerIds;
use crate::restriction::{cut_records, restrict_props};
use crate::time_index::{in_bounds, within};

verus! {

/// A scalar value: what a list or a dictionary holds.
#[derive(Debug)]
pub enum PropItem {
    Str(String),
    I32(i32),
    I64(i64),
    U32(u32),
    U64(u64),
    Bool(bool),
}

/// The mathematical value of a [`PropItem`].
pub enum ItemValue {
    Str(Seq<char>),
    I32(i32),
    I64(i64),
    U32(u32),
    U64(u64),
    Bool(bool),
}

impl View for PropItem {
    type V = ItemValue;

    open spec fn view(&self) -> ItemValue {
        match self {
            PropItem::Str(s) => ItemValue::Str(s@),
            PropItem::I32(v) => ItemValue::I32(*v),
            PropItem::I64(v) => ItemValue::I64(*v),
            PropItem::U32(v) => ItemValue::U32(*v),
            PropItem::U64(v) => ItemValue::U64(*v),
            PropItem::Bool(v) => ItemValue::Bool(*v),
        }
    }
}

impl Clone for PropItem {
    fn clone(&self) -> (r: PropItem)
        ensures
            r@ == self@,
    {
        match self {
            PropItem::Str(s) => PropItem::Str(s.clone()),
            PropItem::I32(v) => PropItem::I32(*v),
            PropItem::I64(v) => PropItem::I64(*v),
            PropItem::U32(v) => PropItem::U32(*v),
            PropItem::U64(v) => PropItem::U64(*v),
            PropItem::Bool(v) => PropItem::Bool(*v),
        }
    }
}

impl PropItem {
    /// Whether two scalars have the same tag and hold the same value.
    pub fn same(&self, other: &PropItem) -> (r: bool)
        ensures
            r == (self@ == other@),
    {
        match (self, other) {
            (PropItem::Str(a), PropItem::Str(b)) => {
                let r = *a == *b;
                proof {
                    if a@ != b@ {
                        assert(self@ != other@);
                    }
                }
                r
            },
            (PropItem::I32(a), PropItem::I32(b)) => *a == *b,
            (PropItem::I64(a), PropItem::I64(b)) => *a == *b,
            (PropItem::U32(a), PropItem::U32(b)) => *a == *b,
            (PropItem::U64(a), PropItem::U64(b)) => *a == *b,
            (PropItem::Bool(a), PropItem::Bool(b)) => *a == *b,
            _ => false,
        }
    }
}

/// The values of a list of scalars.
pub open spec fn item_values(items: Seq<PropItem>) -> Seq<ItemValue> {
    items.map_values(|x: PropItem| x@)
}

/// The keys and values of a list of named scalars.
pub open spec fn entry_values(entries: Seq<(String, PropItem)>) -> Seq<(Seq<char>, ItemValue)> {
    entries.map_values(|e: (String, PropItem)| (e.0@, e.1@))
}

/// A tagged property value: a scalar, a list of scalars, or a dictionary from
/// names to scalars.
#[derive(Debug)]
pub enum Prop {
    Str(String),
    I32(i32),
    I64(i64),
    U32(u32),
    U64(u64),
    Bool(bool),
    List(Vec<PropItem>),
    Dict(Vec<(String, PropItem)>),
}

/// The mathematical value of a [`Prop`]. Two dictionaries are the same value if
/// they hold the same entries in the same order.
pub enum PropValue {
    Str(Seq<char>),
    I32(i32),
    I64(i64),
    U32(u32),
    U64(u64),
    Bool(bool),
    List(Seq<ItemValue>),
    Dict(Seq<(Seq<char>, ItemValue)>),
}

impl View for Prop {
    type V = PropValue;

    open spec fn view(&self) -> PropValue {
        match self {
            Prop::Str(s) => PropValue::Str(s@),
            Prop::I32(v) => PropValue::I32(*v),
            Prop::I64(v) => PropValue::I64(*v),
            Prop::U32(v) => PropValue::U32(*v),
            Prop::U64(v) => PropValue::U64(*v),
            Prop::Bool(v) => PropValue::Bool(*v),
            Prop::List(items) => PropValue::List(item_values(items@)),
            Prop::Dict(entries) => PropValue::Dict(entry_values(entries@)),
        }
    }
}

fn clone_items(items: &Vec<PropItem>) -> (r: Vec<PropItem>)
    ensures
        item_values(r@) == item_values(items@),
{
    let mut out: Vec<PropItem> = Vec::new();
    let mut i: usize = 0;
    while i < items.len()
        invariant
            i <= items.len(),
            out@.len() == i,
            forall|j: int| 0 <= j < i ==> out@[j]@ == items@[j]@,
        decreases items.len() - i,
    {
        out.push(items[i].clone());
        i += 1;
    }
    assert(item_values(out@) =~= item_values(items@));
    out
}

fn clone_entries(entries: &Vec<(String, PropItem)>) -> (r: Vec<(String, PropItem)>)
    ensures
        entry_values(r@) == entry_values(entries@),
{
    let mut out: Vec<(String, PropItem)> = Vec::new();
    let mut i: usize = 0;
    while i < entries.len()
        invariant
            i <= entries.len(),
            out@.len() == i,
            forall|j: int|
                0 <= j < i ==> out@[j].0@ == entries@[j].0@ && out@[j].1@ == entries@[j].1@,
        decreases entries.len() - i,
    {
        out.push((entries[i].0.clone(), entries[i].1.clone()));
        i += 1;
    }
    assert(entry_values(out@) =~= entry_values(entries@));
    out
}

fn same_items(a: &Vec<PropItem>, b: &Vec<PropItem>) -> (r: bool)
    ensures
        r == (item_values(a@) == item_values(b@)),
{
    if a.len() != b.len() {
        assert(item_values(a@).len() != item_values(b@).len());
        return false;
    }
    let mut i: usize = 0;
    while i < a.len()
        invariant
            i <= a.len(),
            a.len() == b.len(),
            forall|j: int| 0 <= j < i ==> a@[j]@ == b@[j]@,
        decreases a.len() - i,
    {
        if !a[i].same(&b[i]) {
            assert(item_values(a@)[i as int] != item_values(b@)[i as int]);
            return false;
        }
        i += 1;
    }
    assert(item_values(a@) =~= item_values(b@));
    true
}

fn same_entries(a: &Vec<(String, PropItem)>, b: &Vec<(String, PropItem)>) -> (r: bool)
    ensures
        r == (entry_values(a@) == entry_values(b@)),
{
    if a.len() != b.len() {
        assert(entry_values(a@).len() != entry_values(b@).len());
        return false;
    }
    let mut i: usize = 0;
    while i < a.len()
        invariant
            i <= a.len(),
            a.len() == b.len(),
            forall|j: int| 0 <= j < i ==> a@[j].0@ == b@[j].0@ && a@[j].1@ == b@[j].1@,
        decreases a.len() - i,
    {
        if !(a[i].0 == b[i].0) || !a[i].1.same(&b[i].1) {
            assert(entry_values(a@)[i as int] != entry_values(b@)[i as int]);
            return false;
        }
        i += 1;
    }
    assert(entry_values(a@) =~= entry_values(b@));
    true
}

impl Clone for Prop {
    fn clone(&self) -> (r: Prop)
        ensures
            r@ == self@,
    {
        match self {
            Prop::Str(s) => Prop::Str(s.clone()),
            Prop::I32(v) => Prop::I32(*v),
            Prop::I64(v) => Prop::I64(*v),
            Prop::U32(v) => Prop::U32(*v),
            Prop::U64(v) => Prop::U64(*v),
            Prop::Bool(v) => Prop::Bool(*v),
            Prop::List(items) => Prop::List(clone_items(items)),
            Prop::Dict(entries) => Prop::Dict(clone_entries(entries)),
        }
    }
}

impl Prop {
    /// Whether two property values have the same tag and hold the same
    /// value; for lists and dictionaries, the same items in the same order.
    pub fn same(&self, other: &Prop) -> (r: bool)
        ensures
            r == (self@ == other@),
    {
        match (self, other) {
            (Prop::Str(a), Prop::Str(b)) => {
                let r = *a == *b;
                proof {
                    if a@ != b@ {
                        assert(self@ != other@);
                    }
                }
                r
            },
            (Prop::I32(a), Prop::I32(b)) => *a == *b,
            (Prop::I64(a), Prop::I64(b)) => *a == *b,
            (Prop::U32(a), Prop::U32(b)) => *a == *b,
            (Prop::U64(a), Prop::U64(b)) => *a == *b,
            (Prop::Bool(a), Prop::Bool(b)) => *a == *b,
            (Prop::List(a), Prop::List(b)) => same_items(a, b),
            (Prop::Dict(a), Prop::Dict(b)) => same_entries(a, b),
            _ => false,
        }
    }
}

/// One value of a temporal property: at time `t`, in layer `layer`, the
/// property `name` took the value `value`.
#[derive(Debug)]
pub struct PropRecord {
    pub t: i64,
    pub layer: usize,
    pub name: String,
    pub value: Prop,
}

pub struct PropRecordView {
    pub t: i64,
    pub layer: usize,
    pub name: Seq<char>,
    pub value: PropValue,
}

impl View for PropRecord {
    type V = PropRecordView;

    open spec fn view(&self) -> PropRecordView {
        PropRecordView { t: self.t, layer: self.layer, name: self.name@, value: self.value@ }
    }
}

/// The property tables of one entity.
pub struct PropsView {
    /// The temporal records of all properties, ascending in time; records of
    /// one time stand in the order in which they were added.
    pub temporal: Seq<PropRecordView>,
    /// The static properties, one value for each name.
    pub constant: Seq<(Seq<char>, PropValue)>,
}

pub open spec fn time_ordered(s: Seq<PropRecordView>) -> bool {
    forall|i: int, j: int| 0 <= i < j < s.len() ==> (#[trigger] s[i]).t <= (#[trigger] s[j]).t
}

pub open spec fn names_distinct(c: Seq<(Seq<char>, PropValue)>) -> bool {
    forall|i: int, j: int| 0 <= i < j < c.len() ==> (#[trigger] c[i]).0 != (#[trigger] c[j]).0
}

/// Where a record of time `t` is added: behind every record that is not later.
pub open spec fn record_position(s: Seq<PropRecordView>, t: i64) -> int
    decreases s.len(),
{
    if s.len() == 0 {
        0
    } else if t < s.last().t {
        record_position(s.drop_last(), t)
    } else {
        s.len() as int
    }
}

/// `s` with `r` added. A record that `s` holds already is not added again.
pub open spec fn add_record(s: Seq<PropRecordView>, r: PropRecordView) -> Seq<PropRecordView> {
    if s.contains(r) {
        s
    } else {
        s.insert(record_position(s, r.t), r)
    }
}

/// `s` with one record added for each of `props`, first to last.
pub open spec fn add_records(
    s: Seq<PropRecordView>,
    t: i64,
    layer: usize,
    props: Seq<(Seq<char>, PropValue)>,
) -> Seq<PropRecordView>
    decreases props.len(),
{
    if props.len() == 0 {
        s
    } else {
        add_record(
            add_records(s, t, layer, props.drop_last()),
            PropRecordView { t, layer, name: props.last().0, value: props.last().1 },
        )
    }
}

/// Whether `r` is a value of property `name` within the bounds `w` and in
/// one of `layers`.
pub open spec fn selects(
    r: PropRecordView,
    name: Seq<char>,
    w: Option<(i64, i64)>,
    layers: Set<usize>,
) -> bool {
    r.name == name && in_bounds(r.t, w) && layers.contains(r.layer)
}

/// The `(time, value)` pairs of property `name` within `w` and `layers`,
/// ascending in time, pairs of one time in the order of their addition.
pub open spec fn history(
    s: Seq<PropRecordView>,
    name: Seq<char>,
    w: Option<(i64, i64)>,
    layers: Set<usize>,
) -> Seq<(i64, PropValue)> {
    s.filter(|r: PropRecordView| selects(r, name, w, layers)).map_values(
        |r: PropRecordView| (r.t, r.value),
    )
}

/// Ascending in time.
pub open spec fn ascending(h: Seq<(i64, PropValue)>) -> bool {
    forall|i: int, j: int| 0 <= i < j < h.len() ==> (#[trigger] h[i]).0 <= (#[trigger] h[j]).0
}

/// Whether `p` is a value of property `name` that `s` records within the
/// bounds `w` in one of `layers`.
pub open spec fn recorded(
    s: Seq<PropRecordView>,
    name: Seq<char>,
    w: Option<(i64, i64)>,
    layers: Set<usize>,
    p: (i64, PropValue),
) -> bool {
    exists|i: int|
        0 <= i < s.len() && selects(#[trigger] s[i], name, w, layers) && p == (s[i].t, s[i].value)
}

/// Every pair of a history is a value of the property, recorded within the
/// bounds in one of the layers.
pub proof fn lemma_history_members(
    s: Seq<PropRecordView>,
    name: Seq<char>,
    w: Option<(i64, i64)>,
    layers: Set<usize>,
)
    ensures
        forall|k: int|
            0 <= k < history(s, name, w, layers).len() ==> recorded(
                s,
                name,
                w,
                layers,
                #[trigger] history(s, name, w, layers)[k],
            ),
        history(s, name, w, layers).len() <= s.len(),
    decreases s.len(),
{
    let h = history(s, name, w, layers);
    reveal(Seq::filter);
    if s.len() > 0 {
        let d = s.drop_last();
        let hd = history(d, name, w, layers);
        lemma_history_members(d, name, w, layers);
        assert forall|k: int| 0 <= k < h.len() implies recorded(s, name, w, layers, #[trigger] h[k]) by {
            if k < hd.len() {
                assert(h[k] == hd[k]);
                assert(recorded(d, name, w, layers, hd[k]));
                let i = choose|i: int|
                    0 <= i < d.len() && selects(#[trigger] d[i], name, w, layers) && hd[k] == (
                        d[i].t,
                        d[i].value,
                    );
                assert(s[i] == d[i]);
            } else {
                assert(selects(s[s.len() - 1], name, w, layers));
                assert(h[k] == (s[s.len() - 1].t, s[s.len() - 1].value));
            }
        }
    }
}

/// The history of a property is ascending in time.
pub proof fn lemma_history_ascending(
    s: Seq<PropRecordView>,
    name: Seq<char>,
    w: Option<(i64, i64)>,
    layers: Set<usize>,
)
    requires
        time_ordered(s),
    ensures
        ascending(history(s, name, w, layers)),
    decreases s.len(),
{
    let h = history(s, name, w, layers);
    reveal(Seq::filter);
    if s.len() > 0 {
        let d = s.drop_last();
        let hd = history(d, name, w, layers);
        lemma_history_ascending(d, name, w, layers);
        lemma_history_members(d, name, w, layers);
        assert forall|i: int, j: int| 0 <= i < j < h.len() implies (#[trigger] h[i]).0 <= (
        #[trigger] h[j]).0 by {
            if j < hd.len() {
                assert(h[i] == hd[i] && h[j] == hd[j]);
            } else {
                assert(h[i] == hd[i]);
                assert(recorded(d, name, w, layers, hd[i]));
                let k = choose|k: int|
                    0 <= k < d.len() && selects(#[trigger] d[k], name, w, layers) && hd[i] == (
                        d[k].t,
                        d[k].value,
                    );
                assert(s[k] == d[k]);
                assert(s[k].t <= s[s.len() - 1].t);
                assert(h[j] == (s[s.len() - 1].t, s[s.len() - 1].value));
            }
        }
    }
}

/// The position of the static property `name`, if it is set.
pub open spec fn static_index(c: Seq<(Seq<char>, PropValue)>, name: Seq<char>) -> Option<int> {
    if exists|i: int| 0 <= i < c.len() && (#[trigger] c[i]).0 == name {
        Some(choose|i: int| 0 <= i < c.len() && (#[trigger] c[i]).0 == name)
    } else {
        None
    }
}

pub open spec fn static_value(c: Seq<(Seq<char>, PropValue)>, name: Seq<char>) -> Option<
    PropValue,
> {
    match static_index(c, name) {
        Some(i) => Some(c[i].1),
        None => None,
    }
}

/// `c` with the static property `name` set to `value`: overwritten in place
/// if it was set, appended if not.
pub open spec fn set_static(c: Seq<(Seq<char>, PropValue)>, name: Seq<char>, value: PropValue) -> Seq<
    (Seq<char>, PropValue),
> {
    match static_index(c, name) {
        Some(i) => c.update(i, (name, value)),
        None => c.push((name, value)),
    }
}

pub open spec fn set_statics(
    c: Seq<(Seq<char>, PropValue)>,
    props: Seq<(Seq<char>, PropValue)>,
) -> Seq<(Seq<char>, PropValue)>
    decreases props.len(),
{
    if props.len() == 0 {
        c
    } else {
        set_static(set_statics(c, props.drop_last()), props.last().0, props.last().1)
    }
}

/// The mathematical value of a list of named properties.
pub open spec fn named_values(props: Seq<(String, Prop)>) -> Seq<(Seq<char>, PropValue)> {
    props.map_values(|p: (String, Prop)| (p.0@, p.1@))
}

/// The mathematical value of a list of timed property values.
pub open spec fn timed_values(pairs: Seq<(i64, Prop)>) -> Seq<(i64, PropValue)> {
    pairs.map_values(|p: (i64, Prop)| (p.0, p.1@))
}

impl PropsView {
    pub open spec fn wf(self) -> bool {
        time_ordered(self.temporal) && names_distinct(self.constant)
    }

    pub open spec fn empty() -> PropsView {
        PropsView { temporal: Seq::empty(), constant: Seq::empty() }
    }

    pub open spec fn add_temporal(
        self,
        t: i64,
        layer: usize,
        props: Seq<(Seq<char>, PropValue)>,
    ) -> PropsView {
        PropsView { temporal: add_records(self.temporal, t, layer, props), ..self }
    }

    pub open spec fn add_static(self, props: Seq<(Seq<char>, PropValue)>) -> PropsView {
        PropsView { constant: set_statics(self.constant, props), ..self }
    }
}

pub proof fn lemma_record_position(s: Seq<PropRecordView>, t: i64, k: int)
    requires
        0 <= k <= s.len(),
        forall|j: int| k <= j < s.len() ==> t < (#[trigger] s[j]).t,
        k == 0 || s[k - 1].t <= t,
    ensures
        record_position(s, t) == k,
    decreases s.len(),
{
    if s.len() > 0 && k < s.len() {
        lemma_record_position(s.drop_last(), t, k);
    }
}

proof fn lemma_record_position_bounds(s: Seq<PropRecordView>, t: i64)
    requires
        time_ordered(s),
    ensures
        0 <= record_position(s, t) <= s.len(),
        forall|j: int| record_position(s, t) <= j < s.len() ==> t < (#[trigger] s[j]).t,
        forall|j: int| 0 <= j < record_position(s, t) ==> (#[trigger] s[j]).t <= t,
    decreases s.len(),
{
    if s.len() > 0 {
        if t < s.last().t {
            let d = s.drop_last();
            lemma_record_position_bounds(d, t);
            assert forall|j: int| record_position(s, t) <= j < s.len() implies t < (
            #[trigger] s[j]).t by {
                if j < s.len() - 1 {
                    assert(d[j] == s[j]);
                }
            }
            assert forall|j: int| 0 <= j < record_position(s, t) implies (#[trigger] s[j]).t
                <= t by {
                assert(d[j] == s[j]);
            }
        } else {
            assert forall|j: int| 0 <= j < s.len() implies (#[trigger] s[j]).t <= t by {
                if j < s.len() - 1 {
                    assert(s[j].t <= s[s.len() - 1].t);
                }
            }
        }
    }
}

/// Adding a record keeps the order in time, adds exactly that record, and
/// leaves the records that were there in their order.
pub proof fn lemma_add_record(s: Seq<PropRecordView>, r: PropRecordView)
    requires
        time_ordered(s),
    ensures
        time_ordered(add_record(s, r)),
        forall|x: PropRecordView| #[trigger]
            add_record(s, r).contains(x) <==> (s.contains(x) || x == r),
        add_record(s, r).len() == s.len() + (if s.contains(r) {
            0int
        } else {
            1int
        }),
{
    let out = add_record(s, r);
    if !s.contains(r) {
        let k = record_position(s, r.t);
        lemma_record_position_bounds(s, r.t);
        assert forall|i: int, j: int| 0 <= i < j < out.len() implies (#[trigger] out[i]).t <= (
        #[trigger] out[j]).t by {
            if i < k && j > k {
                assert(out[i] == s[i]);
                assert(out[j] == s[j - 1]);
            }
        }
        assert forall|x: PropRecordView| #[trigger]
            out.contains(x) <==> (s.contains(x) || x == r) by {
            if out.contains(x) {
                let i = choose|i: int| 0 <= i < out.len() && out[i] == x;
                if i < k {
                    assert(s[i] == x);
                } else if i > k {
                    assert(s[i - 1] == x);
                }
            }
            if s.contains(x) {
                let i = choose|i: int| 0 <= i < s.len() && s[i] == x;
                if i < k {
                    assert(out[i] == x);
                } else {
                    assert(out[i + 1] == x);
                }
            }
            if x == r {
                assert(out[k] == x);
            }
        }
    }
}

/// Adding a list of records keeps the order in time and everything that
/// was there, and every record of the list is there afterwards.
pub proof fn lemma_add_records(
    s: Seq<PropRecordView>,
    t: i64,
    layer: usize,
    props: Seq<(Seq<char>, PropValue)>,
)
    requires
        time_ordered(s),
    ensures
        time_ordered(add_records(s, t, layer, props)),
        forall|x: PropRecordView|
            s.contains(x) ==> #[trigger] add_records(s, t, layer, props).contains(x),
        forall|i: int|
            0 <= i < props.len() ==> add_records(s, t, layer, props).contains(
                PropRecordView { t, layer, name: (#[trigger] props[i]).0, value: props[i].1 },
            ),
    decreases props.len(),
{
    if props.len() > 0 {
        let rest = props.drop_last();
        let mid = add_records(s, t, layer, rest);
        let r = PropRecordView { t, layer, name: props.last().0, value: props.last().1 };
        lemma_add_records(s, t, layer, rest);
        lemma_add_record(mid, r);
        assert forall|i: int| 0 <= i < props.len() implies add_records(
            s,
            t,
            layer,
            props,
        ).contains(
            PropRecordView { t, layer, name: (#[trigger] props[i]).0, value: props[i].1 },
        ) by {
            if i < rest.len() {
                assert(rest[i] == props[i]);
            }
        }
    }
}

/// Adding records that are all there already changes nothing.
pub proof fn lemma_add_records_present(
    s: Seq<PropRecordView>,
    t: i64,
    layer: usize,
    props: Seq<(Seq<char>, PropValue)>,
)
    requires
        forall|i: int|
            0 <= i < props.len() ==> s.contains(
                PropRecordView { t, layer, name: (#[trigger] props[i]).0, value: props[i].1 },
            ),
    ensures
        add_records(s, t, layer, props) == s,
    decreases props.len(),
{
    if props.len() > 0 {
        let rest = props.drop_last();
        assert forall|i: int| 0 <= i < rest.len() implies s.contains(
            PropRecordView { t, layer, name: (#[trigger] rest[i]).0, value: rest[i].1 },
        ) by {
            assert(rest[i] == props[i]);
        }
        lemma_add_records_present(s, t, layer, rest);
        assert(props[props.len() - 1] == props.last());
    }
}

/// Adding the same list of records twice is adding it once.
pub proof fn lemma_add_records_idempotent(
    s: Seq<PropRecordView>,
    t: i64,
    layer: usize,
    props: Seq<(Seq<char>, PropValue)>,
)
    requires
        time_ordered(s),
    ensures
        add_records(add_records(s, t, layer, props), t, layer, props) == add_records(
            s,
            t,
            layer,
            props,
        ),
{
    lemma_add_records(s, t, layer, props);
    lemma_add_records_present(add_records(s, t, layer, props), t, layer, props);
}

/// With distinct names, the position of a name is the one place where it stands.
pub proof fn lemma_static_index(c: Seq<(Seq<char>, PropValue)>, name: Seq<char>, i: int)
    requires
        names_distinct(c),
        0 <= i < c.len(),
        c[i].0 == name,
    ensures
        static_index(c, name) == Some(i),
{
    let k = choose|k: int| 0 <= k < c.len() && (#[trigger] c[k]).0 == name;
    if k < i {
        assert(c[k].0 != c[i].0);
    }
    if i < k {
        assert(c[i].0 != c[k].0);
    }
}

pub proof fn lemma_set_static(c: Seq<(Seq<char>, PropValue)>, name: Seq<char>, value: PropValue)
    requires
        names_distinct(c),
    ensures
        names_distinct(set_static(c, name, value)),
        static_value(set_static(c, name, value), name) == Some(value),
        forall|other: Seq<char>|
            other != name ==> #[trigger] static_value(set_static(c, name, value), other)
                == static_value(c, other),
{
    let out = set_static(c, name, value);
    match static_index(c, name) {
        Some(i) => {
            assert forall|a: int, b: int| 0 <= a < b < out.len() implies (#[trigger] out[a]).0 != (
            #[trigger] out[b]).0 by {
                assert(c[a].0 != c[b].0);
            }
            lemma_static_index(out, name, i);
            assert forall|other: Seq<char>| other != name implies #[trigger] static_value(
                out,
                other,
            ) == static_value(c, other) by {
                if exists|k: int| 0 <= k < c.len() && (#[trigger] c[k]).0 == other {
                    let k = choose|k: int| 0 <= k < c.len() && (#[trigger] c[k]).0 == other;
                    lemma_static_index(c, other, k);
                    assert(out[k] == c[k]);
                    lemma_static_index(out, other, k);
                } else {
                    if exists|k: int| 0 <= k < out.len() && (#[trigger] out[k]).0 == other {
                        let k = choose|k: int| 0 <= k < out.len() && (#[trigger] out[k]).0 == other;
                        assert(c[k].0 == other);
                    }
                }
            }
        },
        None => {
            assert forall|a: int, b: int| 0 <= a < b < out.len() implies (#[trigger] out[a]).0 != (
            #[trigger] out[b]).0 by {
                if b == c.len() {
                    assert(c[a].0 != name);
                } else {
                    assert(c[a].0 != c[b].0);
                }
            }
            lemma_static_index(out, name, c.len() as int);
            assert forall|other: Seq<char>| other != name implies #[trigger] static_value(
                out,
                other,
            ) == static_value(c, other) by {
                if exists|k: int| 0 <= k < c.len() && (#[trigger] c[k]).0 == other {
                    let k = choose|k: int| 0 <= k < c.len() && (#[trigger] c[k]).0 == other;
                    lemma_static_index(c, other, k);
                    assert(out[k] == c[k]);
                    lemma_static_index(out, other, k);
                } else {
                    if exists|k: int| 0 <= k < out.len() && (#[trigger] out[k]).0 == other {
                        let k = choose|k: int| 0 <= k < out.len() && (#[trigger] out[k]).0 == other;
                        assert(c[k].0 == other);
                    }
                }
            }
        },
    }
}

pub proof fn lemma_set_statics(c: Seq<(Seq<char>, PropValue)>, props: Seq<(Seq<char>, PropValue)>)
    requires
        names_distinct(c),
    ensures
        names_distinct(set_statics(c, props)),
    decreases props.len(),
{
    if props.len() > 0 {
        lemma_set_statics(c, props.drop_last());
        lemma_set_static(set_statics(c, props.drop_last()), props.last().0, props.last().1);
    }
}

/// The static and temporal property tables of one entity.
#[derive(Debug)]
pub struct Props {
    temporal: Vec<PropRecord>,
    constant: Vec<(String, Prop)>,
}

impl View for Props {
    type V = PropsView;

    closed spec fn view(&self) -> PropsView {
        PropsView {
            temporal: self.temporal@.map_values(|r: PropRecord| r@),
            constant: named_values(self.constant@),
        }
    }
}

impl Props {
    pub open spec fn wf(&self) -> bool {
        self@.wf()
    }

    pub fn new() -> (r: Props)
        ensures
            r@ == PropsView::empty(),
            r.wf(),
    {
        let r = Props { temporal: Vec::new(), constant: Vec::new() };
        assert(r@.temporal =~= Seq::empty());
        assert(r@.constant =~= Seq::empty());
        r
    }

    /// Adds one value of a temporal property, unless the same value is
    /// recorded for that time, layer and name already.
    pub fn add_temporal(&mut self, t: i64, layer: usize, name: &String, value: &Prop)
        requires
            old(self).wf(),
        ensures
            final(self).wf(),
            final(self)@.constant == old(self)@.constant,
            final(self)@.temporal == add_record(
                old(self)@.temporal,
                PropRecordView { t, layer, name: name@, value: value@ },
            ),
    {
        let ghost r = PropRecordView { t, layer, name: name@, value: value@ };
        let ghost s = self@.temporal;
        proof {
            lemma_add_record(s, r);
        }
        let n = self.temporal.len();
        let mut i: usize = 0;
        while i < n
            invariant
                i <= n,
                n == self.temporal.len(),
                s == self@.temporal,
                r == (PropRecordView { t, layer, name: name@, value: value@ }),
                self@ == old(self)@,
                time_ordered(s),
                names_distinct(self@.constant),
                forall|j: int| 0 <= j < i ==> s[j] != r,
            decreases n - i,
        {
            let rec = &self.temporal[i];
            if rec.t == t && rec.layer == layer && rec.name == *name && rec.value.same(value) {
                assert(s[i as int] == r);
                return ;
            }
            i += 1;
        }
        let mut k: usize = n;
        while k > 0 && t < self.temporal[k - 1].t
            invariant
                k <= n,
                n == self.temporal.len(),
                s == self@.temporal,
                forall|j: int| k <= j < n ==> t < (#[trigger] s[j]).t,
            decreases k,
        {
            k -= 1;
        }
        proof {
            lemma_record_position(s, t, k as int);
        }
        self.temporal.insert(
            k,
            PropRecord { t, layer, name: name.clone(), value: value.clone() },
        );
        assert(self@.temporal =~= s.insert(k as int, r));
    }

    /// Adds the values `props` of temporal properties at time `t` in layer `layer`.
    pub fn add_all(&mut self, t: i64, layer: usize, props: &Vec<(String, Prop)>)
        requires
            old(self).wf(),
        ensures
            final(self).wf(),
            final(self)@ == old(self)@.add_temporal(t, layer, named_values(props@)),
    {
        let ghost vals = named_values(props@);
        let mut i: usize = 0;
        while i < props.len()
            invariant
                i <= props.len(),
                vals == named_values(props@),
                self.wf(),
                self@.constant == old(self)@.constant,
                self@.temporal == add_records(old(self)@.temporal, t, layer, vals.take(i as int)),
            decreases props.len() - i,
        {
            proof {
                assert(vals.take(i as int + 1).drop_last() == vals.take(i as int));
                assert(vals.take(i as int + 1).last() == (props@[i as int].0@, props@[i as int].1@));
            }
            self.add_temporal(t, layer, &props[i].0, &props[i].1);
            i += 1;
        }
        proof {
            assert(vals.take(i as int) == vals);
        }
    }

    /// Sets the static property `name`, overwriting the value it had.
    pub fn set_static(&mut self, name: &String, value: &Prop)
        requires
            old(self).wf(),
        ensures
            final(self).wf(),
            final(self)@.temporal == old(self)@.temporal,
            final(self)@.constant == set_static(old(self)@.constant, name@, value@),
    {
        let ghost c = self@.constant;
        proof {
            lemma_set_static(c, name@, value@);
        }
        let n = self.constant.len();
        let mut i: usize = 0;
        while i < n
            invariant
                i <= n,
                n == self.constant.len(),
                c == self@.constant,
                self@ == old(self)@,
                names_distinct(c),
                time_ordered(self@.temporal),
                names_distinct(set_static(c, name@, value@)),
                forall|j: int| 0 <= j < i ==> (#[trigger] c[j]).0 != name@,
            decreases n - i,
        {
            if self.constant[i].0 == *name {
                proof {
                    assert(c[i as int].0 == name@);
                    lemma_static_index(c, name@, i as int);
                }
                self.constant.set(i, (name.clone(), value.clone()));
                assert(self@.constant =~= c.update(i as int, (name@, value@)));
                assert(self@.temporal =~= old(self)@.temporal);
                return ;
            }
            i += 1;
        }
        self.constant.push((name.clone(), value.clone()));
        assert(self@.constant =~= c.push((name@, value@)));
        assert(self@.temporal =~= old(self)@.temporal);
    }

    /// Sets the static properties `props`, first to last.
    pub fn set_static_all(&mut self, props: &Vec<(String, Prop)>)
        requires
            old(self).wf(),
        ensures
            final(self).wf(),
            final(self)@ == old(self)@.add_static(named_values(props@)),
    {
        let ghost vals = named_values(props@);
        let mut i: usize = 0;
        while i < props.len()
            invariant
                i <= props.len(),
                vals == named_values(props@),
                self.wf(),
                self@.temporal == old(self)@.temporal,
                self@.constant == set_statics(old(self)@.constant, vals.take(i as int)),
            decreases props.len() - i,
        {
            proof {
                assert(vals.take(i as int + 1).drop_last() == vals.take(i as int));
                assert(vals.take(i as int + 1).last() == (props@[i as int].0@, props@[i as int].1@));
            }
            self.set_static(&props[i].0, &props[i].1);
            i += 1;
        }
        proof {
            assert(vals.take(i as int) == vals);
        }
    }

    /// The value of the static property `name`, if it is set.
    pub fn static_value(&self, name: &String) -> (r: Option<Prop>)
        requires
            self.wf(),
        ensures
            match r {
                Some(p) => static_value(self@.constant, name@) == Some(p@),
                None => static_value(self@.constant, name@) is None,
            },
    {
        let ghost c = self@.constant;
        let mut i: usize = 0;
        while i < self.constant.len()
            invariant
                i <= self.constant.len(),
                c == self@.constant,
                names_distinct(c),
                forall|j: int| 0 <= j < i ==> (#[trigger] c[j]).0 != name@,
            decreases self.constant.len() - i,
        {
            if self.constant[i].0 == *name {
                proof {
                    assert(c[i as int].0 == name@);
                    lemma_static_index(c, name@, i as int);
                }
                return Some(self.constant[i].1.clone());
            }
            i += 1;
        }
        None
    }

    /// A copy of the tables with the temporal records within `w` in one of
    /// `layers` only.
    pub fn restricted(&self, w: Option<(i64, i64)>, layers: &LayerIds) -> (r: Props)
        ensures
            r@ == restrict_props(self@, w, layers@),
    {
        let ghost s = self@.temporal;
        let ghost cut = |r: PropRecordView| in_bounds(r.t, w) && layers@.contains(r.layer);
        let mut temporal: Vec<PropRecord> = Vec::new();
        let mut i: usize = 0;
        assert(s.take(0).filter(cut) =~= Seq::empty()) by {
            reveal(Seq::filter);
        }
        assert(temporal@.map_values(|r: PropRecord| r@) =~= s.take(0).filter(cut));
        while i < self.temporal.len()
            invariant
                i <= self.temporal.len(),
                s == self@.temporal,
                cut == |r: PropRecordView| in_bounds(r.t, w) && layers@.contains(r.layer),
                temporal@.map_values(|r: PropRecord| r@) == s.take(i as int).filter(cut),
            decreases self.temporal.len() - i,
        {
            let rec = &self.temporal[i];
            let ghost before = temporal@.map_values(|r: PropRecord| r@);
            proof {
                assert(s.take(i as int + 1) == s.take(i as int).push(s[i as int]));
                s.take(i as int).lemma_filter_push(s[i as int], cut);
                assert(s[i as int] == rec@);
            }
            if within(rec.t, w) && layers.contains(rec.layer) {
                temporal.push(
                    PropRecord {
                        t: rec.t,
                        layer: rec.layer,
                        name: rec.name.clone(),
                        value: rec.value.clone(),
                    },
                );
                assert(temporal@.map_values(|r: PropRecord| r@) =~= before.push(rec@));
            }
            i += 1;
        }
        let mut constant: Vec<(String, Prop)> = Vec::new();
        let mut j: usize = 0;
        while j < self.constant.len()
            invariant
                j <= self.constant.len(),
                constant@.len() == j,
                forall|k: int|
                    0 <= k < j ==> constant@[k].0@ == self.constant@[k].0@ && constant@[k].1@
                        == self.constant@[k].1@,
            decreases self.constant.len() - j,
        {
            constant.push((self.constant[j].0.clone(), self.constant[j].1.clone()));
            j += 1;
        }
        let r = Props { temporal, constant };
        proof {
            assert(s.take(i as int) == s);
            assert(r@.constant =~= self@.constant);
            assert(r@.temporal == cut_records(s, w, layers@));
        }
        r
    }

    /// The values of the temporal property `name` within the bounds `w` and
    /// the layers `layers`, each with its time.
    pub fn temporal_vec(&self, name: &String, w: Option<(i64, i64)>, layers: &LayerIds) -> (r: Vec<
        (i64, Prop),
    >)
        ensures
            timed_values(r@) == history(self@.temporal, name@, w, layers@),
            self.wf() ==> ascending(timed_values(r@)),
    {
        proof {
            if self.wf() {
                lemma_history_ascending(self@.temporal, name@, w, layers@);
            }
        }
        let ghost s = self@.temporal;
        let ghost sel = |r: PropRecordView| selects(r, name@, w, layers@);
        let ghost pair = |r: PropRecordView| (r.t, r.value);
        let mut out: Vec<(i64, Prop)> = Vec::new();
        let mut i: usize = 0;
        assert(s.take(0).filter(sel) =~= Seq::empty()) by {
            reveal(Seq::filter);
        }
        assert(timed_values(out@) =~= s.take(0).filter(sel).map_values(pair));
        while i < self.temporal.len()
            invariant
                i <= self.temporal.len(),
                s == self@.temporal,
                sel == |r: PropRecordView| selects(r, name@, w, layers@),
                pair == |r: PropRecordView| (r.t, r.value),
                timed_values(out@) == s.take(i as int).filter(sel).map_values(pair),
            decreases self.temporal.len() - i,
        {
            let rec = &self.temporal[i];
            let ghost before = out@;
            proof {
                assert(s.take(i as int + 1) == s.take(i as int).push(s[i as int]));
                s.take(i as int).lemma_filter_push(s[i as int], sel);
                assert(s[i as int] == rec@);
            }
            if rec.name == *name && within(rec.t, w) && layers.contains(rec.layer) {
                out.push((rec.t, rec.value.clone()));
                assert(timed_values(out@) =~= timed_values(before).push((rec.t, rec.value@)));
                assert(s.take(i as int + 1).filter(sel).map_values(pair) =~= s.take(
                    i as int,
                ).filter(sel).map_values(pair).push(pair(s[i as int])));
            }
            i += 1;
        }
        proof {
            assert(s.take(i as int) == s);
        }
        out
    }
}

} // verus!
