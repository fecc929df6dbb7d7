//! Wire values: the tree of records, lists and texts that a transport
//! writes out and reads back.

use vstd::prelude::*;

verus! {

/// A value as it goes over the wire.
#[derive(Debug, PartialEq, Eq)]
pub enum WireValue {
    Null,
    Bool(bool),
    Number(i64),
    Text(String),
    List(Vec<WireValue>),
    Record(Vec<WireField>),
}

/// One keyed entry of a record.
#[derive(Debug, PartialEq, Eq)]
pub struct WireField {
    pub key: String,
    pub value: WireValue,
}

/// Mathematical model of a wire value.
pub ghost enum WireModel {
    Null,
    Bool(bool),
    Number(int),
    Text(Seq<char>),
    List(Seq<WireModel>),
    Record(Seq<FieldModel>),
}

/// Mathematical model of a record's entry.
pub ghost struct FieldModel {
    pub key: Seq<char>,
    pub value: WireModel,
}

/// The model of `value`.
pub open spec fn wire_model(value: WireValue) -> WireModel
    decreases value,
{
    match value {
        WireValue::Null => WireModel::Null,
        WireValue::Bool(b) => WireModel::Bool(b),
        WireValue::Number(n) => WireModel::Number(n as int),
        WireValue::Text(t) => WireModel::Text(t@),
        WireValue::List(items) => WireModel::List(
            Seq::new(
                items@.len(),
                |i: int|
                    if 0 <= i < items@.len() {
                        wire_model(items@[i])
                    } else {
                        arbitrary()
                    },
            ),
        ),
        WireValue::Record(fields) => WireModel::Record(
            Seq::new(
                fields@.len(),
                |i: int|
                    if 0 <= i < fields@.len() {
                        FieldModel { key: fields@[i].key@, value: wire_model(fields@[i].value) }
                    } else {
                        arbitrary()
                    },
            ),
        ),
    }
}

impl View for WireValue {
    type V = WireModel;

    open spec fn view(&self) -> WireModel {
        wire_model(*self)
    }
}

impl View for WireField {
    type V = FieldModel;

    open spec fn view(&self) -> FieldModel {
        FieldModel { key: self.key@, value: self.value@ }
    }
}

/// The record entry `key` with `value`.
pub open spec fn entry(key: Seq<char>, value: WireModel) -> FieldModel {
    FieldModel { key, value }
}

/// The value of the first of the leading `count` entries of `fields` that
/// has the key `key`.
pub open spec fn lookup_upto(fields: Seq<FieldModel>, key: Seq<char>, count: nat) -> Option<
    WireModel,
>
    decreases count,
{
    if count == 0 {
        None
    } else {
        match lookup_upto(fields, key, (count - 1) as nat) {
            Some(value) => Some(value),
            None => if fields[count - 1].key == key {
                Some(fields[count - 1].value)
            } else {
                None
            },
        }
    }
}

/// The value of the first entry of `fields` that has the key `key`.
pub open spec fn lookup(fields: Seq<FieldModel>, key: Seq<char>) -> Option<WireModel> {
    lookup_upto(fields, key, fields.len())
}

/// The models of `fields`, in order.
pub open spec fn field_views(fields: Seq<WireField>) -> Seq<FieldModel> {
    Seq::new(fields.len(), |i: int| fields[i]@)
}

/// The models of `items`, in order.
pub open spec fn item_views(items: Seq<WireValue>) -> Seq<WireModel> {
    Seq::new(items.len(), |i: int| items[i]@)
}

/// The kind that `wire` names: the text under `type`, where `wire` is a
/// record that has one.
pub open spec fn kind_of(wire: WireModel) -> Option<Seq<char>> {
    match wire {
        WireModel::Record(fields) => match lookup(fields, "type"@) {
            Some(WireModel::Text(kind)) => Some(kind),
            _ => None,
        },
        _ => None,
    }
}

impl WireValue {
    /// The text `text` as a wire value.
    pub fn text(text: &str) -> (r: WireValue)
        ensures
            r@ == WireModel::Text(text@),
    {
        WireValue::Text(String::from_str(text))
    }

    /// The record that holds `fields`, in their order.
    pub fn record(fields: Vec<WireField>) -> (r: WireValue)
        ensures
            r@ == WireModel::Record(field_views(fields@)),
    {
        let r = WireValue::Record(fields);
        assert(r@->Record_0 =~= field_views(fields@));
        r
    }

    /// The list that holds `items`, in their order.
    pub fn list(items: Vec<WireValue>) -> (r: WireValue)
        ensures
            r@ == WireModel::List(item_views(items@)),
    {
        let r = WireValue::List(items);
        assert(r@->List_0 =~= item_views(items@));
        r
    }

    /// The kind that the value names, if it names one.
    pub fn kind(&self) -> (r: Option<&String>)
        ensures
            match r {
                Some(kind) => kind_of(self@) == Some(kind@),
                None => kind_of(self@) is None,
            },
    {
        match self {
            WireValue::Record(fields) => {
                assert(self@->Record_0 =~= field_views(fields@));
                match find_field(fields, "type") {
                    Some(WireValue::Text(kind)) => Some(kind),
                    _ => None,
                }
            },
            _ => None,
        }
    }

    /// A copy of the value.
    pub fn duplicate(&self) -> (r: WireValue)
        ensures
            r@ == self@,
        decreases self,
    {
        match self {
            WireValue::Null => WireValue::Null,
            WireValue::Bool(b) => WireValue::Bool(*b),
            WireValue::Number(n) => WireValue::Number(*n),
            WireValue::Text(t) => WireValue::Text(t.clone()),
            WireValue::List(items) => {
                let mut copies: Vec<WireValue> = Vec::new();
                let mut i: usize = 0;
                while i < items.len()
                    invariant
                        i <= items.len(),
                        copies@.len() == i,
                        forall|k: int|
                            0 <= k < items@.len() ==> decreases_to!(*self => #[trigger] items@[k]),
                        forall|k: int| 0 <= k < i ==> (#[trigger] copies@[k])@ == items@[k]@,
                    decreases items.len() - i,
                {
                    let item = &items[i];
                    copies.push(item.duplicate());
                    i += 1;
                }
                let r = WireValue::List(copies);
                assert(r@->List_0 =~= self@->List_0);
                r
            },
            WireValue::Record(fields) => {
                let mut copies: Vec<WireField> = Vec::new();
                let mut i: usize = 0;
                while i < fields.len()
                    invariant
                        i <= fields.len(),
                        copies@.len() == i,
                        forall|k: int|
                            0 <= k < fields@.len() ==> decreases_to!(*self => #[trigger] fields@[k]),
                        forall|k: int| 0 <= k < i ==> (#[trigger] copies@[k])@ == fields@[k]@,
                    decreases fields.len() - i,
                {
                    let field = &fields[i];
                    let value = field.value.duplicate();
                    copies.push(WireField { key: field.key.clone(), value });
                    i += 1;
                }
                let r = WireValue::Record(copies);
                assert(r@->Record_0 =~= self@->Record_0);
                r
            },
        }
    }
}

impl WireField {
    /// The entry `key` with `value`.
    pub fn new(key: &str, value: WireValue) -> (r: WireField)
        ensures
            r@ == entry(key@, value@),
    {
        WireField { key: String::from_str(key), value }
    }
}

/// Once an entry is found among the leading entries, looking further finds
/// the same one.
proof fn lemma_lookup_stable(fields: Seq<FieldModel>, key: Seq<char>, count: nat, more: nat)
    requires
        count <= more,
        lookup_upto(fields, key, count) is Some,
    ensures
        lookup_upto(fields, key, more) == lookup_upto(fields, key, count),
    decreases more,
{
    if more > count {
        lemma_lookup_stable(fields, key, count, (more - 1) as nat);
    }
}

/// Finds the value of the first entry of `fields` that has the key `key`.
pub fn find_field<'a>(fields: &'a Vec<WireField>, key: &str) -> (r: Option<&'a WireValue>)
    ensures
        match r {
            Some(value) => lookup(field_views(fields@), key@) == Some(value@),
            None => lookup(field_views(fields@), key@) is None,
        },
{
    let wanted = String::from_str(key);
    let ghost views = field_views(fields@);
    let mut i: usize = 0;
    while i < fields.len()
        invariant
            i <= fields.len(),
            views == field_views(fields@),
            wanted@ == key@,
            lookup_upto(views, key@, i as nat) is None,
        decreases fields.len() - i,
    {
        if fields[i].key == wanted {
            proof {
                assert(views[i as int] == fields@[i as int]@);
                assert(lookup_upto(views, key@, (i + 1) as nat) == Some(views[i as int].value));
                lemma_lookup_stable(views, key@, (i + 1) as nat, views.len());
            }
            return Some(&fields[i].value);
        }
        proof {
            assert(views[i as int] == fields@[i as int]@);
        }
        i += 1;
    }
    None
}

} // verus!
