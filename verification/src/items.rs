//! The shared vocabulary passed across the host/plugin boundary: records
//! (`Item`), paged listings (`ListResult`), pre-edit decisions
//! (`ProcessResult`) and the tag naming the operation under way
//! (`ActionKind`).
//!
//! An `Item` is a schema-less record: a unique identifier plus named, typed
//! fields.  Fields are stored as an association list; the specification view
//! of an item is a map from field name to field value, where the first
//! occurrence of a name wins.
use vstd::prelude::*;

verus! {

/// Tag distinguishing the intent of a record edit.
#[derive(Clone, Copy, PartialEq, Eq, Structural, Debug)]
pub enum ActionKind {
    Create,
    Update,
    Delete,
}

/// A typed value held by one named field of an `Item`.
#[derive(Debug, PartialEq)]
pub enum FieldValue {
    Text(String),
    Int(u64),
    Flag(bool),
}

/// Specification view of a `FieldValue`.
pub enum FieldValueView {
    Text(Seq<char>),
    Int(u64),
    Flag(bool),
}

impl View for FieldValue {
    type V = FieldValueView;

    open spec fn view(&self) -> FieldValueView {
        match self {
            FieldValue::Text(s) => FieldValueView::Text(s@),
            FieldValue::Int(n) => FieldValueView::Int(*n),
            FieldValue::Flag(b) => FieldValueView::Flag(*b),
        }
    }
}

impl FieldValue {
    /// Whether two field values hold the same contents.
    pub fn value_eq(&self, other: &FieldValue) -> (r: bool)
        ensures
            r == (self@ == other@),
    {
        match (self, other) {
            (FieldValue::Text(a), FieldValue::Text(b)) => str_eq(a.as_str(), b.as_str()),
            (FieldValue::Int(a), FieldValue::Int(b)) => *a == *b,
            (FieldValue::Flag(a), FieldValue::Flag(b)) => *a == *b,
            _ => false,
        }
    }
}

impl Clone for FieldValue {
    fn clone(&self) -> (res: Self)
        ensures
            res@ == self@,
    {
        match self {
            FieldValue::Text(s) => FieldValue::Text(s.clone()),
            FieldValue::Int(n) => FieldValue::Int(*n),
            FieldValue::Flag(b) => FieldValue::Flag(*b),
        }
    }
}

/// One named field of an `Item`.
#[derive(Debug, PartialEq)]
pub struct Field {
    pub name: String,
    pub value: FieldValue,
}

/// Specification view of a `Field`.
#[verifier::ext_equal]
pub struct FieldView {
    pub name: Seq<char>,
    pub value: FieldValueView,
}

impl View for Field {
    type V = FieldView;

    open spec fn view(&self) -> FieldView {
        FieldView { name: self.name@, value: self.value@ }
    }
}

impl Clone for Field {
    fn clone(&self) -> (res: Self)
        ensures
            res@ == self@,
    {
        Field { name: self.name.clone(), value: self.value.clone() }
    }
}

/// A generic, schema-less record with a unique identifier and named fields.
#[derive(Debug, PartialEq)]
pub struct Item {
    pub id: u64,
    pub fields: Vec<Field>,
}

/// Specification view of an `Item`: its identifier and its fields as a map
/// from field name to field value.
#[verifier::ext_equal]
pub struct ItemView {
    pub id: u64,
    pub fields: Map<Seq<char>, FieldValueView>,
}

/// The map described by an association list of fields; the occurrence
/// nearest the front wins when a name repeats.
pub open spec fn fields_map_of(s: Seq<FieldView>) -> Map<Seq<char>, FieldValueView>
    decreases s.len(),
{
    if s.len() == 0 {
        Map::empty()
    } else {
        fields_map_of(s.skip(1)).insert(s[0].name, s[0].value)
    }
}

/// The sequence of field views held by a vector of fields.
pub open spec fn field_views(s: Seq<Field>) -> Seq<FieldView> {
    s.map_values(|f: Field| f@)
}

impl View for Item {
    type V = ItemView;

    open spec fn view(&self) -> ItemView {
        ItemView { id: self.id, fields: fields_map_of(field_views(self.fields@)) }
    }
}

/// A name is in the field map exactly when some field carries it.
pub proof fn lemma_fields_map_contains(s: Seq<FieldView>, n: Seq<char>)
    ensures
        fields_map_of(s).dom().contains(n) <==> exists|i: int|
            0 <= i < s.len() && s[i].name == n,
    decreases s.len(),
{
    if s.len() > 0 {
        lemma_fields_map_contains(s.skip(1), n);
        if s[0].name == n {
        } else if fields_map_of(s).dom().contains(n) {
            let i = choose|i: int| 0 <= i < s.skip(1).len() && s.skip(1)[i].name == n;
            assert(s[i + 1].name == n);
        } else if exists|i: int| 0 <= i < s.len() && s[i].name == n {
            let i = choose|i: int| 0 <= i < s.len() && s[i].name == n;
            assert(s.skip(1)[i - 1].name == n);
        }
    }
}

/// The field map takes, for each present name, the value of the first field
/// that carries it.
pub proof fn lemma_fields_map_first(s: Seq<FieldView>, k: int)
    requires
        0 <= k < s.len(),
        forall|j: int| 0 <= j < k ==> s[j].name != s[k].name,
    ensures
        fields_map_of(s).dom().contains(s[k].name),
        fields_map_of(s)[s[k].name] == s[k].value,
    decreases s.len(),
{
    lemma_fields_map_contains(s, s[k].name);
    if k > 0 {
        assert forall|j: int| 0 <= j < k - 1 implies (#[trigger] s.skip(1)[j]).name != s.skip(
            1,
        )[k - 1].name by {
            assert(s.skip(1)[j] == s[j + 1]);
        }
        lemma_fields_map_first(s.skip(1), k - 1);
    }
}

/// Appending a field leaves the map unchanged when the name is already
/// present, and inserts the new binding otherwise.
pub proof fn lemma_fields_map_push(s: Seq<FieldView>, f: FieldView)
    ensures
        fields_map_of(s.push(f)) == if exists|j: int| 0 <= j < s.len() && s[j].name == f.name {
            fields_map_of(s)
        } else {
            fields_map_of(s).insert(f.name, f.value)
        },
    decreases s.len(),
{
    if s.len() == 0 {
        assert(s.push(f).skip(1) =~= s);
        assert(s.push(f)[0] == f);
        assert(fields_map_of(s.push(f)) =~= fields_map_of(s).insert(f.name, f.value));
    } else {
        assert(s.push(f).skip(1) =~= s.skip(1).push(f));
        lemma_fields_map_push(s.skip(1), f);
        if exists|j: int| 0 <= j < s.len() && s[j].name == f.name {
            let j = choose|j: int| 0 <= j < s.len() && s[j].name == f.name;
            if s[0].name == f.name {
                if exists|j: int| 0 <= j < s.skip(1).len() && s.skip(1)[j].name == f.name {
                    assert(fields_map_of(s.push(f)) =~= fields_map_of(s));
                } else {
                    assert(fields_map_of(s.push(f)) =~= fields_map_of(s));
                }
            } else {
                assert(s.skip(1)[j - 1].name == f.name);
                assert(fields_map_of(s.push(f)) =~= fields_map_of(s));
            }
        } else {
            assert forall|j: int| 0 <= j < s.skip(1).len() implies (#[trigger] s.skip(
                1,
            )[j]).name != f.name by {
                assert(s.skip(1)[j] == s[j + 1]);
            }
            assert(fields_map_of(s.push(f)) =~= fields_map_of(s).insert(f.name, f.value));
        }
    }
}

/// Replacing the first field that carries a name updates exactly that
/// name's binding in the map.
pub proof fn lemma_fields_map_update_first(s: Seq<FieldView>, k: int, f: FieldView)
    requires
        0 <= k < s.len(),
        f.name == s[k].name,
        forall|j: int| 0 <= j < k ==> s[j].name != s[k].name,
    ensures
        fields_map_of(s.update(k, f)) == fields_map_of(s).insert(f.name, f.value),
    decreases s.len(),
{
    if k == 0 {
        assert(s.update(0, f).skip(1) =~= s.skip(1));
        assert(fields_map_of(s.update(0, f)) =~= fields_map_of(s).insert(f.name, f.value));
    } else {
        assert(s.update(k, f).skip(1) =~= s.skip(1).update(k - 1, f));
        assert forall|j: int| 0 <= j < k - 1 implies (#[trigger] s.skip(1)[j]).name != s.skip(
            1,
        )[k - 1].name by {
            assert(s.skip(1)[j] == s[j + 1]);
        }
        assert(s.skip(1)[k - 1] == s[k]);
        lemma_fields_map_update_first(s.skip(1), k - 1, f);
        assert(fields_map_of(s.update(k, f)) =~= fields_map_of(s).insert(f.name, f.value));
    }
}

/// String comparison by contents.
pub fn str_eq(a: &str, b: &str) -> (r: bool)
    ensures
        r == (a@ == b@),
{
    let x: String = a.to_owned();
    let y: String = b.to_owned();
    x == y
}

impl Item {
    /// An item with the given identifier and no fields.
    pub fn new(id: u64) -> (r: Item)
        ensures
            r@.id == id,
            r@.fields == Map::<Seq<char>, FieldValueView>::empty(),
    {
        let r = Item { id, fields: Vec::new() };
        proof {
            assert(field_views(r.fields@) =~= Seq::<FieldView>::empty());
        }
        r
    }

    /// The value of the named field, if the item carries it.
    pub fn get_field(&self, name: &str) -> (r: Option<&FieldValue>)
        ensures
            match r {
                Some(v) => self@.fields.dom().contains(name@) && v@ == self@.fields[name@],
                None => !self@.fields.dom().contains(name@),
            },
    {
        let ghost views = field_views(self.fields@);
        let n = self.fields.len();
        let mut i: usize = 0;
        while i < n
            invariant
                n == self.fields.len(),
                0 <= i <= n,
                views == field_views(self.fields@),
                forall|j: int| 0 <= j < i ==> views[j].name != name@,
            decreases n - i,
        {
            if str_eq(self.fields[i].name.as_str(), name) {
                proof {
                    lemma_fields_map_first(views, i as int);
                }
                return Some(&self.fields[i].value);
            }
            i = i + 1;
        }
        proof {
            lemma_fields_map_contains(views, name@);
        }
        None
    }

    /// Set the named field to the given value, replacing the first
    /// occurrence of the name or appending a new field.
    pub fn set_field(&mut self, name: &str, value: FieldValue)
        ensures
            final(self)@.id == old(self)@.id,
            final(self)@.fields == old(self)@.fields.insert(name@, value@),
    {
        let ghost views = field_views(self.fields@);
        let n = self.fields.len();
        let mut i: usize = 0;
        while i < n
            invariant
                n == self.fields.len(),
                0 <= i <= n,
                *self == *old(self),
                views == field_views(self.fields@),
                forall|j: int| 0 <= j < i ==> views[j].name != name@,
            decreases n - i,
        {
            if str_eq(self.fields[i].name.as_str(), name) {
                let ghost value_view = value@;
                let elem = &mut self.fields[i];
                elem.value = value;
                proof {
                    let f = FieldView { name: name@, value: value_view };
                    assert(field_views(self.fields@) =~= views.update(i as int, f));
                    lemma_fields_map_update_first(views, i as int, f);
                }
                return ;
            }
            i = i + 1;
        }
        let ghost value_view = value@;
        self.fields.push(Field { name: name.to_owned(), value });
        proof {
            let f = FieldView { name: name@, value: value_view };
            assert(field_views(self.fields@) =~= views.push(f));
            lemma_fields_map_push(views, f);
        }
    }
}

impl Clone for Item {
    fn clone(&self) -> (res: Self)
        ensures
            res@ == self@,
    {
        let n = self.fields.len();
        let mut fields: Vec<Field> = Vec::new();
        let mut i: usize = 0;
        while i < n
            invariant
                n == self.fields.len(),
                0 <= i <= n,
                fields@.len() == i,
                forall|j: int| 0 <= j < i ==> (#[trigger] fields@[j])@ == self.fields@[j]@,
            decreases n - i,
        {
            fields.push(self.fields[i].clone());
            i = i + 1;
        }
        proof {
            assert(field_views(fields@) =~= field_views(self.fields@));
        }
        Item { id: self.id, fields }
    }
}

/// An ordered page of items plus the total count of matching records,
/// independent of pagination.
#[derive(Debug, PartialEq)]
pub struct ListResult {
    pub items: Vec<Item>,
    pub total_count: u64,
}

/// Specification view of a `ListResult`.
#[verifier::ext_equal]
pub struct ListResultView {
    pub items: Seq<ItemView>,
    pub total_count: u64,
}

/// The sequence of item views held by a vector of items.
pub open spec fn item_views(s: Seq<Item>) -> Seq<ItemView> {
    s.map_values(|it: Item| it@)
}

impl View for ListResult {
    type V = ListResultView;

    open spec fn view(&self) -> ListResultView {
        ListResultView { items: item_views(self.items@), total_count: self.total_count }
    }
}

/// Decision of a pre-edit hook: exactly one of allow unchanged, allow with a
/// modified item, or deny with a reason.
#[derive(Debug, PartialEq)]
pub enum ProcessResult {
    AllowUnchanged,
    AllowModified(Item),
    Deny(String),
}

/// Specification view of a `ProcessResult`.
pub enum ProcessResultView {
    AllowUnchanged,
    AllowModified(ItemView),
    Deny(Seq<char>),
}

impl View for ProcessResult {
    type V = ProcessResultView;

    open spec fn view(&self) -> ProcessResultView {
        match self {
            ProcessResult::AllowUnchanged => ProcessResultView::AllowUnchanged,
            ProcessResult::AllowModified(it) => ProcessResultView::AllowModified(it@),
            ProcessResult::Deny(reason) => ProcessResultView::Deny(reason@),
        }
    }
}

impl ProcessResultView {
    /// The denial reason a decision carries, if it is a denial.
    pub open spec fn deny_reason(self) -> Option<Seq<char>> {
        match self {
            ProcessResultView::Deny(reason) => Some(reason),
            _ => None,
        }
    }
}

/// The view of an optional item.
pub open spec fn opt_item_view(o: Option<Item>) -> Option<ItemView> {
    match o {
        Some(it) => Some(it@),
        None => None,
    }
}

} // verus!
