//! A recursive type system over JSON documents: complex types with named
//! fields (each itself a complex type) and extra checks on the whole
//! document; validation of documents against a type, and a JSON
//! self-description of each type.

use vstd::prelude::*;
use crate::json::{JsonValue, JsonView, get_spec, entries_view, lemma_entries_view_len, keys_unique};
use crate::entries::{
    insert_entry, insert_spec, entry_value, names_unique, first_index, lemma_first_index,
    lemma_insert_keeps_names_unique,
};

verus! {

/// A check on a whole JSON document, supplied by the user of a type.
pub trait ValuePredicate {
    /// Whether `data` passes the check.
    spec fn holds(&self, data: JsonView) -> bool;

    /// Runs the check.
    fn check(&self, data: &JsonValue) -> (b: bool)
        ensures
            b == self.holds(data@),
    ;
}

/// The checks that the demo program attaches to its `string` type.
pub enum BuiltinCheck {
    /// `v.is_string()`.
    IsString,
    /// `v.as_str().map_or(false, |s| s.len() > 0)`: a non-empty string.
    NonEmptyString,
}

impl ValuePredicate for BuiltinCheck {
    open spec fn holds(&self, data: JsonView) -> bool {
        match self {
            BuiltinCheck::IsString => data is Str,
            BuiltinCheck::NonEmptyString => match data {
                JsonView::Str(s) => s.len() > 0,
                _ => false,
            },
        }
    }

    fn check(&self, data: &JsonValue) -> (b: bool) {
        match self {
            BuiltinCheck::IsString => data.is_string(),
            BuiltinCheck::NonEmptyString => match data {
                JsonValue::Str(s) => !s.as_str().is_empty(),
                _ => false,
            },
        }
    }
}

/// `IsString` holds of exactly the strings, and `NonEmptyString` of exactly
/// the strings of at least one character.
pub proof fn lemma_builtin_checks(data: JsonView)
    ensures
        BuiltinCheck::IsString.holds(data) <==> data is Str,
        BuiltinCheck::NonEmptyString.holds(data) <==> (data is Str && data->Str_0.len() > 0),
        BuiltinCheck::NonEmptyString.holds(data) ==> BuiltinCheck::IsString.holds(data),
{
}

/// The behaviour every type of the system offers: validating a document,
/// and describing itself as a JSON document.
pub trait TypeDescriptor {
    /// Whether the type accepts `data`.
    spec fn accepts(&self, data: JsonView) -> bool;

    /// The type's description of itself.
    spec fn description(&self) -> JsonView;

    fn validate(&self, data: &JsonValue) -> (b: bool)
        ensures
            b == self.accepts(data@),
    ;

    fn serialize(&self) -> (d: JsonValue)
        ensures
            d@ == self.description(),
    ;
}

/// A named type whose documents are JSON objects carrying a value of each
/// field's type under the field's name, and passing every extra check.
pub struct ComplexType<V> {
    pub name: String,
    pub fields: Vec<(String, ComplexType<V>)>,
    pub validators: Vec<V>,
}

/// Whether `t` accepts `data`: `data` is an object, it holds every field
/// of `t` with a value that the field's type accepts, and every check of
/// `t` holds of it.
pub open spec fn type_accepts<V: ValuePredicate>(t: ComplexType<V>, data: JsonView) -> bool
    decreases t, 0int,
{
    &&& data is Object
    &&& fields_accept(t.fields@, data, t.fields@.len() as int)
    &&& checks_hold(t.validators@, data)
}

/// Whether the first `n` of `fields` are present in `data` with accepted
/// values.
pub open spec fn fields_accept<V: ValuePredicate>(
    fields: Seq<(String, ComplexType<V>)>,
    data: JsonView,
    n: int,
) -> bool
    decreases fields, n,
{
    if n <= 0 || n > fields.len() {
        true
    } else {
        &&& fields_accept(fields, data, n - 1)
        &&& match get_spec(data, fields[n - 1].0@) {
            Some(v) => type_accepts(fields[n - 1].1, v),
            None => false,
        }
    }
}

/// Whether every check holds of `data`.
pub open spec fn checks_hold<V: ValuePredicate>(checks: Seq<V>, data: JsonView) -> bool {
    forall|i: int| 0 <= i < checks.len() ==> #[trigger] checks[i].holds(data)
}

/// The description of `t`: an object with `"type": "complex"`, the type's
/// name under `"name"`, and under `"fields"` an object that maps each
/// field's name to the field type's description.
pub open spec fn type_description<V>(t: ComplexType<V>) -> JsonView
    decreases t, 0int,
{
    JsonView::Object(
        seq![
            ("type"@, JsonView::Str("complex"@)),
            ("name"@, JsonView::Str(t.name@)),
            ("fields"@, JsonView::Object(fields_description(t.fields@, t.fields@.len() as int))),
        ],
    )
}

/// The name/description pairs of the first `n` of `fields`.
pub open spec fn fields_description<V>(fields: Seq<(String, ComplexType<V>)>, n: int) -> Seq<
    (Seq<char>, JsonView),
>
    decreases fields, n,
{
    if n <= 0 || n > fields.len() {
        Seq::empty()
    } else {
        fields_description(fields, n - 1).push((fields[n - 1].0@, type_description(fields[n - 1].1)))
    }
}

/// A well-formed type: field names are unique at every level, as the keys
/// of a map are.
pub open spec fn type_wf<V>(t: ComplexType<V>) -> bool
    decreases t, 0int,
{
    &&& names_unique(t.fields@)
    &&& fields_wf(t.fields@, t.fields@.len() as int)
}

/// Whether the types of the first `n` of `fields` are well-formed.
pub open spec fn fields_wf<V>(fields: Seq<(String, ComplexType<V>)>, n: int) -> bool
    decreases fields, n,
{
    if n <= 0 || n > fields.len() {
        true
    } else {
        fields_wf(fields, n - 1) && type_wf(fields[n - 1].1)
    }
}

/// `fields_wf` holds exactly when each of the first `n` field types is
/// well-formed.
pub proof fn lemma_fields_wf<V>(fields: Seq<(String, ComplexType<V>)>, n: int)
    requires
        0 <= n <= fields.len(),
    ensures
        fields_wf(fields, n) <==> forall|i: int| 0 <= i < n ==> #[trigger] type_wf(fields[i].1),
    decreases n,
{
    if n > 0 {
        lemma_fields_wf(fields, n - 1);
        if forall|i: int| 0 <= i < n ==> #[trigger] type_wf(fields[i].1) {
            assert(type_wf(fields[n - 1].1));
        }
    }
}

/// A registry in which names are unique and every type is well-formed.
pub open spec fn registry_wf<V>(types: Seq<(String, ComplexType<V>)>) -> bool {
    &&& names_unique(types)
    &&& forall|i: int| 0 <= i < types.len() ==> #[trigger] type_wf(types[i].1)
}

/// Storing a well-formed value under a name keeps every stored value
/// well-formed.
proof fn lemma_insert_keeps_types_wf<V>(
    entries: Seq<(String, ComplexType<V>)>,
    key: String,
    value: ComplexType<V>,
)
    requires
        forall|i: int| 0 <= i < entries.len() ==> #[trigger] type_wf(entries[i].1),
        type_wf(value),
    ensures
        forall|i: int|
            0 <= i < insert_spec(entries, key, value).len() ==> #[trigger] type_wf(
                insert_spec(entries, key, value)[i].1,
            ),
{
    let after = insert_spec(entries, key, value);
    lemma_first_index(entries, key@);
    assert forall|i: int| 0 <= i < after.len() implies #[trigger] type_wf(after[i].1) by {
        match first_index(entries, key@) {
            Some(j) => {
                if i != j {
                    assert(after[i] == entries[i]);
                }
            },
            None => {
                if i < entries.len() {
                    assert(after[i] == entries[i]);
                }
            },
        }
    }
}

impl<V: ValuePredicate> ComplexType<V> {
    /// A type with the given name and checks and no fields yet.
    pub fn new(name: String, validators: Vec<V>) -> (t: Self)
        ensures
            t.name == name,
            t.fields@.len() == 0,
            t.validators == validators,
            type_wf(t),
    {
        ComplexType { name, fields: Vec::new(), validators }
    }

    /// Gives the type a field `name` of type `field`, replacing the type of
    /// a field of that name if there is one (which is returned).
    pub fn insert_field(&mut self, name: String, field: ComplexType<V>) -> (previous: Option<
        ComplexType<V>,
    >)
        ensures
            final(self).name == old(self).name,
            final(self).validators == old(self).validators,
            final(self).fields@ == insert_spec(old(self).fields@, name, field),
            previous == entry_value(old(self).fields@, name@),
            type_wf(*old(self)) && type_wf(field) ==> type_wf(*final(self)),
    {
        proof {
            if type_wf(*self) && type_wf(field) {
                lemma_fields_wf(self.fields@, self.fields@.len() as int);
                lemma_insert_keeps_types_wf(self.fields@, name, field);
                lemma_insert_keeps_names_unique(self.fields@, name, field);
                lemma_fields_wf(
                    insert_spec(self.fields@, name, field),
                    insert_spec(self.fields@, name, field).len() as int,
                );
            }
        }
        insert_entry(&mut self.fields, name, field)
    }

    fn check_document(&self, data: &JsonValue) -> (b: bool)
        ensures
            b == type_accepts(*self, data@),
            b <==> {
                &&& data@ is Object
                &&& forall|i: int|
                    0 <= i < self.fields@.len() ==> {
                        &&& get_spec(data@, #[trigger] self.fields@[i].0@) is Some
                        &&& type_accepts(
                            self.fields@[i].1,
                            get_spec(data@, self.fields@[i].0@)->0,
                        )
                    }
                &&& forall|k: int|
                    0 <= k < self.validators@.len() ==> #[trigger] self.validators@[k].holds(
                        data@,
                    )
            },
        decreases self,
    {
        proof {
            lemma_accepts_iff(*self, data@);
        }
        if !data.is_object() {
            return false;
        }
        let mut i: usize = 0;
        while i < self.fields.len()
            invariant
                0 <= i <= self.fields.len(),
                data@ is Object,
                fields_accept(self.fields@, data@, i as int),
            decreases self.fields.len() - i,
        {
            let name = &self.fields[i].0;
            let field_type = &self.fields[i].1;
            proof {
                assert(decreases_to!(*self => self.fields@[i as int].1));
            }
            match data.get(name) {
                Some(value) => {
                    if !field_type.check_document(value) {
                        assert(!fields_accept(self.fields@, data@, i + 1));
                        proof {
                            lemma_fields_accept_prefix(self.fields@, data@, i + 1, self.fields@.len() as int);
                        }
                        return false;
                    }
                },
                None => {
                    assert(!fields_accept(self.fields@, data@, i + 1));
                    proof {
                        lemma_fields_accept_prefix(self.fields@, data@, i + 1, self.fields@.len() as int);
                    }
                    return false;
                },
            }
            i = i + 1;
        }
        let mut k: usize = 0;
        while k < self.validators.len()
            invariant
                0 <= k <= self.validators.len(),
                forall|j: int| 0 <= j < k ==> #[trigger] self.validators@[j].holds(data@),
            decreases self.validators.len() - k,
        {
            if !self.validators[k].check(data) {
                return false;
            }
            k = k + 1;
        }
        true
    }

    fn describe(&self) -> (d: JsonValue)
        ensures
            d@ == type_description(*self),
        decreases self,
    {
        let mut described: Vec<(String, JsonValue)> = Vec::new();
        let mut i: usize = 0;
        while i < self.fields.len()
            invariant
                0 <= i <= self.fields.len(),
                described@.len() == i,
                entries_view(described@, i as int) == fields_description(self.fields@, i as int),
            decreases self.fields.len() - i,
        {
            proof {
                assert(decreases_to!(*self => self.fields@[i as int].1));
            }
            let entry = (self.fields[i].0.clone(), self.fields[i].1.describe());
            let ghost before = described@;
            described.push(entry);
            proof {
                assert(described@.subrange(0, i as int) =~= before);
                lemma_entries_view_prefix(described@, i as int);
            }
            i = i + 1;
        }
        let mut top: Vec<(String, JsonValue)> = Vec::new();
        top.push((String::from_str("type"), JsonValue::Str(String::from_str("complex"))));
        top.push((String::from_str("name"), JsonValue::Str(self.name.clone())));
        top.push((String::from_str("fields"), JsonValue::Object(described)));
        proof {
            lemma_entries_view_len(top@, 3);
            assert(entries_view(top@, 3) =~= type_description(*self)->Object_0);
        }
        JsonValue::Object(top)
    }
}

/// The view of a prefix depends only on that prefix.
proof fn lemma_entries_view_prefix(entries: Seq<(String, JsonValue)>, n: int)
    requires
        0 <= n < entries.len(),
    ensures
        entries_view(entries, n) == entries_view(entries.subrange(0, n), n),
    decreases n,
{
    if n > 0 {
        lemma_entries_view_prefix(entries, n - 1);
        lemma_entries_view_prefix(entries.subrange(0, n), n - 1);
        assert(entries.subrange(0, n).subrange(0, n - 1) =~= entries.subrange(0, n - 1));
    }
}

/// A field that fails makes every longer prefix fail too.
proof fn lemma_fields_accept_prefix<V: ValuePredicate>(
    fields: Seq<(String, ComplexType<V>)>,
    data: JsonView,
    m: int,
    n: int,
)
    requires
        0 <= m <= n <= fields.len(),
        !fields_accept(fields, data, m),
    ensures
        !fields_accept(fields, data, n),
    decreases n - m,
{
    if m < n {
        lemma_fields_accept_prefix(fields, data, m, n - 1);
    }
}

impl<V: ValuePredicate> TypeDescriptor for ComplexType<V> {
    open spec fn accepts(&self, data: JsonView) -> bool {
        type_accepts(*self, data)
    }

    open spec fn description(&self) -> JsonView {
        type_description(*self)
    }

    /// Whether `data` is an object holding every field with a value its
    /// type accepts, and passing every check.
    fn validate(&self, data: &JsonValue) -> (b: bool)
        ensures
            b <==> {
                &&& data@ is Object
                &&& forall|i: int|
                    0 <= i < self.fields@.len() ==> {
                        &&& get_spec(data@, #[trigger] self.fields@[i].0@) is Some
                        &&& type_accepts(
                            self.fields@[i].1,
                            get_spec(data@, self.fields@[i].0@)->0,
                        )
                    }
                &&& forall|k: int|
                    0 <= k < self.validators@.len() ==> #[trigger] self.validators@[k].holds(
                        data@,
                    )
            },
    {
        self.check_document(data)
    }

    /// The JSON description of this type.
    fn serialize(&self) -> (d: JsonValue) {
        self.describe()
    }
}

/// The description's entries, one per field, in the fields' order.
proof fn lemma_fields_description<V>(fields: Seq<(String, ComplexType<V>)>, n: int)
    requires
        0 <= n <= fields.len(),
    ensures
        fields_description(fields, n).len() == n,
        forall|i: int|
            0 <= i < n ==> #[trigger] fields_description(fields, n)[i] == (
                fields[i].0@,
                type_description(fields[i].1),
            ),
    decreases n,
{
    if n > 0 {
        lemma_fields_description(fields, n - 1);
    }
}

/// The description of a type whose field names are unique is a JSON object
/// with unique keys, and so is its `"fields"` object: the description is a
/// faithful map.
pub proof fn lemma_description_keys_unique<V>(t: ComplexType<V>)
    requires
        names_unique(t.fields@),
    ensures
        type_description(t) is Object,
        keys_unique(type_description(t)->Object_0),
        type_description(t)->Object_0.len() == 3,
        type_description(t)->Object_0[2].1 is Object,
        keys_unique(type_description(t)->Object_0[2].1->Object_0),
        type_description(t)->Object_0[2].1->Object_0.len() == t.fields@.len(),
{
    reveal_strlit("type");
    reveal_strlit("name");
    reveal_strlit("fields");
    let fs = fields_description(t.fields@, t.fields@.len() as int);
    lemma_fields_description(t.fields@, t.fields@.len() as int);
    assert forall|i: int, j: int|
        #![trigger fs[i], fs[j]]
        0 <= i < j < fs.len() implies fs[i].0 != fs[j].0 by {
        assert(t.fields@[i].0@ != t.fields@[j].0@);
    }
    let top = seq![
        ("type"@, JsonView::Str("complex"@)),
        ("name"@, JsonView::Str(t.name@)),
        ("fields"@, JsonView::Object(fs)),
    ];
    assert("type"@ != "name"@ && "type"@ != "fields"@ && "name"@ != "fields"@) by {
        assert("type"@[0] != "name"@[0]);
        assert("type"@[0] != "fields"@[0]);
        assert("name"@[0] != "fields"@[0]);
    }
    assert(keys_unique(top));
}

/// What validation decides, stated field by field: a type accepts a
/// document exactly when the document is an object, looking up each field's
/// name in it (wherever the key stands among the entries) finds a value
/// that the field's type accepts, and every check of the type holds of the
/// whole document.
pub proof fn lemma_accepts_iff<V: ValuePredicate>(t: ComplexType<V>, data: JsonView)
    ensures
        type_accepts(t, data) <==> {
            &&& data is Object
            &&& forall|i: int|
                0 <= i < t.fields@.len() ==> {
                    &&& get_spec(data, #[trigger] t.fields@[i].0@) is Some
                    &&& type_accepts(t.fields@[i].1, get_spec(data, t.fields@[i].0@)->0)
                }
            &&& forall|k: int|
                0 <= k < t.validators@.len() ==> #[trigger] t.validators@[k].holds(data)
        },
{
    lemma_fields_accept_iff(t.fields@, data, t.fields@.len() as int);
}

/// `fields_accept` over a prefix, field by field.
proof fn lemma_fields_accept_iff<V: ValuePredicate>(
    fields: Seq<(String, ComplexType<V>)>,
    data: JsonView,
    n: int,
)
    requires
        0 <= n <= fields.len(),
    ensures
        fields_accept(fields, data, n) <==> forall|i: int|
            0 <= i < n ==> {
                &&& get_spec(data, #[trigger] fields[i].0@) is Some
                &&& type_accepts(fields[i].1, get_spec(data, fields[i].0@)->0)
            },
    decreases n,
{
    if n > 0 {
        lemma_fields_accept_iff(fields, data, n - 1);
        if forall|i: int|
            0 <= i < n ==> {
                &&& get_spec(data, #[trigger] fields[i].0@) is Some
                &&& type_accepts(fields[i].1, get_spec(data, fields[i].0@)->0)
            } {
            let x = fields[n - 1].0@;
            assert(get_spec(data, x) is Some);
        }
    }
}

/// A type with no fields and no checks accepts exactly the objects.
pub proof fn lemma_bare_type_accepts_objects<V: ValuePredicate>(t: ComplexType<V>, data: JsonView)
    requires
        t.fields@.len() == 0,
        t.validators@.len() == 0,
    ensures
        type_accepts(t, data) <==> data is Object,
{
}

/// A document that a type accepts holds each of the type's fields, with a
/// value that the field's type accepts.
pub proof fn lemma_accepted_has_fields<V: ValuePredicate>(t: ComplexType<V>, data: JsonView, i: int)
    requires
        type_accepts(t, data),
        0 <= i < t.fields@.len(),
    ensures
        get_spec(data, t.fields@[i].0@) is Some,
        type_accepts(t.fields@[i].1, get_spec(data, t.fields@[i].0@)->0),
{
    lemma_fields_accept_each(t.fields@, data, t.fields@.len() as int, i);
}

proof fn lemma_fields_accept_each<V: ValuePredicate>(
    fields: Seq<(String, ComplexType<V>)>,
    data: JsonView,
    n: int,
    i: int,
)
    requires
        0 <= i < n <= fields.len(),
        fields_accept(fields, data, n),
    ensures
        get_spec(data, fields[i].0@) is Some,
        type_accepts(fields[i].1, get_spec(data, fields[i].0@)->0),
    decreases n,
{
    if i < n - 1 {
        lemma_fields_accept_each(fields, data, n - 1, i);
    }
}

/// A registry of named types.
pub struct RecursiveTypeSystem<V> {
    pub types: Vec<(String, ComplexType<V>)>,
}

impl<V: ValuePredicate> RecursiveTypeSystem<V> {
    /// An empty registry.
    pub fn new() -> (s: Self)
        ensures
            s.types@.len() == 0,
            registry_wf(s.types@),
    {
        RecursiveTypeSystem { types: Vec::new() }
    }

    /// Registers `ty` under `name`, replacing (and returning) a type
    /// registered under that name before.
    pub fn register(&mut self, name: String, ty: ComplexType<V>) -> (previous: Option<ComplexType<V>>)
        ensures
            final(self).types@ == insert_spec(old(self).types@, name, ty),
            previous == entry_value(old(self).types@, name@),
            registry_wf(old(self).types@) && type_wf(ty) ==> registry_wf(final(self).types@),
    {
        proof {
            if registry_wf(self.types@) && type_wf(ty) {
                lemma_insert_keeps_types_wf(self.types@, name, ty);
            }
        }
        insert_entry(&mut self.types, name, ty)
    }
}

} // verus!
