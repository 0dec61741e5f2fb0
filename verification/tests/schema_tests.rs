use rage_pool::entries::insert_entry;
use rage_pool::json::JsonValue;
use rage_pool::schema::{BuiltinCheck, ComplexType, RecursiveTypeSystem, TypeDescriptor};

fn s(t: &str) -> String {
    t.to_string()
}

fn string_type() -> ComplexType<BuiltinCheck> {
    ComplexType::new(s("string"), vec![BuiltinCheck::IsString, BuiltinCheck::NonEmptyString])
}

fn obj(entries: Vec<(&str, JsonValue)>) -> JsonValue {
    JsonValue::Object(entries.into_iter().map(|(k, v)| (s(k), v)).collect())
}

#[test]
fn non_object_is_rejected() {
    let bare: ComplexType<BuiltinCheck> = ComplexType::new(s("bare"), vec![]);
    assert!(!bare.validate(&JsonValue::Null));
    assert!(!bare.validate(&JsonValue::Str(s("x"))));
    assert!(!bare.validate(&JsonValue::Array(vec![])));
    assert!(bare.validate(&obj(vec![])));
    assert!(bare.validate(&obj(vec![("anything", JsonValue::Bool(true))])));
}

#[test]
fn string_type_rejects_every_document() {
    // Its checks want a string, but any accepted document must be an object.
    let t = string_type();
    assert!(!t.validate(&JsonValue::Str(s("hello"))));
    assert!(!t.validate(&JsonValue::Str(s(""))));
    assert!(!t.validate(&obj(vec![])));
}

#[test]
fn fields_must_be_present_and_valid() {
    let inner: ComplexType<BuiltinCheck> = ComplexType::new(s("inner"), vec![]);
    let mut outer: ComplexType<BuiltinCheck> = ComplexType::new(s("outer"), vec![]);
    assert!(outer.insert_field(s("child"), inner).is_none());
    assert!(!outer.validate(&obj(vec![])));
    assert!(!outer.validate(&obj(vec![("child", JsonValue::Number(s("3")))])));
    assert!(outer.validate(&obj(vec![("child", obj(vec![]))])));
    assert!(outer.validate(&obj(vec![("other", JsonValue::Null), ("child", obj(vec![]))])));
}

#[test]
fn field_lookup_uses_first_entry() {
    let inner: ComplexType<BuiltinCheck> = ComplexType::new(s("inner"), vec![]);
    let mut outer: ComplexType<BuiltinCheck> = ComplexType::new(s("outer"), vec![]);
    outer.insert_field(s("child"), inner);
    assert!(outer.validate(&obj(vec![("child", obj(vec![])), ("child", JsonValue::Null)])));
    assert!(!outer.validate(&obj(vec![("child", JsonValue::Null), ("child", obj(vec![]))])));
}

#[test]
fn nested_field_failure_propagates() {
    let leaf: ComplexType<BuiltinCheck> = ComplexType::new(s("leaf"), vec![]);
    let mut mid: ComplexType<BuiltinCheck> = ComplexType::new(s("mid"), vec![]);
    mid.insert_field(s("leaf"), leaf);
    let mut top: ComplexType<BuiltinCheck> = ComplexType::new(s("top"), vec![]);
    top.insert_field(s("mid"), mid);
    assert!(top.validate(&obj(vec![("mid", obj(vec![("leaf", obj(vec![]))]))])));
    assert!(!top.validate(&obj(vec![("mid", obj(vec![("leaf", JsonValue::Bool(false))]))])));
    assert!(!top.validate(&obj(vec![("mid", obj(vec![]))])));
}

#[test]
fn json_get_only_on_objects() {
    let doc = obj(vec![("a", JsonValue::Bool(true)), ("a", JsonValue::Null)]);
    assert!(matches!(doc.get(&s("a")), Some(JsonValue::Bool(true))));
    assert!(doc.get(&s("b")).is_none());
    assert!(JsonValue::Array(vec![]).get(&s("a")).is_none());
    assert!(doc.is_object());
    assert!(!doc.is_string());
}

fn expect_str(v: &JsonValue) -> &str {
    match v {
        JsonValue::Str(t) => t.as_str(),
        _ => panic!("not a string"),
    }
}

#[test]
fn serialize_describes_type_name_and_fields() {
    let mut outer: ComplexType<BuiltinCheck> = ComplexType::new(s("outer"), vec![]);
    outer.insert_field(s("child"), string_type());
    let d = outer.serialize();
    let entries = match &d {
        JsonValue::Object(e) => e,
        _ => panic!("not an object"),
    };
    assert_eq!(entries.len(), 3);
    assert_eq!(entries[0].0, "type");
    assert_eq!(expect_str(&entries[0].1), "complex");
    assert_eq!(entries[1].0, "name");
    assert_eq!(expect_str(&entries[1].1), "outer");
    assert_eq!(entries[2].0, "fields");
    let fields = match &entries[2].1 {
        JsonValue::Object(f) => f,
        _ => panic!("fields not an object"),
    };
    assert_eq!(fields.len(), 1);
    assert_eq!(fields[0].0, "child");
    let child_name = fields[0].1.get(&s("name")).unwrap();
    assert_eq!(expect_str(child_name), "string");
}

#[test]
fn insert_entry_replaces_in_place() {
    let mut e: Vec<(String, u32)> = Vec::new();
    assert_eq!(insert_entry(&mut e, s("a"), 1), None);
    assert_eq!(insert_entry(&mut e, s("b"), 2), None);
    assert_eq!(insert_entry(&mut e, s("a"), 3), Some(1));
    assert_eq!(e, vec![(s("a"), 3), (s("b"), 2)]);
}

#[test]
fn registry_register_replaces_by_name() {
    let mut sys: RecursiveTypeSystem<BuiltinCheck> = RecursiveTypeSystem::new();
    assert!(sys.register(s("string"), string_type()).is_none());
    let old = sys.register(s("string"), ComplexType::new(s("other"), vec![]));
    assert_eq!(old.map(|t| t.name), Some(s("string")));
    assert_eq!(sys.types.len(), 1);
    assert_eq!(sys.types[0].1.name, "other");
}
