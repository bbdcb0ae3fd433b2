use partial_record::names::to_pascal_case;
use partial_record::partial::{MissingFieldsError, PartialRecord, Record};
use partial_record::schema::{Field, FieldSchema, RecordSchema, SchemaError};

#[derive(Clone, Debug, PartialEq, Eq)]
enum Value {
    Int(i64),
    Text(String),
    Bool(bool),
}

fn field(name: &str, type_ref: &str) -> FieldSchema {
    FieldSchema { name: name.to_string(), type_ref: type_ref.to_string() }
}

fn user_schema() -> RecordSchema {
    RecordSchema::new(
        "User".to_string(),
        vec![field("id", "u64"), field("name", "String"), field("active", "bool")],
    )
    .unwrap()
}

fn xy_schema() -> RecordSchema {
    RecordSchema::new("Point".to_string(), vec![field("x", "i64"), field("y", "i64")]).unwrap()
}

fn user(id: i64, name: &str, active: bool) -> Record<Value> {
    Record { values: vec![Value::Int(id), Value::Text(name.to_string()), Value::Bool(active)] }
}

#[test]
fn pascal_case_joins_capitalised_segments() {
    assert_eq!(to_pascal_case("first_name"), "FirstName");
    assert_eq!(to_pascal_case("id"), "Id");
    assert_eq!(to_pascal_case("created_at_utc"), "CreatedAtUtc");
}

#[test]
fn pascal_case_drops_empty_segments() {
    assert_eq!(to_pascal_case("_a__b_"), "AB");
    assert_eq!(to_pascal_case(""), "");
    assert_eq!(to_pascal_case("___"), "");
}

#[test]
fn pascal_case_keeps_rest_of_segment() {
    assert_eq!(to_pascal_case("hTTP_code"), "HTTPCode");
    assert_eq!(to_pascal_case("v2_x"), "V2X");
}

#[test]
fn pascal_case_uppercases_beyond_ascii() {
    assert_eq!(to_pascal_case("élan_vital"), "ÉlanVital");
    assert_eq!(to_pascal_case("straße_ß"), "StraßeSS");
}

#[test]
fn schema_accepts_unique_names() {
    let s = user_schema();
    assert_eq!(s.fields.len(), 3);
    assert_eq!(s.name, "User");
}

#[test]
fn schema_rejects_empty_name() {
    let r = RecordSchema::new("R".to_string(), vec![field("a", "u8"), field("", "u8")]);
    assert_eq!(r.unwrap_err(), SchemaError::EmptyFieldName { index: 1 });
}

#[test]
fn schema_rejects_duplicate_name() {
    let r = RecordSchema::new(
        "R".to_string(),
        vec![field("a", "u8"), field("b", "u8"), field("a", "u16")],
    );
    assert_eq!(r.unwrap_err(), SchemaError::DuplicateFieldName { first: 0, second: 2 });
}

#[test]
fn generated_type_names() {
    let s = user_schema();
    assert_eq!(s.partial_type_name(), "PartialUser");
    assert_eq!(s.field_enum_name(), "UserField");
    assert_eq!(s.missing_error_name(), "MissingUserFieldsErr");
}

#[test]
fn variant_names_follow_schema_order() {
    let s = RecordSchema::new(
        "R".to_string(),
        vec![field("user_id", "u64"), field("display_name", "String"), field("x", "i8")],
    )
    .unwrap();
    assert_eq!(s.variant_names(), vec!["UserId", "DisplayName", "X"]);
    assert_eq!(Field { index: 1 }.variant_name(&s), "DisplayName");
    let order = s.fields_in_order();
    assert_eq!(order, vec![Field { index: 0 }, Field { index: 1 }, Field { index: 2 }]);
    assert!(order[0] < order[1] && order[1] < order[2]);
}

#[test]
fn name_inverse_for_every_field() {
    let s = user_schema();
    for f in s.fields_in_order() {
        let name = f.to_name(&s);
        assert_eq!(Field::from_name(&s, &name), Ok(f));
    }
    assert_eq!(Field { index: 2 }.to_name(&s), "active");
}

#[test]
fn unknown_name_is_rejected() {
    let s = user_schema();
    let e = Field::from_name(&s, "__not_a_field__").unwrap_err();
    assert_eq!(e.given, "__not_a_field__");
    assert_eq!(e.message(), "Unknown field: __not_a_field__");
    // the variant name is not the field's name
    assert!(Field::from_name(&s, "Active").is_err());
}

#[test]
fn round_trip_through_partial() {
    let r = user(7, "ann", true);
    let p = PartialRecord::from_full(r.clone());
    assert_eq!(
        p.values,
        vec![Some(Value::Int(7)), Some(Value::Text("ann".to_string())), Some(Value::Bool(true))]
    );
    assert_eq!(p.try_into_full(), Ok(r));
}

#[test]
fn new_partial_is_all_absent() {
    let s = user_schema();
    let p: PartialRecord<Value> = PartialRecord::new(&s);
    assert_eq!(p.values, vec![None, None, None]);
}

#[test]
fn complete_iff_all_present() {
    let s = user_schema();
    let full = PartialRecord::from_full(user(1, "a", false));
    assert_eq!(full.check_complete(), Ok(()));
    let mut p: PartialRecord<Value> = PartialRecord::new(&s);
    assert!(p.check_complete().is_err());
    p.set(Field { index: 0 }, Some(Value::Int(1)));
    p.set(Field { index: 1 }, Some(Value::Text("a".to_string())));
    assert!(p.check_complete().is_err());
    p.set(Field { index: 2 }, Some(Value::Bool(false)));
    assert_eq!(p.check_complete(), Ok(()));
    assert_eq!(p.get(Field { index: 2 }), &Some(Value::Bool(false)));
    p.set(Field { index: 0 }, None);
    assert_eq!(
        p.check_complete(),
        Err(MissingFieldsError { missing: vec![Field { index: 0 }] })
    );
}

#[test]
fn merge_with_empty_is_identity() {
    let s = user_schema();
    let mut p: PartialRecord<Value> = PartialRecord::new(&s);
    p.set(Field { index: 1 }, Some(Value::Text("b".to_string())));
    for prefer in [true, false] {
        let empty: PartialRecord<Value> = PartialRecord::new(&s);
        assert_eq!(p.clone().merge(empty, prefer), p);
    }
}

#[test]
fn merge_clash_follows_preference() {
    let s = RecordSchema::new("X".to_string(), vec![field("x", "i64")]).unwrap();
    let mine = PartialRecord { values: vec![Some(1i64)] };
    let other = PartialRecord { values: vec![Some(2i64)] };
    let x = Field::from_name(&s, "x").unwrap();
    assert_eq!(mine.clone().merge(other.clone(), true).get(x), &Some(2));
    assert_eq!(mine.merge(other, false).get(x), &Some(1));
}

#[test]
fn merge_fills_absent_fields_from_either_side() {
    let mine = PartialRecord { values: vec![Some(1i64), None, None, Some(4)] };
    let other = PartialRecord { values: vec![None, Some(20i64), None, Some(40)] };
    let r = mine.merge(other, false);
    assert_eq!(r.values, vec![Some(1), Some(20), None, Some(4)]);
}

#[test]
fn apply_overwrites_present_and_keeps_absent() {
    let s = RecordSchema::new("R".to_string(), vec![field("id", "i64"), field("name", "String")])
        .unwrap();
    let base = Record { values: vec![Value::Int(1), Value::Text("a".to_string())] };
    let mut partial: PartialRecord<Value> = PartialRecord::new(&s);
    partial.set(Field::from_name(&s, "name").unwrap(), Some(Value::Text("b".to_string())));
    let r = partial.apply(base);
    assert_eq!(r.values, vec![Value::Int(1), Value::Text("b".to_string())]);
    assert_eq!(r.get(Field { index: 1 }), &Value::Text("b".to_string()));
}

#[test]
fn missing_report_is_in_schema_order() {
    let s = user_schema();
    let mut p: PartialRecord<Value> = PartialRecord::new(&s);
    p.set(Field::from_name(&s, "id").unwrap(), Some(Value::Int(1)));
    let e = p.check_complete().unwrap_err();
    let name = Field::from_name(&s, "name").unwrap();
    let active = Field::from_name(&s, "active").unwrap();
    assert_eq!(e.missing, vec![name, active]);
    assert_eq!(e.message(&s), "Missing fields: name, active");
}

#[test]
fn try_into_full_reports_every_missing_field() {
    let s = user_schema();
    let p: PartialRecord<Value> = PartialRecord::new(&s);
    let e = p.try_into_full().unwrap_err();
    assert_eq!(e.missing, vec![Field { index: 0 }, Field { index: 1 }, Field { index: 2 }]);
    assert_eq!(e.message(&s), "Missing fields: id, name, active");
}

#[test]
fn try_into_full_after_filling() {
    let s = xy_schema();
    let mut p: PartialRecord<i64> = PartialRecord::new(&s);
    p.set(Field { index: 1 }, Some(5));
    assert_eq!(
        p.clone().try_into_full(),
        Err(MissingFieldsError { missing: vec![Field { index: 0 }] })
    );
    p.set(Field { index: 0 }, Some(-3));
    assert_eq!(p.try_into_full(), Ok(Record { values: vec![-3, 5] }));
}

#[test]
fn generate_names_every_artifact() {
    let s = RecordSchema::new(
        "Config".to_string(),
        vec![field("max_retries", "u32"), field("host", "String")],
    )
    .unwrap();
    let a = s.generate();
    assert_eq!(a.partial_type_name, "PartialConfig");
    assert_eq!(a.field_enum_name, "ConfigField");
    assert_eq!(a.missing_error_name, "MissingConfigFieldsErr");
    assert_eq!(a.variant_names, vec!["MaxRetries", "Host"]);
    assert_eq!(a.field_names, vec!["max_retries", "host"]);
}
