use binroots::field::BinrootsField;
use binroots::fileserializer::FileSerializer;
use binroots::memfs::MemFs;
use binroots::value::Value;

fn file_str(fs: &MemFs, path: &str) -> String {
    String::from_utf8(fs.read(path).expect(path).clone()).unwrap()
}

#[test]
fn save_unit_variant() {
    let mut fs = MemFs::new();
    Value::UnitVariant("Bin".to_string())
        .save("test_save_unit_variant", &mut fs)
        .unwrap();
    assert_eq!(file_str(&fs, "test_save_unit_variant"), "Bin");
}

#[test]
fn save_newtype_struct() {
    let mut fs = MemFs::new();
    Value::Text("Jane".to_string())
        .save("test_save_newtype_struct", &mut fs)
        .unwrap();
    assert_eq!(file_str(&fs, "test_save_newtype_struct"), "Jane");
}

#[test]
fn save_newtype_variant() {
    let mut fs = MemFs::new();
    Value::NewtypeVariant("Bin".to_string(), Box::new(Value::Text("Roots".to_string())))
        .save("test_save_newtype_variant", &mut fs)
        .unwrap();
    assert_eq!(file_str(&fs, "test_save_newtype_variant"), "Bin");
    assert_eq!(file_str(&fs, "test_save_newtype_variant.value"), "Roots");
}

#[test]
fn save_tuple_variant() {
    let mut fs = MemFs::new();
    Value::TupleVariant(
        "Germy".to_string(),
        vec![Value::Uint(9), Value::Uint(8), Value::Uint(5)],
    )
    .save("test_save_tuple_variant", &mut fs)
    .unwrap();
    assert_eq!(file_str(&fs, "test_save_tuple_variant"), "Germy");
    assert_eq!(file_str(&fs, "test_save_tuple_variant.value/0"), "9");
    assert_eq!(file_str(&fs, "test_save_tuple_variant.value/1"), "8");
    assert_eq!(file_str(&fs, "test_save_tuple_variant.value/2"), "5");
}

#[test]
fn save_struct_variant() {
    let mut fs = MemFs::new();
    Value::RecordVariant(
        "Rgb".to_string(),
        vec![
            ("r".to_string(), Value::Uint(40)),
            ("g".to_string(), Value::Uint(60)),
            ("b".to_string(), Value::Uint(80)),
        ],
    )
    .save("test_save_struct_variant", &mut fs)
    .unwrap();
    assert_eq!(file_str(&fs, "test_save_struct_variant"), "Rgb");
    assert_eq!(file_str(&fs, "test_save_struct_variant.value/r"), "40");
    assert_eq!(file_str(&fs, "test_save_struct_variant.value/g"), "60");
    assert_eq!(file_str(&fs, "test_save_struct_variant.value/b"), "80");
}

#[test]
fn save_enums_will_delete_values() {
    let mut fs = MemFs::new();
    let root = "test_save_enums_will_delete_values";

    Value::RecordVariant(
        "Threeple".to_string(),
        vec![("r".to_string(), Value::Uint(34)), ("g".to_string(), Value::Uint(40))],
    )
    .save(root, &mut fs)
    .unwrap();
    assert_eq!(file_str(&fs, root), "Threeple");
    assert_eq!(file_str(&fs, "test_save_enums_will_delete_values.value/r"), "34");
    assert_eq!(file_str(&fs, "test_save_enums_will_delete_values.value/g"), "40");

    Value::NewtypeVariant("Single".to_string(), Box::new(Value::Uint(12)))
        .save(root, &mut fs)
        .unwrap();
    assert_eq!(file_str(&fs, root), "Single");
    assert_eq!(file_str(&fs, "test_save_enums_will_delete_values.value"), "12");
    assert!(fs.read("test_save_enums_will_delete_values.value/r").is_none());
    assert!(fs.read("test_save_enums_will_delete_values.value/g").is_none());

    Value::TupleVariant("Tuple".to_string(), vec![Value::Uint(8), Value::Uint(4)])
        .save(root, &mut fs)
        .unwrap();
    assert_eq!(file_str(&fs, root), "Tuple");
    assert_eq!(file_str(&fs, "test_save_enums_will_delete_values.value/0"), "8");
    assert_eq!(file_str(&fs, "test_save_enums_will_delete_values.value/1"), "4");

    Value::UnitVariant("Unit".to_string()).save(root, &mut fs).unwrap();
    assert_eq!(file_str(&fs, root), "Unit");
    assert!(fs.read("test_save_enums_will_delete_values.value/0").is_none());
    assert!(fs.read("test_save_enums_will_delete_values.value/1").is_none());
}

#[test]
fn serialize_field() {
    let field = BinrootsField::new("fieldname".to_string(), Value::Text("Hello".to_string()));

    let mut serializer1 = FileSerializer::new();
    let mut serializer2 = FileSerializer::new();

    serializer1.serialize(&field.value).unwrap();
    serializer2.serialize(&Value::Text("Hello".to_string())).unwrap();

    assert_eq!(serializer1, serializer2);
}

#[test]
fn save_field_under_its_name() {
    let mut fs = MemFs::new();
    let field = BinrootsField::new("activity".to_string(), Value::Text("reading".to_string()));
    assert_eq!(field.name(), "activity");
    field.save("test_field_root", &mut fs).unwrap();
    assert_eq!(file_str(&fs, "test_field_root/activity"), "reading");
}

#[test]
fn save_twice_is_idempotent() {
    let mut fs1 = MemFs::new();
    let value = Value::Record(vec![
        ("name".to_string(), Value::Text("bin".to_string())),
        (
            "mode".to_string(),
            Value::TupleVariant("Pair".to_string(), vec![Value::Uint(8), Value::Uint(4)]),
        ),
        ("tags".to_string(), Value::List(vec![Value::Uint(1), Value::Uint(2)])),
    ]);
    value.save("test_idem", &mut fs1).unwrap();
    let mut snapshot: Vec<(String, Vec<u8>)> = fs1.files.clone();
    value.save("test_idem", &mut fs1).unwrap();
    let mut after: Vec<(String, Vec<u8>)> = fs1.files.clone();
    snapshot.sort();
    after.sort();
    assert_eq!(snapshot, after);
}
