use binroots::memfs::MemFs;
use binroots::value::Value;

fn file_str(fs: &MemFs, path: &str) -> String {
    String::from_utf8(fs.read(path).expect(path).clone()).unwrap()
}

#[test]
fn save_seq() {
    let mut fs = MemFs::new();
    Value::List(vec![Value::Int(9), Value::Int(8), Value::Int(5)])
        .save("test_save_seq", &mut fs)
        .unwrap();
    assert_eq!(file_str(&fs, "test_save_seq/0"), "9");
    assert_eq!(file_str(&fs, "test_save_seq/1"), "8");
    assert_eq!(file_str(&fs, "test_save_seq/2"), "5");
}

#[test]
fn save_seq_multiple() {
    let mut fs = MemFs::new();
    let row = |a: i64, b: i64, c: i64| Value::List(vec![Value::Int(a), Value::Int(b), Value::Int(c)]);
    Value::List(vec![row(9, 8, 5), row(4, 1, 1)])
        .save("test_save_seq_multiple", &mut fs)
        .unwrap();
    assert_eq!(file_str(&fs, "test_save_seq_multiple/0/0"), "9");
    assert_eq!(file_str(&fs, "test_save_seq_multiple/0/1"), "8");
    assert_eq!(file_str(&fs, "test_save_seq_multiple/0/2"), "5");
    assert_eq!(file_str(&fs, "test_save_seq_multiple/1/0"), "4");
    assert_eq!(file_str(&fs, "test_save_seq_multiple/1/1"), "1");
    assert_eq!(file_str(&fs, "test_save_seq_multiple/1/2"), "1");
}

#[test]
fn save_tuple() {
    let mut fs = MemFs::new();
    Value::Tuple(vec![Value::Int(9), Value::Int(8), Value::Int(5)])
        .save("test_save_tuple", &mut fs)
        .unwrap();
    assert_eq!(file_str(&fs, "test_save_tuple/0"), "9");
    assert_eq!(file_str(&fs, "test_save_tuple/1"), "8");
    assert_eq!(file_str(&fs, "test_save_tuple/2"), "5");
}

#[test]
fn save_tuple_multiple() {
    let mut fs = MemFs::new();
    let row = |a: i64, b: i64, c: i64| Value::Tuple(vec![Value::Int(a), Value::Int(b), Value::Int(c)]);
    Value::Tuple(vec![row(9, 8, 5), row(4, 1, 1)])
        .save("test_save_tuple_multiple", &mut fs)
        .unwrap();
    assert_eq!(file_str(&fs, "test_save_tuple_multiple/0/0"), "9");
    assert_eq!(file_str(&fs, "test_save_tuple_multiple/0/1"), "8");
    assert_eq!(file_str(&fs, "test_save_tuple_multiple/0/2"), "5");
    assert_eq!(file_str(&fs, "test_save_tuple_multiple/1/0"), "4");
    assert_eq!(file_str(&fs, "test_save_tuple_multiple/1/1"), "1");
    assert_eq!(file_str(&fs, "test_save_tuple_multiple/1/2"), "1");
}

#[test]
fn save_tuple_struct() {
    let mut fs = MemFs::new();
    Value::Tuple(vec![Value::Uint(9), Value::Uint(8), Value::Uint(5)])
        .save("test_save_tuple_struct", &mut fs)
        .unwrap();
    assert_eq!(file_str(&fs, "test_save_tuple_struct/0"), "9");
    assert_eq!(file_str(&fs, "test_save_tuple_struct/1"), "8");
    assert_eq!(file_str(&fs, "test_save_tuple_struct/2"), "5");
}

#[test]
fn save_map() {
    let mut fs = MemFs::new();
    Value::Dict(vec![
        (Value::Text("bin".to_string()), Value::Text("roots".to_string())),
        (Value::Text("roots".to_string()), Value::Text("very cool".to_string())),
    ])
    .save("test_save_map", &mut fs)
    .unwrap();
    assert_eq!(file_str(&fs, "test_save_map/bin"), "roots");
    assert_eq!(file_str(&fs, "test_save_map/roots"), "very cool");
}

#[test]
fn save_map_option() {
    let mut fs = MemFs::new();
    Value::Dict(vec![
        (
            Value::Present(Box::new(Value::Text("bin".to_string()))),
            Value::Text("roots".to_string()),
        ),
        (Value::Absent, Value::Text("very cool".to_string())),
    ])
    .save("test_save_map_option", &mut fs)
    .unwrap();
    assert_eq!(file_str(&fs, "test_save_map_option/bin"), "roots");
    assert_eq!(file_str(&fs, "test_save_map_option/__NONE__"), "very cool");
}

#[test]
fn save_map_unit() {
    let mut fs = MemFs::new();
    Value::Dict(vec![(Value::Unit, Value::Text("roots".to_string()))])
        .save("test_save_map_unit", &mut fs)
        .unwrap();
    assert_eq!(file_str(&fs, "test_save_map_unit/__UNIT__"), "roots");
}

#[test]
fn save_map_array_value() {
    let mut fs = MemFs::new();
    Value::Dict(vec![
        (
            Value::Text("germy".to_string()),
            Value::List(vec![Value::Int(9), Value::Int(8), Value::Int(5)]),
        ),
        (
            Value::Text("year".to_string()),
            Value::List(vec![Value::Int(2), Value::Int(0), Value::Int(2), Value::Int(3)]),
        ),
    ])
    .save("test_save_map_array_value", &mut fs)
    .unwrap();
    assert_eq!(file_str(&fs, "test_save_map_array_value/germy/0"), "9");
    assert_eq!(file_str(&fs, "test_save_map_array_value/germy/1"), "8");
    assert_eq!(file_str(&fs, "test_save_map_array_value/germy/2"), "5");
    assert_eq!(file_str(&fs, "test_save_map_array_value/year/0"), "2");
    assert_eq!(file_str(&fs, "test_save_map_array_value/year/1"), "0");
    assert_eq!(file_str(&fs, "test_save_map_array_value/year/2"), "2");
    assert_eq!(file_str(&fs, "test_save_map_array_value/year/3"), "3");
}

#[test]
fn save_struct() {
    let mut fs = MemFs::new();
    Value::Record(vec![
        ("r".to_string(), Value::Uint(40)),
        ("g".to_string(), Value::Uint(60)),
        ("b".to_string(), Value::Uint(80)),
    ])
    .save("test_save_struct", &mut fs)
    .unwrap();
    assert_eq!(file_str(&fs, "test_save_struct/r"), "40");
    assert_eq!(file_str(&fs, "test_save_struct/g"), "60");
    assert_eq!(file_str(&fs, "test_save_struct/b"), "80");
}

#[test]
fn save_map_bad_key_is_rejected() {
    let mut fs = MemFs::new();
    let r = Value::Dict(vec![(
        Value::List(vec![Value::Int(1)]),
        Value::Text("x".to_string()),
    )])
    .save("test_save_bad_key", &mut fs);
    assert!(r.is_err());
    assert!(fs.read("test_save_bad_key").is_none());
    assert!(!fs.is_dir("test_save_bad_key"));
}
