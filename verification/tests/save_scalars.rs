use binroots::memfs::MemFs;
use binroots::value::Value;

fn file_str(fs: &MemFs, path: &str) -> String {
    String::from_utf8(fs.read(path).expect(path).clone()).unwrap()
}

#[test]
fn save_bool() {
    let mut fs = MemFs::new();
    Value::Tuple(vec![Value::Bool(true), Value::Bool(false)])
        .save("test_save_bool", &mut fs)
        .unwrap();
    assert_eq!(file_str(&fs, "test_save_bool/0"), "true");
    assert_eq!(file_str(&fs, "test_save_bool/1"), "false");
}

#[test]
fn save_int() {
    let mut fs = MemFs::new();
    Value::Tuple(vec![Value::Int(-128), Value::Int(777)])
        .save("test_save_int", &mut fs)
        .unwrap();
    assert_eq!(file_str(&fs, "test_save_int/0"), "-128");
    assert_eq!(file_str(&fs, "test_save_int/1"), "777");
}

#[test]
fn save_float() {
    let mut fs = MemFs::new();
    let f = |x: f64| Value::Float(ryu::Buffer::new().format(x).to_string());
    Value::Tuple(vec![f(-0.0), f(0.0), f(2.0 + 1.0)])
        .save("test_save_float", &mut fs)
        .unwrap();
    assert_eq!(file_str(&fs, "test_save_float/0"), "-0.0");
    assert_eq!(file_str(&fs, "test_save_float/1"), "0.0");
    assert_eq!(file_str(&fs, "test_save_float/2"), "3.0");
}

#[test]
fn save_char() {
    let mut fs = MemFs::new();
    Value::Tuple(vec![Value::Chr('🥺'), Value::Chr('è'), Value::Chr('e')])
        .save("test_save_char", &mut fs)
        .unwrap();
    assert_eq!(file_str(&fs, "test_save_char/0"), "🥺");
    assert_eq!(file_str(&fs, "test_save_char/1"), "è");
    assert_eq!(file_str(&fs, "test_save_char/2"), "e");
}

#[test]
fn save_str() {
    let mut fs = MemFs::new();
    Value::Tuple(vec![
        Value::Text("👨‍👩‍👦‍👦".to_string()),
        Value::Text("Hello, world!".to_string()),
        Value::Text("ﾟ･✿ヾ╲(｡◕‿◕｡)╱✿･ﾟ".to_string()),
    ])
    .save("test_save_str", &mut fs)
    .unwrap();
    assert_eq!(file_str(&fs, "test_save_str/0"), "👨‍👩‍👦‍👦");
    assert_eq!(file_str(&fs, "test_save_str/1"), "Hello, world!");
    assert_eq!(file_str(&fs, "test_save_str/2"), "ﾟ･✿ヾ╲(｡◕‿◕｡)╱✿･ﾟ");
}

#[test]
fn save_bytes() {
    let mut fs = MemFs::new();
    let bytes: Vec<u8> = vec![
        240u8, 159, 145, 168, 226, 128, 141, 240, 159, 145, 169, 226, 128, 141, 240, 159, 145,
        166, 226, 128, 141, 240, 159, 145, 166,
    ];
    Value::Record(vec![("bytes".to_string(), Value::Bytes(bytes))])
        .save("test_save_bytes", &mut fs)
        .unwrap();
    assert_eq!(file_str(&fs, "test_save_bytes/bytes"), "👨‍👩‍👦‍👦");
}

#[test]
fn save_empty() {
    let mut fs = MemFs::new();
    Value::Unit.save("test_save_empty.unit", &mut fs).unwrap();
    assert_eq!(file_str(&fs, "test_save_empty.unit"), "");

    Value::Unit
        .save("test_save_empty.unit-struct", &mut fs)
        .unwrap();
    assert_eq!(file_str(&fs, "test_save_empty.unit-struct"), "");
}

#[test]
fn save_none_will_delete() {
    let mut fs = MemFs::new();
    Value::Present(Box::new(Value::Text("Hello".to_string())))
        .save("test_save_none", &mut fs)
        .unwrap();
    assert_eq!(file_str(&fs, "test_save_none"), "Hello");

    Value::Absent.save("test_save_none", &mut fs).unwrap();
    assert!(fs.read("test_save_none").is_none());
}
