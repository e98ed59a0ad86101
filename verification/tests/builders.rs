use ben_shell::json::{escape_json_string, Builder, ToJSON};
use std::collections::HashMap;

/// A floating-point value rendered by the standard formatter; the library
/// itself stays integer-only.
struct Fraction(f64);

impl ToJSON for Fraction {
    fn append(&self, buf: &mut String) {
        buf.push_str(&format!("{}", self.0));
    }
}

/// A borrowed map rendered as a JSON object, iteration order unspecified.
struct Table(HashMap<&'static str, &'static str>);

impl ToJSON for Table {
    fn append(&self, buf: &mut String) {
        buf.push('{');
        for (idx, (key, value)) in self.0.iter().enumerate() {
            if idx > 0 {
                buf.push(',');
            }
            buf.push('"');
            buf.push_str(&escape_json_string(key));
            buf.push_str("\":");
            buf.push('"');
            buf.push_str(&escape_json_string(value));
            buf.push('"');
        }
        buf.push('}');
    }
}

#[test]
fn basic_object() {
    let mut builder = Builder::new();
    builder.add("x", 78u32);
    builder.add("y", Fraction(72.4f64));
    builder.add("z", "thing");
    let object = builder.end();
    assert_eq!(object, r#"{"x":78,"y":72.4,"z":"thing"}"#);
}

#[test]
fn escaping() {
    let mut builder = Builder::new();
    builder.add("x", 78u32);
    builder.add("y", Fraction(72.4f64));
    builder.add("z", "thing\nover two lines");
    let object = builder.end();
    assert_eq!(object, "{\"x\":78,\"y\":72.4,\"z\":\"thing\\nover two lines\"}");
}

#[test]
fn vec() {
    let z = vec!["thing", "here"];
    let mut builder = Builder::new();
    builder.add("x", 78u32);
    builder.add("y", Fraction(72.4f64));
    builder.add("z", z);
    let object = builder.end();
    assert_eq!(object, r#"{"x":78,"y":72.4,"z":["thing","here"]}"#);
}

#[test]
fn hash_map() {
    let values = HashMap::from_iter([("k1", "v1"), ("k2", "v2")]);
    let mut builder = Builder::new();
    builder.add("kind", "map");
    builder.add("values", Table(values));
    let object = builder.end();
    // because HashMap order is randomised, we test either case
    let possibles = [
        r#"{"kind":"map","values":{"k1":"v1","k2":"v2"}}"#,
        r#"{"kind":"map","values":{"k2":"v2","k1":"v1"}}"#,
    ];
    assert!(possibles.contains(&object.as_str()));
}

#[test]
fn numbers_render_in_decimal() {
    let mut builder = Builder::new();
    builder.add("a", 0u8);
    builder.add("b", 18446744073709551615u64);
    builder.add("c", -42i32);
    builder.add("d", true);
    let object = builder.end();
    assert_eq!(object, r#"{"a":0,"b":18446744073709551615,"c":-42,"d":true}"#);
}

#[test]
fn escape_handles_each_special_character() {
    assert_eq!(escape_json_string("a\"b\\c\nd\te"), "a\\\"b\\\\c\\nd\\te");
    assert_eq!(escape_json_string(""), "");
}
