use kvs::command::Command;
use kvs::literal::quote;
use serde_json::Value;

const SAMPLES: [&str; 12] = [
    "",
    "a",
    " spaced out ",
    "\"",
    "\\",
    "\\n",
    "\n",
    "\u{0}\u{7}\u{8}\u{9}\u{a}\u{b}\u{c}\u{d}\u{e}\u{1f}",
    "\u{7f}\u{80}\u{a0}\u{2028}\u{2029}",
    "/slash/",
    "\u{e9}\u{4e16}\u{1f600}",
    "{\"Remove\":{\"key\":\"a\"}}",
];

fn object(tag: &str, fields: &[(&str, &str)]) -> Value {
    let mut inner = serde_json::Map::new();
    for (name, value) in fields {
        inner.insert(name.to_string(), Value::String(value.to_string()));
    }
    let mut outer = serde_json::Map::new();
    outer.insert(tag.to_string(), Value::Object(inner));
    Value::Object(outer)
}

#[test]
fn quote_is_the_json_string() {
    assert_eq!(quote("a\"b").unwrap(), "\"a\\\"b\"");
    assert_eq!(quote("").unwrap(), "\"\"");
    assert_eq!(quote("\u{1}").unwrap(), "\"\\u0001\"");
    assert_eq!(quote("\u{1b}").unwrap(), "\"\\u001b\"");
    for sample in SAMPLES {
        let quoted = quote(sample).unwrap();
        assert_eq!(serde_json::from_str::<String>(&quoted).unwrap(), sample);
    }
}

#[test]
fn a_put_line_is_the_json_object_of_the_record() {
    for key in SAMPLES {
        for value in SAMPLES {
            let command = Command::Put { key: key.to_string(), value: value.to_string() };
            let line = command.encode().unwrap();
            let json = object("Set", &[("key", key), ("value", value)]);
            assert_eq!(line, serde_json::to_string(&json).unwrap());
            assert_eq!(serde_json::from_str::<Value>(&line).unwrap(), json);
        }
    }
}

#[test]
fn a_remove_line_is_the_json_object_of_the_record() {
    for key in SAMPLES {
        let command = Command::Remove { key: key.to_string() };
        let line = command.encode().unwrap();
        let json = object("Remove", &[("key", key)]);
        assert_eq!(line, serde_json::to_string(&json).unwrap());
        assert_eq!(serde_json::from_str::<Value>(&line).unwrap(), json);
    }
}

#[test]
fn decode_reads_what_serde_json_writes() {
    for key in SAMPLES {
        for value in SAMPLES {
            let line = serde_json::to_string(&object("Set", &[("key", key), ("value", value)]))
                .unwrap();
            assert_eq!(
                Command::decode(&line).unwrap(),
                Command::Put { key: key.to_string(), value: value.to_string() }
            );
        }
    }
}
