use quotamiser::env_file::read_env;
use quotamiser::json::{Json, Number};

fn entries(text: &str) -> Vec<(String, String)> {
    read_env(text)
}

fn pair(key: &str, value: &str) -> (String, String) {
    (key.to_string(), value.to_string())
}

#[test]
fn environment_lines_are_read() {
    assert_eq!(
        entries("# a comment\n\nA=1\r\n  B = two words \nno sign\n=nothing\nC=\nD=a=b"),
        [
            pair("A", "1"),
            pair("B", "two words"),
            pair("C", ""),
            pair("D", "a=b"),
        ]
    );
    assert_eq!(entries(""), []);
    assert_eq!(entries("\n\n"), []);
}

#[test]
fn environment_values_may_be_quoted() {
    assert_eq!(
        entries("A=\"x y\"\nB='z'\nC=\"'q'\"\nD=\"\"\nE='\"k\"'\nF=a\"b"),
        [
            pair("A", "x y"),
            pair("B", "z"),
            pair("C", "q"),
            pair("D", ""),
            pair("E", "\"k\""),
            pair("F", "a\"b"),
        ]
    );
}

#[test]
fn json_is_read_and_written_in_order() {
    let text = r#"{"b":[1,-2,0.5,null,true],"a":{"x":"é\n"}}"#;
    let value = Json::parse(text.as_bytes()).unwrap();
    assert_eq!(value.get("a").unwrap().text_of("x"), Some("é\n"));
    let Some(Json::Array(items)) = value.get("b") else {
        panic!("expected an array")
    };
    assert_eq!(items[0], Json::Number(Number::Unsigned(1)));
    assert_eq!(items[1], Json::Number(Number::Negative(-2)));
    assert_eq!(
        value.to_bytes(),
        "{\"b\":[1,-2,0.5,null,true],\"a\":{\"x\":\"é\\n\"}}".as_bytes()
    );
    assert!(Json::parse(b"{").is_err());
}
