use ycurl::cast::cast;
use ycurl::cast::type_cast;
use ycurl::error::ConfigError;
use ycurl::error::PathStep;
use ycurl::value::JsonValue;
use ycurl::value::Number;

fn text(s: &str) -> JsonValue {
    JsonValue::String(s.to_owned())
}

fn object(members: Vec<(&str, JsonValue)>) -> JsonValue {
    JsonValue::Object(members.into_iter().map(|(k, v)| (k.to_owned(), v)).collect())
}

fn number(n: serde_json::Number) -> JsonValue {
    JsonValue::Number(Number::parse(&n.to_string()).unwrap())
}

#[test]
fn type_cast_test01() {
    let mut input = object(vec![
        ("a", text("123")),
        ("b", text("true")),
        (
            "c",
            object(vec![(
                "d",
                JsonValue::Array(vec![object(vec![
                    ("e", text("123")),
                    ("f", text("-123")),
                    ("g", text("3.14")),
                    ("h", text("true")),
                    ("i", text("false")),
                    ("j", text("number:123")),
                    ("k", text("number:-123")),
                    ("l", text("number:3.14")),
                    ("m", text("bool:true")),
                    ("n", text("bool:false")),
                ])]),
            )]),
        ),
    ]);

    let expected = object(vec![
        ("a", text("123")),
        ("b", text("true")),
        (
            "c",
            object(vec![(
                "d",
                JsonValue::Array(vec![object(vec![
                    ("e", text("123")),
                    ("f", text("-123")),
                    ("g", text("3.14")),
                    ("h", text("true")),
                    ("i", text("false")),
                    ("j", number(serde_json::Number::from(123))),
                    ("k", number(serde_json::Number::from(-123))),
                    ("l", number(serde_json::Number::from_f64(3.14).unwrap())),
                    ("m", JsonValue::Bool(true)),
                    ("n", JsonValue::Bool(false)),
                ])]),
            )]),
        ),
    ]);

    let ret = type_cast(&mut input);
    println!("{:?}", ret);
    assert!(ret.is_ok());

    assert_eq!(expected, input);
}

#[test]
fn config_test02() {
    let mut input = object(vec![("a", text("bool:abc"))]);
    let ret = type_cast(&mut input);
    println!("{:?}", ret);
    assert!(ret.is_err());
    assert_eq!(
        "provided string was not `true` or `false`",
        ret.map_err(|e| e.to_string()).unwrap_err()
    );
}

#[test]
fn failed_cast_names_the_text_and_the_path_and_leaves_the_value() {
    let mut input = object(vec![
        ("ok", text("number:1")),
        ("list", JsonValue::Array(vec![text("bool:true"), object(vec![("flag", text("bool:maybe"))])])),
    ]);
    let before = input.clone();
    let ret = type_cast(&mut input);
    assert_eq!(
        ret,
        Err(ConfigError::TypeCast {
            text: "maybe".to_owned(),
            reason: "provided string was not `true` or `false`".to_owned(),
            path: vec![
                PathStep::Key("list".to_owned()),
                PathStep::Index(1),
                PathStep::Key("flag".to_owned())
            ],
        })
    );
    assert_eq!(input, before);
}

#[test]
fn number_text_is_the_text_behind_the_prefix() {
    assert_eq!(cast(&text("number:50")).unwrap(), JsonValue::Number(Number::parse("50").unwrap()));
    assert_eq!(Number::parse("50").unwrap().as_str(), "50");
    assert_eq!(Number::parse("-0.5e1").unwrap().as_str(), "-5.0");
    assert_eq!(Number::parse("1e2").unwrap().as_str(), "100.0");
    assert!(Number::parse("").is_none());
    assert!(Number::parse(" 1").is_none());
    assert!(Number::parse("1 ").is_none());
    assert!(Number::parse("+1").is_none());
    assert!(Number::parse("abc").is_none());
    match cast(&text("number:12number:3")) {
        Err(ConfigError::TypeCast { text, path, .. }) => {
            assert_eq!(text, "12number:3");
            assert!(path.is_empty());
        }
        other => panic!("{:?}", other),
    }
    match cast(&text("number:")) {
        Err(ConfigError::TypeCast { text, .. }) => assert_eq!(text, ""),
        other => panic!("{:?}", other),
    }
}

#[test]
fn bool_is_read_to_the_letter() {
    assert_eq!(cast(&text("bool:true")), Ok(JsonValue::Bool(true)));
    assert_eq!(cast(&text("bool:false")), Ok(JsonValue::Bool(false)));
    for wrong in ["bool:True", "bool:TRUE", "bool: true", "bool:true ", "bool:", "bool:1"] {
        assert!(matches!(cast(&text(wrong)), Err(ConfigError::TypeCast { .. })), "{}", wrong);
    }
}

#[test]
fn cast_leaves_other_leaves_alone() {
    let input = object(vec![
        ("a", text("Number:1")),
        ("b", text(" number:1")),
        ("c", text("boolean:true")),
        ("d", text("numbers: 1")),
        ("e", text("")),
        ("f", JsonValue::Null),
        ("g", JsonValue::Bool(false)),
        ("h", JsonValue::Number(Number::parse("7").unwrap())),
        ("bool:true", text("x number:1")),
        ("i", JsonValue::Array(vec![])),
        ("j", object(vec![])),
    ]);
    assert_eq!(cast(&input), Ok(input.clone()));
    let mut in_place = input.clone();
    assert_eq!(type_cast(&mut in_place), Ok(()));
    assert_eq!(in_place, input);
}

#[test]
fn failed_number_says_what_the_parser_says() {
    for payload in ["abc", "", "1.", "--1", "1e", "0x1", "01"] {
        let said = payload.parse::<serde_json::Number>().unwrap_err().to_string();
        let r = cast(&text(&format!("number:{}", payload)));
        assert_eq!(
            r,
            Err(ConfigError::TypeCast {
                text: payload.to_owned(),
                reason: said.clone(),
                path: vec![],
            }),
            "{:?}",
            payload
        );
        assert_eq!(r.unwrap_err().to_string(), said);
    }
}

#[test]
fn messages_of_errors() {
    assert_eq!(ConfigError::Parse("what was said".to_owned()).to_string(), "what was said");
    assert_eq!(
        ConfigError::UndefinedVariable("color".to_owned()).to_string(),
        "variable `color` is not defined"
    );
    assert_eq!(
        ConfigError::DuplicateName("login".to_owned()).to_string(),
        "two or more entries have the same name: login"
    );
    let e = ConfigError::cast_failure("maybe".to_owned(), "why".to_owned());
    assert_eq!(e.to_string(), "why");
    assert_eq!(
        e.under(PathStep::Index(2)).under(PathStep::Key("k".to_owned())),
        ConfigError::TypeCast {
            text: "maybe".to_owned(),
            reason: "why".to_owned(),
            path: vec![PathStep::Key("k".to_owned()), PathStep::Index(2)],
        }
    );
    assert_eq!(
        ConfigError::UndefinedVariable("x".to_owned()).under(PathStep::Index(0)),
        ConfigError::UndefinedVariable("x".to_owned())
    );
}
