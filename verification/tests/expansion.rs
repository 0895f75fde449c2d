use indexmap::IndexMap;
use ycurl::error::ConfigError;
use ycurl::expansion::variable_expansion;
use ycurl::value::JsonValue;
use ycurl::value::Number;

fn text(s: &str) -> JsonValue {
    JsonValue::String(s.to_owned())
}

fn object(members: Vec<(&str, JsonValue)>) -> JsonValue {
    JsonValue::Object(members.into_iter().map(|(k, v)| (k.to_owned(), v)).collect())
}

fn number(s: &str) -> JsonValue {
    JsonValue::Number(Number::parse(s).unwrap())
}

#[test]
fn variable_expansion_test01() {
    let mut variables = IndexMap::new();
    variables.insert("id".to_owned(), "12345".to_owned());
    variables.insert("name".to_owned(), "Mike".to_owned());

    let input = object(vec![
        ("email", text("${name}_${id}@example.com")),
        ("a", text("${id}_${name}_${name}_${id}")),
    ]);

    let expected = object(vec![
        ("email", text("Mike_12345@example.com")),
        ("a", text("12345_Mike_Mike_12345")),
    ]);

    let actual = variable_expansion(&input, &variables);
    assert!(actual.is_ok());
    assert_eq!(expected, actual.unwrap());
}

#[test]
fn variable_expansion_test02() {
    let mut variables = IndexMap::new();
    variables.insert("id".to_owned(), "12345".to_owned());

    let input = object(vec![("email", text("${name}_${id}@example.com"))]);

    let actual = variable_expansion(&input, &variables);
    assert!(actual.is_err());
    assert_eq!(
        "variable `name` is not defined",
        actual.map_err(|e| e.to_string()).unwrap_err()
    );
}

#[test]
fn expansion_reaches_nested_leaves_and_keeps_the_rest() {
    let mut variables = IndexMap::new();
    variables.insert("a".to_owned(), "x".to_owned());
    let input = object(vec![
        ("${a}", text("${a}")),
        ("n", number("12")),
        ("b", JsonValue::Bool(true)),
        ("z", JsonValue::Null),
        (
            "list",
            JsonValue::Array(vec![text("${a}_${a}"), object(vec![("deep", text("<${a}>"))])]),
        ),
    ]);
    let expected = object(vec![
        ("${a}", text("x")),
        ("n", number("12")),
        ("b", JsonValue::Bool(true)),
        ("z", JsonValue::Null),
        (
            "list",
            JsonValue::Array(vec![text("x_x"), object(vec![("deep", text("<x>"))])]),
        ),
    ]);
    assert_eq!(variable_expansion(&input, &variables), Ok(expected));
}

#[test]
fn expansion_of_a_resolved_value_gives_the_value() {
    let mut variables = IndexMap::new();
    variables.insert("a".to_owned(), "x".to_owned());
    let input = object(vec![
        ("s", text("no placeholder: $ { } ${}")),
        ("list", JsonValue::Array(vec![number("1"), text("two"), JsonValue::Null])),
    ]);
    let once = variable_expansion(&input, &variables).unwrap();
    assert_eq!(once, input);
    assert_eq!(variable_expansion(&once, &IndexMap::new()), Ok(input));
}

#[test]
fn expansion_fails_as_a_whole_on_the_first_missing_name() {
    let mut variables = IndexMap::new();
    variables.insert("a".to_owned(), "x".to_owned());
    let input = JsonValue::Array(vec![
        text("${a}"),
        object(vec![("k", text("${missing}"))]),
        text("${also missing}"),
    ]);
    assert_eq!(
        variable_expansion(&input, &variables),
        Err(ConfigError::UndefinedVariable("missing".to_owned()))
    );
}
