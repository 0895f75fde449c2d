use indexmap::IndexMap;
use ycurl::comment::strip_comments;
use ycurl::config::CLIOptions;
use ycurl::config::Config;
use ycurl::config::HTTPMethod;
use ycurl::config::Request;
use ycurl::error::ConfigError;
use ycurl::error::PathStep;
use ycurl::value::JsonValue;
use ycurl::value::Number;

fn table(entries: &[(&str, &str)]) -> IndexMap<String, String> {
    let mut out = IndexMap::new();
    for (k, v) in entries {
        out.insert(k.to_string(), v.to_string());
    }
    out
}

fn pairs(entries: &[(&str, &str)]) -> Vec<(String, String)> {
    entries.iter().map(|(k, v)| (k.to_string(), v.to_string())).collect()
}

fn text(s: &str) -> JsonValue {
    JsonValue::String(s.to_owned())
}

fn members(entries: Vec<(&str, JsonValue)>) -> Vec<(String, JsonValue)> {
    entries.into_iter().map(|(k, v)| (k.to_owned(), v)).collect()
}

fn request(name: &str, url: &str) -> Request {
    Request {
        disabled: false,
        name: name.to_owned(),
        description: String::new(),
        variables: None,
        url: url.to_owned(),
        method: HTTPMethod::Get,
        headers: Vec::new(),
        params: Vec::new(),
        body: None,
    }
}

fn config(variables: &[(&str, &str)], requests: Vec<Request>) -> Config {
    Config {
        description: String::new(),
        cli_options: CLIOptions::default(),
        base_url: "http://example.com".to_owned(),
        variables: table(variables),
        default_headers: Vec::new(),
        requests,
    }
}

#[test]
fn config_test01() {
    let input = r#"
            {
                "base_url": "http://example.com",
                "variables": {
                    "id": "123",
                    "name": "Mike",
                    "email": "${name}_${id}@gmail.com",
                    "color": "red"
                },
                "default_header": {
                    "x": "y",
                    "p": "Bearer: ${id}"
                },
                "requests": [
                    {
                        "name": "req1",
                        "description": "desc",
                        "variables": {
                            "user_id": "50",
                            "color": "blue",
                            "flag": "true",
                            "var1": "${flag}",
                            "var2": "${var1}_${id}"
                        },
                        "url": "/v1/user/${user_id}",
                        "method": "GET",
                        "header": {
                            "s": "t",
                            "u": "${name}_${user_id}"
                        },
                        "params": {
                            "a": "b",
                            "c": "${user_id}_${name}"
                        },
                        "body": {
                            "f": "g",
                            "h": "${user_id}_${name}_${user_id}_${color}",
                            "i": "number:${user_id}",
                            "j": "bool:${flag}",
                            "k": "${var1}",
                            "l": "${var2}"
                        }
                    }
                ]
            }
        "#;

    let expected = Config {
        description: String::new(),
        cli_options: CLIOptions::default(),
        base_url: "http://example.com".to_owned(),
        variables: table(&[
            ("id", "123"),
            ("name", "Mike"),
            ("email", "Mike_123@gmail.com"),
            ("color", "red"),
        ]),
        default_headers: pairs(&[("x", "y"), ("p", "Bearer: 123")]),
        requests: vec![Request {
            disabled: false,
            name: "req1".to_owned(),
            description: "desc".to_owned(),
            variables: Some(table(&[
                ("user_id", "50"),
                ("color", "blue"),
                ("flag", "true"),
                ("var1", "true"),
                ("var2", "true_123"),
            ])),
            url: "/v1/user/50".to_owned(),
            method: HTTPMethod::Get,
            headers: pairs(&[("s", "t"), ("u", "Mike_50")]),
            params: members(vec![("a", text("b")), ("c", text("50_Mike"))]),
            body: Some(members(vec![
                ("f", text("g")),
                ("h", text("50_Mike_50_blue")),
                ("i", JsonValue::Number(Number::parse("50").unwrap())),
                ("j", JsonValue::Bool(true)),
                ("k", text("true")),
                ("l", text("true_123")),
            ])),
        }],
    };

    let config = Config::new_with_json_string(input);
    println!("{:?}", config);
    assert!(config.is_ok());
    let config = config.unwrap();
    assert_eq!(expected, config);
}

#[test]
fn global_chain_and_local_number_resolve() {
    let input = r#"{
        "base_url": "http://x.com",
        "variables": {"id": "123", "name": "Mike", "email": "${name}_${id}@x.com"},
        "requests": [
            {"name": "r", "url": "/u", "method": "POST",
             "variables": {"uid": "50"},
             "body": {"n": "number:${uid}"}}
        ]
    }"#;
    let config = Config::new_with_json_string(input).unwrap();
    assert_eq!(config.variables["email"], "Mike_123@x.com");
    let body = config.requests[0].body.as_ref().unwrap();
    assert_eq!(body.len(), 1);
    assert_eq!(body[0].0, "n");
    assert_eq!(body[0].1, JsonValue::Number(Number::parse("50").unwrap()));
    assert_ne!(body[0].1, text("50"));
    match &body[0].1 {
        JsonValue::Number(n) => assert_eq!(n.as_str(), "50"),
        other => panic!("{:?}", other),
    }
    assert_eq!(config.requests[0].method, HTTPMethod::Post);
}

#[test]
fn local_variable_shadows_for_its_request_only() {
    let input = r#"{
        "base_url": "http://x.com",
        "variables": {"color": "red"},
        "requests": [
            {"name": "a", "url": "/${color}", "method": "GET", "variables": {"color": "blue"}},
            {"name": "b", "url": "/${color}", "method": "GET"},
            {"name": "c", "url": "/${color}", "method": "GET", "variables": {"other": "${color}!"}}
        ]
    }"#;
    let config = Config::new_with_json_string(input).unwrap();
    assert_eq!(config.requests[0].url, "/blue");
    assert_eq!(config.requests[1].url, "/red");
    assert_eq!(config.requests[2].url, "/red");
    assert_eq!(config.requests[2].variables.as_ref().unwrap()["other"], "red!");
    assert_eq!(config.variables["color"], "red");
    assert_eq!(config.variables.len(), 1);
}

#[test]
fn local_variables_do_not_leak_into_the_next_request() {
    let input = r#"{
        "base_url": "http://x.com",
        "requests": [
            {"name": "a", "url": "/${uid}", "method": "GET", "variables": {"uid": "1"}},
            {"name": "b", "url": "/${uid}", "method": "GET"}
        ]
    }"#;
    assert_eq!(
        Config::new_with_json_string(input),
        Err(ConfigError::UndefinedVariable("uid".to_owned()))
    );
}

#[test]
fn bool_that_is_none_fails_the_load() {
    let input = r#"{
        "base_url": "http://x.com",
        "variables": {"answer": "maybe"},
        "requests": [
            {"name": "r", "url": "/u", "method": "PUT", "body": {"flag": "bool:${answer}"}}
        ]
    }"#;
    assert_eq!(
        Config::new_with_json_string(input),
        Err(ConfigError::TypeCast {
            text: "maybe".to_owned(),
            reason: "provided string was not `true` or `false`".to_owned(),
            path: vec![PathStep::Key("flag".to_owned())],
        })
    );
}

#[test]
fn two_requests_of_one_name_fail_the_load() {
    let input = r#"{
        "base_url": "http://x.com",
        "requests": [
            {"name": "login", "url": "/a", "method": "POST", "body": {"n": "number:1"}},
            {"name": "other", "url": "/b", "method": "GET"},
            {"name": "login", "url": "/c", "method": "DELETE", "body": {"b": "bool:false"}}
        ]
    }"#;
    let r = Config::new_with_json_string(input);
    assert_eq!(r, Err(ConfigError::DuplicateName("login".to_owned())));
    assert_eq!(
        r.unwrap_err().to_string(),
        "two or more entries have the same name: login"
    );
}

#[test]
fn names_are_compared_after_expansion() {
    let doc = config(
        &[("n", "same")],
        vec![request("${n}", "/a"), request("same", "/b")],
    );
    assert_eq!(doc.resolve(), Err(ConfigError::DuplicateName("same".to_owned())));
    let apart = config(&[("n", "same")], vec![request("${n}", "/a"), request("${n}2", "/b")]);
    let resolved = apart.resolve().unwrap();
    assert_eq!(resolved.requests[0].name, "same");
    assert_eq!(resolved.requests[1].name, "same2");
    assert_eq!(resolved.validate(), Ok(()));
}

#[test]
fn validate_names_the_first_name_that_comes_again() {
    let doc = config(
        &[],
        vec![request("a", "/"), request("b", "/"), request("b", "/"), request("a", "/")],
    );
    assert_eq!(doc.validate(), Err(ConfigError::DuplicateName("b".to_owned())));
    assert_eq!(config(&[], vec![]).validate(), Ok(()));
    assert_eq!(config(&[], vec![request("a", "/")]).validate(), Ok(()));
}

#[test]
fn expansion_of_a_later_request_fails_before_the_cast_of_an_earlier() {
    let mut first = request("a", "/a");
    first.body = Some(members(vec![("flag", text("bool:maybe"))]));
    let second = request("b", "/${missing}");
    assert_eq!(
        config(&[], vec![first.clone(), second]).resolve(),
        Err(ConfigError::UndefinedVariable("missing".to_owned()))
    );
    assert!(matches!(
        config(&[], vec![first, request("a", "/a")]).resolve(),
        Err(ConfigError::TypeCast { .. })
    ));
}

#[test]
fn only_bodies_are_cast() {
    let mut r = request("number:1", "bool:true");
    r.description = "number:2".to_owned();
    r.headers = pairs(&[("h", "number:3")]);
    r.params = members(vec![("p", text("number:4"))]);
    r.body = Some(members(vec![("b", text("number:5"))]));
    let resolved = config(&[], vec![r.clone()]).resolve().unwrap();
    let mut expected = r;
    expected.body = Some(members(vec![("b", JsonValue::Number(Number::parse("5").unwrap()))]));
    assert_eq!(resolved.requests[0], expected);
}

#[test]
fn malformed_documents_fail_with_a_parse_error() {
    for input in [
        "",
        "{",
        "[]",
        r#"{"requests": []}"#,
        r#"{"base_url": "x"}"#,
        r#"{"base_url": 1, "requests": []}"#,
        r#"{"base_url": "x", "requests": {}}"#,
        r#"{"base_url": "x", "requests": [1]}"#,
        r#"{"base_url": "x", "requests": [{"url": "/", "method": "GET"}]}"#,
        r#"{"base_url": "x", "requests": [{"name": "a", "method": "GET"}]}"#,
        r#"{"base_url": "x", "requests": [{"name": "a", "url": "/"}]}"#,
        r#"{"base_url": "x", "requests": [{"name": "a", "url": "/", "method": "get"}]}"#,
        r#"{"base_url": "x", "requests": [{"name": "a", "url": "/", "method": "GET", "disabled": "no"}]}"#,
        r#"{"base_url": "x", "requests": [{"name": "a", "url": "/", "method": "GET", "body": []}]}"#,
        r#"{"base_url": "x", "variables": {"a": 1}, "requests": []}"#,
        r#"{"base_url": "x", "default_headers": {"a": null}, "requests": []}"#,
    ] {
        assert!(
            matches!(Config::new_with_json_string(input), Err(ConfigError::Parse(_))),
            "{}",
            input
        );
    }
    assert_eq!(
        Config::new_with_json_string(r#"{"requests": []}"#),
        Err(ConfigError::Parse("missing field `base_url`".to_owned()))
    );
    assert_eq!(
        Config::new_with_json_string(
            r#"{"base_url": "x", "requests": [{"name": "a", "url": "/", "method": "get"}]}"#
        )
        .unwrap_err()
        .to_string(),
        "unknown variant `get`, expected one of `GET`, `POST`, `PUT`, `DELETE`, `PATCH`, `HEAD`"
    );
}

#[test]
fn what_a_document_leaves_out_takes_its_default() {
    let input = r#"{"base_url": "http://x.com", "requests": [
        {"name": "a", "url": "/", "method": "HEAD", "body": null, "variables": null, "extra": 1}
    ], "unknown": {}}"#;
    let config = Config::new_with_json_string(input).unwrap();
    assert_eq!(config.description, "");
    assert_eq!(config.cli_options, CLIOptions::default());
    assert_eq!(
        CLIOptions::default(),
        CLIOptions { show_headers: false, disable_redirect: false, verbose: false }
    );
    assert!(config.variables.is_empty());
    assert!(config.default_headers.is_empty());
    let mut expected = request("a", "/");
    expected.method = HTTPMethod::Head;
    assert_eq!(config.requests, vec![expected]);
}

#[test]
fn document_members_are_read_under_both_spellings() {
    let input = r#"{"base_url": "b", "cli_options": {"show_header": true, "verbose": true},
        "default_headers": {"a": "1"}, "default_header": {"b": "2"},
        "requests": [{"name": "a", "url": "/", "method": "PATCH", "disabled": true,
                      "headers": {"c": "3"}}]}"#;
    let config = Config::new_with_json_string(input).unwrap();
    assert_eq!(
        config.cli_options,
        CLIOptions { show_headers: true, disable_redirect: false, verbose: true }
    );
    assert_eq!(config.default_headers, pairs(&[("a", "1")]));
    assert_eq!(config.requests[0].headers, pairs(&[("c", "3")]));
    assert!(config.requests[0].disabled);
    assert_eq!(config.requests[0].method, HTTPMethod::Patch);
}

#[test]
fn variables_are_compiled_in_the_order_of_the_document() {
    let input = r#"{"base_url": "b", "variables": {"z": "1", "a": "${z}2", "m": "${a}3"},
        "requests": []}"#;
    let config = Config::new_with_json_string(input).unwrap();
    let order: Vec<(&str, &str)> =
        config.variables.iter().map(|(k, v)| (k.as_str(), v.as_str())).collect();
    assert_eq!(order, vec![("z", "1"), ("a", "12"), ("m", "123")]);
    let backwards = r#"{"base_url": "b", "variables": {"a": "${z}2", "z": "1"}, "requests": []}"#;
    assert_eq!(
        Config::new_with_json_string(backwards),
        Err(ConfigError::UndefinedVariable("z".to_owned()))
    );
}

#[test]
fn value_is_parsed_part_for_part() {
    let value = JsonValue::parse(r#"{"b": [1, -2.5, "x", true, null, {"z": {}, "a": []}], "a": "y"}"#)
        .unwrap();
    let expected = JsonValue::Object(members(vec![
        (
            "b",
            JsonValue::Array(vec![
                JsonValue::Number(Number::parse("1").unwrap()),
                JsonValue::Number(Number::parse("-2.5").unwrap()),
                text("x"),
                JsonValue::Bool(true),
                JsonValue::Null,
                JsonValue::Object(members(vec![
                    ("z", JsonValue::Object(Vec::new())),
                    ("a", JsonValue::Array(Vec::new())),
                ])),
            ]),
        ),
        ("a", text("y")),
    ]));
    assert_eq!(value, expected);
    assert_ne!(value, text(r#"{"b": [1, -2.5, "x", true, null, {"z": {}, "a": []}], "a": "y"}"#));
    assert!(matches!(JsonValue::parse("{,}"), Err(ConfigError::Parse(_))));
    assert_eq!(
        Config::new_with_json_value(&value),
        Err(ConfigError::Parse("missing field `base_url`".to_owned()))
    );
}

#[test]
fn comment_lines_are_left_out() {
    assert_eq!(strip_comments(""), "");
    assert_eq!(strip_comments("a"), "a");
    assert_eq!(strip_comments("a\n"), "a");
    assert_eq!(strip_comments("a\n\n"), "a\n");
    assert_eq!(strip_comments("a\r\nb\r\n"), "a\nb");
    assert_eq!(strip_comments("a\rb\r"), "a\rb\r");
    assert_eq!(strip_comments("# c\na\n  # c\n\t#c\nb # not one\n#"), "a\nb # not one");
    assert_eq!(strip_comments("\u{3000}\u{a0}# c\nx"), "x");
    assert_eq!(strip_comments("#only"), "");
    assert_eq!(strip_comments("{\n#c\n}"), "{\n}");
    assert_eq!(strip_comments("a#\n"), "a#");
    assert_eq!(strip_comments(" \n#\n "), " \n ");
}

#[test]
fn comment_lines_are_chosen_as_the_pattern_chooses_them() {
    let regex = regex::Regex::new(r#"^\s*#.*"#).unwrap();
    for line in [
        "", "#", " #", "\t# x", "x#", " x #", "\u{85}#", "\u{2003}#", "\u{200b}#", "\u{180e}#",
        "\u{1680}\u{2028}\u{2029}\u{202f}\u{205f}#", "\u{b}\u{c}#", "\u{1c}#", "##", "\r#", "a\r",
    ] {
        let expected = if regex.is_match(line) { String::new() } else { line.to_owned() };
        assert_eq!(strip_comments(line), expected, "{:?}", line);
    }
}

#[test]
fn load_reads_a_file_text_with_comments() {
    let text = "# a configuration\n{\n  \"base_url\": \"http://x.com\",\n  # no variables\n  \"requests\": []\n}\n";
    let config = Config::load(text).unwrap();
    assert_eq!(config.base_url, "http://x.com");
    assert!(config.requests.is_empty());
    assert!(matches!(Config::new_with_json_string(text), Err(ConfigError::Parse(_))));
}
