use indexmap::IndexMap;
use ycurl::error::ConfigError;
use ycurl::placeholder::expand_text;
use ycurl::placeholder::scan_placeholders;
use ycurl::variables::create_local_variables;

fn table(entries: &[(&str, &str)]) -> IndexMap<String, String> {
    let mut out = IndexMap::new();
    for (k, v) in entries {
        out.insert(k.to_string(), v.to_string());
    }
    out
}

fn names(text: &str) -> Vec<String> {
    let chars: Vec<char> = text.chars().collect();
    scan_placeholders(&chars).iter().map(|n| n.iter().collect::<String>()).collect()
}

fn names_by_regex(text: &str) -> Vec<String> {
    let regex = regex::Regex::new(r#"\$\{([^}]+)}"#).unwrap();
    regex.captures_iter(text).map(|c| c.get(1).unwrap().as_str().to_owned()).collect()
}

#[test]
fn test01() {
    let mut variables = IndexMap::new();
    variables.insert("id".to_owned(), "12345".to_owned());
    variables.insert("color".to_owned(), "red".to_owned());
    variables.insert("email".to_owned(), "test_${id}_${id}_${color}".to_owned());
    let v = create_local_variables(&variables, None);
    println!("{:?}", v);
    assert!(v.is_ok());
    variables = v.unwrap();
    assert_eq!(3, variables.len());
    assert_eq!("12345", variables["id"]);
    assert_eq!("red", variables["color"]);
    assert_eq!("test_12345_12345_red", variables["email"]);
}

#[test]
fn test02() {
    let mut variables = IndexMap::new();
    variables.insert("id".to_owned(), "12345".to_owned());
    variables.insert("email".to_owned(), "test_${id}_${id}_${color}".to_owned());
    variables.insert("color".to_owned(), "red".to_owned());
    let v = create_local_variables(&variables, None);
    println!("{:?}", v);
    assert_eq!(
        "variable `color` is not defined",
        v.map_err(|e| e.to_string()).unwrap_err()
    );
}

#[test]
fn test03() {
    let mut global_variables = IndexMap::new();
    global_variables.insert("id".to_owned(), "xyz".to_owned());
    global_variables.insert("name".to_owned(), "Mike".to_owned());
    global_variables.insert("pi".to_owned(), "3.14".to_owned());
    let mut variables = IndexMap::new();
    variables.insert("id".to_owned(), "12345".to_owned());
    variables.insert("color".to_owned(), "red".to_owned());
    variables.insert(
        "email".to_owned(),
        "test_${id}_${id}_${color}_${name}".to_owned(),
    );
    variables.insert("name".to_owned(), "Lisa".to_owned());
    let v = create_local_variables(&variables, Some(&global_variables));
    println!("{:?}", v);
    assert!(v.is_ok());
    variables = v.unwrap();
    assert_eq!(5, variables.len());
    assert_eq!("12345", variables["id"]);
    assert_eq!("red", variables["color"]);
    assert_eq!("test_12345_12345_red_Mike", variables["email"]);
    assert_eq!("Lisa", variables["name"]);
    assert_eq!("3.14", variables["pi"]);
}

#[test]
fn compiled_table_keeps_the_order_of_the_base_then_of_the_definitions() {
    let globals = table(&[("id", "xyz"), ("name", "Mike"), ("pi", "3.14")]);
    let locals = table(&[("id", "12345"), ("color", "red"), ("name", "Lisa")]);
    let out = create_local_variables(&locals, Some(&globals)).unwrap();
    let order: Vec<(&str, &str)> = out.iter().map(|(k, v)| (k.as_str(), v.as_str())).collect();
    assert_eq!(
        order,
        vec![("id", "12345"), ("name", "Lisa"), ("pi", "3.14"), ("color", "red")]
    );
}

#[test]
fn chain_of_backward_references_compiles_to_as_many_entries() {
    let raw = table(&[("a", "1"), ("b", "${a}2"), ("c", "${b}${a}3"), ("d", "<${c}>")]);
    let out = create_local_variables(&raw, None).unwrap();
    assert_eq!(out.len(), 4);
    assert_eq!(out["d"], "<1213>");
    let base = table(&[("x", "X")]);
    let seeded = create_local_variables(&raw, Some(&base)).unwrap();
    assert_eq!(seeded.len(), 5);
}

#[test]
fn empty_definitions_give_a_copy_of_the_base() {
    let base = table(&[("x", "X"), ("y", "${not looked at}")]);
    let out = create_local_variables(&IndexMap::new(), Some(&base)).unwrap();
    assert_eq!(out, base);
    assert_eq!(create_local_variables(&IndexMap::new(), None).unwrap().len(), 0);
}

#[test]
fn forward_reference_fails_although_the_name_comes_later() {
    let raw = table(&[("id", "123"), ("email", "${name}_${id}@example.com"), ("name", "Mike")]);
    assert_eq!(
        create_local_variables(&raw, None),
        Err(ConfigError::UndefinedVariable("name".to_owned()))
    );
}

#[test]
fn self_reference_fails() {
    let raw = table(&[("a", "${a}")]);
    assert_eq!(
        create_local_variables(&raw, None),
        Err(ConfigError::UndefinedVariable("a".to_owned()))
    );
}

#[test]
fn shadowing_holds_for_later_definitions_only() {
    let globals = table(&[("color", "red")]);
    let locals = table(&[("before", "${color}"), ("color", "blue"), ("after", "${color}")]);
    let out = create_local_variables(&locals, Some(&globals)).unwrap();
    assert_eq!(out["before"], "red");
    assert_eq!(out["color"], "blue");
    assert_eq!(out["after"], "blue");
    assert_eq!(globals["color"], "red");
}

#[test]
fn repeated_placeholder_is_replaced_everywhere() {
    let vars = table(&[("a", "x")]);
    assert_eq!(expand_text("${a}_${a}", &vars), Ok("x_x".to_owned()));
}

#[test]
fn replacement_goes_on_in_the_text_as_it_then_is() {
    let vars = table(&[("b", "${x}"), ("x", "X")]);
    assert_eq!(expand_text("${b} ${x}", &vars), Ok("X X".to_owned()));
    assert_eq!(expand_text("${x} ${b}", &vars), Ok("X ${x}".to_owned()));
}

#[test]
fn first_missing_name_in_the_order_of_the_text_is_reported() {
    let vars = table(&[("id", "1")]);
    assert_eq!(
        expand_text("${id} ${p} ${q}", &vars),
        Err(ConfigError::UndefinedVariable("p".to_owned()))
    );
    assert_eq!(
        expand_text("${q} ${p} ${id}", &vars),
        Err(ConfigError::UndefinedVariable("q".to_owned()))
    );
}

#[test]
fn text_without_placeholders_is_unchanged() {
    let vars = table(&[("a", "x")]);
    for text in ["", "plain", "$a", "{a}", "${}", "${a", "$ {a}", "a}"] {
        assert_eq!(expand_text(text, &vars), Ok(text.to_owned()));
    }
}

#[test]
fn placeholder_names_are_found_as_the_pattern_finds_them() {
    let texts = [
        "",
        "plain",
        "${a}",
        "${a}${b}",
        "x${a}y${b}z${a}",
        "${}",
        "${}}",
        "${a",
        "${a ${b}",
        "$${a}",
        "${${a}}",
        "${a}}",
        "$",
        "${",
        "${x",
        "{a}",
        "$ {a}",
        "${ }",
        "${a\nb}",
        "${é}${日本}",
        "}${a}{",
        "${}${b}",
        "${}a}",
        "$${}${{}",
        "${a}${",
    ];
    for text in texts {
        assert_eq!(names(text), names_by_regex(text), "in {:?}", text);
    }
    assert_eq!(names("x${a}y${b}z${a}"), vec!["a", "b", "a"]);
    assert_eq!(names("${a ${b}"), vec!["a ${b"]);
    assert_eq!(names("${}a}"), Vec::<String>::new());
}
