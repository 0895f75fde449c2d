use ycurl::args::Args;
use ycurl::client::body_kind;
use ycurl::client::BodyKind;
use ycurl::config::CLIOptions;
use ycurl::config::Config;
use ycurl::config::HTTPMethod;
use ycurl::config::Request;
use ycurl::response::is_blank;
use ycurl::response::response_language;
use ycurl::response::Language;
use ycurl::select::parse_index;
use ycurl::select::SelectError;
use ycurl::show_complete;
use ycurl::show_requests;
use ycurl::value::JsonValue;

fn pairs(entries: &[(&str, &str)]) -> Vec<(String, String)> {
    entries.iter().map(|(k, v)| (k.to_string(), v.to_string())).collect()
}

fn request(name: &str, url: &str, disabled: bool) -> Request {
    Request {
        disabled,
        name: name.to_owned(),
        description: String::new(),
        variables: None,
        url: url.to_owned(),
        method: HTTPMethod::Get,
        headers: Vec::new(),
        params: Vec::new(),
        body: None,
    }
}

fn config(requests: Vec<Request>) -> Config {
    Config {
        description: String::new(),
        cli_options: CLIOptions::default(),
        base_url: "http://example.com".to_owned(),
        variables: indexmap::IndexMap::new(),
        default_headers: Vec::new(),
        requests,
    }
}

#[test]
fn requests_are_listed_with_their_index_among_all() {
    let mut requests = Vec::new();
    for i in 0..12 {
        requests.push(request(&format!("r{}", i), &format!("/u/{}", i), i != 0 && i != 11));
    }
    let listing = show_requests(&config(requests));
    assert_eq!(
        listing,
        "{\"index\": 0, \"name\": \"r0\", \"url\": \"/u/0\"}\n{\"index\": 11, \"name\": \"r11\", \"url\": \"/u/11\"}"
    );
    assert_eq!(show_requests(&config(vec![])), "");
    assert_eq!(show_requests(&config(vec![request("a", "/", true)])), "");
    assert_eq!(
        show_requests(&config(vec![request("a", "/", true), request("b", "/b", false)])),
        "{\"index\": 1, \"name\": \"b\", \"url\": \"/b\"}"
    );
}

#[test]
fn completion_offers_the_names_and_the_options() {
    let c = config(vec![request("login", "/", false), request("log out", "/", true)]);
    assert_eq!(
        show_complete(&c),
        "complete -f -W 'login log out -f --file --show-headers --disable-redirect --complete -v --verbose' -X '!@(login|log|out|-f|--file|--show-headers|--disable-redirect|--complete|-v|--verbose|*.json)' ycurl"
    );
    assert_eq!(
        show_complete(&config(vec![])),
        "complete -f -W ' -f --file --show-headers --disable-redirect --complete -v --verbose' -X '!@(|-f|--file|--show-headers|--disable-redirect|--complete|-v|--verbose|*.json)' ycurl"
    );
}

#[test]
fn address_is_joined_to_the_base_unless_it_is_absolute() {
    let c = config(vec![]);
    assert_eq!(c.request_url(&request("a", "/v1/user", false)), "http://example.com/v1/user");
    assert_eq!(c.request_url(&request("a", "http://other.org/x", false)), "http://other.org/x");
    assert_eq!(c.request_url(&request("a", "https://other.org/x", false)), "https://other.org/x");
    assert_eq!(c.request_url(&request("a", "", false)), "http://example.com");
    assert_eq!(c.request_url(&request("a", "htt", false)), "http://example.comhtt");
    assert_eq!(c.request_url(&request("a", "httpx", false)), "httpx");
}

#[test]
fn request_headers_go_over_the_defaults() {
    let mut c = config(vec![]);
    c.default_headers = pairs(&[("accept", "*/*"), ("x", "1"), ("y", "2")]);
    let mut r = request("a", "/", false);
    r.headers = pairs(&[("x", "one"), ("z", "3"), ("z", "4")]);
    assert_eq!(
        c.request_headers(&r),
        pairs(&[("accept", "*/*"), ("x", "one"), ("y", "2"), ("z", "4")])
    );
    assert_eq!(c.request_headers(&request("b", "/", false)), c.default_headers);
}

#[test]
fn body_is_a_form_where_the_content_type_says_so() {
    let mut r = request("a", "/", false);
    let form = pairs(&[("content-type", "application/x-www-form-urlencoded; charset=utf-8")]);
    let json = pairs(&[("content-type", "application/json")]);
    assert_eq!(body_kind(&form, &r), BodyKind::Absent);
    r.body = Some(vec![("k".to_owned(), JsonValue::Null)]);
    assert_eq!(body_kind(&form, &r), BodyKind::Form);
    assert_eq!(body_kind(&json, &r), BodyKind::Document);
    assert_eq!(body_kind(&Vec::new(), &r), BodyKind::Document);
    assert_eq!(
        body_kind(&pairs(&[("content-type", "application/x-www-form-urlencode")]), &r),
        BodyKind::Document
    );
}

#[test]
fn request_is_chosen_by_index_or_by_name() {
    let c = config(vec![
        request("first", "/", false),
        request("2", "/", false),
        request("off", "/", true),
        request("first", "/again", false),
    ]);
    assert_eq!(c.select("0", false), Ok(0));
    assert_eq!(c.select("+3", false), Ok(3));
    assert_eq!(c.select("003", false), Ok(3));
    assert_eq!(c.select("4", false), Err(SelectError::IndexOutOfBounds));
    assert_eq!(c.select("first", false), Ok(0));
    assert_eq!(c.select("2", true), Ok(2));
    assert_eq!(c.select("2", false), Err(SelectError::Disabled));
    assert_eq!(c.select("off", false), Err(SelectError::Disabled));
    assert_eq!(c.select("off", true), Ok(2));
    assert_eq!(c.select("none", true), Err(SelectError::UnknownName));
    assert_eq!(c.select("", true), Err(SelectError::UnknownName));
    assert_eq!(c.select("-1", true), Err(SelectError::UnknownName));
    assert_eq!(c.select("99999999999999999999999999", true), Err(SelectError::UnknownName));
    assert_eq!(SelectError::IndexOutOfBounds.to_string(), "index out of bounds");
    assert_eq!(SelectError::UnknownName.to_string(), "no entry found for the name");
    assert_eq!(SelectError::Disabled.to_string(), "disabled request");
}

#[test]
fn index_is_read_as_the_standard_library_reads_it() {
    let max = usize::MAX.to_string();
    let over = format!("{}0", max);
    let next = {
        let mut digits: Vec<u8> = max.bytes().collect();
        let last = digits.len() - 1;
        digits[last] += 1;
        String::from_utf8(digits).unwrap()
    };
    for text in [
        "", "+", "-", "0", "+0", "-0", "00", "7", "+7", "++7", "+-7", "7+", " 7", "7 ", "1_000",
        "0x10", "12a", "a12", "٣", "１", "18446744073709551615", "18446744073709551616",
        "4294967295", "4294967296", max.as_str(), over.as_str(), next.as_str(),
    ] {
        assert_eq!(parse_index(text), text.parse::<usize>().ok(), "{:?}", text);
    }
    assert_eq!(parse_index("120"), Some(120));
}

#[test]
fn language_of_a_body_is_found() {
    assert_eq!(response_language("{\"a\": 1}"), Language::Json);
    assert_eq!(response_language("12"), Language::Json);
    assert_eq!(response_language("<html></html>"), Language::Html);
    assert_eq!(response_language("<"), Language::Html);
    assert_eq!(response_language(" <html>"), Language::Plain);
    assert_eq!(response_language("hello"), Language::Plain);
    assert_eq!(response_language(""), Language::Plain);
    assert!(is_blank(""));
    assert!(is_blank(" \n\t\r\u{3000}"));
    assert!(!is_blank(" x "));
    for text in ["", " ", "\u{85}", "\u{200b}", "\u{feff}", "a", "\u{2029}\u{1680}"] {
        assert_eq!(is_blank(text), text.trim().is_empty(), "{:?}", text);
    }
}

#[test]
fn arguments_are_plain_values() {
    let args = Args {
        file: "./ycurl.json".to_owned(),
        index: Some("1".to_owned()),
        show_headers: false,
        disable_redirect: true,
        include_disabled: false,
        show_config: false,
        complete: false,
        verbose: true,
    };
    assert_eq!(args.clone(), args);
    assert_eq!(args.index.as_deref(), Some("1"));
}
