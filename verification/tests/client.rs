use sqland::cli::args_to_settings;
use sqland::cli::offset_source;
use sqland::cli::OffsetSource;
use sqland::cli::Args;
use sqland::client::assemble;
use sqland::client::parse_static;
use sqland::client::HttpMethod;
use sqland::client::RequestBody;
use sqland::client::SQLand;
use sqland::client::SQLandBodyType;
use sqland::client::SQLandSettings;
use sqland::error::ConfigError;
use sqland::headers::parse_header;
use sqland::headers::value_is_valid;

fn strings(items: &[&str]) -> Vec<String> {
    items.iter().map(|s| s.to_string()).collect()
}

fn pairs(items: &[(&str, &str)]) -> Vec<(String, String)> {
    items.iter().map(|(k, v)| (k.to_string(), v.to_string())).collect()
}

fn settings() -> SQLandSettings {
    SQLandSettings { method: None, headers: None, cookies: None, params: None, data: None, body_type: None }
}

fn target(method: &str, params: &[&str], data: &[&str], body_type: Option<SQLandBodyType>) -> SQLand {
    let mut s = settings();
    s.method = Some(method.to_string());
    s.params = Some(strings(params));
    s.data = Some(strings(data));
    s.body_type = body_type;
    SQLand::new("http://example.com/search".to_string(), Some(s))
}

fn args() -> Args {
    Args {
        method: "get".to_string(),
        headers: Vec::new(),
        cookies: Vec::new(),
        params: Vec::new(),
        data: Vec::new(),
        json: false,
        form: false,
        offset: 0,
        offset_samples: 0,
        no_filtering: false,
        workers: 4,
        url: "http://example.com".to_string(),
    }
}

#[test]
fn settings_of_bare_arguments() {
    let s = args_to_settings(&args());
    assert_eq!(s.method, Some("get".to_string()));
    assert_eq!(s.headers, None);
    assert_eq!(s.cookies, None);
    assert_eq!(s.params, None);
    assert_eq!(s.data, None);
    assert_eq!(s.body_type, None);
}

#[test]
fn settings_carry_the_lists_over() {
    let mut a = args();
    a.method = String::new();
    a.headers = strings(&["X-A: 1"]);
    a.cookies = strings(&["sid=1", "lang=en"]);
    a.params = strings(&["id"]);
    a.data = strings(&["page=2"]);
    let s = args_to_settings(&a);
    assert_eq!(s.method, None);
    assert_eq!(s.headers, Some(strings(&["X-A: 1"])));
    assert_eq!(s.cookies, Some(strings(&["sid=1", "lang=en"])));
    assert_eq!(s.params, Some(strings(&["id"])));
    assert_eq!(s.data, Some(strings(&["page=2"])));
}

#[test]
fn settings_json_wins_over_form() {
    let mut a = args();
    a.form = true;
    assert_eq!(args_to_settings(&a).body_type, Some(SQLandBodyType::FORM));
    a.json = true;
    assert_eq!(args_to_settings(&a).body_type, Some(SQLandBodyType::JSON));
    a.form = false;
    assert_eq!(args_to_settings(&a).body_type, Some(SQLandBodyType::JSON));
}

#[test]
fn offset_comes_from_samples_when_asked_for() {
    let mut a = args();
    a.offset = 250;
    assert_eq!(offset_source(&a), OffsetSource::Fixed(250));
    a.offset_samples = 3;
    assert_eq!(offset_source(&a), OffsetSource::Sampled(3));
    a.offset_samples = u64::MAX as u128;
    assert_eq!(offset_source(&a), OffsetSource::Sampled(u64::MAX));
    a.offset_samples = u128::MAX;
    assert_eq!(offset_source(&a), OffsetSource::Sampled(u64::MAX));
}

#[test]
fn default_target_is_a_get_without_parameters() {
    let t = SQLand::new("http://example.com".to_string(), None);
    assert_eq!(t.method(), Ok(HttpMethod::Get));
    assert_eq!(t.parameters("x"), Ok(Vec::new()));
    assert_eq!(t.create_headers(), Ok(Vec::new()));
    let request = t.request("x").unwrap();
    assert_eq!(request.method, HttpMethod::Get);
    assert_eq!(request.url, "http://example.com/?");
    assert!(matches!(request.body, RequestBody::Empty));
}

#[test]
fn default_body_type_is_raw() {
    let mut s = settings();
    s.method = Some("post".to_string());
    s.params = Some(strings(&["id"]));
    let t = SQLand::new("http://example.com".to_string(), Some(s));
    let request = t.request("1").unwrap();
    assert!(matches!(request.body, RequestBody::Raw(ref text) if text == "{\"id\":\"1\"}"));
}

#[test]
fn method_is_matched_in_any_case() {
    for (name, method) in [
        ("get", HttpMethod::Get),
        ("GET", HttpMethod::Get),
        ("Delete", HttpMethod::Delete),
        ("oPtIoNs", HttpMethod::Options),
        ("post", HttpMethod::Post),
        ("Put", HttpMethod::Put),
        ("patch", HttpMethod::Patch),
    ] {
        assert_eq!(target(name, &[], &[], None).method(), Ok(method));
    }
}

#[test]
fn method_other_than_the_six_is_an_error() {
    for name in ["HEAD", "TRACE", "", "GET ", "connect"] {
        let t = target(name, &["id"], &[], None);
        assert_eq!(t.method(), Err(ConfigError::UnsupportedMethod));
        assert_eq!(t.request("x").err(), Some(ConfigError::UnsupportedMethod));
    }
}

#[test]
fn method_names_round_trip() {
    for method in [
        HttpMethod::Get,
        HttpMethod::Delete,
        HttpMethod::Options,
        HttpMethod::Post,
        HttpMethod::Put,
        HttpMethod::Patch,
    ] {
        assert_eq!(HttpMethod::parse(method.name()), Some(method));
    }
    assert_eq!(HttpMethod::parse("get"), None);
    assert!(!HttpMethod::Get.has_body());
    assert!(!HttpMethod::Delete.has_body());
    assert!(!HttpMethod::Options.has_body());
    assert!(HttpMethod::Post.has_body());
    assert!(HttpMethod::Put.has_body());
    assert!(HttpMethod::Patch.has_body());
}

#[test]
fn parameters_fuzzed_then_static() {
    let t = target("get", &["id", "name"], &["page=2"], None);
    assert_eq!(t.parameters("' OR 1=1"), Ok(pairs(&[("id", "' OR 1=1"), ("name", "' OR 1=1"), ("page", "2")])));
}

#[test]
fn parameters_static_value_overrides_payload() {
    let t = target("get", &["id", "page"], &["id=7"], None);
    assert_eq!(t.parameters("x"), Ok(pairs(&[("id", "7"), ("page", "x")])));
}

#[test]
fn parameters_last_static_value_wins() {
    let t = target("get", &[], &["a=1", "b=2", "a=3"], None);
    assert_eq!(t.parameters("x"), Ok(pairs(&[("a", "3"), ("b", "2")])));
}

#[test]
fn parameters_repeated_fuzzed_name_occurs_once() {
    let t = target("get", &["id", "id"], &[], None);
    assert_eq!(t.parameters("x"), Ok(pairs(&[("id", "x")])));
}

#[test]
fn parameters_static_without_equals_is_an_error() {
    let t = target("get", &["id"], &["a=1", "broken"], None);
    assert_eq!(t.parameters("x"), Err(ConfigError::MalformedParameter));
    assert_eq!(t.request("x").err(), Some(ConfigError::MalformedParameter));
}

#[test]
fn static_parameter_syntax() {
    assert_eq!(parse_static("a=1"), Some(("a".to_string(), "1".to_string())));
    assert_eq!(parse_static("a="), Some(("a".to_string(), String::new())));
    assert_eq!(parse_static("=1"), Some((String::new(), "1".to_string())));
    assert_eq!(parse_static("a=b=c"), Some(("a".to_string(), "b".to_string())));
    assert_eq!(parse_static(" a = 1 "), Some((" a ".to_string(), " 1 ".to_string())));
    assert_eq!(parse_static("a"), None);
    assert_eq!(parse_static(""), None);
}

#[test]
fn header_is_split_at_first_separator_and_trimmed() {
    assert_eq!(parse_header("X-Test: 1"), Ok(("x-test".to_string(), "1".to_string())));
    assert_eq!(parse_header("  Accept :   text/html  "), Ok(("accept".to_string(), "text/html".to_string())));
    assert_eq!(parse_header("X-A: b: c"), Ok(("x-a".to_string(), "b: c".to_string())));
    assert_eq!(parse_header("X-Empty: "), Ok(("x-empty".to_string(), String::new())));
    assert_eq!(parse_header("Content-Type: application/json"), Ok(("content-type".to_string(), "application/json".to_string())));
}

#[test]
fn header_without_separator_is_malformed() {
    assert_eq!(parse_header("X-Test:1"), Err(ConfigError::MalformedHeader));
    assert_eq!(parse_header("X-Test"), Err(ConfigError::MalformedHeader));
    assert_eq!(parse_header(""), Err(ConfigError::MalformedHeader));
    assert_eq!(parse_header(":"), Err(ConfigError::MalformedHeader));
}

#[test]
fn header_name_must_be_a_token() {
    assert_eq!(parse_header("X Test: 1"), Err(ConfigError::InvalidHeaderName));
    assert_eq!(parse_header(": 1"), Err(ConfigError::InvalidHeaderName));
    assert_eq!(parse_header("Ünicode: 1"), Err(ConfigError::InvalidHeaderName));
    assert_eq!(parse_header("a(b): 1"), Err(ConfigError::InvalidHeaderName));
    assert_eq!(parse_header("A!#$%&'*+-.^_`|~9: 1"), Ok(("a!#$%&'*+-.^_`|~9".to_string(), "1".to_string())));
}

#[test]
fn header_name_length_limit() {
    let longest = "a".repeat(65535);
    assert_eq!(parse_header(&format!("{}: 1", longest)), Ok((longest, "1".to_string())));
    let too_long = "a".repeat(65536);
    assert_eq!(parse_header(&format!("{}: 1", too_long)), Err(ConfigError::InvalidHeaderName));
    let capitals = "A".repeat(100);
    assert_eq!(parse_header(&format!("{}: 1", capitals)), Ok(("a".repeat(100), "1".to_string())));
}

#[test]
fn header_value_must_hold_no_control_character() {
    assert_eq!(parse_header("X-A: a\u{7f}b"), Err(ConfigError::InvalidHeaderValue));
    assert_eq!(parse_header("X-A: a\u{1}b"), Err(ConfigError::InvalidHeaderValue));
    assert_eq!(parse_header("X-A: a\nb"), Err(ConfigError::InvalidHeaderValue));
    assert_eq!(parse_header("X-A: a\tb"), Ok(("x-a".to_string(), "a\tb".to_string())));
    assert_eq!(parse_header("X-A: héllo"), Ok(("x-a".to_string(), "héllo".to_string())));
    assert!(value_is_valid("plain text"));
    assert!(value_is_valid(""));
    assert!(!value_is_valid("\r\n"));
}

#[test]
fn headers_without_cookies_have_no_cookie_header() {
    let mut s = settings();
    s.headers = Some(strings(&["X-A: 1", "Accept: */*"]));
    let t = SQLand::new("http://example.com".to_string(), Some(s));
    assert_eq!(t.create_headers(), Ok(pairs(&[("x-a", "1"), ("accept", "*/*")])));
}

#[test]
fn headers_cookies_are_joined() {
    let mut s = settings();
    s.headers = Some(strings(&["X-A: 1"]));
    s.cookies = Some(strings(&["sid=abc", "lang=en", "t=1"]));
    let t = SQLand::new("http://example.com".to_string(), Some(s));
    assert_eq!(t.joined_cookies(), "sid=abc; lang=en; t=1");
    assert_eq!(t.create_headers(), Ok(pairs(&[("x-a", "1"), ("cookie", "sid=abc; lang=en; t=1")])));
}

#[test]
fn headers_single_cookie() {
    let mut s = settings();
    s.cookies = Some(strings(&["sid=abc"]));
    let t = SQLand::new("http://example.com".to_string(), Some(s));
    assert_eq!(t.create_headers(), Ok(pairs(&[("cookie", "sid=abc")])));
}

#[test]
fn headers_later_header_replaces_earlier_one() {
    let mut s = settings();
    s.headers = Some(strings(&["X-A: 1", "X-B: 2", "x-a: 3", "Cookie: old=1"]));
    s.cookies = Some(strings(&["new=2"]));
    let t = SQLand::new("http://example.com".to_string(), Some(s));
    assert_eq!(t.create_headers(), Ok(pairs(&[("x-a", "3"), ("x-b", "2"), ("cookie", "new=2")])));
}

#[test]
fn headers_first_error_decides() {
    let mut s = settings();
    s.headers = Some(strings(&["X-A: 1", "bad name: 1", "nothing"]));
    let t = SQLand::new("http://example.com".to_string(), Some(s));
    assert_eq!(t.create_headers(), Err(ConfigError::InvalidHeaderName));
    assert_eq!(t.request("x").err(), Some(ConfigError::InvalidHeaderName));

    let mut s = settings();
    s.headers = Some(strings(&["nothing", "bad name: 1"]));
    let t = SQLand::new("http://example.com".to_string(), Some(s));
    assert_eq!(t.create_headers(), Err(ConfigError::MalformedHeader));
}

#[test]
fn headers_invalid_cookie_is_an_error() {
    let mut s = settings();
    s.cookies = Some(strings(&["sid=a\nb"]));
    let t = SQLand::new("http://example.com".to_string(), Some(s));
    assert_eq!(t.create_headers(), Err(ConfigError::InvalidHeaderValue));
}

#[test]
fn request_get_puts_parameters_in_the_query() {
    let t = target("get", &["id"], &["page=2"], Some(SQLandBodyType::JSON));
    let request = t.request("' OR SLEEP(5)--").unwrap();
    assert_eq!(request.method, HttpMethod::Get);
    assert_eq!(request.url, "http://example.com/search?id=%27+OR+SLEEP%285%29--&page=2");
    assert!(matches!(request.body, RequestBody::Empty));
    assert_eq!(request.headers, Vec::new());
}

#[test]
fn request_query_keeps_existing_parameters() {
    let mut s = settings();
    s.params = Some(strings(&["id"]));
    let t = SQLand::new("http://example.com/a?keep=1#frag".to_string(), Some(s));
    let request = t.request("x y").unwrap();
    assert_eq!(request.url, "http://example.com/a?keep=1&id=x+y#frag");
}

#[test]
fn request_delete_and_options_use_the_query() {
    for (name, method) in [("delete", HttpMethod::Delete), ("options", HttpMethod::Options)] {
        let request = target(name, &["id"], &[], None).request("1").unwrap();
        assert_eq!(request.method, method);
        assert_eq!(request.url, "http://example.com/search?id=1");
        assert!(matches!(request.body, RequestBody::Empty));
    }
}

#[test]
fn request_post_json_body() {
    let t = target("post", &["id"], &["page=2"], Some(SQLandBodyType::JSON));
    let request = t.request("x").unwrap();
    assert_eq!(request.method, HttpMethod::Post);
    assert_eq!(request.url, "http://example.com/search");
    assert!(matches!(request.body, RequestBody::Json(ref p) if *p == pairs(&[("id", "x"), ("page", "2")])));
}

#[test]
fn request_put_form_body() {
    let t = target("put", &["id"], &[], Some(SQLandBodyType::FORM));
    let request = t.request("a b").unwrap();
    assert_eq!(request.method, HttpMethod::Put);
    assert!(matches!(request.body, RequestBody::Form(ref p) if *p == pairs(&[("id", "a b")])));
}

#[test]
fn request_patch_raw_body_is_json_text() {
    let t = target("patch", &["id"], &["a=1"], Some(SQLandBodyType::RAW));
    let request = t.request("say \"hi\"").unwrap();
    assert_eq!(request.method, HttpMethod::Patch);
    assert!(matches!(request.body, RequestBody::Raw(ref text) if text == "{\"a\":\"1\",\"id\":\"say \\\"hi\\\"\"}"));
}

#[test]
fn request_url_is_normalised() {
    let mut s = settings();
    s.method = Some("post".to_string());
    let t = SQLand::new("HTTP://Example.COM".to_string(), Some(s));
    assert_eq!(t.request("x").unwrap().url, "http://example.com/");
}

#[test]
fn request_unparsable_url_is_an_error() {
    for method in ["get", "post"] {
        let mut s = settings();
        s.method = Some(method.to_string());
        s.params = Some(strings(&["id"]));
        let t = SQLand::new("not a url".to_string(), Some(s));
        assert_eq!(t.request("x").err(), Some(ConfigError::InvalidUrl));
    }
}

#[test]
fn request_carries_the_headers() {
    let mut s = settings();
    s.headers = Some(strings(&["X-Probe: yes"]));
    s.cookies = Some(strings(&["sid=1"]));
    s.params = Some(strings(&["id"]));
    let t = SQLand::new("http://example.com".to_string(), Some(s));
    let request = t.request("1").unwrap();
    assert_eq!(request.headers, pairs(&[("x-probe", "yes"), ("cookie", "sid=1")]));
}

#[test]
fn request_too_large_for_a_query() {
    let mut s = settings();
    s.params = Some(strings(&["id"]));
    let long_url = format!("http://example.com/{}", "a".repeat(0x10_0000));
    let t = SQLand::new(long_url, Some(s));
    assert_eq!(t.request("x").err(), Some(ConfigError::RequestTooLarge));
}

#[test]
fn request_largest_url_for_a_query() {
    let mut s = settings();
    s.params = Some(strings(&["id"]));
    let prefix = "http://example.com/";
    let url = format!("{}{}", prefix, "a".repeat(0x10_0000 - prefix.len()));
    let t = SQLand::new(url.clone(), Some(s));
    assert_eq!(t.request("x").unwrap().url, format!("{}?id=x", url));
}

#[test]
fn errors_are_looked_for_in_order() {
    let mut s = settings();
    s.method = Some("head".to_string());
    s.headers = Some(strings(&["broken"]));
    s.data = Some(strings(&["broken"]));
    let t = SQLand::new("not a url".to_string(), Some(s));
    assert_eq!(t.request("x").err(), Some(ConfigError::MalformedHeader));

    let mut s = settings();
    s.method = Some("head".to_string());
    s.data = Some(strings(&["broken"]));
    let t = SQLand::new("not a url".to_string(), Some(s));
    assert_eq!(t.request("x").err(), Some(ConfigError::MalformedParameter));

    let mut s = settings();
    s.method = Some("head".to_string());
    let t = SQLand::new("not a url".to_string(), Some(s));
    assert_eq!(t.request("x").err(), Some(ConfigError::UnsupportedMethod));
}

#[test]
fn assemble_without_url_is_an_error() {
    let r = assemble(HttpMethod::Get, Vec::new(), Vec::new(), SQLandBodyType::RAW, None, None);
    assert_eq!(r.err(), Some(ConfigError::InvalidUrl));
    let r = assemble(HttpMethod::Post, Vec::new(), Vec::new(), SQLandBodyType::RAW, None, None);
    assert_eq!(r.err(), Some(ConfigError::InvalidUrl));
}

#[test]
fn assemble_raw_body_without_text_is_an_error() {
    let url = Some("http://example.com/".to_string());
    let r = assemble(HttpMethod::Post, Vec::new(), Vec::new(), SQLandBodyType::RAW, url, None);
    assert_eq!(r.err(), Some(ConfigError::UnencodableBody));
}

#[test]
fn assemble_picks_the_body_by_method_and_encoding() {
    let url = || Some("http://example.com/".to_string());
    let params = || pairs(&[("id", "1")]);
    let raw = || Some("{}".to_string());

    let r = assemble(HttpMethod::Get, Vec::new(), params(), SQLandBodyType::JSON, url(), raw()).unwrap();
    assert!(matches!(r.body, RequestBody::Empty));
    let r = assemble(HttpMethod::Post, Vec::new(), params(), SQLandBodyType::JSON, url(), raw()).unwrap();
    assert!(matches!(r.body, RequestBody::Json(ref p) if *p == params()));
    let r = assemble(HttpMethod::Post, Vec::new(), params(), SQLandBodyType::FORM, url(), None).unwrap();
    assert!(matches!(r.body, RequestBody::Form(ref p) if *p == params()));
    let r = assemble(HttpMethod::Put, pairs(&[("a", "b")]), params(), SQLandBodyType::RAW, url(), raw()).unwrap();
    assert!(matches!(r.body, RequestBody::Raw(ref text) if text == "{}"));
    assert_eq!(r.headers, pairs(&[("a", "b")]));
    assert_eq!(r.url, "http://example.com/");
    assert_eq!(r.method, HttpMethod::Put);
}
