//! The probed target: its configuration and the requests built from it.

use vstd::prelude::*;
use vstd::string::StringExecFns;

use crate::calibrate::baseline;
use crate::calibrate::lemma_first_other_status_is;
use crate::calibrate::lemma_total_elapsed_bound;
use crate::calibrate::total_elapsed;
use crate::calibrate::CalibrationError;
use crate::calibrate::Sample;
use crate::encode::absolute_url;
use crate::encode::fits_query;
use crate::encode::json_object;
use crate::encode::json_text;
use crate::encode::parse_url;
use crate::encode::parse_url_with_params;
use crate::encode::query_fits;
use crate::encode::url_with_query;
use crate::error::ConfigError;
use crate::headers::cookie_header_name;
use crate::headers::header_list;
use crate::headers::join_cookies;
use crate::headers::parse_header;
use crate::headers::plain_headers;
use crate::headers::value_is_valid;
use crate::pairs::distinct_keys;
use crate::pairs::lemma_upsert;
use crate::pairs::lookup;
use crate::pairs::upsert;
use crate::pairs::upsert_pair;
use crate::text::ascii_upper;
use crate::text::chars_of;
use crate::text::find_char;
use crate::text::first_index;
use crate::text::is_ascii_text;
use crate::text::same_text;
use crate::text::slice_text;
use crate::text::to_uppercase;
use crate::text::uppercase;

verus! {

/// Time allowed for connecting to the target, in milliseconds.
pub const CONNECT_TIMEOUT_MS: u64 = 10_000;

/// How the parameters of a mutating request are encoded into its body.
#[derive(Debug, Clone, Copy, PartialEq, Eq, Structural)]
pub enum SQLandBodyType {
    /// A JSON object.
    JSON,
    /// URL-form-encoded pairs.
    FORM,
    /// JSON text sent as an untyped body.
    RAW,
}

/// Optional settings of a target; an absent setting takes its default.
pub struct SQLandSettings {
    pub method: Option<String>,
    pub headers: Option<Vec<String>>,
    pub cookies: Option<Vec<String>>,
    pub params: Option<Vec<String>>,
    pub data: Option<Vec<String>>,
    pub body_type: Option<SQLandBodyType>,
}

/// What a target is, as plain mathematical values.
pub struct Target {
    /// The method as configured, in whatever letter case it was given.
    pub method: Seq<char>,
    /// Raw `name: value` header strings, in order.
    pub headers: Seq<Seq<char>>,
    /// Raw cookie strings, in order.
    pub cookies: Seq<Seq<char>>,
    /// Names of the parameters that receive the payload.
    pub params: Seq<Seq<char>>,
    /// Static `key=value` parameters.
    pub data: Seq<Seq<char>>,
    /// Encoding of the body of a mutating request.
    pub body_type: SQLandBodyType,
    /// The URL to probe.
    pub url: Seq<char>,
}

/// The methods a target can be probed with.
#[derive(Debug, Clone, Copy, PartialEq, Eq, Structural)]
pub enum HttpMethod {
    Get,
    Delete,
    Options,
    Post,
    Put,
    Patch,
}

impl HttpMethod {
    /// Whether the parameters travel in the body (POST, PUT, PATCH) rather than in the
    /// query string (GET, DELETE, OPTIONS).
    pub open spec fn carries_body(self) -> bool {
        self is Post || self is Put || self is Patch
    }

    /// The method that an upper-case name stands for, if it is a supported one.
    pub open spec fn from_name(upper: Seq<char>) -> Option<HttpMethod> {
        if upper == seq!['G', 'E', 'T'] {
            Some(HttpMethod::Get)
        } else if upper == seq!['D', 'E', 'L', 'E', 'T', 'E'] {
            Some(HttpMethod::Delete)
        } else if upper == seq!['O', 'P', 'T', 'I', 'O', 'N', 'S'] {
            Some(HttpMethod::Options)
        } else if upper == seq!['P', 'O', 'S', 'T'] {
            Some(HttpMethod::Post)
        } else if upper == seq!['P', 'U', 'T'] {
            Some(HttpMethod::Put)
        } else if upper == seq!['P', 'A', 'T', 'C', 'H'] {
            Some(HttpMethod::Patch)
        } else {
            None
        }
    }

    /// Reads an upper-case method name.
    pub fn parse(upper: &str) -> (method: Option<HttpMethod>)
        ensures
            method == Self::from_name(upper@),
    {
        proof {
            reveal_strlit("GET");
            reveal_strlit("DELETE");
            reveal_strlit("OPTIONS");
            reveal_strlit("POST");
            reveal_strlit("PUT");
            reveal_strlit("PATCH");
            assert("GET"@ =~= seq!['G', 'E', 'T']);
            assert("DELETE"@ =~= seq!['D', 'E', 'L', 'E', 'T', 'E']);
            assert("OPTIONS"@ =~= seq!['O', 'P', 'T', 'I', 'O', 'N', 'S']);
            assert("POST"@ =~= seq!['P', 'O', 'S', 'T']);
            assert("PUT"@ =~= seq!['P', 'U', 'T']);
            assert("PATCH"@ =~= seq!['P', 'A', 'T', 'C', 'H']);
        }
        if same_text(upper, "GET") {
            Some(HttpMethod::Get)
        } else if same_text(upper, "DELETE") {
            Some(HttpMethod::Delete)
        } else if same_text(upper, "OPTIONS") {
            Some(HttpMethod::Options)
        } else if same_text(upper, "POST") {
            Some(HttpMethod::Post)
        } else if same_text(upper, "PUT") {
            Some(HttpMethod::Put)
        } else if same_text(upper, "PATCH") {
            Some(HttpMethod::Patch)
        } else {
            None
        }
    }

    /// Whether the parameters travel in the body.
    pub fn has_body(&self) -> (b: bool)
        ensures
            b == self.carries_body(),
    {
        match self {
            HttpMethod::Post | HttpMethod::Put | HttpMethod::Patch => true,
            _ => false,
        }
    }

    /// The upper-case name of the method.
    pub fn name(&self) -> (name: &'static str)
        ensures
            Self::from_name(name@) == Some(*self),
    {
        proof {
            reveal_strlit("GET");
            reveal_strlit("DELETE");
            reveal_strlit("OPTIONS");
            reveal_strlit("POST");
            reveal_strlit("PUT");
            reveal_strlit("PATCH");
            assert("GET"@ =~= seq!['G', 'E', 'T']);
            assert("DELETE"@ =~= seq!['D', 'E', 'L', 'E', 'T', 'E']);
            assert("OPTIONS"@ =~= seq!['O', 'P', 'T', 'I', 'O', 'N', 'S']);
            assert("POST"@ =~= seq!['P', 'O', 'S', 'T']);
            assert("PUT"@ =~= seq!['P', 'U', 'T']);
            assert("PATCH"@ =~= seq!['P', 'A', 'T', 'C', 'H']);
        }
        match self {
            HttpMethod::Get => "GET",
            HttpMethod::Delete => "DELETE",
            HttpMethod::Options => "OPTIONS",
            HttpMethod::Post => "POST",
            HttpMethod::Put => "PUT",
            HttpMethod::Patch => "PATCH",
        }
    }
}

/// The name and value of a static parameter `key=value`: the name is the text before
/// the first `=`, the value the text after it, up to a second `=` if there is one. A
/// string without `=` is no static parameter.
pub open spec fn static_pair(entry: Seq<char>) -> Option<(Seq<char>, Seq<char>)> {
    let eq = first_index(entry, '=');
    if eq >= entry.len() {
        None
    } else {
        let rest = entry.subrange(eq + 1, entry.len() as int);
        Some((entry.subrange(0, eq), rest.subrange(0, first_index(rest, '='))))
    }
}

/// The parameters that carry the payload: every fuzzed name, in order, once.
pub open spec fn fuzzed_pairs(names: Seq<Seq<char>>, payload: Seq<char>) -> Seq<
    (Seq<char>, Seq<char>),
>
    decreases names.len(),
{
    if names.len() == 0 {
        Seq::empty()
    } else {
        upsert(fuzzed_pairs(names.drop_last(), payload), names.last(), payload)
    }
}

/// `list` with the static parameters of `data` set in order, so that a static value
/// replaces a payload or an earlier static value of the same name; none where a string of
/// `data` is no static parameter.
pub open spec fn with_static(list: Seq<(Seq<char>, Seq<char>)>, data: Seq<Seq<char>>) -> Option<
    Seq<(Seq<char>, Seq<char>)>,
>
    decreases data.len(),
{
    if data.len() == 0 {
        Some(list)
    } else {
        match with_static(list, data.drop_last()) {
            None => None,
            Some(before) => match static_pair(data.last()) {
                None => None,
                Some(pair) => Some(upsert(before, pair.0, pair.1)),
            },
        }
    }
}

/// The parameters of one request: the fuzzed names with the payload, then the static
/// parameters, which win where a name occurs twice.
pub open spec fn parameter_list(
    names: Seq<Seq<char>>,
    data: Seq<Seq<char>>,
    payload: Seq<char>,
) -> Option<Seq<(Seq<char>, Seq<char>)>> {
    with_static(fuzzed_pairs(names, payload), data)
}

/// The body of a request.
pub enum RequestBody {
    /// No body: the parameters are in the query string.
    Empty,
    /// The parameters, to be sent as a JSON object.
    Json(Vec<(String, String)>),
    /// The parameters, to be sent form-encoded.
    Form(Vec<(String, String)>),
    /// JSON text, to be sent as it is, without a content type.
    Raw(String),
}

/// A request body as plain mathematical values.
pub enum BodyModel {
    Empty,
    Json(Seq<(Seq<char>, Seq<char>)>),
    Form(Seq<(Seq<char>, Seq<char>)>),
    Raw(Seq<char>),
}

impl View for RequestBody {
    type V = BodyModel;

    open spec fn view(&self) -> BodyModel {
        match self {
            RequestBody::Empty => BodyModel::Empty,
            RequestBody::Json(pairs) => BodyModel::Json(pairs.deep_view()),
            RequestBody::Form(pairs) => BodyModel::Form(pairs.deep_view()),
            RequestBody::Raw(text) => BodyModel::Raw(text@),
        }
    }
}

/// One request, ready to be sent.
pub struct Request {
    pub method: HttpMethod,
    /// The absolute URL, with the query string where the method carries no body.
    pub url: String,
    /// Header names in small letters with their values; every name once.
    pub headers: Vec<(String, String)>,
    pub body: RequestBody,
}

/// A request as plain mathematical values.
pub struct RequestModel {
    pub method: HttpMethod,
    pub url: Seq<char>,
    pub headers: Seq<(Seq<char>, Seq<char>)>,
    pub body: BodyModel,
}

impl View for Request {
    type V = RequestModel;

    open spec fn view(&self) -> RequestModel {
        RequestModel {
            method: self.method,
            url: self.url@,
            headers: self.headers.deep_view(),
            body: self.body@,
        }
    }
}

/// The request that comes of the parts once the URL and, for a raw body, the JSON text
/// have been encoded: `url` and `raw` are the outcomes of the two encodings. A URL that
/// did not parse is an error; so is, for a raw body, JSON text that could not be written.
pub open spec fn encoded_request(
    method: HttpMethod,
    headers: Seq<(Seq<char>, Seq<char>)>,
    params: Seq<(Seq<char>, Seq<char>)>,
    body_type: SQLandBodyType,
    url: Option<Seq<char>>,
    raw: Option<Seq<char>>,
) -> Result<RequestModel, ConfigError> {
    match url {
        None => Err(ConfigError::InvalidUrl),
        Some(url) => if !method.carries_body() {
            Ok(RequestModel { method, url, headers, body: BodyModel::Empty })
        } else {
            match body_type {
                SQLandBodyType::JSON => Ok(
                    RequestModel { method, url, headers, body: BodyModel::Json(params) },
                ),
                SQLandBodyType::FORM => Ok(
                    RequestModel { method, url, headers, body: BodyModel::Form(params) },
                ),
                SQLandBodyType::RAW => match raw {
                    None => Err(ConfigError::UnencodableBody),
                    Some(text) => Ok(
                        RequestModel { method, url, headers, body: BodyModel::Raw(text) },
                    ),
                },
            }
        },
    }
}

/// The request that a target sends for a payload. Errors are looked for in this order:
/// headers, static parameters, method, size, URL, body.
pub open spec fn request_of(t: Target, payload: Seq<char>) -> Result<RequestModel, ConfigError> {
    match header_list(t.headers, t.cookies) {
        Err(e) => Err(e),
        Ok(headers) => match parameter_list(t.params, t.data, payload) {
            None => Err(ConfigError::MalformedParameter),
            Some(params) => match HttpMethod::from_name(uppercase(t.method)) {
                None => Err(ConfigError::UnsupportedMethod),
                Some(method) => if method.carries_body() {
                    encoded_request(
                        method,
                        headers,
                        params,
                        t.body_type,
                        absolute_url(t.url),
                        json_object(params),
                    )
                } else if !fits_query(t.url, params) {
                    Err(ConfigError::RequestTooLarge)
                } else {
                    encoded_request(
                        method,
                        headers,
                        params,
                        t.body_type,
                        url_with_query(t.url, params),
                        None,
                    )
                },
            },
        },
    }
}

/// An immutable target configuration.
pub struct SQLand {
    method: String,
    headers: Vec<String>,
    cookies: Vec<String>,
    params: Vec<String>,
    data: Vec<String>,
    body_type: SQLandBodyType,
    url: String,
}

/// The elements of an optional list; none when the list is absent.
pub open spec fn list_or_empty(v: Option<Seq<Seq<char>>>) -> Seq<Seq<char>> {
    match v {
        Some(list) => list,
        None => Seq::empty(),
    }
}

/// The method of a target whose settings name none.
pub open spec fn default_method() -> Seq<char> {
    seq!['G', 'E', 'T']
}

/// The target that `url` and `settings` describe: each absent setting takes its default,
/// which is `GET` for the method, the raw encoding for the body, and the empty list for
/// the rest.
pub open spec fn target_of(url: Seq<char>, settings: Option<SQLandSettings>) -> Target {
    match settings {
        Some(s) => Target {
            method: match s.method {
                Some(m) => m@,
                None => default_method(),
            },
            headers: list_or_empty(s.headers.deep_view()),
            cookies: list_or_empty(s.cookies.deep_view()),
            params: list_or_empty(s.params.deep_view()),
            data: list_or_empty(s.data.deep_view()),
            body_type: match s.body_type {
                Some(b) => b,
                None => SQLandBodyType::RAW,
            },
            url,
        },
        None => Target {
            method: default_method(),
            headers: Seq::empty(),
            cookies: Seq::empty(),
            params: Seq::empty(),
            data: Seq::empty(),
            body_type: SQLandBodyType::RAW,
            url,
        },
    }
}

impl View for SQLand {
    type V = Target;

    closed spec fn view(&self) -> Target {
        Target {
            method: self.method@,
            headers: self.headers.deep_view(),
            cookies: self.cookies.deep_view(),
            params: self.params.deep_view(),
            data: self.data.deep_view(),
            body_type: self.body_type,
            url: self.url@,
        }
    }
}

fn strings_or_empty(v: Option<Vec<String>>) -> (list: Vec<String>)
    ensures
        list.deep_view() == list_or_empty(v.deep_view()),
{
    match v {
        Some(list) => list,
        None => {
            let list: Vec<String> = Vec::new();
            assert(list.deep_view() =~= Seq::<Seq<char>>::empty());
            list
        },
    }
}

/// Reads one static parameter.
pub fn parse_static(entry: &str) -> (pair: Option<(String, String)>)
    ensures
        pair.deep_view() == static_pair(entry@),
{
    let chars = chars_of(entry);
    let n = chars.len();
    let eq = find_char(&chars, 0, n, '=');
    assert(chars@.subrange(0, n as int) =~= chars@);
    if eq >= n {
        return None;
    }
    let end = find_char(&chars, eq + 1, n, '=');
    let key = slice_text(entry, 0, eq);
    let value = slice_text(entry, eq + 1, end);
    proof {
        let rest = entry@.subrange(eq + 1, n as int);
        assert(rest.subrange(0, end - (eq + 1)) =~= entry@.subrange(eq + 1, end as int));
    }
    Some((key, value))
}

/// Completes a request from its parts and the outcomes of the two encodings.
pub fn assemble(
    method: HttpMethod,
    headers: Vec<(String, String)>,
    params: Vec<(String, String)>,
    body_type: SQLandBodyType,
    url: Option<String>,
    raw: Option<String>,
) -> (r: Result<Request, ConfigError>)
    ensures
        match r {
            Ok(request) => encoded_request(
                method,
                headers.deep_view(),
                params.deep_view(),
                body_type,
                url.deep_view(),
                raw.deep_view(),
            ) == Ok::<RequestModel, ConfigError>(request@),
            Err(e) => encoded_request(
                method,
                headers.deep_view(),
                params.deep_view(),
                body_type,
                url.deep_view(),
                raw.deep_view(),
            ) == Err::<RequestModel, ConfigError>(e),
        },
{
    let url = match url {
        Some(url) => url,
        None => {
            return Err(ConfigError::InvalidUrl);
        },
    };
    if !method.has_body() {
        return Ok(Request { method, url, headers, body: RequestBody::Empty });
    }
    match body_type {
        SQLandBodyType::JSON => Ok(Request { method, url, headers, body: RequestBody::Json(params) }),
        SQLandBodyType::FORM => Ok(Request { method, url, headers, body: RequestBody::Form(params) }),
        SQLandBodyType::RAW => match raw {
            Some(text) => Ok(Request { method, url, headers, body: RequestBody::Raw(text) }),
            None => Err(ConfigError::UnencodableBody),
        },
    }
}

impl SQLand {
    /// Builds the target for `url` from optional settings.
    pub fn new(url: String, settings: Option<SQLandSettings>) -> (target: SQLand)
        ensures
            target@ == target_of(url@, settings),
    {
        let settings = match settings {
            Some(s) => s,
            None => SQLandSettings {
                body_type: None,
                cookies: None,
                data: None,
                headers: None,
                method: None,
                params: None,
            },
        };
        let method = match settings.method {
            Some(m) => m,
            None => {
                proof {
                    reveal_strlit("GET");
                }
                let m = String::from_str("GET");
                assert(m@ =~= default_method());
                m
            },
        };
        let body_type = match settings.body_type {
            Some(b) => b,
            None => SQLandBodyType::RAW,
        };
        SQLand {
            method,
            body_type,
            headers: strings_or_empty(settings.headers),
            cookies: strings_or_empty(settings.cookies),
            params: strings_or_empty(settings.params),
            data: strings_or_empty(settings.data),
            url,
        }
    }

    /// The headers of every request to this target, the cookie header included.
    pub fn create_headers(&self) -> (r: Result<Vec<(String, String)>, ConfigError>)
        ensures
            match r {
                Ok(list) => header_list(self@.headers, self@.cookies) == Ok::<
                    Seq<(Seq<char>, Seq<char>)>,
                    ConfigError,
                >(list.deep_view()) && distinct_keys(list.deep_view()),
                Err(e) => header_list(self@.headers, self@.cookies) == Err::<
                    Seq<(Seq<char>, Seq<char>)>,
                    ConfigError,
                >(e),
            },
    {
        let ghost lines = self.headers.deep_view();
        let mut list: Vec<(String, String)> = Vec::new();
        assert(list.deep_view() =~= Seq::<(Seq<char>, Seq<char>)>::empty());
        let mut i: usize = 0;
        while i < self.headers.len()
            invariant
                i <= self.headers.len(),
                lines == self.headers.deep_view(),
                plain_headers(lines.take(i as int)) == Ok::<
                    Seq<(Seq<char>, Seq<char>)>,
                    ConfigError,
                >(list.deep_view()),
                distinct_keys(list.deep_view()),
            decreases self.headers.len() - i,
        {
            proof {
                let next = lines.take(i + 1);
                assert(next.drop_last() =~= lines.take(i as int));
                assert(next.last() == self.headers@[i as int]@);
            }
            match parse_header(self.headers[i].as_str()) {
                Ok(entry) => {
                    upsert_pair(&mut list, entry.0, entry.1);
                },
                Err(e) => {
                    proof {
                        lemma_plain_headers_error(lines, i + 1);
                    }
                    return Err(e);
                },
            }
            i += 1;
        }
        assert(lines.take(i as int) =~= lines);
        if self.cookies.len() == 0 {
            return Ok(list);
        }
        let joined = self.joined_cookies();
        if !value_is_valid(joined.as_str()) {
            return Err(ConfigError::InvalidHeaderValue);
        }
        proof {
            reveal_strlit("cookie");
            assert("cookie"@ =~= cookie_header_name());
        }
        upsert_pair(&mut list, String::from_str("cookie"), joined);
        Ok(list)
    }

    /// The cookies of this target joined by `"; "`.
    pub fn joined_cookies(&self) -> (joined: String)
        ensures
            joined@ == join_cookies(self@.cookies),
    {
        let ghost all = self.cookies.deep_view();
        let mut joined = String::new();
        let mut i: usize = 0;
        while i < self.cookies.len()
            invariant
                i <= self.cookies.len(),
                all == self.cookies.deep_view(),
                joined@ == join_cookies(all.take(i as int)),
            decreases self.cookies.len() - i,
        {
            proof {
                let next = all.take(i + 1);
                assert(next.drop_last() =~= all.take(i as int));
                assert(next.last() == self.cookies@[i as int]@);
                reveal_strlit("; ");
                assert("; "@ =~= seq![';', ' ']);
                if i == 0 {
                    assert(next[0] == next.last());
                }
            }
            if i > 0 {
                joined.append("; ");
            }
            joined.append(self.cookies[i].as_str());
            proof {
                if i == 0 {
                    assert(joined@ =~= self.cookies@[0]@);
                }
            }
            i += 1;
        }
        assert(all.take(i as int) =~= all);
        joined
    }

    /// The parameters of the request that carries `payload`.
    pub fn parameters(&self, payload: &str) -> (r: Result<Vec<(String, String)>, ConfigError>)
        ensures
            match r {
                Ok(list) => parameter_list(self@.params, self@.data, payload@) == Some(
                    list.deep_view(),
                ) && distinct_keys(list.deep_view()),
                Err(e) => e == ConfigError::MalformedParameter && parameter_list(
                    self@.params,
                    self@.data,
                    payload@,
                ) is None,
            },
    {
        let ghost names = self.params.deep_view();
        let ghost data = self.data.deep_view();
        let mut list: Vec<(String, String)> = Vec::new();
        assert(list.deep_view() =~= Seq::<(Seq<char>, Seq<char>)>::empty());
        let mut i: usize = 0;
        while i < self.params.len()
            invariant
                i <= self.params.len(),
                names == self.params.deep_view(),
                list.deep_view() == fuzzed_pairs(names.take(i as int), payload@),
                distinct_keys(list.deep_view()),
            decreases self.params.len() - i,
        {
            proof {
                let next = names.take(i + 1);
                assert(next.drop_last() =~= names.take(i as int));
                assert(next.last() == self.params@[i as int]@);
            }
            upsert_pair(&mut list, self.params[i].clone(), String::from_str(payload));
            i += 1;
        }
        assert(names.take(i as int) =~= names);
        let ghost fuzzed = list.deep_view();
        let mut j: usize = 0;
        while j < self.data.len()
            invariant
                j <= self.data.len(),
                data == self.data.deep_view(),
                fuzzed == fuzzed_pairs(self@.params, payload@),
                with_static(fuzzed, data.take(j as int)) == Some(list.deep_view()),
                distinct_keys(list.deep_view()),
            decreases self.data.len() - j,
        {
            proof {
                let next = data.take(j + 1);
                assert(next.drop_last() =~= data.take(j as int));
                assert(next.last() == self.data@[j as int]@);
            }
            match parse_static(self.data[j].as_str()) {
                Some(pair) => {
                    upsert_pair(&mut list, pair.0, pair.1);
                },
                None => {
                    proof {
                        lemma_with_static_none(fuzzed, data, j + 1);
                    }
                    return Err(ConfigError::MalformedParameter);
                },
            }
            j += 1;
        }
        assert(data.take(j as int) =~= data);
        Ok(list)
    }

    /// The method of this target, which is matched in any letter case.
    pub fn method(&self) -> (r: Result<HttpMethod, ConfigError>)
        ensures
            match r {
                Ok(method) => HttpMethod::from_name(uppercase(self@.method)) == Some(method),
                Err(e) => e == ConfigError::UnsupportedMethod && HttpMethod::from_name(
                    uppercase(self@.method),
                ) is None,
            },
            is_ascii_text(self@.method) ==> uppercase(self@.method) == ascii_upper(self@.method),
    {
        let upper = to_uppercase(self.method.as_str());
        match HttpMethod::parse(upper.as_str()) {
            Some(method) => Ok(method),
            None => Err(ConfigError::UnsupportedMethod),
        }
    }

    /// The latency baseline that warm-up samples give: their mean elapsed time, rounded
    /// down; zero without samples; an error where their status codes differ.
    pub fn calculate_avg_res_time(samples: &Vec<Sample>) -> (r: Result<u128, CalibrationError>)
        ensures
            match r {
                Ok(offset) => baseline(samples@) == Ok::<nat, CalibrationError>(offset as nat),
                Err(e) => baseline(samples@) == Err::<nat, CalibrationError>(e),
            },
    {
        let n = samples.len();
        if n == 0 {
            return Ok(0);
        }
        let expected = samples[0].status;
        let mut total: u128 = 0;
        let mut i: usize = 0;
        while i < n
            invariant
                i <= n,
                n == samples.len(),
                n > 0,
                expected == samples@[0].status,
                total == total_elapsed(samples@.take(i as int)),
                forall|k: int| 0 <= k < i ==> (#[trigger] samples@[k]).status == expected,
            decreases n - i,
        {
            let sample = samples[i];
            if sample.status != expected {
                proof {
                    lemma_first_other_status_is(samples@, expected, i as int);
                }
                return Err(CalibrationError::StatusMismatch { expected, received: sample.status });
            }
            proof {
                let next = samples@.take(i + 1);
                assert(next.drop_last() =~= samples@.take(i as int));
                assert(next.last() == samples@[i as int]);
                lemma_total_elapsed_bound(next);
                assert(next.len() * 0xFFFF_FFFF_FFFF_FFFF <= u128::MAX) by (nonlinear_arith)
                    requires
                        next.len() <= 0xFFFF_FFFF_FFFF_FFFF,
                ;
            }
            total = total + sample.elapsed_ms as u128;
            i += 1;
        }
        proof {
            assert(samples@.take(n as int) =~= samples@);
            lemma_first_other_status_is(samples@, expected, n as int);
        }
        Ok(total / (n as u128))
    }

    /// The request that carries `payload` in every fuzzed parameter.
    pub fn request(&self, payload: &str) -> (r: Result<Request, ConfigError>)
        ensures
            match r {
                Ok(request) => request_of(self@, payload@) == Ok::<RequestModel, ConfigError>(
                    request@,
                ),
                Err(e) => request_of(self@, payload@) == Err::<RequestModel, ConfigError>(e),
            },
            is_ascii_text(self@.method) ==> uppercase(self@.method) == ascii_upper(self@.method),
    {
        let method = self.method();
        let headers = match self.create_headers() {
            Ok(headers) => headers,
            Err(e) => {
                return Err(e);
            },
        };
        let params = match self.parameters(payload) {
            Ok(params) => params,
            Err(e) => {
                return Err(e);
            },
        };
        let method = match method {
            Ok(method) => method,
            Err(e) => {
                return Err(e);
            },
        };
        if method.has_body() {
            let url = match parse_url(self.url.as_str()) {
                Ok(url) => Some(url),
                Err(_) => None,
            };
            let raw = match self.body_type {
                SQLandBodyType::RAW => match json_text(&params) {
                    Ok(text) => Some(text),
                    Err(_) => None,
                },
                _ => None,
            };
            assemble(method, headers, params, self.body_type, url, raw)
        } else {
            if !query_fits(self.url.as_str(), &params) {
                return Err(ConfigError::RequestTooLarge);
            }
            let url = match parse_url_with_params(self.url.as_str(), &params) {
                Ok(url) => Some(url),
                Err(_) => None,
            };
            assemble(method, headers, params, self.body_type, url, None)
        }
    }
}

/// Once a prefix of the raw header strings is in error, so is the whole list, with the
/// same error.
proof fn lemma_plain_headers_error(lines: Seq<Seq<char>>, n: int)
    requires
        0 <= n <= lines.len(),
        plain_headers(lines.take(n)) is Err,
    ensures
        plain_headers(lines) == plain_headers(lines.take(n)),
    decreases lines.len() - n,
{
    if n == lines.len() {
        assert(lines.take(n) =~= lines);
    } else {
        assert(lines.drop_last().take(n) =~= lines.take(n));
        lemma_plain_headers_error(lines.drop_last(), n);
    }
}

/// Once a prefix of the static parameters holds a string that is none, the whole list
/// gives no parameters.
proof fn lemma_with_static_none(
    list: Seq<(Seq<char>, Seq<char>)>,
    data: Seq<Seq<char>>,
    n: int,
)
    requires
        0 <= n <= data.len(),
        with_static(list, data.take(n)) is None,
    ensures
        with_static(list, data) is None,
    decreases data.len() - n,
{
    if n == data.len() {
        assert(data.take(n) =~= data);
    } else {
        assert(data.drop_last().take(n) =~= data.take(n));
        lemma_with_static_none(list, data.drop_last(), n);
    }
}

/// The value of the last static parameter in `data` that is named `key`, if any.
pub open spec fn static_value(data: Seq<Seq<char>>, key: Seq<char>) -> Option<Seq<char>>
    decreases data.len(),
{
    if data.len() == 0 {
        None
    } else {
        match static_pair(data.last()) {
            Some(pair) => if pair.0 == key {
                Some(pair.1)
            } else {
                static_value(data.drop_last(), key)
            },
            None => static_value(data.drop_last(), key),
        }
    }
}

/// The fuzzed names, each once, all with the payload.
pub proof fn lemma_fuzzed_pairs(names: Seq<Seq<char>>, payload: Seq<char>, key: Seq<char>)
    ensures
        distinct_keys(fuzzed_pairs(names, payload)),
        lookup(fuzzed_pairs(names, payload), key) == (if names.contains(key) {
            Some(payload)
        } else {
            None
        }),
    decreases names.len(),
{
    if names.len() == 0 {
    } else {
        let before = names.drop_last();
        lemma_fuzzed_pairs(before, payload, key);
        lemma_upsert(fuzzed_pairs(before, payload), names.last(), payload);
        if key != names.last() {
            if names.contains(key) {
                let i = choose|i: int| 0 <= i < names.len() && names[i] == key;
                assert(before[i] == key);
            }
            if before.contains(key) {
                let i = choose|i: int| 0 <= i < before.len() && before[i] == key;
                assert(names[i] == key);
            }
        } else {
            assert(names[names.len() - 1] == key);
        }
    }
}

/// The parameter map of a request: every name occurs once; a name among the static
/// parameters has the value of the last of them; any other fuzzed name has the payload;
/// no other name occurs.
pub proof fn lemma_parameter_lookup(
    names: Seq<Seq<char>>,
    data: Seq<Seq<char>>,
    payload: Seq<char>,
    key: Seq<char>,
)
    requires
        parameter_list(names, data, payload) is Some,
    ensures
        distinct_keys(parameter_list(names, data, payload)->0),
        lookup(parameter_list(names, data, payload)->0, key) == (match static_value(data, key) {
            Some(value) => Some(value),
            None => if names.contains(key) {
                Some(payload)
            } else {
                None
            },
        }),
    decreases data.len(),
{
    if data.len() == 0 {
        lemma_fuzzed_pairs(names, payload, key);
    } else {
        let before = with_static(fuzzed_pairs(names, payload), data.drop_last());
        lemma_parameter_lookup(names, data.drop_last(), payload, key);
        let pair = static_pair(data.last())->0;
        lemma_upsert(before->0, pair.0, pair.1);
    }
}

} // verus!
