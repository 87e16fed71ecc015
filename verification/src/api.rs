//! The server's HTTP API: where each request goes, and how failures read.

use vstd::prelude::*;
use crate::text::{
    format_i64, lemma_trim_end_char, push_str, joined_with, signed_decimal, trim_end_char,
    trim_end_char_str,
};

verus! {

/// `reqwest::Client`: a pool of HTTP connections, carried through unread.
#[verifier::external_type_specification]
#[verifier::external_body]
pub struct ExHttpClient(reqwest::Client);

/// Makes the HTTP client that the API requests go through.
///
/// Trusted: calls `reqwest::Client::builder().build()`, the fallible form of
/// `reqwest::Client::new`, and turns its error into its text. Nothing is
/// claimed: whether a client can be built (a TLS backend initialised, the
/// system's resolver configuration loaded) depends on the machine, not on
/// any argument.
#[verifier::external_body]
fn build_http_client() -> Result<reqwest::Client, String> {
    reqwest::Client::builder().build().map_err(|e| e.to_string())
}

/// The characters of an optional string slice.
pub open spec fn opt_view(o: Option<&str>) -> Option<Seq<char>> {
    match o {
        Some(s) => Some(s@),
        None => None,
    }
}

/// A `name=value` query parameter when the value is given, else nothing.
pub open spec fn text_param(name: Seq<char>, value: Option<Seq<char>>) -> Seq<Seq<char>> {
    match value {
        Some(v) => seq![name + v],
        None => seq![],
    }
}

/// A `name=number` query parameter when the number is given, else nothing.
pub open spec fn number_param(name: Seq<char>, value: Option<i64>) -> Seq<Seq<char>> {
    match value {
        Some(v) => seq![name + signed_decimal(v as int)],
        None => seq![],
    }
}

/// The query parameters of a notification listing, in order: status,
/// priority, since, limit, offset, each only when given.
pub open spec fn list_params(
    status: Option<Seq<char>>,
    priority: Option<Seq<char>>,
    since: Option<Seq<char>>,
    limit: Option<i64>,
    offset: Option<i64>,
) -> Seq<Seq<char>> {
    text_param("status="@, status) + text_param("priority="@, priority) + text_param(
        "since="@,
        since,
    ) + number_param("limit="@, limit) + number_param("offset="@, offset)
}

/// The address of a notification listing: the collection, then `?` and the
/// parameters joined by `&` when there are any.
pub open spec fn spec_list_url(base_url: Seq<char>, params: Seq<Seq<char>>) -> Seq<char> {
    let url = base_url + "/api/notifications/"@;
    if params.len() == 0 {
        url
    } else {
        url + seq!['?'] + joined_with(params, seq!['&'])
    }
}

/// The characters of each string of a list.
pub open spec fn strings_view(v: Seq<String>) -> Seq<Seq<char>> {
    v.map_values(|s: String| s@)
}

/// Joins strings with a separator between consecutive ones.
pub fn join_strings(parts: &Vec<String>, sep: &str) -> (r: String)
    ensures
        r@ == joined_with(strings_view(parts@), sep@),
{
    let ghost views = strings_view(parts@);
    let mut r = String::new();
    let n: usize = parts.len();
    let mut i: usize = 0;
    while i < n
        invariant
            n == parts@.len(),
            i <= n,
            views == strings_view(parts@),
            r@ == joined_with(views.take(i as int), sep@),
        decreases n - i,
    {
        proof {
            assert(views.take(i + 1).drop_last() =~= views.take(i as int));
            assert(views.take(i + 1).last() == parts@[i as int]@);
        }
        if i != 0 {
            push_str(&mut r, sep);
        } else {
            assert(r@ =~= Seq::<char>::empty());
        }
        push_str(&mut r, parts[i].as_str());
        proof {
            if i == 0 {
                assert(r@ =~= views.take(1)[0]);
            }
        }
        i = i + 1;
    }
    proof {
        assert(views.take(n as int) =~= views);
    }
    r
}

fn push_text_param(params: &mut Vec<String>, name: &str, value: Option<&str>)
    ensures
        strings_view(final(params)@) == strings_view(old(params)@) + text_param(name@, opt_view(value)),
{
    match value {
        Some(v) => {
            let mut p = String::from_str(name);
            push_str(&mut p, v);
            params.push(p);
        },
        None => {},
    }
    assert(strings_view(params@) =~= strings_view(old(params)@) + text_param(name@, opt_view(value)));
}

fn push_number_param(params: &mut Vec<String>, name: &str, value: Option<i64>)
    ensures
        strings_view(final(params)@) == strings_view(old(params)@) + number_param(name@, value),
{
    match value {
        Some(v) => {
            let mut p = String::from_str(name);
            let digits = format_i64(v);
            push_str(&mut p, digits.as_str());
            params.push(p);
        },
        None => {},
    }
    assert(strings_view(params@) =~= strings_view(old(params)@) + number_param(name@, value));
}

/// Talks to the notification server on behalf of one user.
pub struct ApiClient {
    client: reqwest::Client,
    base_url: String,
    token: String,
}

impl ApiClient {
    /// The server's address, without trailing `/`.
    pub closed spec fn spec_base_url(&self) -> Seq<char> {
        self.base_url@
    }

    /// The API token sent as bearer credential.
    pub closed spec fn spec_token(&self) -> Seq<char> {
        self.token@
    }

    /// A client for the server at `base_url`, whose trailing `/` are dropped,
    /// authenticating with `token`; a network error when no HTTP client can
    /// be built on this machine.
    pub fn new(base_url: &str, token: &str) -> (r: Result<Self, ApiError>)
        ensures
            r matches Ok(c) ==> c.spec_base_url() == trim_end_char(base_url@, '/')
                && c.spec_token() == token@,
            r matches Err(e) ==> e is Network,
    {
        let trimmed = trim_end_char_str(base_url, '/');
        match build_http_client() {
            Ok(client) => Ok(
                ApiClient {
                    client,
                    base_url: String::from_str(trimmed),
                    token: String::from_str(token),
                },
            ),
            Err(e) => Err(ApiError::Network(e)),
        }
    }

    /// The server's address.
    pub fn base_url(&self) -> (r: &str)
        ensures
            r@ == self.spec_base_url(),
    {
        self.base_url.as_str()
    }

    /// The API token.
    pub fn token(&self) -> (r: &str)
        ensures
            r@ == self.spec_token(),
    {
        self.token.as_str()
    }

    /// The HTTP client that requests go through.
    pub closed spec fn spec_client(&self) -> reqwest::Client {
        self.client
    }

    /// The HTTP client that requests go through.
    pub fn client(&self) -> (r: &reqwest::Client)
        ensures
            *r == self.spec_client(),
    {
        &self.client
    }

    /// The address that tells whose token this is.
    pub fn me_url(&self) -> (url: String)
        ensures
            url@ == self.spec_base_url() + "/api/me"@,
    {
        let mut url = self.base_url.clone();
        push_str(&mut url, "/api/me");
        url
    }

    /// The address of one notification.
    pub fn notification_url(&self, id: &str) -> (url: String)
        ensures
            url@ == self.spec_base_url() + "/api/notifications/"@ + id@,
    {
        let mut url = self.base_url.clone();
        push_str(&mut url, "/api/notifications/");
        push_str(&mut url, id);
        url
    }

    /// The address of a notification listing with the given filters.
    pub fn list_notifications_url(
        &self,
        status: Option<&str>,
        priority: Option<&str>,
        since: Option<&str>,
        limit: Option<i64>,
        offset: Option<i64>,
    ) -> (url: String)
        ensures
            url@ == spec_list_url(
                self.spec_base_url(),
                list_params(opt_view(status), opt_view(priority), opt_view(since), limit, offset),
            ),
    {
        let mut params: Vec<String> = Vec::new();
        assert(strings_view(params@) =~= Seq::<Seq<char>>::empty());
        push_text_param(&mut params, "status=", status);
        push_text_param(&mut params, "priority=", priority);
        push_text_param(&mut params, "since=", since);
        push_number_param(&mut params, "limit=", limit);
        push_number_param(&mut params, "offset=", offset);
        proof {
            assert(strings_view(params@) =~= list_params(
                opt_view(status),
                opt_view(priority),
                opt_view(since),
                limit,
                offset,
            ));
        }
        let mut url = self.base_url.clone();
        push_str(&mut url, "/api/notifications/");
        if params.len() > 0 {
            push_str(&mut url, "?");
            let joined = join_strings(&params, "&");
            push_str(&mut url, joined.as_str());
            proof {
                reveal_strlit("?");
                reveal_strlit("&");
                assert("&"@ =~= seq!['&']);
                assert("?"@ =~= seq!['?']);
            }
        }
        url
    }
}

/// Why a request to the server failed.
#[derive(Debug, Clone)]
pub enum ApiError {
    /// The request could not be sent or its answer not received.
    Network(String),
    /// The server answered with a status other than success.
    Status { status: String, body: String },
    /// The answer could not be read as what was asked for.
    Parse(String),
}

impl ApiError {
    /// The text that reports this failure.
    pub open spec fn spec_message(&self) -> Seq<char> {
        match self {
            ApiError::Network(e) => "Network error: "@ + e@,
            ApiError::Status { status, body } => "API error "@ + status@ + ": "@ + body@,
            ApiError::Parse(e) => "Parse error: "@ + e@,
        }
    }

    /// The text that reports this failure.
    pub fn message(&self) -> (m: String)
        ensures
            m@ == self.spec_message(),
            self matches ApiError::Network(e) ==> m@ == "Network error: "@ + e@,
            self matches ApiError::Status { status, body } ==> m@ == "API error "@ + status@
                + ": "@ + body@,
            self matches ApiError::Parse(e) ==> m@ == "Parse error: "@ + e@,
    {
        match self {
            ApiError::Network(e) => {
                let mut m = String::from_str("Network error: ");
                push_str(&mut m, e.as_str());
                m
            },
            ApiError::Status { status, body } => {
                let mut m = String::from_str("API error ");
                push_str(&mut m, status.as_str());
                push_str(&mut m, ": ");
                push_str(&mut m, body.as_str());
                m
            },
            ApiError::Parse(e) => {
                let mut m = String::from_str("Parse error: ");
                push_str(&mut m, e.as_str());
                m
            },
        }
    }
}

/// A client's address never ends with `/`, so the paths appended to it never
/// double the separator, and making a client from its own address keeps the
/// address.
pub proof fn lemma_base_url_trimmed(base_url: Seq<char>)
    ensures
        trim_end_char(base_url, '/').len() > 0 ==> trim_end_char(base_url, '/').last() != '/',
        trim_end_char(trim_end_char(base_url, '/'), '/') == trim_end_char(base_url, '/'),
{
    lemma_trim_end_char(base_url, '/');
}

/// How many of the listing's filters are given among status, priority and
/// since.
pub open spec fn count_given(a: Option<Seq<char>>, b: Option<Seq<char>>) -> int {
    (if a is Some { 1int } else { 0int }) + (if b is Some { 1int } else { 0int })
}

/// Each filter of a listing appears among its parameters exactly when it is
/// given, as `name=value`, whatever the other filters are: giving it inserts
/// its parameter right after the parameters of the filters before it in the
/// order status, priority, since, limit, offset, and changes nothing else.
pub proof fn lemma_list_params_filters(
    status: Option<Seq<char>>,
    priority: Option<Seq<char>>,
    since: Option<Seq<char>>,
    limit: Option<i64>,
    offset: Option<i64>,
    text: Seq<char>,
    n: i64,
)
    ensures
        list_params(None, None, None, None, None) == Seq::<Seq<char>>::empty(),
        list_params(Some(text), priority, since, limit, offset) == list_params(
            None,
            priority,
            since,
            limit,
            offset,
        ).insert(0, "status="@ + text),
        list_params(status, Some(text), since, limit, offset) == list_params(
            status,
            None,
            since,
            limit,
            offset,
        ).insert(count_given(status, None), "priority="@ + text),
        list_params(status, priority, Some(text), limit, offset) == list_params(
            status,
            priority,
            None,
            limit,
            offset,
        ).insert(count_given(status, priority), "since="@ + text),
        list_params(status, priority, since, Some(n), offset) == list_params(
            status,
            priority,
            since,
            None,
            offset,
        ).insert(count_given(status, priority) + count_given(since, None), "limit="@ + signed_decimal(n as int)),
        list_params(status, priority, since, limit, Some(n)) == list_params(
            status,
            priority,
            since,
            limit,
            None,
        ).push("offset="@ + signed_decimal(n as int)),
{
    let e = Seq::<Seq<char>>::empty();
    assert(list_params(None, None, None, None, None) =~= e);
    let a = text_param("status="@, status);
    let b = text_param("priority="@, priority);
    let c = text_param("since="@, since);
    let d = number_param("limit="@, limit);
    let f = number_param("offset="@, offset);
    assert(a.len() == count_given(status, None));
    assert(a.len() + b.len() == count_given(status, priority));
    assert(c.len() == count_given(since, None));
    assert(list_params(Some(text), priority, since, limit, offset) == list_params(
        None,
        priority,
        since,
        limit,
        offset,
    ).insert(0, "status="@ + text)) by {
        lemma_insert_between(e, b + c + d + f, "status="@ + text);
        assert(list_params(Some(text), priority, since, limit, offset) =~= seq!["status="@ + text]
            + (b + c + d + f));
        assert(list_params(None, priority, since, limit, offset) =~= e + (b + c + d + f));
    }
    assert(list_params(status, Some(text), since, limit, offset) == list_params(
        status,
        None,
        since,
        limit,
        offset,
    ).insert(count_given(status, None), "priority="@ + text)) by {
        lemma_insert_between(a, c + d + f, "priority="@ + text);
        assert(list_params(status, Some(text), since, limit, offset) =~= a + seq![
            "priority="@ + text,
        ] + (c + d + f));
        assert(list_params(status, None, since, limit, offset) =~= a + (c + d + f));
    }
    assert(list_params(status, priority, Some(text), limit, offset) == list_params(
        status,
        priority,
        None,
        limit,
        offset,
    ).insert(count_given(status, priority), "since="@ + text)) by {
        lemma_insert_between(a + b, d + f, "since="@ + text);
        assert(list_params(status, priority, Some(text), limit, offset) =~= (a + b) + seq![
            "since="@ + text,
        ] + (d + f));
        assert(list_params(status, priority, None, limit, offset) =~= (a + b) + (d + f));
    }
    assert(list_params(status, priority, since, Some(n), offset) == list_params(
        status,
        priority,
        since,
        None,
        offset,
    ).insert(
        count_given(status, priority) + count_given(since, None),
        "limit="@ + signed_decimal(n as int),
    )) by {
        lemma_insert_between(a + b + c, f, "limit="@ + signed_decimal(n as int));
        assert(list_params(status, priority, since, Some(n), offset) =~= (a + b + c) + seq![
            "limit="@ + signed_decimal(n as int),
        ] + f);
        assert(list_params(status, priority, since, None, offset) =~= (a + b + c) + f);
    }
    assert(list_params(status, priority, since, limit, Some(n)) == list_params(
        status,
        priority,
        since,
        limit,
        None,
    ).push("offset="@ + signed_decimal(n as int))) by {
        assert(list_params(status, priority, since, limit, Some(n)) =~= (a + b + c + d).push(
            "offset="@ + signed_decimal(n as int),
        ));
        assert(list_params(status, priority, since, limit, None) =~= a + b + c + d);
    }
}

proof fn lemma_insert_between(x: Seq<Seq<char>>, y: Seq<Seq<char>>, item: Seq<char>)
    ensures
        (x + y).insert(x.len() as int, item) == x + seq![item] + y,
{
    assert((x + y).insert(x.len() as int, item) =~= x + seq![item] + y);
}

/// The listing address without parameters is the collection itself; each
/// further parameter is appended, after `?` for the first and after `&` for
/// the others.
pub proof fn lemma_list_url_appends(base_url: Seq<char>, params: Seq<Seq<char>>, param: Seq<char>)
    ensures
        spec_list_url(base_url, Seq::<Seq<char>>::empty()) == base_url + "/api/notifications/"@,
        params.len() == 0 ==> spec_list_url(base_url, params.push(param)) == spec_list_url(
            base_url,
            params,
        ) + seq!['?'] + param,
        params.len() > 0 ==> spec_list_url(base_url, params.push(param)) == spec_list_url(
            base_url,
            params,
        ) + seq!['&'] + param,
{
    let q = params.push(param);
    assert(q.drop_last() =~= params);
    assert(q.last() == param);
    if params.len() == 0 {
        assert(joined_with(q, seq!['&']) == param);
    } else {
        assert(joined_with(q, seq!['&']) == joined_with(params, seq!['&']) + seq!['&'] + param);
        let u = base_url + "/api/notifications/"@;
        assert(u + seq!['?'] + (joined_with(params, seq!['&']) + seq!['&'] + param) =~= u + seq!['?']
            + joined_with(params, seq!['&']) + seq!['&'] + param);
    }
}

} // verus!
