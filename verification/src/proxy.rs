//! The bearer auth proxy's decisions ("the lock"): which requests may pass,
//! what is forwarded to Ollama, and what the client gets back.
//!
//! The proxy listens on `127.0.0.1:PROXY_PORT`, requires
//! `Authorization: Bearer <token>`, and forwards authorized requests to
//! Ollama at `127.0.0.1:11434`; unauthorized requests get `401`. The server
//! loop itself lives with the I/O; it hands each request to [`forward`] and
//! each upstream outcome to [`relay`].

use vstd::prelude::*;
use vstd::utf8::encode_utf8;

use crate::text::opt_view;

verus! {

/// The loopback port the proxy listens on.
pub const PROXY_PORT: u16 = 11435;

/// The Ollama endpoint that authorized requests are forwarded to.
pub open spec fn upstream_base() -> Seq<char> {
    "http://127.0.0.1:11434"@
}

/// One HTTP header: its name in lower case, as HTTP header maps hold names,
/// and its raw value bytes.
pub struct Header {
    /// The header name, lower case.
    pub name: String,
    /// The header value, as raw bytes.
    pub value: Vec<u8>,
}

impl View for Header {
    type V = (Seq<char>, Seq<u8>);

    open spec fn view(&self) -> (Seq<char>, Seq<u8>) {
        (self.name@, self.value@)
    }
}

/// The views of a list of headers, in order.
pub open spec fn header_views(hs: Seq<Header>) -> Seq<(Seq<char>, Seq<u8>)> {
    hs.map_values(|h: Header| h@)
}

/// The first value of the header called `name`, if any.
pub open spec fn first_value(hs: Seq<(Seq<char>, Seq<u8>)>, name: Seq<char>) -> Option<Seq<u8>>
    decreases hs.len(),
{
    if hs.len() == 0 {
        None
    } else if hs[0].0 == name {
        Some(hs[0].1)
    } else {
        first_value(hs.drop_first(), name)
    }
}

/// A header value that reads as text: visible ASCII or tab only.
pub open spec fn visible_ascii(v: Seq<u8>) -> bool {
    forall|i: int| 0 <= i < v.len() ==> (32 <= #[trigger] v[i] < 127 || v[i] == 9)
}

/// The bytes of `Bearer ` (with its trailing space).
pub open spec fn bearer_prefix() -> Seq<u8> {
    seq![66u8, 101u8, 97u8, 114u8, 101u8, 114u8, 32u8]
}

/// Whether an `Authorization` value grants access with `token`: it must read
/// as text and be exactly `Bearer ` followed by the token's UTF-8 bytes.
pub open spec fn bearer_grants(value: Option<Seq<u8>>, token: Seq<char>) -> bool {
    match value {
        Some(v) => visible_ascii(v) && v == bearer_prefix() + encode_utf8(token),
        None => false,
    }
}

/// Whether the request's headers carry `Authorization: Bearer <token>`
/// (the first `Authorization` header counts).
pub open spec fn request_authorized(headers: Seq<Header>, token: Seq<char>) -> bool {
    bearer_grants(first_value(header_views(headers), "authorization"@), token)
}

/// Whether `headers` grant access with `token`: the first `Authorization`
/// header reads as text and equals `Bearer <token>` byte for byte.
pub fn authorized(headers: &Vec<Header>, token: &str) -> (b: bool)
    ensures
        b == request_authorized(headers@, token@),
{
    let auth = String::from_str("authorization");
    let ghost hv = header_views(headers@);
    let mut i: usize = 0;
    assert(hv.skip(0) =~= hv);
    while i < headers.len()
        invariant
            i <= headers@.len(),
            hv == header_views(headers@),
            auth@ == "authorization"@,
            first_value(hv, auth@) == first_value(hv.skip(i as int), auth@),
        decreases headers@.len() - i,
    {
        assert(hv.skip(i as int)[0] == headers@[i as int]@);
        assert(hv.skip(i as int).drop_first() =~= hv.skip(i + 1));
        if headers[i].name == auth {
            return bearer_value_grants(&headers[i].value, token);
        }
        i = i + 1;
    }
    assert(hv.skip(i as int).len() == 0);
    false
}

/// Whether one `Authorization` value grants access with `token`.
fn bearer_value_grants(value: &Vec<u8>, token: &str) -> (b: bool)
    ensures
        b == bearer_grants(Some(value@), token@),
{
    let mut i: usize = 0;
    while i < value.len()
        invariant
            i <= value@.len(),
            forall|k: int| 0 <= k < i ==> (32 <= #[trigger] value@[k] < 127 || value@[k] == 9),
        decreases value@.len() - i,
    {
        let c = value[i];
        if !((32 <= c && c < 127) || c == 9) {
            return false;
        }
        i = i + 1;
    }
    let t = token.as_bytes();
    let prefix: [u8; 7] = [66, 101, 97, 114, 101, 114, 32];
    assert(prefix@ =~= bearer_prefix());
    if t.len() > usize::MAX - 7 || value.len() != 7 + t.len() {
        proof {
            if value@ == bearer_prefix() + encode_utf8(token@) {
                assert(value@.len() == 7 + t@.len());
            }
        }
        return false;
    }
    let mut j: usize = 0;
    while j < value.len()
        invariant
            value@.len() == 7 + t@.len(),
            t@ == encode_utf8(token@),
            prefix@ == bearer_prefix(),
            j <= value@.len(),
            forall|k: int|
                0 <= k < j ==> #[trigger] value@[k] == (bearer_prefix() + encode_utf8(token@))[k],
        decreases value@.len() - j,
    {
        let expected = if j < 7 {
            prefix[j]
        } else {
            t[j - 7]
        };
        if value[j] != expected {
            return false;
        }
        j = j + 1;
    }
    assert(value@ =~= bearer_prefix() + encode_utf8(token@));
    true
}

/// The headers of `hs` whose name is neither `a` nor `b`, in order.
pub open spec fn kept_headers(hs: Seq<(Seq<char>, Seq<u8>)>, a: Seq<char>, b: Seq<char>) -> Seq<
    (Seq<char>, Seq<u8>),
>
    decreases hs.len(),
{
    if hs.len() == 0 {
        seq![]
    } else {
        let rest = kept_headers(hs.drop_last(), a, b);
        if hs.last().0 == a || hs.last().0 == b {
            rest
        } else {
            rest.push(hs.last())
        }
    }
}

/// A copy of one header.
fn copy_header(h: &Header) -> (c: Header)
    ensures
        c@ == h@,
{
    let mut value: Vec<u8> = Vec::new();
    let mut i: usize = 0;
    while i < h.value.len()
        invariant
            i <= h.value@.len(),
            value@ == h.value@.take(i as int),
        decreases h.value@.len() - i,
    {
        value.push(h.value[i]);
        assert(value@ =~= h.value@.take(i + 1));
        i = i + 1;
    }
    assert(h.value@.take(i as int) =~= h.value@);
    Header { name: h.name.clone(), value }
}

/// Copies of the headers in `hs` whose name is neither `a` nor `b`.
fn strip_headers(hs: &Vec<Header>, a: &String, b: &String) -> (r: Vec<Header>)
    ensures
        header_views(r@) == kept_headers(header_views(hs@), a@, b@),
{
    let mut r: Vec<Header> = Vec::new();
    let mut i: usize = 0;
    while i < hs.len()
        invariant
            i <= hs@.len(),
            header_views(r@) == kept_headers(header_views(hs@).take(i as int), a@, b@),
        decreases hs@.len() - i,
    {
        let ghost before = header_views(r@);
        assert(header_views(hs@).take(i + 1).drop_last() =~= header_views(hs@).take(i as int));
        assert(header_views(hs@).take(i + 1).last() == hs@[i as int]@);
        if !(hs[i].name == *a) && !(hs[i].name == *b) {
            let c = copy_header(&hs[i]);
            r.push(c);
            assert(header_views(r@) =~= before.push(hs@[i as int]@));
        }
        i = i + 1;
    }
    assert(header_views(hs@).take(i as int) =~= header_views(hs@));
    r
}

/// A request as the proxy receives it.
pub struct ProxyRequest {
    /// The request method, such as `GET` or `POST`.
    pub method: String,
    /// The request target's path and query (`None` when the target has none).
    pub path_and_query: Option<String>,
    /// The request headers, in order.
    pub headers: Vec<Header>,
}

/// What the proxy does next.
pub enum ProxyAction {
    /// Answer the client directly with `status` and a plain-text `body`.
    Respond { status: u16, body: String },
    /// Send the request, with this method, these headers and its body, to
    /// `url`.
    SendUpstream { method: String, url: String, headers: Vec<Header> },
    /// Answer the client with Ollama's `status` and these headers, streaming
    /// Ollama's body through.
    Relay { status: u16, headers: Vec<Header> },
}

/// The path and query, or `/` when there is none.
pub open spec fn path_or_root(pq: Option<Seq<char>>) -> Seq<char> {
    match pq {
        Some(p) => p,
        None => "/"@,
    }
}

/// The upstream URL for a request target: Ollama's base, then the same path
/// and query.
pub open spec fn upstream_url(pq: Option<Seq<char>>) -> Seq<char> {
    upstream_base() + path_or_root(pq)
}

/// What the proxy does with `req` when the access key is `token`.
pub open spec fn forward_spec(req: ProxyRequest, token: Seq<char>, a: ProxyAction) -> bool {
    if request_authorized(req.headers@, token) {
        a matches ProxyAction::SendUpstream { method, url, headers } && method@ == req.method@
            && url@ == upstream_url(
            opt_view(req.path_and_query),
        ) && header_views(headers@) == kept_headers(
            header_views(req.headers@),
            "authorization"@,
            "host"@,
        )
    } else {
        a matches ProxyAction::Respond { status, body } && status == 401 && body@
            == "unauthorized"@
    }
}

/// The lock: an unauthorized request is answered `401 unauthorized`; an
/// authorized one goes to Ollama with the same method, path and query, without its
/// `Authorization` and `Host` headers.
pub fn forward(req: &ProxyRequest, token: &str) -> (a: ProxyAction)
    ensures
        forward_spec(*req, token@, a),
{
    if !authorized(&req.headers, token) {
        return ProxyAction::Respond { status: 401, body: String::from_str("unauthorized") };
    }
    let mut url = String::from_str("http://127.0.0.1:11434");
    match &req.path_and_query {
        Some(pq) => url.append(pq.as_str()),
        None => url.append("/"),
    }
    let headers = strip_headers(
        &req.headers,
        &String::from_str("authorization"),
        &String::from_str("host"),
    );
    ProxyAction::SendUpstream { method: req.method.clone(), url, headers }
}

/// How the upstream side of a forwarded request went.
pub enum UpstreamOutcome {
    /// The client's request body could not be read.
    BodyUnreadable,
    /// Ollama could not be reached.
    Unreachable,
    /// Ollama answered with `status` and these headers.
    Answered { status: u16, headers: Vec<Header> },
}

/// What the client gets back for an upstream `outcome`.
pub open spec fn relay_spec(outcome: UpstreamOutcome, a: ProxyAction) -> bool {
    match outcome {
        UpstreamOutcome::BodyUnreadable => a matches ProxyAction::Respond { status, body }
            && status == 502 && body@ == "bad request body"@,
        UpstreamOutcome::Unreachable => a matches ProxyAction::Respond { status, body } && status
            == 502 && body@ == "upstream unreachable"@,
        UpstreamOutcome::Answered { status, headers } => a matches ProxyAction::Relay {
            status: s,
            headers: hs,
        } && s == status && header_views(hs@) == kept_headers(
            header_views(headers@),
            "transfer-encoding"@,
            "transfer-encoding"@,
        ),
    }
}

/// The answer to the client: `502` when the request body could not be read
/// or Ollama could not be reached; otherwise Ollama's status and headers,
/// less `Transfer-Encoding` (the body is re-framed as it streams through).
pub fn relay(outcome: UpstreamOutcome) -> (a: ProxyAction)
    ensures
        relay_spec(outcome, a),
        outcome is Answered ==> a is Relay && a->Relay_status == outcome->Answered_status,
        !(outcome is Answered) ==> a is Respond && a->Respond_status == 502,
{
    match outcome {
        UpstreamOutcome::BodyUnreadable => ProxyAction::Respond {
            status: 502,
            body: String::from_str("bad request body"),
        },
        UpstreamOutcome::Unreachable => ProxyAction::Respond {
            status: 502,
            body: String::from_str("upstream unreachable"),
        },
        UpstreamOutcome::Answered { status, headers } => {
            let te = String::from_str("transfer-encoding");
            let hs = strip_headers(&headers, &te, &te);
            ProxyAction::Relay { status, headers: hs }
        },
    }
}

/// Whatever Ollama answers, the client gets Ollama's own status, whether
/// success or error (404, 400, 500, ...); only a failure on the proxy's side
/// (unreadable request body, unreachable Ollama) is answered `502` by the
/// proxy itself.
pub proof fn lemma_relay_keeps_status(outcome: UpstreamOutcome, a: ProxyAction)
    requires
        relay_spec(outcome, a),
    ensures
        outcome is Answered ==> a is Relay && a->Relay_status == outcome->Answered_status,
        !(outcome is Answered) ==> a is Respond && a->Respond_status == 502,
{
}

/// Ollama's headers reach the client unchanged except `Transfer-Encoding`:
/// every relayed header is one Ollama sent, none is `transfer-encoding`, and
/// every other header Ollama sent is relayed.
pub proof fn lemma_relay_keeps_headers(outcome: UpstreamOutcome, a: ProxyAction)
    requires
        relay_spec(outcome, a),
        outcome is Answered,
    ensures
        a is Relay,
        forall|i: int|
            0 <= i < header_views(a->Relay_headers@).len() ==> {
                &&& #[trigger] header_views(a->Relay_headers@)[i].0 != "transfer-encoding"@
                &&& header_views(outcome->Answered_headers@).contains(
                    header_views(a->Relay_headers@)[i],
                )
            },
        forall|i: int|
            0 <= i < header_views(outcome->Answered_headers@).len() && #[trigger] header_views(
                outcome->Answered_headers@,
            )[i].0 != "transfer-encoding"@ ==> header_views(a->Relay_headers@).contains(
                header_views(outcome->Answered_headers@)[i],
            ),
{
    let sent = header_views(a->Relay_headers@);
    let got = header_views(outcome->Answered_headers@);
    let kept = kept_headers(got, "transfer-encoding"@, "transfer-encoding"@);
    assert(sent == kept);
    lemma_kept_headers(got, "transfer-encoding"@, "transfer-encoding"@);
    assert forall|i: int| 0 <= i < sent.len() implies {
        &&& #[trigger] sent[i].0 != "transfer-encoding"@
        &&& got.contains(sent[i])
    } by {
        assert(sent[i] == kept[i]);
    }
}

/// The lock in terms of the request itself: a request is sent on to Ollama
/// exactly when its first `Authorization` header is, byte for byte, visible
/// ASCII reading `Bearer ` and the key; every other request is answered
/// `401 unauthorized`.
pub proof fn lemma_forward_is_the_lock(req: ProxyRequest, token: Seq<char>, a: ProxyAction)
    requires
        forward_spec(req, token, a),
    ensures
        (a is SendUpstream) == (first_value(header_views(req.headers@), "authorization"@) matches Some(v)
            && v == bearer_prefix() + encode_utf8(token) && forall|i: int|
            0 <= i < v.len() ==> (32 <= #[trigger] v[i] < 127 || v[i] == 9)),
        !(a is SendUpstream) ==> a is Respond && a->Respond_status == 401 && a->Respond_body@
            == "unauthorized"@,
{
}

/// At most one key opens the lock for a given request: once the key is
/// rotated to a different one, a device still sending the old key is
/// refused.
pub proof fn lemma_rotation_locks_out_old_key(headers: Seq<Header>, old_key: Seq<char>, new_key: Seq<
    char,
>)
    requires
        old_key != new_key,
        request_authorized(headers, new_key),
    ensures
        !request_authorized(headers, old_key),
{
    if request_authorized(headers, old_key) {
        let v = first_value(header_views(headers), "authorization"@).unwrap();
        assert(v.subrange(7, v.len() as int) =~= encode_utf8(new_key));
        assert(v.subrange(7, v.len() as int) =~= encode_utf8(old_key));
        vstd::utf8::encode_utf8_decode_utf8(new_key);
        vstd::utf8::encode_utf8_decode_utf8(old_key);
    }
}

/// The HTTPS URL alone grants nothing: a request without an `Authorization`
/// header is refused whatever the key.
pub proof fn lemma_no_header_no_entry(headers: Seq<Header>, key: Seq<char>)
    requires
        first_value(header_views(headers), "authorization"@) is None,
    ensures
        !request_authorized(headers, key),
{
}

/// A key as the pairing hands out (base64url characters only) opens the lock
/// when the request's first `Authorization` header is `Bearer <key>`.
pub proof fn lemma_paired_key_opens(headers: Seq<Header>, key: Seq<char>)
    requires
        forall|i: int| 0 <= i < key.len() ==> crate::encoding::is_b64url_char(#[trigger] key[i]),
        first_value(header_views(headers), "authorization"@) == Some(
            bearer_prefix() + encode_utf8(key),
        ),
    ensures
        request_authorized(headers, key),
{
    assert(vstd::utf8::is_ascii_chars(key));
    vstd::utf8::is_ascii_chars_encode_utf8(key);
    let v = bearer_prefix() + encode_utf8(key);
    assert forall|i: int| 0 <= i < v.len() implies (32 <= #[trigger] v[i] < 127 || v[i] == 9) by {
        if i >= 7 {
            assert(v[i] == encode_utf8(key)[i - 7]);
            assert(key[i - 7] as u8 == encode_utf8(key)[i - 7]);
        }
    }
}

/// The headers kept by [`kept_headers`] are named neither `a` nor `b`, each
/// of them is one of the original headers, and every original header named
/// otherwise is kept.
pub proof fn lemma_kept_headers(hs: Seq<(Seq<char>, Seq<u8>)>, a: Seq<char>, b: Seq<char>)
    ensures
        kept_headers(hs, a, b).len() <= hs.len(),
        forall|i: int|
            0 <= i < hs.len() && #[trigger] hs[i].0 != a && hs[i].0 != b ==> kept_headers(
                hs,
                a,
                b,
            ).contains(hs[i]),
        forall|i: int|
            0 <= i < kept_headers(hs, a, b).len() ==> {
                &&& #[trigger] kept_headers(hs, a, b)[i].0 != a
                &&& kept_headers(hs, a, b)[i].0 != b
                &&& hs.contains(kept_headers(hs, a, b)[i])
            },
    decreases hs.len(),
{
    if hs.len() > 0 {
        lemma_kept_headers(hs.drop_last(), a, b);
        let rest = kept_headers(hs.drop_last(), a, b);
        assert forall|i: int| 0 <= i < kept_headers(hs, a, b).len() implies {
            &&& #[trigger] kept_headers(hs, a, b)[i].0 != a
            &&& kept_headers(hs, a, b)[i].0 != b
            &&& hs.contains(kept_headers(hs, a, b)[i])
        } by {
            if i < rest.len() {
                assert(kept_headers(hs, a, b)[i] == rest[i]);
                let j = choose|j: int| 0 <= j < hs.drop_last().len() && hs.drop_last()[j] == rest[i];
                assert(hs[j] == rest[i]);
            } else {
                assert(kept_headers(hs, a, b)[i] == hs.last());
                assert(hs[hs.len() - 1] == hs.last());
            }
        }
        assert forall|i: int|
            0 <= i < hs.len() && #[trigger] hs[i].0 != a && hs[i].0 != b implies kept_headers(
            hs,
            a,
            b,
        ).contains(hs[i]) by {
            if i < hs.len() - 1 {
                assert(hs.drop_last()[i] == hs[i]);
                let j = choose|j: int| 0 <= j < rest.len() && rest[j] == hs.drop_last()[i];
                assert(kept_headers(hs, a, b)[j] == rest[j]);
            } else {
                let k = kept_headers(hs, a, b);
                assert(k[k.len() - 1] == hs.last());
            }
        }
    }
}

/// The key never travels upstream: a forwarded request carries neither an
/// `Authorization` nor a `Host` header, only headers the client sent, and
/// every other header the client sent.
pub proof fn lemma_forward_keeps_key_local(req: ProxyRequest, token: Seq<char>, a: ProxyAction)
    requires
        forward_spec(req, token, a),
        a is SendUpstream,
    ensures
        forall|i: int|
            0 <= i < header_views(a->SendUpstream_headers@).len() ==> {
                &&& #[trigger] header_views(a->SendUpstream_headers@)[i].0 != "authorization"@
                &&& header_views(a->SendUpstream_headers@)[i].0 != "host"@
                &&& header_views(req.headers@).contains(header_views(a->SendUpstream_headers@)[i])
            },
        forall|i: int|
            0 <= i < header_views(req.headers@).len() && #[trigger] header_views(req.headers@)[i].0
                != "authorization"@ && header_views(req.headers@)[i].0 != "host"@
                ==> header_views(a->SendUpstream_headers@).contains(header_views(req.headers@)[i]),
{
    let sent = header_views(a->SendUpstream_headers@);
    let kept = kept_headers(header_views(req.headers@), "authorization"@, "host"@);
    assert(sent == kept);
    lemma_kept_headers(header_views(req.headers@), "authorization"@, "host"@);
    assert forall|i: int| 0 <= i < sent.len() implies {
        &&& #[trigger] sent[i].0 != "authorization"@
        &&& sent[i].0 != "host"@
        &&& header_views(req.headers@).contains(sent[i])
    } by {
        assert(sent[i] == kept[i]);
    }
}

/// Whether Ollama answered the readiness probe (`GET /api/tags`) with a
/// success status (2xx); `status` is `None` when the request failed.
pub fn ollama_up(status: Option<u16>) -> (up: bool)
    ensures
        up == (status matches Some(s) && 200 <= s <= 299),
{
    match status {
        Some(s) => 200 <= s && s <= 299,
        None => false,
    }
}

/// A JSON document, as Ollama's API returns it.
pub enum JsonValue {
    /// `null`.
    Null,
    /// `true` or `false`.
    Bool(bool),
    /// A number, kept as its decimal text.
    Number(String),
    /// A string.
    Str(String),
    /// An array.
    Array(Vec<JsonValue>),
    /// An object: its members as (key, value), keys unique.
    Object(Vec<(String, JsonValue)>),
}

/// The value of the member called `key`, if any.
pub open spec fn member(entries: Seq<(String, JsonValue)>, key: Seq<char>) -> Option<JsonValue>
    decreases entries.len(),
{
    if entries.len() == 0 {
        None
    } else if entries[0].0@ == key {
        Some(entries[0].1)
    } else {
        member(entries.drop_first(), key)
    }
}

/// The first model's `name` in a `/api/tags` answer: `models` must be an
/// array whose first element is an object with a string `name`.
pub open spec fn first_model_name(tags: JsonValue) -> Option<Seq<char>> {
    if let JsonValue::Object(top) = tags {
        if let Some(JsonValue::Array(models)) = member(top@, "models"@) {
            if models@.len() > 0 {
                if let JsonValue::Object(fields) = models@[0] {
                    if let Some(JsonValue::Str(name)) = member(fields@, "name"@) {
                        Some(name@)
                    } else {
                        None
                    }
                } else {
                    None
                }
            } else {
                None
            }
        } else {
            None
        }
    } else {
        None
    }
}

/// The model id [`first_model`] gives comes from the first entry of
/// `models` and from no other: whenever it gives a name, `models` is a
/// non-empty array whose element 0 is an object with that string `name`; and
/// whenever element 0 is such an object, its name is the one given, whatever
/// the other entries hold.
pub proof fn lemma_first_model_is_entry_zero(tags: Option<JsonValue>, m: Option<Seq<char>>)
    requires
        m == match tags {
            Some(t) => first_model_name(t),
            None => None,
        },
    ensures
        m matches Some(n) ==> {
            &&& tags matches Some(JsonValue::Object(top))
            &&& member(top@, "models"@) matches Some(JsonValue::Array(ms))
            &&& ms@.len() > 0
            &&& ms@[0] matches JsonValue::Object(f)
            &&& member(f@, "name"@) matches Some(JsonValue::Str(name))
            &&& name@ == n
        },
        tags matches Some(JsonValue::Object(top)) ==> (member(top@, "models"@) matches Some(
            JsonValue::Array(ms),
        ) ==> (ms@.len() > 0 ==> (ms@[0] matches JsonValue::Object(f) ==> (member(
            f@,
            "name"@,
        ) matches Some(JsonValue::Str(name)) ==> m == Some(name@))))),
{
}

/// The member called `key` of `entries`.
fn lookup<'a>(entries: &'a Vec<(String, JsonValue)>, key: &str) -> (r: Option<&'a JsonValue>)
    ensures
        match r {
            Some(v) => member(entries@, key@) == Some(*v),
            None => member(entries@, key@) is None,
        },
{
    let k = String::from_str(key);
    let mut i: usize = 0;
    assert(entries@.skip(0) =~= entries@);
    while i < entries.len()
        invariant
            i <= entries@.len(),
            k@ == key@,
            member(entries@, key@) == member(entries@.skip(i as int), key@),
        decreases entries@.len() - i,
    {
        assert(entries@.skip(i as int)[0] == entries@[i as int]);
        assert(entries@.skip(i as int).drop_first() =~= entries@.skip(i + 1));
        if entries[i].0 == k {
            return Some(&entries[i].1);
        }
        i = i + 1;
    }
    assert(entries@.skip(i as int).len() == 0);
    None
}

/// The first model id in Ollama's parsed `/api/tags` answer, if any (for the
/// pairing payload's `models=`); `tags` is `None` when the request or its
/// JSON decoding failed.
pub fn first_model(tags: &Option<JsonValue>) -> (m: Option<String>)
    ensures
        opt_view(m) == match tags {
            Some(t) => first_model_name(*t),
            None => None,
        },
{
    if let Some(JsonValue::Object(top)) = tags {
        if let Some(JsonValue::Array(models)) = lookup(top, "models") {
            if models.len() > 0 {
                if let JsonValue::Object(fields) = &models[0] {
                    if let Some(JsonValue::Str(name)) = lookup(fields, "name") {
                        return Some(name.clone());
                    }
                }
            }
        }
    }
    None
}

/// The parsed JSON document of serde_json, carried through opaquely.
#[verifier::external_type_specification]
#[verifier::external_body]
pub struct ExJsonDocument(serde_json::Value);

/// What `serde_json::from_slice` makes of `body`, as the library's
/// [`JsonValue`]: `None` when `body` is not one JSON document.
pub uninterp spec fn parsed_json(body: Seq<u8>) -> Option<JsonValue>;

/// The variant-for-variant copy of a parsed `serde_json::Value` as a
/// [`JsonValue`] (numbers as their `to_string` text, object members in the
/// map's order). Claims nothing; it is the conversion step inside
/// [`parse_json`], whose contract covers the whole.
#[verifier::external_body]
fn json_from(v: serde_json::Value) -> JsonValue {
    match v {
        serde_json::Value::Null => JsonValue::Null,
        serde_json::Value::Bool(b) => JsonValue::Bool(b),
        serde_json::Value::Number(n) => JsonValue::Number(n.to_string()),
        serde_json::Value::String(s) => JsonValue::Str(s),
        serde_json::Value::Array(a) => JsonValue::Array(a.into_iter().map(json_from).collect()),
        serde_json::Value::Object(m) => JsonValue::Object(
            m.into_iter().map(|(k, v)| (k, json_from(v))).collect(),
        ),
    }
}

/// `serde_json::from_slice::<serde_json::Value>`, copied into a
/// [`JsonValue`]: claimed to be a function of `body` alone (the name
/// `parsed_json`), `None` exactly when parsing fails. What the JSON grammar
/// accepts is not stated.
#[verifier::external_body]
fn parse_json(body: &[u8]) -> (v: Option<JsonValue>)
    ensures
        v == parsed_json(body@),
{
    match serde_json::from_slice::<serde_json::Value>(body) {
        Ok(doc) => Some(json_from(doc)),
        Err(_) => None,
    }
}

/// The first model id in the body of Ollama's `/api/tags` answer, if any;
/// `body` is `None` when the request failed.
pub fn first_model_in(body: Option<&[u8]>) -> (m: Option<String>)
    ensures
        opt_view(m) == match body {
            Some(b) => match parsed_json(b@) {
                Some(t) => first_model_name(t),
                None => None,
            },
            None => None,
        },
{
    let tags = match body {
        Some(b) => parse_json(b),
        None => None,
    };
    first_model(&tags)
}

} // verus!
