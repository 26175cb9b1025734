//! The reference minter sidecar's request handling: reading a loopback HTTP
//! request, routing JSON-RPC methods, and answering `material.get` and
//! `token.sign` from fixture or ingested material.
use vstd::prelude::*;
use crate::minter::{bucket_ts, trunc_div, BUCKET_MS, PROTOCOL_VERSION};
use crate::recipe::{sign_aa_req, sign_spec, SignError, SignFault};
use crate::scan::{lemma_space_run_end, space_run_end, space_run_end_exec};
use crate::text::{
    append_str, chars_eq, chars_of, decimal, is_space, is_space_exec, lemma_split_nonempty,
    matches_at, matches_at_exec, push_decimal, slice_vec, split_exec, split_seq, string_of, trim,
    trim_exec,
};
use crate::providers::opt_string;
use vstd::utf8::encode_utf8;

verus! {

// ---------------------------------------------------------------------------
// HTTP requests
// ---------------------------------------------------------------------------

/// End of the run of non-whitespace characters that starts at `i`.
pub open spec fn word_run_end(s: Seq<char>, i: int) -> int
    decreases s.len() - i,
{
    if 0 <= i < s.len() && !is_space(s[i]) {
        word_run_end(s, i + 1)
    } else {
        i
    }
}

/// Bounds of the first whitespace-separated word at or after `i`.
pub open spec fn word_at(s: Seq<char>, i: int) -> Option<(int, int)> {
    let a = space_run_end(s, i);
    if a >= s.len() {
        None
    } else {
        Some((a, word_run_end(s, a)))
    }
}

/// The word run ends within `s`.
pub proof fn lemma_word_run_end(s: Seq<char>, i: int)
    requires
        0 <= i <= s.len(),
    ensures
        i <= word_run_end(s, i) <= s.len(),
    decreases s.len() - i,
{
    if i < s.len() && !is_space(s[i]) {
        lemma_word_run_end(s, i + 1);
    }
}

fn word_run_end_exec(s: &Vec<char>, i: usize) -> (e: usize)
    requires
        i <= s.len(),
    ensures
        e == word_run_end(s@, i as int),
        i <= e <= s.len(),
{
    let mut j = i;
    while j < s.len() && !is_space_exec(s[j])
        invariant
            i <= j <= s.len(),
            word_run_end(s@, i as int) == word_run_end(s@, j as int),
        decreases s.len() - j,
    {
        j = j + 1;
    }
    j
}

/// The `Authorization:` value of the header lines from `i` on, up to the
/// first empty line; the last such header wins, `acc` when there is none.
pub open spec fn auth_from(lines: Seq<Seq<char>>, i: int, acc: Option<Seq<char>>) -> Option<
    Seq<char>,
>
    decreases lines.len() - i,
{
    if i < 0 || i >= lines.len() || lines[i].len() == 0 {
        acc
    } else if matches_at(lines[i], "Authorization:"@, 0) {
        auth_from(lines, i + 1, Some(trim(lines[i].subrange(14, lines[i].len() as int))))
    } else {
        auth_from(lines, i + 1, acc)
    }
}

/// The body: the text after the first blank line, up to any further one.
pub open spec fn body_spec(raw: Seq<char>) -> Seq<char> {
    let parts = split_seq(raw, "\r\n\r\n"@);
    if parts.len() > 1 {
        parts[1]
    } else {
        Seq::empty()
    }
}

/// What is missing from a request line.
#[derive(Clone, Copy, PartialEq, Eq, Structural, Debug)]
pub enum HttpParseError {
    Method,
    Path,
}

/// Method, path, `Authorization` value and body of a raw request.
pub struct HttpRequest {
    pub method: String,
    pub path: String,
    pub auth: Option<String>,
    pub body: String,
}

/// What a raw HTTP request reads as: the first two words of its first line,
/// its last `Authorization:` header before the blank line, and its body.
pub open spec fn http_spec(raw: Seq<char>) -> Result<
    (Seq<char>, Seq<char>, Option<Seq<char>>, Seq<char>),
    HttpParseError,
> {
    let lines = split_seq(raw, "\r\n"@);
    let req = lines[0];
    match word_at(req, 0) {
        None => Err(HttpParseError::Method),
        Some((a, b)) => match word_at(req, b) {
            None => Err(HttpParseError::Path),
            Some((c, d)) => Ok(
                (req.subrange(a, b), req.subrange(c, d), auth_from(lines, 1, None), body_spec(raw)),
            ),
        },
    }
}

/// The view of a parsed request.
pub open spec fn http_view(r: Result<HttpRequest, HttpParseError>) -> Result<
    (Seq<char>, Seq<char>, Option<Seq<char>>, Seq<char>),
    HttpParseError,
> {
    match r {
        Ok(q) => Ok((q.method@, q.path@, opt_string(q.auth), q.body@)),
        Err(e) => Err(e),
    }
}

/// A whitespace run stops at a character that is not whitespace.
pub proof fn lemma_space_run_stop(s: Seq<char>, i: int)
    requires
        0 <= i,
        space_run_end(s, i) < s.len(),
    ensures
        !is_space(s[space_run_end(s, i)]),
    decreases s.len() - i,
{
    if i < s.len() && is_space(s[i]) {
        lemma_space_run_stop(s, i + 1);
    }
}

/// Executable [`word_at`].
fn word_at_exec(s: &Vec<char>, i: usize) -> (r: Option<(usize, usize)>)
    requires
        i <= s.len(),
    ensures
        match r {
            Some((a, b)) => word_at(s@, i as int) == Some((a as int, b as int)) && i <= a < b
                <= s.len(),
            None => word_at(s@, i as int) is None,
        },
{
    let a = space_run_end_exec(s, i);
    if a >= s.len() {
        return None;
    }
    let b = word_run_end_exec(s, a);
    proof {
        lemma_space_run_stop(s@, i as int);
        assert(!is_space(s@[a as int]));
        lemma_word_run_end(s@, a + 1);
    }
    Some((a, b))
}

/// Reads a raw loopback HTTP request.
pub fn parse_http(raw: &str) -> (r: Result<HttpRequest, HttpParseError>)
    ensures
        http_view(r) == http_spec(raw@),
{
    let text = chars_of(raw);
    let crlf = chars_of("\r\n");
    proof {
        reveal_strlit("\r\n");
        reveal_strlit("\r\n\r\n");
        reveal_strlit("Authorization:");
    }
    let lines = split_exec(&text, &crlf);
    proof {
        lemma_split_nonempty(text@, crlf@);
    }
    let ghost ls = split_seq(raw@, "\r\n"@);
    let req = &lines[0];
    assert(req@ == ls[0]);
    let (a, b) = match word_at_exec(req, 0) {
        None => return Err(HttpParseError::Method),
        Some(p) => p,
    };
    let (c, d) = match word_at_exec(req, b) {
        None => return Err(HttpParseError::Path),
        Some(p) => p,
    };
    let method = string_of(&slice_vec(req, a, b));
    let path = string_of(&slice_vec(req, c, d));
    let header = chars_of("Authorization:");
    assert(header@.len() == 14);
    let mut auth: Option<Vec<char>> = None;
    let mut i: usize = 1;
    while i < lines.len() && lines[i].len() > 0
        invariant
            1 <= i <= lines@.len(),
            lines@.len() == ls.len(),
            forall|j: int| 0 <= j < lines@.len() ==> #[trigger] lines@[j]@ == ls[j],
            header@ == "Authorization:"@,
            header@.len() == 14,
            auth_from(ls, 1, None) == auth_from(ls, i as int, crate::scan::opt_chars(auth)),
        decreases lines.len() - i,
    {
        let line = &lines[i];
        if matches_at_exec(line, &header, 0) {
            let rest = slice_vec(line, 14, line.len());
            auth = Some(trim_exec(&rest));
        }
        i = i + 1;
    }
    let auth_s = match auth {
        Some(v) => Some(string_of(&v)),
        None => None,
    };
    let blank = chars_of("\r\n\r\n");
    let parts = split_exec(&text, &blank);
    let body = if parts.len() > 1 {
        string_of(&parts[1])
    } else {
        String::new()
    };
    Ok(HttpRequest { method, path, auth: auth_s, body })
}

// ---------------------------------------------------------------------------
// JSON-RPC routing
// ---------------------------------------------------------------------------

/// An error answer: code and message.
pub struct RpcFailure {
    pub code: String,
    pub message: String,
}

/// The content of an [`RpcFailure`].
pub open spec fn failure_view(f: RpcFailure) -> (Seq<char>, Seq<char>) {
    (f.code@, f.message@)
}

fn failure(code: &str, message: Vec<char>) -> (r: RpcFailure)
    ensures
        r.code@ == code@,
        r.message@ == message@,
{
    RpcFailure { code: String::from_str(code), message: string_of(&message) }
}

/// Where a request goes.
pub enum Route {
    Hello,
    Ping,
    MaterialGet,
    TokenSign,
    EpisodeResolve,
    /// Answered at once with an error.
    Refuse(RpcFailure),
}

/// Where a request of protocol version `v` for `method` goes: refused with
/// `METHOD_NOT_FOUND` on another version or an unknown method.
pub open spec fn route_spec(v: u32, method: Seq<char>) -> Result<int, (Seq<char>, Seq<char>)> {
    if v != PROTOCOL_VERSION {
        Err(("METHOD_NOT_FOUND"@, "protocol v"@ + decimal(v as nat) + " != v1"@))
    } else if method == "hello"@ {
        Ok(0)
    } else if method == "ping"@ {
        Ok(1)
    } else if method == "material.get"@ {
        Ok(2)
    } else if method == "token.sign"@ {
        Ok(3)
    } else if method == "episode.resolve"@ {
        Ok(4)
    } else {
        Err(("METHOD_NOT_FOUND"@, "unknown method "@ + method))
    }
}

/// The view of a route: the handler's number, or the refusal.
pub open spec fn route_view(r: Route) -> Result<int, (Seq<char>, Seq<char>)> {
    match r {
        Route::Hello => Ok(0),
        Route::Ping => Ok(1),
        Route::MaterialGet => Ok(2),
        Route::TokenSign => Ok(3),
        Route::EpisodeResolve => Ok(4),
        Route::Refuse(f) => Err(failure_view(f)),
    }
}

/// Routes a request by protocol version and method.
pub fn route(v: u32, method: &str) -> (r: Route)
    ensures
        route_view(r) == route_spec(v, method@),
{
    if v != PROTOCOL_VERSION {
        let mut msg = chars_of("protocol v");
        push_decimal(&mut msg, v as u64);
        append_str(&mut msg, " != v1");
        proof {
            reveal_strlit("protocol v");
            reveal_strlit(" != v1");
        }
        assert(msg@ =~= "protocol v"@ + decimal(v as nat) + " != v1"@);
        return Route::Refuse(failure("METHOD_NOT_FOUND", msg));
    }
    let m = chars_of(method);
    if chars_eq(&m, &chars_of("hello")) {
        Route::Hello
    } else if chars_eq(&m, &chars_of("ping")) {
        Route::Ping
    } else if chars_eq(&m, &chars_of("material.get")) {
        Route::MaterialGet
    } else if chars_eq(&m, &chars_of("token.sign")) {
        Route::TokenSign
    } else if chars_eq(&m, &chars_of("episode.resolve")) {
        Route::EpisodeResolve
    } else {
        let mut msg = chars_of("unknown method ");
        crate::text::append_chars(&mut msg, &m);
        proof {
            reveal_strlit("unknown method ");
        }
        Route::Refuse(failure("METHOD_NOT_FOUND", msg))
    }
}

/// `episode.resolve` needs a browser, which this sidecar does not have.
pub fn episode_resolve_refusal() -> (r: RpcFailure)
    ensures
        failure_view(r) == ("LEVEL_UNSUPPORTED"@, "episode.resolve requires a browser-backed minter"@),
{
    failure("LEVEL_UNSUPPORTED", chars_of("episode.resolve requires a browser-backed minter"))
}

// ---------------------------------------------------------------------------
// Material held by the sidecar
// ---------------------------------------------------------------------------

/// A material object as received: its JSON text, and the fields signing
/// reads from it (absent when missing or of another JSON type).
pub struct HeldMaterial {
    pub json: String,
    pub part_b: Option<String>,
    pub mask: Option<String>,
    pub epoch: Option<u64>,
    pub build_id: Option<String>,
    /// The JSON text of its `expiresAt`.
    pub expires_at: Option<String>,
}

/// The content of a [`HeldMaterial`].
pub struct HeldInfo {
    pub json: Seq<char>,
    pub part_b: Option<Seq<char>>,
    pub mask: Option<Seq<char>>,
    pub epoch: Option<u64>,
    pub build_id: Option<Seq<char>>,
    pub expires_at: Option<Seq<char>>,
}

impl View for HeldMaterial {
    type V = HeldInfo;

    open spec fn view(&self) -> HeldInfo {
        HeldInfo {
            json: self.json@,
            part_b: opt_string(self.part_b),
            mask: opt_string(self.mask),
            epoch: self.epoch,
            build_id: opt_string(self.build_id),
            expires_at: opt_string(self.expires_at),
        }
    }
}

/// The material the sidecar serves: an optional fixture, and material
/// ingested per source (a later ingest for a source replaces an earlier one).
pub struct SidecarState {
    pub fixture: Option<HeldMaterial>,
    pub ingested: Vec<(String, HeldMaterial)>,
}

/// The views of ingested `(source, material)` pairs.
pub open spec fn held_view(v: Seq<(String, HeldMaterial)>) -> Seq<(Seq<char>, HeldInfo)> {
    v.map_values(|p: (String, HeldMaterial)| (p.0@, p.1@))
}

/// The material ingested last for `source`.
pub open spec fn latest(v: Seq<(Seq<char>, HeldInfo)>, source: Seq<char>) -> Option<HeldInfo>
    decreases v.len(),
{
    if v.len() == 0 {
        None
    } else if v.last().0 == source {
        Some(v.last().1)
    } else {
        latest(v.drop_last(), source)
    }
}

/// The view of an optional held material.
pub open spec fn opt_held(m: Option<HeldMaterial>) -> Option<HeldInfo> {
    match m {
        Some(m) => Some(m@),
        None => None,
    }
}

/// The source a request names, `allanime` by default.
pub open spec fn source_or_default(source: Option<Seq<char>>) -> Seq<char> {
    match source {
        Some(s) => s,
        None => "allanime"@,
    }
}

/// What `material.get` answers: the material ingested for the source, else
/// the fixture, unless `force` asks for fresh material, which needs a browser.
pub open spec fn material_get_spec(
    ingested: Seq<(Seq<char>, HeldInfo)>,
    fixture: Option<HeldInfo>,
    source: Option<Seq<char>>,
    force: Option<bool>,
) -> Result<Seq<char>, (Seq<char>, Seq<char>)> {
    let unavailable = Err(
        (
            "BROWSER_UNAVAILABLE"@,
            "no fixture material — set ANI_DL_MINTER_FIXTURE or POST /ingest"@,
        ),
    );
    if force == Some(true) {
        unavailable
    } else {
        match latest(ingested, source_or_default(source)) {
            Some(m) => Ok(m.json),
            None => match fixture {
                Some(f) => Ok(f.json),
                None => unavailable,
            },
        }
    }
}

/// The view of an answer carrying JSON text.
pub open spec fn answer_view(r: Result<String, RpcFailure>) -> Result<Seq<char>, (Seq<char>, Seq<char>)> {
    match r {
        Ok(t) => Ok(t@),
        Err(f) => Err(failure_view(f)),
    }
}

impl SidecarState {
    /// Holds `material` for `source`.
    pub fn ingest(&mut self, source: &str, material: HeldMaterial)
        ensures
            final(self).fixture == old(self).fixture,
            held_view(final(self).ingested@) == held_view(old(self).ingested@).push(
                (source@, material@),
            ),
    {
        self.ingested.push((String::from_str(source), material));
        assert(held_view(self.ingested@) =~= held_view(old(self).ingested@).push(
            (source@, material@),
        ));
    }

    /// The material ingested last for `source`.
    fn find(&self, source: &Vec<char>) -> (r: Option<&HeldMaterial>)
        ensures
            opt_held(
                match r {
                    Some(m) => Some(*m),
                    None => None,
                },
            ) == latest(held_view(self.ingested@), source@),
    {
        let ghost hv = held_view(self.ingested@);
        let mut n = self.ingested.len();
        assert(hv.subrange(0, n as int) =~= hv);
        while n > 0
            invariant
                n <= self.ingested@.len(),
                hv == held_view(self.ingested@),
                latest(hv, source@) == latest(hv.subrange(0, n as int), source@),
            decreases n,
        {
            let ghost t = hv.subrange(0, n as int);
            assert(t.drop_last() =~= hv.subrange(0, n - 1));
            assert(t.last() == hv[n - 1]);
            let k = chars_of(self.ingested[n - 1].0.as_str());
            if chars_eq(&k, source) {
                return Some(&self.ingested[n - 1].1);
            }
            n = n - 1;
        }
        None
    }

    /// Answers `material.get`.
    pub fn material_get(&self, source: Option<String>, force: Option<bool>) -> (r: Result<
        String,
        RpcFailure,
    >)
        ensures
            answer_view(r) == material_get_spec(
                held_view(self.ingested@),
                opt_held(self.fixture),
                opt_string(source),
                force,
            ),
    {
        let unavailable = chars_of("no fixture material — set ANI_DL_MINTER_FIXTURE or POST /ingest");
        if force == Some(true) {
            return Err(failure("BROWSER_UNAVAILABLE", unavailable));
        }
        let src = match &source {
            Some(s) => chars_of(s.as_str()),
            None => chars_of("allanime"),
        };
        match self.find(&src) {
            Some(m) => Ok(m.json.clone()),
            None => match &self.fixture {
                Some(f) => Ok(f.json.clone()),
                None => Err(failure("BROWSER_UNAVAILABLE", unavailable)),
            },
        }
    }
}

/// A token signed by the sidecar: `aaReq`, the material's epoch, and the
/// JSON text of its `expiresAt` (absent: 0).
pub struct SignedToken {
    pub aa_req: String,
    pub epoch: u64,
    pub expires_at: Option<String>,
}

/// The message of a signing failure.
pub open spec fn sign_message(e: SignFault) -> Seq<char> {
    match e {
        SignFault::PartB(t) => t,
        SignFault::Mask(t) => t,
        SignFault::Encrypt => "encrypt: aead::Error"@,
    }
}

/// A text field of a material, empty when absent.
pub open spec fn text_or_empty(o: Option<Seq<char>>) -> Seq<char> {
    match o {
        Some(t) => t,
        None => Seq::empty(),
    }
}

/// What `token.sign` answers: a token over the material ingested for the
/// source, else the fixture, in the bucket of `ts` (default: the bucket of
/// `now_ms`); `INTERNAL` without a query hash or when signing fails, `STALE`
/// without material.
pub open spec fn token_sign_spec(
    ingested: Seq<(Seq<char>, HeldInfo)>,
    fixture: Option<HeldInfo>,
    source: Option<Seq<char>>,
    query_hash: Option<Seq<char>>,
    ts: Option<i64>,
    now_ms: i64,
) -> Result<(Seq<char>, u64, Option<Seq<char>>), (Seq<char>, Seq<char>)> {
    match query_hash {
        None => Err(("INTERNAL"@, "missing queryHash"@)),
        Some(qh) => {
            let t: i64 = match ts {
                Some(t) => t,
                None => (trunc_div(now_ms as int, BUCKET_MS as int) * BUCKET_MS) as i64,
            };
            let m = match latest(ingested, source_or_default(source)) {
                Some(m) => Some(m),
                None => fixture,
            };
            match m {
                None => Err(("STALE"@, "no material loaded"@)),
                Some(m) => {
                    let epoch: u64 = match m.epoch {
                        Some(e) => e,
                        None => 0,
                    };
                    match sign_spec(
                        text_or_empty(m.part_b),
                        text_or_empty(m.mask),
                        epoch,
                        text_or_empty(m.build_id),
                        qh,
                        t,
                    ) {
                        Ok(a) => Ok((a, epoch, m.expires_at)),
                        Err(e) => Err(("INTERNAL"@, sign_message(e))),
                    }
                },
            }
        },
    }
}

/// The view of a signing answer.
pub open spec fn token_view(r: Result<SignedToken, RpcFailure>) -> Result<
    (Seq<char>, u64, Option<Seq<char>>),
    (Seq<char>, Seq<char>),
> {
    match r {
        Ok(t) => Ok((t.aa_req@, t.epoch, opt_string(t.expires_at))),
        Err(f) => Err(failure_view(f)),
    }
}

fn text_field(o: &Option<String>) -> (r: String)
    ensures
        r@ == text_or_empty(opt_string(*o)),
{
    match o {
        Some(t) => t.clone(),
        None => String::new(),
    }
}

impl SidecarState {
    /// Answers `token.sign`.
    pub fn token_sign(
        &self,
        source: Option<String>,
        query_hash: Option<String>,
        ts: Option<i64>,
        now_ms: i64,
    ) -> (r: Result<SignedToken, RpcFailure>)
        ensures
            token_view(r) == token_sign_spec(
                held_view(self.ingested@),
                opt_held(self.fixture),
                opt_string(source),
                opt_string(query_hash),
                ts,
                now_ms,
            ),
    {
        let src = match &source {
            Some(s) => chars_of(s.as_str()),
            None => chars_of("allanime"),
        };
        let qh = match &query_hash {
            None => return Err(failure("INTERNAL", chars_of("missing queryHash"))),
            Some(q) => q,
        };
        let t: i64 = match ts {
            Some(t) => t,
            None => bucket_ts(now_ms),
        };
        let m = match self.find(&src) {
            Some(m) => m,
            None => match &self.fixture {
                Some(f) => f,
                None => return Err(failure("STALE", chars_of("no material loaded"))),
            },
        };
        let epoch: u64 = match m.epoch {
            Some(e) => e,
            None => 0,
        };
        let part_b = text_field(&m.part_b);
        let mask = text_field(&m.mask);
        let build_id = text_field(&m.build_id);
        match sign_aa_req(part_b.as_str(), mask.as_str(), epoch, build_id.as_str(), qh.as_str(), t) {
            Ok(a) => Ok(
                SignedToken {
                    aa_req: a,
                    epoch,
                    expires_at: match &m.expires_at {
                        Some(x) => Some(x.clone()),
                        None => None,
                    },
                },
            ),
            Err(e) => {
                let msg = match e {
                    SignError::PartB(t) => chars_of(t.as_str()),
                    SignError::Mask(t) => chars_of(t.as_str()),
                    SignError::Encrypt => chars_of("encrypt: aead::Error"),
                };
                Err(failure("INTERNAL", msg))
            },
        }
    }
}

// ---------------------------------------------------------------------------
// Loopback HTTP binding
// ---------------------------------------------------------------------------

/// Which endpoint a request is for.
#[derive(Clone, Copy, PartialEq, Eq, Structural, Debug)]
pub enum HttpRoute {
    /// `POST /ingest`: material pushed by a browser extension.
    Ingest,
    /// `POST /rpc`: a JSON-RPC call.
    Rpc,
    NotFound,
}

/// The endpoint of a method and path.
pub open spec fn http_route_spec(method: Seq<char>, path: Seq<char>) -> HttpRoute {
    if method == "POST"@ && path == "/ingest"@ {
        HttpRoute::Ingest
    } else if method == "POST"@ && path == "/rpc"@ {
        HttpRoute::Rpc
    } else {
        HttpRoute::NotFound
    }
}

/// Routes a request to an endpoint.
pub fn http_route(method: &str, path: &str) -> (r: HttpRoute)
    ensures
        r == http_route_spec(method@, path@),
{
    let m = chars_of(method);
    let p = chars_of(path);
    let post = chars_eq(&m, &chars_of("POST"));
    if post && chars_eq(&p, &chars_of("/ingest")) {
        HttpRoute::Ingest
    } else if post && chars_eq(&p, &chars_of("/rpc")) {
        HttpRoute::Rpc
    } else {
        HttpRoute::NotFound
    }
}

/// The request carries `Authorization: Bearer <token>`.
pub fn authorized(auth: &Option<String>, token: &str) -> (b: bool)
    ensures
        b == (opt_string(*auth) == Some("Bearer "@ + token@)),
{
    match auth {
        None => false,
        Some(a) => {
            let mut want = chars_of("Bearer ");
            append_str(&mut want, token);
            proof {
                reveal_strlit("Bearer ");
            }
            chars_eq(&chars_of(a.as_str()), &want)
        },
    }
}

/// The source an ingest or request names, `allanime` by default.
pub fn source_name(source: &Option<String>) -> (r: String)
    ensures
        r@ == source_or_default(opt_string(*source)),
{
    match source {
        Some(s) => s.clone(),
        None => String::from_str("allanime"),
    }
}

/// The reason phrase the sidecar sends with a status code.
pub open spec fn reason_phrase(status: u16) -> Seq<char> {
    if status == 200 {
        "OK"@
    } else if status == 401 {
        "Unauthorized"@
    } else {
        "Not Found"@
    }
}

/// A complete JSON response: status line, content type, length of the body
/// in bytes, `Connection: close`, then the body.
pub open spec fn http_response_spec(status: u16, body: Seq<char>) -> Seq<char> {
    "HTTP/1.1 "@ + decimal(status as nat) + " "@ + reason_phrase(status)
        + "\r\nContent-Type: application/json\r\nContent-Length: "@ + decimal(
        encode_utf8(body).len(),
    ) + "\r\nConnection: close\r\n\r\n"@ + body
}

/// The text of a JSON response.
pub fn http_response(status: u16, body: &str) -> (r: String)
    ensures
        r@ == http_response_spec(status, body@),
{
    let mut out = chars_of("HTTP/1.1 ");
    push_decimal(&mut out, status as u64);
    out.push(' ');
    if status == 200 {
        append_str(&mut out, "OK");
    } else if status == 401 {
        append_str(&mut out, "Unauthorized");
    } else {
        append_str(&mut out, "Not Found");
    }
    append_str(&mut out, "\r\nContent-Type: application/json\r\nContent-Length: ");
    push_decimal(&mut out, body.as_bytes().len() as u64);
    append_str(&mut out, "\r\nConnection: close\r\n\r\n");
    append_str(&mut out, body);
    proof {
        reveal_strlit(" ");
    }
    assert(out@ =~= http_response_spec(status, body@));
    string_of(&out)
}

/// The whitespace-separated words of `s` from `i` on.
pub open spec fn words_from(s: Seq<char>, i: int) -> Seq<Seq<char>>
    decreases s.len() - i,
{
    if i < 0 || i >= s.len() {
        Seq::empty()
    } else {
        match word_at(s, i) {
            None => Seq::empty(),
            Some((a, b)) => if i <= a < b <= s.len() {
                seq![s.subrange(a, b)] + words_from(s, b)
            } else {
                Seq::empty()
            },
        }
    }
}

/// The program and arguments of a minter command line, split on whitespace.
pub fn command_words(command: &str) -> (r: Vec<String>)
    ensures
        crate::titles::strings_view(r@) == words_from(command@, 0),
{
    let s = chars_of(command);
    let mut out: Vec<String> = Vec::new();
    let mut i: usize = 0;
    while i < s.len()
        invariant
            i <= s.len(),
            s@ == command@,
            crate::titles::strings_view(out@) + words_from(s@, i as int) == words_from(s@, 0),
        decreases s.len() - i,
    {
        match word_at_exec(&s, i) {
            None => {
                assert(words_from(s@, i as int) =~= Seq::<Seq<char>>::empty());
                i = s.len();
            },
            Some((a, b)) => {
                let ghost before = crate::titles::strings_view(out@);
                out.push(string_of(&slice_vec(&s, a, b)));
                assert(crate::titles::strings_view(out@) =~= before.push(s@.subrange(a as int, b as int)));
                assert(words_from(s@, i as int) == seq![s@.subrange(a as int, b as int)] + words_from(s@, b as int));
                assert(crate::titles::strings_view(out@) + words_from(s@, b as int) =~= before + words_from(s@, i as int));
                i = b;
            },
        }
    }
    assert(words_from(s@, i as int) =~= Seq::<Seq<char>>::empty());
    assert(crate::titles::strings_view(out@) =~= crate::titles::strings_view(out@) + Seq::<Seq<char>>::empty());
    out
}

} // verus!
