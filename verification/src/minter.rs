//! The core side of the minter protocol: capability and material records,
//! JSON-RPC reply checks, the material cache and the null provider.
use vstd::prelude::*;
use crate::text::{chars_of, decimal, push_decimal, string_of};
use crate::api::TranslationType;
use crate::providers::{opt_string, SourceUrl};
use crate::titles::strings_view;
use vstd::string::StringSliceAdditionalSpecFns;
use vstd::utf8::{
    decode_utf8, encode_utf8, encode_utf8_decode_utf8, encode_utf8_valid_utf8, is_char_boundary,
};

verus! {

/// Protocol version spoken with the minter.
pub const PROTOCOL_VERSION: u32 = 1;

// ---------------------------------------------------------------------------
// Records
// ---------------------------------------------------------------------------

/// What a minter says about itself in `hello`.
pub struct Capabilities {
    pub minter: String,
    pub protocol: u32,
    pub levels: Vec<u8>,
    pub sources: Vec<String>,
    pub browser: Option<String>,
}

impl Capabilities {
    /// Whether the minter supports signing level `level`.
    pub fn supports_level(&self, level: u8) -> (b: bool)
        ensures
            b == self.levels@.contains(level),
    {
        let mut i: usize = 0;
        while i < self.levels.len()
            invariant
                i <= self.levels.len(),
                forall|j: int| 0 <= j < i ==> self.levels@[j] != level,
            decreases self.levels.len() - i,
        {
            if self.levels[i] == level {
                assert(self.levels@[i as int] == level);
                return true;
            }
            i = i + 1;
        }
        false
    }
}

/// Signing material for a source, valid until `expires_at` (ms since the
/// epoch) less a grace period.
pub struct Material {
    pub epoch: u64,
    pub part_b: String,
    pub mask: String,
    pub build_id: String,
    pub referer: String,
    pub api_base: String,
    pub cdn_base: String,
    pub expires_at: i64,
    pub grace_ms: u64,
}

/// The end of a material's freshness, `expires_at - grace_ms` computed in
/// `i64` (the grace period converted with wrap-around, as `as i64` does).
pub open spec fn fresh_until(expires_at: i64, grace_ms: u64) -> int {
    expires_at - (grace_ms as i64)
}

/// The freshness bound of a material fits in `i64`.
pub open spec fn material_ok(expires_at: i64, grace_ms: u64) -> bool {
    i64::MIN <= fresh_until(expires_at, grace_ms) <= i64::MAX
}

impl Material {
    /// Whether the material can still be used at `now_ms`.
    pub fn is_fresh(&self, now_ms: i64) -> (b: bool)
        requires
            material_ok(self.expires_at, self.grace_ms),
        ensures
            b == (now_ms < fresh_until(self.expires_at, self.grace_ms)),
    {
        #[verifier::truncate]
        let grace = self.grace_ms as i64;
        now_ms < self.expires_at - grace
    }
}

/// A signed request token.
pub struct Token {
    pub aa_req: String,
    pub epoch: u64,
    pub expires_at: i64,
}

/// The part of a material worth keeping between runs.
pub struct PersistedContext {
    pub mask: String,
    pub build_id: String,
    pub referer: String,
    pub api_base: String,
    pub cdn_base: String,
    pub updated_at: String,
}

impl Default for PersistedContext {
    fn default() -> (r: PersistedContext)
        ensures
            r.mask@ == Seq::<char>::empty(),
            r.build_id@ == Seq::<char>::empty(),
            r.referer@ == Seq::<char>::empty(),
            r.api_base@ == Seq::<char>::empty(),
            r.cdn_base@ == Seq::<char>::empty(),
            r.updated_at@ == Seq::<char>::empty(),
    {
        PersistedContext {
            mask: String::new(),
            build_id: String::new(),
            referer: String::new(),
            api_base: String::new(),
            cdn_base: String::new(),
            updated_at: String::new(),
        }
    }
}

// ---------------------------------------------------------------------------
// Signing buckets
// ---------------------------------------------------------------------------

/// Length of a signing time bucket: five minutes, in milliseconds.
pub const BUCKET_MS: i64 = 300000;

/// Integer division rounding toward zero, as Rust's `/` does.
pub open spec fn trunc_div(a: int, b: int) -> int {
    if a >= 0 {
        a / b
    } else {
        -((-a) / b)
    }
}

/// The start of the five-minute bucket holding `now_ms` (rounded toward zero).
pub fn bucket_ts(now_ms: i64) -> (r: i64)
    ensures
        r == trunc_div(now_ms as int, BUCKET_MS as int) * BUCKET_MS,
{
    (now_ms / BUCKET_MS) * BUCKET_MS
}

// ---------------------------------------------------------------------------
// JSON-RPC framing
// ---------------------------------------------------------------------------

/// An error a minter answers with.
pub struct RpcError {
    pub code: String,
    pub message: String,
    pub retry_after_ms: Option<u64>,
}

impl RpcError {
    /// The material behind the request is expired or stale.
    pub fn is_expired(&self) -> (b: bool)
        ensures
            b == (self.code@ == "EXPIRED"@ || self.code@ == "STALE"@),
    {
        let c = chars_of(self.code.as_str());
        let e = chars_of("EXPIRED");
        let s = chars_of("STALE");
        crate::text::chars_eq(&c, &e) || crate::text::chars_eq(&c, &s)
    }

    /// The minter cannot serve the requested level.
    pub fn is_level_unsupported(&self) -> (b: bool)
        ensures
            b == (self.code@ == "LEVEL_UNSUPPORTED"@),
    {
        let c = chars_of(self.code.as_str());
        let l = chars_of("LEVEL_UNSUPPORTED");
        crate::text::chars_eq(&c, &l)
    }
}

/// `code: message`, with ` (retry after Nms)` when the minter says when.
pub open spec fn rpc_err_spec(code: Seq<char>, message: Seq<char>, retry: Option<u64>) -> Seq<char> {
    code + ": "@ + message + match retry {
        Some(ms) => " (retry after "@ + decimal(ms as nat) + "ms)"@,
        None => Seq::empty(),
    }
}

/// The message a minter error turns into.
pub fn rpc_err(err: RpcError) -> (r: String)
    ensures
        r@ == rpc_err_spec(err.code@, err.message@, err.retry_after_ms),
{
    let mut out = chars_of(err.code.as_str());
    crate::text::append_str(&mut out, ": ");
    crate::text::append_str(&mut out, err.message.as_str());
    proof {
        reveal_strlit(": ");
    }
    match err.retry_after_ms {
        Some(ms) => {
            crate::text::append_str(&mut out, " (retry after ");
            push_decimal(&mut out, ms);
            crate::text::append_str(&mut out, "ms)");
            proof {
                reveal_strlit(" (retry after ");
                reveal_strlit("ms)");
            }
            assert(out@ =~= rpc_err_spec(err.code@, err.message@, err.retry_after_ms));
        },
        None => {
            assert(out@ =~= rpc_err_spec(err.code@, err.message@, err.retry_after_ms));
        },
    }
    string_of(&out)
}

/// A JSON-RPC request: `params` holds JSON text.
pub struct RpcRequest {
    pub id: u64,
    pub v: u32,
    pub method: String,
    pub params: String,
}

/// A JSON-RPC reply: `result` holds JSON text.
pub struct RpcResponse {
    pub id: u64,
    pub v: u32,
    pub result: Option<String>,
    pub error: Option<RpcError>,
}

/// A request for `method` with the given id, at the current protocol version.
pub fn build_request(id: u64, method: &str, params: String) -> (r: RpcRequest)
    ensures
        r.id == id,
        r.v == PROTOCOL_VERSION,
        r.method@ == method@,
        r.params@ == params@,
{
    RpcRequest { id, v: PROTOCOL_VERSION, method: String::from_str(method), params }
}

/// Why a minter reply cannot be used.
pub enum ReplyError {
    /// The reply answers another request (expected id, got id).
    IdMismatch(u64, u64),
    /// The reply speaks another protocol version.
    ProtocolMismatch(u32),
    /// The minter answered with an error (its message).
    Minter(String),
    /// The reply has neither result nor error.
    MissingResult,
}

/// The content of a [`ReplyError`].
pub enum ReplyFault {
    IdMismatch(u64, u64),
    ProtocolMismatch(u32),
    Minter(Seq<char>),
    MissingResult,
}

/// What a reply to request `expected_id` yields: its result's JSON text, or
/// the first fault found (id, then version, then a minter error, then a
/// missing result).
pub open spec fn reply_spec(
    expected_id: u64,
    id: u64,
    v: u32,
    result: Option<Seq<char>>,
    error: Option<(Seq<char>, Seq<char>, Option<u64>)>,
) -> Result<Seq<char>, ReplyFault> {
    if id != expected_id {
        Err(ReplyFault::IdMismatch(expected_id, id))
    } else if v != PROTOCOL_VERSION {
        Err(ReplyFault::ProtocolMismatch(v))
    } else {
        match error {
            Some((c, m, r)) => Err(ReplyFault::Minter(rpc_err_spec(c, m, r))),
            None => match result {
                Some(t) => Ok(t),
                None => Err(ReplyFault::MissingResult),
            },
        }
    }
}

/// The view of a reply check's result.
pub open spec fn reply_view(r: Result<String, ReplyError>) -> Result<Seq<char>, ReplyFault> {
    match r {
        Ok(t) => Ok(t@),
        Err(ReplyError::IdMismatch(a, b)) => Err(ReplyFault::IdMismatch(a, b)),
        Err(ReplyError::ProtocolMismatch(v)) => Err(ReplyFault::ProtocolMismatch(v)),
        Err(ReplyError::Minter(m)) => Err(ReplyFault::Minter(m@)),
        Err(ReplyError::MissingResult) => Err(ReplyFault::MissingResult),
    }
}

/// The parts of an optional minter error.
pub open spec fn error_parts(e: Option<RpcError>) -> Option<(Seq<char>, Seq<char>, Option<u64>)> {
    match e {
        Some(e) => Some((e.code@, e.message@, e.retry_after_ms)),
        None => None,
    }
}

/// Checks a reply to request `expected_id` and gives its result's JSON text.
pub fn parse_response(expected_id: u64, resp: RpcResponse) -> (r: Result<String, ReplyError>)
    ensures
        reply_view(r) == reply_spec(
            expected_id,
            resp.id,
            resp.v,
            opt_string(resp.result),
            error_parts(resp.error),
        ),
{
    if resp.id != expected_id {
        return Err(ReplyError::IdMismatch(expected_id, resp.id));
    }
    if resp.v != PROTOCOL_VERSION {
        return Err(ReplyError::ProtocolMismatch(resp.v));
    }
    match resp.error {
        Some(e) => Err(ReplyError::Minter(rpc_err(e))),
        None => match resp.result {
            Some(t) => Ok(t),
            None => Err(ReplyError::MissingResult),
        },
    }
}

// ---------------------------------------------------------------------------
// Secrets in logs
// ---------------------------------------------------------------------------

/// How many bytes of a secret of `n` bytes may be shown: at most eight.
pub open spec fn shown_bytes(n: nat) -> int {
    if n < 8 {
        n as int
    } else {
        8
    }
}

/// A secret shortened for logs: its first (at most) eight bytes, an
/// ellipsis, and its length in bytes.
pub open spec fn redact_spec(s: Seq<char>) -> Seq<char> {
    let b = encode_utf8(s);
    decode_utf8(b.subrange(0, shown_bytes(b.len()))) + "… ("@ + decimal(b.len()) + " chars)"@
}

/// Shortens a secret for logs. The cut after eight bytes must fall between
/// characters. Only the length and the first eight bytes reach the output
/// (`laws::law_redaction_shows_only_the_head`).
pub fn redact_secret(s: &str) -> (r: String)
    requires
        is_char_boundary(encode_utf8(s@), shown_bytes(encode_utf8(s@).len())),
    ensures
        r@ == redact_spec(s@),
{
    proof {
        encode_utf8_valid_utf8(s@);
        assert(s.spec_bytes() == encode_utf8(s@));
    }
    let n = s.as_bytes().len();
    let p: usize = if n < 8 {
        n
    } else {
        8
    };
    assert(n as int == encode_utf8(s@).len());
    assert(p as int == shown_bytes(encode_utf8(s@).len()));
    let (head, _) = s.split_at(p);
    proof {
        encode_utf8_decode_utf8(head@);
        assert(head@ == decode_utf8(encode_utf8(s@).subrange(0, p as int)));
    }
    let mut out = chars_of(head);
    crate::text::append_str(&mut out, "… (");
    push_decimal(&mut out, n as u64);
    crate::text::append_str(&mut out, " chars)");
    proof {
        reveal_strlit("… (");
        reveal_strlit(" chars)");
    }
    assert(out@ =~= redact_spec(s@));
    string_of(&out)
}

// ---------------------------------------------------------------------------
// Connecting to a minter
// ---------------------------------------------------------------------------

/// Why a minter cannot be used for a source.
#[derive(Clone, Copy, PartialEq, Eq, Structural, Debug)]
pub enum InitError {
    /// It speaks another protocol version (the one it speaks).
    Protocol(u32),
    /// It does not serve the source.
    Source,
}

/// Checks what a minter said in `hello` against this core and the source it
/// is wanted for.
pub fn check_capabilities(caps: &Capabilities, source: &str) -> (r: Result<(), InitError>)
    ensures
        r == (if caps.protocol != PROTOCOL_VERSION {
            Err(InitError::Protocol(caps.protocol))
        } else if !strings_view(caps.sources@).contains(source@) {
            Err(InitError::Source)
        } else {
            Ok(())
        }),
{
    if caps.protocol != PROTOCOL_VERSION {
        return Err(InitError::Protocol(caps.protocol));
    }
    let want = String::from_str(source);
    let mut i: usize = 0;
    while i < caps.sources.len()
        invariant
            i <= caps.sources.len(),
            caps.protocol == PROTOCOL_VERSION,
            want@ == source@,
            forall|j: int| 0 <= j < i ==> #[trigger] caps.sources@[j]@ != source@,
        decreases caps.sources.len() - i,
    {
        if caps.sources[i] == want {
            assert(strings_view(caps.sources@)[i as int] == source@);
            return Ok(());
        }
        i = i + 1;
    }
    proof {
        if strings_view(caps.sources@).contains(source@) {
            let j = choose|j: int|
                0 <= j < strings_view(caps.sources@).len() && strings_view(caps.sources@)[j]
                    == source@;
            assert(caps.sources@[j]@ == source@);
        }
    }
    Err(InitError::Source)
}

/// How the core reaches its minter.
#[derive(Clone, Copy, PartialEq, Eq, Structural, Debug)]
pub enum Transport {
    /// No minter.
    Null,
    /// A spawned subprocess speaking NDJSON on stdin/stdout.
    Stdio,
    /// A loopback HTTP server found through a handshake file.
    Http,
}

/// The transport a `minter.transport` setting names: `none` or empty, `stdio`
/// or `http`; `None` for anything else.
pub open spec fn transport_spec(t: Seq<char>) -> Option<Transport> {
    if t == "none"@ || t.len() == 0 {
        Some(Transport::Null)
    } else if t == "stdio"@ {
        Some(Transport::Stdio)
    } else if t == "http"@ {
        Some(Transport::Http)
    } else {
        None
    }
}

/// Reads a `minter.transport` setting.
pub fn transport_kind(t: &str) -> (r: Option<Transport>)
    ensures
        r == transport_spec(t@),
{
    let v = chars_of(t);
    if v.len() == 0 || crate::text::chars_eq(&v, &chars_of("none")) {
        Some(Transport::Null)
    } else if crate::text::chars_eq(&v, &chars_of("stdio")) {
        Some(Transport::Stdio)
    } else if crate::text::chars_eq(&v, &chars_of("http")) {
        Some(Transport::Http)
    } else {
        None
    }
}

// ---------------------------------------------------------------------------
// Material cache
// ---------------------------------------------------------------------------

/// Materials by source. No source occurs twice, and every material's
/// freshness bound fits in `i64`.
pub struct MaterialCache {
    entries: Vec<(String, Material)>,
}

/// Some entry has key `k`.
pub open spec fn has_key(s: Seq<(String, Material)>, k: Seq<char>) -> bool {
    exists|i: int| 0 <= i < s.len() && (#[trigger] s[i]).0@ == k
}

/// The entries as a map from source to material.
pub open spec fn entries_map(s: Seq<(String, Material)>) -> Map<Seq<char>, Material> {
    Map::new(
        |k: Seq<char>| has_key(s, k),
        |k: Seq<char>| s[choose|i: int| 0 <= i < s.len() && (#[trigger] s[i]).0@ == k].1,
    )
}

impl View for MaterialCache {
    type V = Map<Seq<char>, Material>;

    closed spec fn view(&self) -> Map<Seq<char>, Material> {
        entries_map(self.entries@)
    }
}

/// A material that can still be used at `now_ms`.
pub open spec fn fresh_at(m: Material, now_ms: i64) -> bool {
    now_ms < fresh_until(m.expires_at, m.grace_ms)
}

/// What a cache holding `c` answers for `source` at `now_ms`: its material
/// when there is one and it is still fresh.
pub open spec fn cache_lookup(c: Map<Seq<char>, Material>, source: Seq<char>, now_ms: i64) -> Option<
    Material,
> {
    if c.contains_key(source) && fresh_at(c[source], now_ms) {
        Some(c[source])
    } else {
        None
    }
}

fn clone_material(m: &Material) -> (r: Material)
    ensures
        r == *m,
{
    Material {
        epoch: m.epoch,
        part_b: m.part_b.clone(),
        mask: m.mask.clone(),
        build_id: m.build_id.clone(),
        referer: m.referer.clone(),
        api_base: m.api_base.clone(),
        cdn_base: m.cdn_base.clone(),
        expires_at: m.expires_at,
        grace_ms: m.grace_ms,
    }
}

impl MaterialCache {
    /// No source twice; every freshness bound fits.
    pub closed spec fn wf(&self) -> bool {
        &&& forall|i: int, j: int|
            0 <= i < j < self.entries@.len() ==> (#[trigger] self.entries@[i]).0@ != (
            #[trigger] self.entries@[j]).0@
        &&& forall|i: int|
            0 <= i < self.entries@.len() ==> material_ok(
                (#[trigger] self.entries@[i]).1.expires_at,
                self.entries@[i].1.grace_ms,
            )
    }

    /// An empty cache.
    pub fn new() -> (c: MaterialCache)
        ensures
            c.wf(),
            c@ == Map::<Seq<char>, Material>::empty(),
    {
        let c = MaterialCache { entries: Vec::new() };
        assert(c@ =~= Map::<Seq<char>, Material>::empty());
        c
    }

    /// Position of `key` among the entries.
    fn position(&self, key: &String) -> (r: Option<usize>)
        requires
            self.wf(),
        ensures
            match r {
                Some(i) => i < self.entries@.len() && self.entries@[i as int].0@ == key@,
                None => !has_key(self.entries@, key@),
            },
    {
        let mut i: usize = 0;
        while i < self.entries.len()
            invariant
                i <= self.entries@.len(),
                forall|j: int| 0 <= j < i ==> (#[trigger] self.entries@[j]).0@ != key@,
            decreases self.entries.len() - i,
        {
            if self.entries[i].0 == *key {
                return Some(i);
            }
            i = i + 1;
        }
        None
    }

    /// The cached material for `source`, if it is still fresh at `now_ms`.
    pub fn get(&self, source: &str, now_ms: i64) -> (r: Option<Material>)
        requires
            self.wf(),
        ensures
            r == cache_lookup(self@, source@, now_ms),
    {
        let key = String::from_str(source);
        match self.position(&key) {
            Some(i) => {
                let m = &self.entries[i].1;
                proof {
                    assert(has_key(self.entries@, source@));
                    let c = choose|j: int|
                        0 <= j < self.entries@.len() && (#[trigger] self.entries@[j]).0@ == source@;
                    if c != i {
                        if c < i {
                            assert(self.entries@[c].0@ != self.entries@[i as int].0@);
                        } else {
                            assert(self.entries@[i as int].0@ != self.entries@[c].0@);
                        }
                    }
                    assert(self@[source@] == *m);
                }
                if m.is_fresh(now_ms) {
                    Some(clone_material(m))
                } else {
                    None
                }
            },
            None => None,
        }
    }

    /// Caches `material` for `source`, replacing what was there.
    pub fn set(&mut self, source: &str, material: Material)
        requires
            old(self).wf(),
            material_ok(material.expires_at, material.grace_ms),
        ensures
            final(self).wf(),
            final(self)@ == old(self)@.insert(source@, material),
    {
        let key = String::from_str(source);
        let ghost m = material;
        match self.position(&key) {
            Some(i) => {
                self.entries[i] = (key, material);
                proof {
                    let s = self.entries@;
                    assert(s == old(self).entries@.update(i as int, s[i as int]));
                    assert forall|k: Seq<char>| #[trigger] has_key(s, k) == (has_key(
                        old(self).entries@,
                        k,
                    ) || k == source@) by {
                        if has_key(old(self).entries@, k) {
                            let j = choose|j: int|
                                0 <= j < old(self).entries@.len() && (
                                #[trigger] old(self).entries@[j]).0@ == k;
                            if j == i {
                                assert(s[j].0@ == k);
                            } else {
                                assert(s[j].0@ == k);
                            }
                        }
                        if k == source@ {
                            assert(s[i as int].0@ == k);
                        }
                    }
                    assert forall|k: Seq<char>| has_key(s, k) implies #[trigger] entries_map(s)[k]
                        == old(self)@.insert(source@, m)[k] by {
                        let c = choose|j: int| 0 <= j < s.len() && (#[trigger] s[j]).0@ == k;
                        if k == source@ {
                            if c != i {
                                if c < i {
                                    assert(s[c].0@ != s[i as int].0@);
                                } else {
                                    assert(s[i as int].0@ != s[c].0@);
                                }
                            }
                        } else {
                            assert(c != i);
                            assert(old(self).entries@[c].0@ == k);
                            let d = choose|j: int|
                                0 <= j < old(self).entries@.len() && (
                                #[trigger] old(self).entries@[j]).0@ == k;
                            if d != c {
                                if d < c {
                                    assert(old(self).entries@[d].0@ != old(self).entries@[c].0@);
                                } else {
                                    assert(old(self).entries@[c].0@ != old(self).entries@[d].0@);
                                }
                            }
                        }
                    }
                    assert(entries_map(s) =~= old(self)@.insert(source@, m));
                }
            },
            None => {
                self.entries.push((key, material));
                proof {
                    let s = self.entries@;
                    let n = old(self).entries@.len();
                    assert(s == old(self).entries@.push(s[n as int]));
                    assert forall|k: Seq<char>| #[trigger] has_key(s, k) == (has_key(
                        old(self).entries@,
                        k,
                    ) || k == source@) by {
                        if has_key(old(self).entries@, k) {
                            let j = choose|j: int|
                                0 <= j < old(self).entries@.len() && (
                                #[trigger] old(self).entries@[j]).0@ == k;
                            assert(s[j].0@ == k);
                        }
                        if k == source@ {
                            assert(s[n as int].0@ == k);
                        }
                    }
                    assert forall|k: Seq<char>| has_key(s, k) implies #[trigger] entries_map(s)[k]
                        == old(self)@.insert(source@, m)[k] by {
                        let c = choose|j: int| 0 <= j < s.len() && (#[trigger] s[j]).0@ == k;
                        if k == source@ {
                            if c != n {
                                assert(old(self).entries@[c].0@ == k);
                            }
                        } else {
                            assert(c != n);
                            let d = choose|j: int|
                                0 <= j < old(self).entries@.len() && (
                                #[trigger] old(self).entries@[j]).0@ == k;
                            if d != c {
                                if d < c {
                                    assert(old(self).entries@[d].0@ != old(self).entries@[c].0@);
                                } else {
                                    assert(old(self).entries@[c].0@ != old(self).entries@[d].0@);
                                }
                            }
                        }
                    }
                    assert(entries_map(s) =~= old(self)@.insert(source@, m));
                }
            },
        }
    }

    /// Forgets the material for `source`.
    pub fn invalidate(&mut self, source: &str)
        requires
            old(self).wf(),
        ensures
            final(self).wf(),
            final(self)@ == old(self)@.remove(source@),
    {
        let key = String::from_str(source);
        match self.position(&key) {
            Some(i) => {
                let _ = self.entries.remove(i);
                proof {
                    let o = old(self).entries@;
                    let s = self.entries@;
                    assert(s == o.remove(i as int));
                    assert forall|a: int, b: int| 0 <= a < b < s.len() implies (#[trigger] s[a]).0@
                        != (#[trigger] s[b]).0@ by {
                        let a0 = if a < i { a } else { a + 1 };
                        let b0 = if b < i { b } else { b + 1 };
                        assert(s[a] == o[a0]);
                        assert(s[b] == o[b0]);
                    }
                    assert forall|a: int| 0 <= a < s.len() implies material_ok(
                        (#[trigger] s[a]).1.expires_at,
                        s[a].1.grace_ms,
                    ) by {
                        let a0 = if a < i { a } else { a + 1 };
                        assert(s[a] == o[a0]);
                    }
                    assert forall|k: Seq<char>| #[trigger] has_key(s, k) == (has_key(o, k) && k
                        != source@) by {
                        if has_key(s, k) {
                            let j = choose|j: int| 0 <= j < s.len() && (#[trigger] s[j]).0@ == k;
                            let j0 = if j < i { j } else { j + 1 };
                            assert(s[j] == o[j0]);
                            assert(o[j0].0@ == k);
                            if k == source@ {
                                if j0 < i {
                                    assert(o[j0].0@ != o[i as int].0@);
                                } else {
                                    assert(o[i as int].0@ != o[j0].0@);
                                }
                            }
                        }
                        if has_key(o, k) && k != source@ {
                            let j = choose|j: int| 0 <= j < o.len() && (#[trigger] o[j]).0@ == k;
                            assert(j != i);
                            let j1 = if j < i { j } else { j - 1 };
                            assert(s[j1] == o[j]);
                        }
                    }
                    assert forall|k: Seq<char>| has_key(s, k) implies #[trigger] entries_map(s)[k]
                        == old(self)@.remove(source@)[k] by {
                        let c = choose|j: int| 0 <= j < s.len() && (#[trigger] s[j]).0@ == k;
                        let c0 = if c < i { c } else { c + 1 };
                        assert(s[c] == o[c0]);
                        let d = choose|j: int| 0 <= j < o.len() && (#[trigger] o[j]).0@ == k;
                        if d != c0 {
                            if d < c0 {
                                assert(o[d].0@ != o[c0].0@);
                            } else {
                                assert(o[c0].0@ != o[d].0@);
                            }
                        }
                    }
                    assert(entries_map(s) =~= old(self)@.remove(source@));
                }
            },
            None => {
                assert(old(self)@.remove(source@) =~= old(self)@);
            },
        }
    }
}

// ---------------------------------------------------------------------------
// Providers
// ---------------------------------------------------------------------------

/// Why a material provider could not answer.
pub enum ProviderError {
    /// No minter is configured.
    Disabled,
    /// The minter or the transport failed (what went wrong).
    Failed(String),
}

/// A source of signing material and request tokens.
pub trait MaterialProvider {
    /// What the minter is and supports.
    fn hello(&self) -> Result<Capabilities, ProviderError>;

    /// Signing material for `source` (fresh from the browser when `force`).
    fn material(&self, source: &str, force: bool) -> Result<Material, ProviderError>;

    /// A signed token for a query hash, in the bucket of `ts` when given.
    fn sign(&self, source: &str, query_hash: &str, ts: Option<i64>) -> Result<Token, ProviderError>;

    /// The source URLs of an episode.
    fn resolve(
        &self,
        source: &str,
        show_id: &str,
        episode: &str,
        tt: TranslationType,
    ) -> Result<Vec<SourceUrl>, ProviderError>;

    /// Whether the minter answers.
    fn ping(&self) -> Result<(), ProviderError>;
}

/// No minter: the core falls back to its static-key paths.
pub struct NullProvider;

impl MaterialProvider for NullProvider {
    fn hello(&self) -> (r: Result<Capabilities, ProviderError>)
        ensures
            r matches Ok(c) && c.minter@ == "null"@ && c.protocol == PROTOCOL_VERSION
                && c.levels@.len() == 0 && c.sources@.len() == 0 && c.browser is None,
    {
        Ok(
            Capabilities {
                minter: String::from_str("null"),
                protocol: PROTOCOL_VERSION,
                levels: Vec::new(),
                sources: Vec::new(),
                browser: None,
            },
        )
    }

    fn material(&self, source: &str, force: bool) -> (r: Result<Material, ProviderError>)
        ensures
            r matches Err(ProviderError::Disabled),
    {
        Err(ProviderError::Disabled)
    }

    fn sign(&self, source: &str, query_hash: &str, ts: Option<i64>) -> (r: Result<
        Token,
        ProviderError,
    >)
        ensures
            r matches Err(ProviderError::Disabled),
    {
        Err(ProviderError::Disabled)
    }

    fn resolve(
        &self,
        source: &str,
        show_id: &str,
        episode: &str,
        tt: TranslationType,
    ) -> (r: Result<Vec<SourceUrl>, ProviderError>)
        ensures
            r matches Err(ProviderError::Disabled),
    {
        Err(ProviderError::Disabled)
    }

    fn ping(&self) -> (r: Result<(), ProviderError>)
        ensures
            r is Ok,
    {
        Ok(())
    }
}

} // verus!
