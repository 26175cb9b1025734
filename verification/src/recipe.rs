//! Level-0 `aaReq` signing: the AES-256-GCM key is `partB` XOR `mask`, the
//! nonce is the head of a SHA-256 over the request's identity, and the sealed
//! JSON is framed and base64-encoded.
use vstd::prelude::*;
use crate::api::{base64_decode, base64_decode_error_text, base64_standard_decode, opt_bytes};
use crate::hls::{hex_decode, hex_decode_error_text, hex_decode_spec};
use crate::text::{append_chars, append_str, chars_of, decimal, push_decimal, trim, trim_exec, string_of};
use vstd::utf8::encode_utf8;
use aes_gcm::aead::{Aead, KeyInit};
use aes_gcm::{Aes256Gcm, Nonce};
use base64::Engine;
use sha2::{Digest, Sha256};

verus! {

// ---------------------------------------------------------------------------
// Outside primitives
// ---------------------------------------------------------------------------

/// The SHA-256 digest of `data` (`sha2`).
pub uninterp spec fn sha256_digest(data: Seq<u8>) -> Seq<u8>;

/// Hashes with `sha2::Sha256::digest`; the digest is 32 bytes.
#[verifier::external_body]
fn sha256(data: &[u8]) -> (r: Vec<u8>)
    ensures
        r@ == sha256_digest(data@),
        r@.len() == 32,
{
    Sha256::digest(data).to_vec()
}

/// What AES-256-GCM (`aes_gcm::Aes256Gcm`) seals `plaintext` to under a
/// 32-byte key and a 12-byte nonce: ciphertext then tag; `None` when it
/// refuses.
pub uninterp spec fn aes256_gcm_seal(key: Seq<u8>, nonce: Seq<u8>, plaintext: Seq<u8>) -> Option<
    Seq<u8>,
>;

/// The largest plaintext AES-GCM seals: 2^36 bytes.
pub open spec fn gcm_plaintext_max() -> int {
    0x10_0000_0000
}

/// Seals with `Aes256Gcm::encrypt`, no associated data. A 32-byte key is
/// always accepted; sealing refuses only a plaintext over 2^36 bytes, and
/// otherwise gives the plaintext's length plus a 16-byte tag.
#[verifier::external_body]
fn aes256_gcm_encrypt(key: &[u8], nonce: &[u8], plaintext: &[u8]) -> (r: Option<Vec<u8>>)
    requires
        key@.len() == 32,
        nonce@.len() == 12,
    ensures
        opt_bytes(r) == aes256_gcm_seal(key@, nonce@, plaintext@),
        r is Some <==> plaintext@.len() <= gcm_plaintext_max(),
        r matches Some(c) ==> c@.len() == plaintext@.len() + 16,
{
    Aes256Gcm::new_from_slice(key).ok()?.encrypt(Nonce::from_slice(nonce), plaintext).ok()
}

/// The standard base64 alphabet.
pub open spec fn b64_char(v: int) -> char {
    if v < 26 {
        ('A' as int + v) as char
    } else if v < 52 {
        ('a' as int + v - 26) as char
    } else if v < 62 {
        ('0' as int + v - 52) as char
    } else if v == 62 {
        '+'
    } else {
        '/'
    }
}

/// Standard base64 with `=` padding: each three bytes become four
/// characters of six bits each, high bits first.
pub open spec fn b64_encode_spec(b: Seq<u8>) -> Seq<char>
    decreases b.len(),
{
    let x = if b.len() > 0 {
        b[0] as int
    } else {
        0
    };
    let y = if b.len() > 1 {
        b[1] as int
    } else {
        0
    };
    let z = if b.len() > 2 {
        b[2] as int
    } else {
        0
    };
    if b.len() == 0 {
        Seq::empty()
    } else if b.len() == 1 {
        seq![b64_char(x / 4), b64_char((x % 4) * 16), '=', '=']
    } else if b.len() == 2 {
        seq![b64_char(x / 4), b64_char((x % 4) * 16 + y / 16), b64_char((y % 16) * 4), '=']
    } else {
        seq![
            b64_char(x / 4),
            b64_char((x % 4) * 16 + y / 16),
            b64_char((y % 16) * 4 + z / 64),
            b64_char(z % 64),
        ] + b64_encode_spec(b.subrange(3, b.len() as int))
    }
}

/// A character of standard base64 text: the alphabet or `=`.
pub open spec fn is_b64_text_char(c: char) -> bool {
    ('A' <= c <= 'Z') || ('a' <= c <= 'z') || ('0' <= c <= '9') || c == '+' || c == '/' || c == '='
}

proof fn lemma_b64_char(v: int)
    requires
        0 <= v < 64,
    ensures
        is_b64_text_char(b64_char(v)),
{
}

/// Standard base64 text is made of whole groups of four alphabet or `=`
/// characters.
pub proof fn lemma_b64_encode_shape(b: Seq<u8>)
    ensures
        b64_encode_spec(b).len() % 4 == 0,
        forall|i: int| 0 <= i < b64_encode_spec(b).len() ==> is_b64_text_char(#[trigger] b64_encode_spec(b)[i]),
    decreases b.len(),
{
    let x = if b.len() > 0 {
        b[0] as int
    } else {
        0
    };
    let y = if b.len() > 1 {
        b[1] as int
    } else {
        0
    };
    let z = if b.len() > 2 {
        b[2] as int
    } else {
        0
    };
    if b.len() > 0 {
        lemma_b64_char(x / 4);
        lemma_b64_char((x % 4) * 16);
        lemma_b64_char((x % 4) * 16 + y / 16);
        lemma_b64_char((y % 16) * 4);
        lemma_b64_char((y % 16) * 4 + z / 64);
        lemma_b64_char(z % 64);
    }
    if b.len() > 2 {
        let rest = b.subrange(3, b.len() as int);
        lemma_b64_encode_shape(rest);
        let head = seq![
            b64_char(x / 4),
            b64_char((x % 4) * 16 + y / 16),
            b64_char((y % 16) * 4 + z / 64),
            b64_char(z % 64),
        ];
        assert(b64_encode_spec(b) == head + b64_encode_spec(rest));
        assert forall|i: int| 0 <= i < b64_encode_spec(b).len() implies is_b64_text_char(
            #[trigger] b64_encode_spec(b)[i],
        ) by {
            if i >= 4 {
                assert(b64_encode_spec(b)[i] == b64_encode_spec(rest)[i - 4]);
            }
        }
    }
}

/// Encodes with the `base64` crate's `STANDARD` engine.
#[verifier::external_body]
fn base64_encode(data: &[u8]) -> (r: String)
    ensures
        r@ == b64_encode_spec(data@),
{
    base64::engine::general_purpose::STANDARD.encode(data)
}

// ---------------------------------------------------------------------------
// The recipe
// ---------------------------------------------------------------------------

/// Byte `i` of `b`, or 0 past its end.
pub open spec fn byte_or_zero(b: Seq<u8>, i: int) -> u8 {
    if 0 <= i < b.len() {
        b[i]
    } else {
        0
    }
}

/// The 32-byte key: `partB` XOR `mask`, each padded with zero bytes.
pub open spec fn xor_key_spec(part_b: Seq<u8>, mask: Seq<u8>) -> Seq<u8> {
    Seq::new(32, |i: int| byte_or_zero(part_b, i) ^ byte_or_zero(mask, i))
}

/// The AES-256 key of a material.
pub fn xor_key(part_b: &[u8], mask: &[u8]) -> (r: Vec<u8>)
    ensures
        r@ == xor_key_spec(part_b@, mask@),
{
    let mut key: Vec<u8> = Vec::new();
    let mut i: usize = 0;
    while i < 32
        invariant
            i <= 32,
            key@.len() == i,
            forall|j: int| 0 <= j < i ==> key@[j] == byte_or_zero(part_b@, j) ^ byte_or_zero(mask@, j),
        decreases 32 - i,
    {
        let a: u8 = if i < part_b.len() {
            part_b[i]
        } else {
            0
        };
        let b: u8 = if i < mask.len() {
            mask[i]
        } else {
            0
        };
        key.push(a ^ b);
        i = i + 1;
    }
    assert(key@ =~= xor_key_spec(part_b@, mask@));
    key
}

/// Decimal rendering of a signed number.
pub open spec fn signed_decimal(x: int) -> Seq<char> {
    if x < 0 {
        "-"@ + decimal((-x) as nat)
    } else {
        decimal(x as nat)
    }
}

fn push_signed(out: &mut Vec<char>, x: i64)
    ensures
        final(out)@ == old(out)@ + signed_decimal(x as int),
{
    if x < 0 {
        out.push('-');
        let m: i128 = -(x as i128);
        push_decimal(out, m as u64);
        proof {
            reveal_strlit("-");
        }
        assert(final(out)@ =~= old(out)@ + signed_decimal(x as int));
    } else {
        push_decimal(out, x as u64);
    }
}

/// `epoch:buildId:queryHash:ts`, whose SHA-256 gives the nonce.
pub open spec fn iv_input_spec(epoch: u64, build_id: Seq<char>, query_hash: Seq<char>, ts: i64) -> Seq<
    char,
> {
    decimal(epoch as nat) + ":"@ + build_id + ":"@ + query_hash + ":"@ + signed_decimal(ts as int)
}

/// The text hashed into the nonce.
pub fn iv_input(epoch: u64, build_id: &str, query_hash: &str, ts: i64) -> (r: String)
    ensures
        r@ == iv_input_spec(epoch, build_id@, query_hash@, ts),
{
    let mut out: Vec<char> = Vec::new();
    push_decimal(&mut out, epoch);
    out.push(':');
    append_str(&mut out, build_id);
    out.push(':');
    append_str(&mut out, query_hash);
    out.push(':');
    push_signed(&mut out, ts);
    proof {
        reveal_strlit(":");
    }
    assert(out@ =~= iv_input_spec(epoch, build_id@, query_hash@, ts));
    string_of(&out)
}

/// A lower-case hex digit.
pub open spec fn hex_lower(v: int) -> char {
    if v < 10 {
        ('0' as int + v) as char
    } else {
        ('a' as int + v - 10) as char
    }
}

/// How `serde_json` writes one character inside a string: quote and
/// backslash escaped, the short escapes for backspace, form feed, newline,
/// carriage return and tab, `\u00XX` for other control characters, anything
/// else as is.
pub open spec fn json_escape(c: char) -> Seq<char> {
    if c == '"' {
        seq!['\\', '"']
    } else if c == '\\' {
        seq!['\\', '\\']
    } else if c == '\u{8}' {
        seq!['\\', 'b']
    } else if c == '\u{c}' {
        seq!['\\', 'f']
    } else if c == '\n' {
        seq!['\\', 'n']
    } else if c == '\r' {
        seq!['\\', 'r']
    } else if c == '\t' {
        seq!['\\', 't']
    } else if (c as u32) < 0x20 {
        seq!['\\', 'u', '0', '0', hex_lower(((c as u32) / 16) as int), hex_lower(((c as u32) % 16) as int)]
    } else {
        seq![c]
    }
}

/// The escaped characters of a JSON string's content.
pub open spec fn json_escaped(s: Seq<char>) -> Seq<char>
    decreases s.len(),
{
    if s.len() == 0 {
        Seq::empty()
    } else {
        json_escaped(s.drop_last()) + json_escape(s.last())
    }
}

/// A JSON string literal.
pub open spec fn json_string(s: Seq<char>) -> Seq<char> {
    "\""@ + json_escaped(s) + "\""@
}

fn push_json_string(out: &mut Vec<char>, s: &str)
    ensures
        final(out)@ == old(out)@ + json_string(s@),
{
    let v = chars_of(s);
    out.push('"');
    let ghost start = out@;
    let mut i: usize = 0;
    assert(v@.subrange(0, 0) =~= Seq::<char>::empty());
    while i < v.len()
        invariant
            i <= v.len(),
            out@ == start + json_escaped(v@.subrange(0, i as int)),
        decreases v.len() - i,
    {
        let c = v[i];
        let ghost before = out@;
        if c == '"' {
            out.push('\\');
            out.push('"');
        } else if c == '\\' {
            out.push('\\');
            out.push('\\');
        } else if c == '\u{8}' {
            out.push('\\');
            out.push('b');
        } else if c == '\u{c}' {
            out.push('\\');
            out.push('f');
        } else if c == '\n' {
            out.push('\\');
            out.push('n');
        } else if c == '\r' {
            out.push('\\');
            out.push('r');
        } else if c == '\t' {
            out.push('\\');
            out.push('t');
        } else if (c as u32) < 0x20 {
            let code = c as u32;
            out.push('\\');
            out.push('u');
            out.push('0');
            out.push('0');
            out.push(crate::text::char_of_digit(code / 16));
            let lo = code % 16;
            let d: char = if lo < 10 {
                crate::text::char_of_digit(lo)
            } else if lo == 10 {
                'a'
            } else if lo == 11 {
                'b'
            } else if lo == 12 {
                'c'
            } else if lo == 13 {
                'd'
            } else if lo == 14 {
                'e'
            } else {
                'f'
            };
            out.push(d);
            assert(hex_lower((code % 16) as int) == d);
            assert(out@ =~= before + json_escape(c));
        } else {
            out.push(c);
        }
        let ghost pre = v@.subrange(0, i as int);
        let ghost nxt = v@.subrange(0, i + 1);
        assert(nxt.drop_last() =~= pre);
        assert(out@ =~= start + json_escaped(nxt));
        i = i + 1;
    }
    assert(v@.subrange(0, v@.len() as int) =~= v@);
    out.push('"');
    proof {
        reveal_strlit("\"");
    }
    assert(out@ =~= old(out)@ + json_string(s@));
}

/// The JSON that gets sealed, as `serde_json` writes it: keys in sorted
/// order, no spaces.
pub open spec fn plaintext_spec(epoch: u64, build_id: Seq<char>, query_hash: Seq<char>, ts: i64) -> Seq<
    char,
> {
    "{\"buildId\":"@ + json_string(build_id) + ",\"epoch\":"@ + decimal(epoch as nat) + ",\"qh\":"@
        + json_string(query_hash) + ",\"ts\":"@ + signed_decimal(ts as int) + ",\"v\":1}"@
}

/// The UTF-8 bytes of a string.
fn bytes_of(s: &String) -> (r: Vec<u8>)
    ensures
        r@ == encode_utf8(s@),
{
    let b = s.as_str().as_bytes();
    let mut out: Vec<u8> = Vec::new();
    let mut i: usize = 0;
    while i < b.len()
        invariant
            i <= b@.len(),
            out@ == b@.subrange(0, i as int),
        decreases b.len() - i,
    {
        out.push(b[i]);
        i = i + 1;
        assert(out@ =~= b@.subrange(0, i as int));
    }
    assert(b@.subrange(0, b@.len() as int) =~= b@);
    out
}

/// The plaintext of a request token.
pub fn aa_plaintext(epoch: u64, build_id: &str, query_hash: &str, ts: i64) -> (r: String)
    ensures
        r@ == plaintext_spec(epoch, build_id@, query_hash@, ts),
{
    let mut out: Vec<char> = Vec::new();
    append_str(&mut out, "{\"buildId\":");
    push_json_string(&mut out, build_id);
    append_str(&mut out, ",\"epoch\":");
    push_decimal(&mut out, epoch);
    append_str(&mut out, ",\"qh\":");
    push_json_string(&mut out, query_hash);
    append_str(&mut out, ",\"ts\":");
    push_signed(&mut out, ts);
    append_str(&mut out, ",\"v\":1}");
    assert(out@ =~= plaintext_spec(epoch, build_id@, query_hash@, ts));
    string_of(&out)
}

/// The token as sent: base64 of a version byte 1, the 12-byte nonce and the
/// sealed bytes.
pub open spec fn frame_spec(nonce: Seq<u8>, sealed: Seq<u8>) -> Seq<char> {
    b64_encode_spec(seq![1u8] + nonce + sealed)
}

/// Frames a sealed plaintext with its nonce.
pub fn frame_aa_req(nonce: &[u8], sealed: &[u8]) -> (r: String)
    ensures
        r@ == frame_spec(nonce@, sealed@),
{
    let mut out: Vec<u8> = Vec::new();
    out.push(1u8);
    let mut i: usize = 0;
    while i < nonce.len()
        invariant
            i <= nonce@.len(),
            out@ == seq![1u8] + nonce@.subrange(0, i as int),
        decreases nonce.len() - i,
    {
        out.push(nonce[i]);
        i = i + 1;
        assert(out@ =~= seq![1u8] + nonce@.subrange(0, i as int));
    }
    assert(nonce@.subrange(0, nonce@.len() as int) =~= nonce@);
    let ghost head = out@;
    let mut j: usize = 0;
    while j < sealed.len()
        invariant
            j <= sealed@.len(),
            out@ == head + sealed@.subrange(0, j as int),
        decreases sealed.len() - j,
    {
        out.push(sealed[j]);
        j = j + 1;
        assert(out@ =~= head + sealed@.subrange(0, j as int));
    }
    assert(sealed@.subrange(0, sealed@.len() as int) =~= sealed@);
    base64_encode(out.as_slice())
}

/// Why a token could not be signed.
#[derive(Clone, PartialEq, Eq, Debug)]
pub enum SignError {
    /// `partB` is not base64; the decoder's message.
    PartB(String),
    /// `mask` is not hex; the decoder's message.
    Mask(String),
    /// AES-GCM refused to seal.
    Encrypt,
}

/// A signing failure, with its message as text.
pub enum SignFault {
    PartB(Seq<char>),
    Mask(Seq<char>),
    Encrypt,
}

impl View for SignError {
    type V = SignFault;

    open spec fn view(&self) -> SignFault {
        match self {
            SignError::PartB(t) => SignFault::PartB(t@),
            SignError::Mask(t) => SignFault::Mask(t@),
            SignError::Encrypt => SignFault::Encrypt,
        }
    }
}

/// How a signing failure reads: the step that failed, then the reason the
/// decoder gave (`"decoding partB: …"`, `"decoding mask: …"`, or
/// `"AES-GCM encrypt: aead::Error"`).
pub open spec fn sign_fault_text(e: SignFault) -> Seq<char> {
    match e {
        SignFault::PartB(t) => "decoding partB: "@ + t,
        SignFault::Mask(t) => "decoding mask: "@ + t,
        SignFault::Encrypt => "AES-GCM encrypt: aead::Error"@,
    }
}

impl SignError {
    /// The failure as text: the step that failed, then why.
    pub fn text(&self) -> (r: String)
        ensures
            r@ == sign_fault_text(self@),
    {
        let mut out: Vec<char> = Vec::new();
        match self {
            SignError::PartB(t) => {
                append_str(&mut out, "decoding partB: ");
                append_str(&mut out, t.as_str());
            },
            SignError::Mask(t) => {
                append_str(&mut out, "decoding mask: ");
                append_str(&mut out, t.as_str());
            },
            SignError::Encrypt => {
                append_str(&mut out, "AES-GCM encrypt: aead::Error");
            },
        }
        string_of(&out)
    }
}

/// The signed `aaReq` for a material and request, or why there is none.
pub open spec fn sign_spec(
    part_b_b64: Seq<char>,
    mask_hex: Seq<char>,
    epoch: u64,
    build_id: Seq<char>,
    query_hash: Seq<char>,
    ts: i64,
) -> Result<Seq<char>, SignFault> {
    match base64_standard_decode(encode_utf8(trim(part_b_b64))) {
        None => Err(SignFault::PartB(base64_decode_error_text(encode_utf8(trim(part_b_b64))))),
        Some(part_b) => match hex_decode_spec(encode_utf8(mask_hex)) {
            None => Err(SignFault::Mask(hex_decode_error_text(encode_utf8(mask_hex)))),
            Some(mask) => {
                let nonce = sha256_digest(
                    encode_utf8(iv_input_spec(epoch, build_id, query_hash, ts)),
                ).subrange(0, 12);
                match aes256_gcm_seal(
                    xor_key_spec(part_b, mask),
                    nonce,
                    encode_utf8(plaintext_spec(epoch, build_id, query_hash, ts)),
                ) {
                    None => Err(SignFault::Encrypt),
                    Some(sealed) => Ok(frame_spec(nonce, sealed)),
                }
            },
        },
    }
}

/// The view of a signing result.
pub open spec fn sign_view(r: Result<String, SignError>) -> Result<Seq<char>, SignFault> {
    match r {
        Ok(s) => Ok(s@),
        Err(e) => Err(e@),
    }
}

/// Signs a level-0 request token.
pub fn sign_aa_req(
    part_b_b64: &str,
    mask_hex: &str,
    epoch: u64,
    build_id: &str,
    query_hash: &str,
    ts: i64,
) -> (r: Result<String, SignError>)
    ensures
        sign_view(r) == sign_spec(part_b_b64@, mask_hex@, epoch, build_id@, query_hash@, ts),
        r matches Err(SignError::Encrypt) ==> encode_utf8(
            plaintext_spec(epoch, build_id@, query_hash@, ts),
        ).len() > gcm_plaintext_max(),
{
    let trimmed = string_of(&trim_exec(&chars_of(part_b_b64)));
    let pb_bytes = bytes_of(&trimmed);
    let part_b = match base64_decode(pb_bytes.as_slice()) {
        Err(t) => return Err(SignError::PartB(t)),
        Ok(b) => b,
    };
    let mask_bytes = bytes_of(&String::from_str(mask_hex));
    let mask = match hex_decode(mask_bytes.as_slice()) {
        Err(t) => return Err(SignError::Mask(t)),
        Ok(m) => m,
    };
    let key = xor_key(part_b.as_slice(), mask.as_slice());
    let input = iv_input(epoch, build_id, query_hash, ts);
    let hash = sha256(bytes_of(&input).as_slice());
    let mut nonce: Vec<u8> = Vec::new();
    let mut i: usize = 0;
    while i < 12
        invariant
            i <= 12,
            hash@.len() == 32,
            nonce@ == hash@.subrange(0, i as int),
        decreases 12 - i,
    {
        nonce.push(hash[i]);
        i = i + 1;
        assert(nonce@ =~= hash@.subrange(0, i as int));
    }
    let plain = aa_plaintext(epoch, build_id, query_hash, ts);
    let pt = bytes_of(&plain);
    let sealed = match aes256_gcm_encrypt(key.as_slice(), nonce.as_slice(), pt.as_slice()) {
        None => return Err(SignError::Encrypt),
        Some(c) => c,
    };
    Ok(frame_aa_req(nonce.as_slice(), sealed.as_slice()))
}

} // verus!
