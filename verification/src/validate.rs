//! The validation codec: build the encrypted request document for the
//! vendor endpoint and judge its response. The request is a fixed-order
//! JSON object, PKCS#7-padded, AES-128-CBC-encrypted with the fixed vendor
//! key and IV, Base64-encoded and URL-encoded into a form body. The
//! response travels the same way back and carries a JSON object embedded in
//! noise. The HTTP POST itself is the embedding program's job.

use vstd::prelude::*;
use vstd::string::StrSliceExecFns;
use vstd::string::StringExecFns;
use vstd::string::StringSliceAdditionalSpecFns;
use vstd::utf8::encode_utf8;

use crate::device::DeviceInfo;
use crate::errors::Error;
use crate::text::push_json_escaped;
use crate::text::push_str_bytes;
use crate::text::spec_json_escaped;

verus! {

/// The fixed vendor key, ASCII `miuiotavalided11`. A protocol constant, not
/// a secret.
pub open spec fn spec_validation_key() -> Seq<u8> {
    seq![
        0x6du8,
        0x69u8,
        0x75u8,
        0x69u8,
        0x6fu8,
        0x74u8,
        0x61u8,
        0x76u8,
        0x61u8,
        0x6cu8,
        0x69u8,
        0x64u8,
        0x65u8,
        0x64u8,
        0x31u8,
        0x31u8,
    ]
}

/// The fixed vendor IV, ASCII `0102030405060708`.
pub open spec fn spec_validation_iv() -> Seq<u8> {
    seq![
        0x30u8,
        0x31u8,
        0x30u8,
        0x32u8,
        0x30u8,
        0x33u8,
        0x30u8,
        0x34u8,
        0x30u8,
        0x35u8,
        0x30u8,
        0x36u8,
        0x30u8,
        0x37u8,
        0x30u8,
        0x38u8,
    ]
}

pub fn validation_key() -> (r: Vec<u8>)
    ensures
        r@ == spec_validation_key(),
        r@.len() == 16,
{
    let mut v: Vec<u8> = Vec::new();
    v.push(0x6d);
    v.push(0x69);
    v.push(0x75);
    v.push(0x69);
    v.push(0x6f);
    v.push(0x74);
    v.push(0x61);
    v.push(0x76);
    v.push(0x61);
    v.push(0x6c);
    v.push(0x69);
    v.push(0x64);
    v.push(0x65);
    v.push(0x64);
    v.push(0x31);
    v.push(0x31);
    proof {
        assert(v@ =~= spec_validation_key());
    }
    v
}

pub fn validation_iv() -> (r: Vec<u8>)
    ensures
        r@ == spec_validation_iv(),
        r@.len() == 16,
{
    let mut v: Vec<u8> = Vec::new();
    v.push(0x30);
    v.push(0x31);
    v.push(0x30);
    v.push(0x32);
    v.push(0x30);
    v.push(0x33);
    v.push(0x30);
    v.push(0x34);
    v.push(0x30);
    v.push(0x35);
    v.push(0x30);
    v.push(0x36);
    v.push(0x30);
    v.push(0x37);
    v.push(0x30);
    v.push(0x38);
    proof {
        assert(v@ =~= spec_validation_iv());
    }
    v
}

/// PKCS#7 padding to a 16-byte boundary: `16 - len % 16` copies of that
/// same count, so a full block is appended when the input is already
/// aligned.
pub open spec fn spec_pkcs7_pad(s: Seq<u8>) -> Seq<u8> {
    let pad = 16 - (s.len() % 16);
    s + Seq::new(pad as nat, |i: int| pad as u8)
}

pub fn pkcs7_pad(data: Vec<u8>) -> (r: Vec<u8>)
    ensures
        r@ == spec_pkcs7_pad(data@),
{
    let pad: usize = 16 - (data.len() % 16);
    let ghost orig = data@;
    let mut out = data;
    let mut i: usize = 0;
    while i < pad
        invariant
            i <= pad,
            pad == 16 - (orig.len() % 16),
            out@ == orig + Seq::new(i as nat, |j: int| pad as u8),
        decreases pad - i,
    {
        out.push(pad as u8);
        proof {
            assert(orig + Seq::new(i as nat, |j: int| pad as u8).push(pad as u8) =~= orig
                + Seq::new((i + 1) as nat, |j: int| pad as u8));
        }
        i = i + 1;
    }
    proof {
        assert(out@ =~= spec_pkcs7_pad(orig));
    }
    out
}

/// What a raw AES-128-CBC encryption of a block-aligned plaintext returns;
/// a function of the key, IV and plaintext alone.
pub uninterp spec fn spec_aes128_cbc_encrypt(key: Seq<u8>, iv: Seq<u8>, plain: Seq<u8>) -> Seq<u8>;

/// What an AES-128-CBC decryption with PKCS#7 unpadding returns when it
/// succeeds; a function of the key, IV and ciphertext alone.
pub uninterp spec fn spec_aes128_cbc_decrypt(key: Seq<u8>, iv: Seq<u8>, data: Seq<u8>) -> Seq<u8>;

/// Whether an AES-128-CBC decryption with PKCS#7 unpadding succeeds: the
/// input is whole blocks and decrypts to well-formed padding; a function of
/// the key, IV and ciphertext alone.
pub uninterp spec fn spec_aes128_cbc_decrypt_ok(key: Seq<u8>, iv: Seq<u8>, data: Seq<u8>) -> bool;

/// A byte string that ends in well-formed PKCS#7 padding for 16-byte
/// blocks: whole blocks, with the last byte giving a pad count between 1
/// and 16 and that many copies of it at the end.
pub open spec fn spec_pkcs7_padded(s: Seq<u8>) -> bool {
    &&& s.len() > 0
    &&& s.len() % 16 == 0
    &&& 1 <= s.last() <= 16
    &&& forall|i: int| s.len() - s.last() <= i < s.len() ==> s[i] == s.last()
}

/// Law: explicit padding produces a well-formed padded string, and
/// stripping the pad count it announces gives the input back. With the
/// encrypt wrapper's last clause this says that decrypting an encrypted
/// padded document returns the document.
pub proof fn lemma_pkcs7_pad_shape(s: Seq<u8>)
    ensures
        spec_pkcs7_padded(spec_pkcs7_pad(s)),
        spec_pkcs7_pad(s).take(spec_pkcs7_pad(s).len() - spec_pkcs7_pad(s).last()) == s,
{
    let p = 16 - (s.len() % 16);
    let padded = spec_pkcs7_pad(s);
    assert(padded.len() == s.len() + p);
    assert(padded.last() == p as u8);
    assert(forall|i: int| padded.len() - p <= i < padded.len() ==> padded[i] == p as u8);
    assert(padded.take(padded.len() - p) =~= s);
}

/// Relies on `cbc::Encryptor<aes::Aes128>` with `NoPadding`: raw CBC of an
/// already block-aligned plaintext, a function of key, IV and plaintext of
/// the plaintext's own length. Decryption strips one layer of PKCS#7
/// padding, so a plaintext that ends in well-formed padding decrypts back
/// to itself without that padding.
#[verifier::external_body]
fn aes128_cbc_encrypt(key: &[u8], iv: &[u8], plain: &[u8]) -> (r: Vec<u8>)
    requires
        key@.len() == 16,
        iv@.len() == 16,
        plain@.len() % 16 == 0,
    ensures
        r@ == spec_aes128_cbc_encrypt(key@, iv@, plain@),
        r@.len() == plain@.len(),
        spec_pkcs7_padded(plain@) ==> spec_aes128_cbc_decrypt_ok(key@, iv@, r@)
            && spec_aes128_cbc_decrypt(key@, iv@, r@) == plain@.take(
            plain@.len() - plain@.last(),
        ),
{
    let enc = <cbc::Encryptor<aes::Aes128> as cbc::cipher::KeyIvInit>::new_from_slices(key, iv)
        .expect("key and iv are one block each");
    cbc::cipher::BlockEncryptMut::encrypt_padded_vec_mut::<cbc::cipher::block_padding::NoPadding>(
        enc,
        plain,
    )
}

/// Relies on `cbc::Decryptor<aes::Aes128>` with `Pkcs7` unpadding: whether
/// it succeeds, and what it returns, are functions of key, IV and
/// ciphertext; a ciphertext that is not whole blocks or decrypts to
/// malformed padding is a crypto error.
#[verifier::external_body]
fn aes128_cbc_decrypt(key: &[u8], iv: &[u8], data: &[u8]) -> (r: Result<Vec<u8>, Error>)
    requires
        key@.len() == 16,
        iv@.len() == 16,
    ensures
        r is Ok <==> spec_aes128_cbc_decrypt_ok(key@, iv@, data@),
        r matches Ok(p) ==> p@ == spec_aes128_cbc_decrypt(key@, iv@, data@),
        r matches Err(e) ==> e matches Error::Crypto(_),
{
    let dec = <cbc::Decryptor<aes::Aes128> as cbc::cipher::KeyIvInit>::new_from_slices(key, iv)
        .expect("key and iv are one block each");
    match cbc::cipher::BlockDecryptMut::decrypt_padded_vec_mut::<cbc::cipher::block_padding::Pkcs7>(
        dec,
        data,
    ) {
        Ok(p) => Ok(p),
        Err(e) => Err(Error::Crypto(e.to_string())),
    }
}

/// The byte of the standard Base64 alphabet at an index below 64.
pub open spec fn spec_b64_char(d: int) -> u8 {
    if d < 26 {
        (0x41 + d) as u8
    } else if d < 52 {
        (0x61 + d - 26) as u8
    } else if d < 62 {
        (0x30 + d - 52) as u8
    } else if d == 62 {
        0x2bu8
    } else {
        0x2fu8
    }
}

/// Canonical padded Base64 over the standard alphabet: three bytes become
/// four alphabet characters; a final one or two bytes are padded with `=`.
pub open spec fn spec_base64(s: Seq<u8>) -> Seq<u8>
    decreases s.len(),
{
    if s.len() == 0 {
        Seq::empty()
    } else if s.len() == 1 {
        seq![
            spec_b64_char(s[0] as int / 4),
            spec_b64_char((s[0] as int % 4) * 16),
            0x3du8,
            0x3du8,
        ]
    } else if s.len() == 2 {
        seq![
            spec_b64_char(s[0] as int / 4),
            spec_b64_char((s[0] as int % 4) * 16 + s[1] as int / 16),
            spec_b64_char((s[1] as int % 16) * 4),
            0x3du8,
        ]
    } else {
        seq![
            spec_b64_char(s[0] as int / 4),
            spec_b64_char((s[0] as int % 4) * 16 + s[1] as int / 16),
            spec_b64_char((s[1] as int % 16) * 4 + s[2] as int / 64),
            spec_b64_char(s[2] as int % 64),
        ] + spec_base64(s.skip(3))
    }
}

/// Relies on `base64::engine::general_purpose::STANDARD.encode`: canonical
/// padded Base64 over the standard alphabet.
#[verifier::external_body]
fn b64_encode(data: &[u8]) -> (r: String)
    ensures
        encode_utf8(r@) == spec_base64(data@),
{
    base64::Engine::encode(&base64::engine::general_purpose::STANDARD, data)
}

/// What `STANDARD.decode` returns on success; a function of the input
/// alone.
pub uninterp spec fn spec_b64_decode(b: Seq<u8>) -> Seq<u8>;

/// Relies on `base64::engine::general_purpose::STANDARD.decode`: the
/// engine requires canonical padding and rejects set trailing bits, so it
/// succeeds exactly when the input is the canonical encoding of some byte
/// string, and then returns exactly those bytes.
#[verifier::external_body]
fn b64_decode(data: &[u8]) -> (r: Result<Vec<u8>, Error>)
    ensures
        r is Ok <==> (exists|v: Seq<u8>| data@ == spec_base64(v)),
        r matches Ok(v) ==> v@ == spec_b64_decode(data@) && data@ == spec_base64(v@),
        r matches Err(e) ==> e matches Error::Crypto(_),
{
    match base64::Engine::decode(&base64::engine::general_purpose::STANDARD, data) {
        Ok(v) => Ok(v),
        Err(e) => Err(Error::Crypto(e.to_string())),
    }
}

/// The bytes URL encoding leaves as they are: ASCII alphanumerics and
/// `-`, `.`, `_`, `~`.
pub open spec fn spec_url_unreserved(b: u8) -> bool {
    ||| (0x30 <= b && b <= 0x39)
    ||| (0x41 <= b && b <= 0x5a)
    ||| (0x61 <= b && b <= 0x7a)
    ||| b == 0x2d
    ||| b == 0x2e
    ||| b == 0x5f
    ||| b == 0x7e
}

/// The uppercase hexadecimal digit byte for a value below 16.
pub open spec fn spec_uhex_digit(d: int) -> u8 {
    if d < 10 {
        (0x30 + d) as u8
    } else {
        (0x37 + d) as u8
    }
}

/// Percent-encoding: unreserved bytes stand as themselves, every other
/// byte becomes `%` and two uppercase hexadecimal digits.
pub open spec fn spec_urlencoded(s: Seq<u8>) -> Seq<u8>
    decreases s.len(),
{
    if s.len() == 0 {
        Seq::empty()
    } else {
        (if spec_url_unreserved(s[0]) {
            seq![s[0]]
        } else {
            seq![0x25u8, spec_uhex_digit(s[0] as int / 16), spec_uhex_digit(s[0] as int % 16)]
        }) + spec_urlencoded(s.drop_first())
    }
}

/// Relies on `urlencoding::encode`: percent-encodes every byte except
/// ASCII alphanumerics and `-`, `.`, `_`, `~`, with uppercase hex digits.
#[verifier::external_body]
fn url_encode(s: &str) -> (r: Vec<u8>)
    ensures
        r@ == spec_urlencoded(s.spec_bytes()),
{
    urlencoding::encode(s).into_owned().into_bytes()
}

/// The compact request document sent to the validation endpoint, fields in
/// this exact order; `l` and `f` are fixed literals, `pkg` is the payload
/// md5 (empty when only listing).
pub open spec fn spec_request_doc(info: DeviceInfo, pkg: Seq<u8>) -> Seq<u8> {
    "{\"d\":\"".spec_bytes() + spec_json_escaped(encode_utf8(info.device@))
        + "\",\"v\":\"".spec_bytes() + spec_json_escaped(encode_utf8(info.version@))
        + "\",\"c\":\"".spec_bytes() + spec_json_escaped(encode_utf8(info.codebase@))
        + "\",\"b\":\"".spec_bytes() + spec_json_escaped(encode_utf8(info.branch@))
        + "\",\"sn\":\"".spec_bytes() + spec_json_escaped(encode_utf8(info.sn@))
        + "\",\"l\":\"en-US\",\"f\":\"1\",\"options\":{\"zone\":\"".spec_bytes()
        + spec_json_escaped(encode_utf8(info.romzone@)) + "\"},\"pkg\":\"".spec_bytes()
        + spec_json_escaped(pkg) + "\"}".spec_bytes()
}

/// Serialize the request document for a device and payload digest.
pub fn build_request_doc(info: &DeviceInfo, md5: &str) -> (r: Vec<u8>)
    ensures
        r@ == spec_request_doc(*info, md5.spec_bytes()),
{
    let mut out: Vec<u8> = Vec::new();
    push_str_bytes(&mut out, "{\"d\":\"");
    push_json_escaped(&mut out, info.device.as_str().as_bytes());
    push_str_bytes(&mut out, "\",\"v\":\"");
    push_json_escaped(&mut out, info.version.as_str().as_bytes());
    push_str_bytes(&mut out, "\",\"c\":\"");
    push_json_escaped(&mut out, info.codebase.as_str().as_bytes());
    push_str_bytes(&mut out, "\",\"b\":\"");
    push_json_escaped(&mut out, info.branch.as_str().as_bytes());
    push_str_bytes(&mut out, "\",\"sn\":\"");
    push_json_escaped(&mut out, info.sn.as_str().as_bytes());
    push_str_bytes(&mut out, "\",\"l\":\"en-US\",\"f\":\"1\",\"options\":{\"zone\":\"");
    push_json_escaped(&mut out, info.romzone.as_str().as_bytes());
    push_str_bytes(&mut out, "\"},\"pkg\":\"");
    push_json_escaped(&mut out, md5.as_bytes());
    push_str_bytes(&mut out, "\"}");
    proof {
        assert(out@ =~= spec_request_doc(*info, md5.spec_bytes()));
    }
    out
}

/// The AES plaintext for a request: the document PKCS#7-padded.
pub fn build_request_plaintext(info: &DeviceInfo, md5: &str) -> (r: Vec<u8>)
    ensures
        r@ == spec_pkcs7_pad(spec_request_doc(*info, md5.spec_bytes())),
{
    pkcs7_pad(build_request_doc(info, md5))
}

/// The whole form body POSTed to the endpoint.
pub open spec fn spec_request_form(info: DeviceInfo, pkg: Seq<u8>) -> Seq<u8> {
    "q=".spec_bytes() + spec_urlencoded(
        spec_base64(
            spec_aes128_cbc_encrypt(
                spec_validation_key(),
                spec_validation_iv(),
                spec_pkcs7_pad(spec_request_doc(info, pkg)),
            ),
        ),
    ) + "&t=&s=1".spec_bytes()
}

/// Build the `q=<encoded>&t=&s=1` form body carrying the encrypted request
/// document.
pub fn build_request_form(info: &DeviceInfo, md5: &str) -> (r: Vec<u8>)
    ensures
        r@ == spec_request_form(*info, md5.spec_bytes()),
{
    let key = validation_key();
    let iv = validation_iv();
    let plain = build_request_plaintext(info, md5);
    proof {
        let l = spec_request_doc(*info, md5.spec_bytes()).len() as int;
        assert(plain@.len() == l + (16 - l % 16));
        assert((l + (16 - l % 16)) % 16 == 0) by (nonlinear_arith)
            requires
                l >= 0,
        ;
        assert(plain@.len() % 16 == 0);
    }
    let enc = aes128_cbc_encrypt(key.as_slice(), iv.as_slice(), plain.as_slice());
    let b64 = b64_encode(enc.as_slice());
    let urlenc = url_encode(b64.as_str());
    let mut out: Vec<u8> = Vec::new();
    push_str_bytes(&mut out, "q=");
    let mut mid = urlenc;
    out.append(&mut mid);
    push_str_bytes(&mut out, "&t=&s=1");
    proof {
        assert(out@ =~= spec_request_form(*info, md5.spec_bytes()));
    }
    out
}

/// Whether `b` occurs somewhere before position `i`.
pub open spec fn has_byte_before(t: Seq<u8>, b: u8, i: int) -> bool {
    exists|j: int| 0 <= j < i && #[trigger] t[j] == b
}

/// Whether `b` occurs somewhere after position `i`.
pub open spec fn has_byte_after(t: Seq<u8>, b: u8, i: int) -> bool {
    exists|j: int| i < j < t.len() && #[trigger] t[j] == b
}

/// The index of the first occurrence of `b`.
pub open spec fn spec_first_ix(t: Seq<u8>, b: u8) -> int {
    choose|i: int| 0 <= i < t.len() && t[i] == b && !has_byte_before(t, b, i)
}

/// The index of the last occurrence of `b`.
pub open spec fn spec_last_ix(t: Seq<u8>, b: u8) -> int {
    choose|i: int| 0 <= i < t.len() && t[i] == b && !has_byte_after(t, b, i)
}

/// The span of the JSON object embedded in a noisy text: from the first
/// `{` to the last `}`, both required, in that order.
pub open spec fn spec_brace_span(t: Seq<u8>) -> Option<(int, int)> {
    if has_byte_before(t, 0x7b, t.len() as int) && has_byte_before(t, 0x7d, t.len() as int) {
        if spec_first_ix(t, 0x7b) <= spec_last_ix(t, 0x7d) {
            Option::Some((spec_first_ix(t, 0x7b), spec_last_ix(t, 0x7d)))
        } else {
            Option::None
        }
    } else {
        Option::None
    }
}

/// The index of the first occurrence of `b`, if any.
pub fn find_byte_first(s: &[u8], b: u8) -> (r: Option<usize>)
    ensures
        r is Some <==> has_byte_before(s@, b, s@.len() as int),
        r matches Some(i) ==> i < s@.len() && s@[i as int] == b && i == spec_first_ix(s@, b)
            && !has_byte_before(s@, b, i as int),
{
    let mut i: usize = 0;
    while i < s.len()
        invariant
            i <= s@.len(),
            forall|k: int| 0 <= k < i ==> s@[k] != b,
        decreases s@.len() - i,
    {
        if s[i] == b {
            proof {
                assert(!has_byte_before(s@, b, i as int));
                let j = spec_first_ix(s@, b);
                assert(0 <= j < s@.len() && s@[j] == b && !has_byte_before(s@, b, j)) by {
                    assert(0 <= i < s@.len() && s@[i as int] == b && !has_byte_before(
                        s@,
                        b,
                        i as int,
                    ));
                }
                if j < i {
                    assert(s@[j] != b);
                }
                if i < j {
                    assert(has_byte_before(s@, b, j));
                }
                assert(has_byte_before(s@, b, s@.len() as int)) by {
                    assert(0 <= i < s@.len() && s@[i as int] == b);
                }
            }
            return Some(i);
        }
        i = i + 1;
    }
    None
}

/// The index of the last occurrence of `b`, if any.
pub fn find_byte_last(s: &[u8], b: u8) -> (r: Option<usize>)
    ensures
        r is Some <==> has_byte_before(s@, b, s@.len() as int),
        r matches Some(i) ==> i < s@.len() && s@[i as int] == b && i == spec_last_ix(s@, b)
            && !has_byte_after(s@, b, i as int),
{
    let mut i: usize = s.len();
    while i > 0
        invariant
            i <= s@.len(),
            forall|k: int| i <= k < s@.len() ==> s@[k] != b,
        decreases i,
    {
        i = i - 1;
        if s[i] == b {
            proof {
                assert(!has_byte_after(s@, b, i as int));
                let j = spec_last_ix(s@, b);
                assert(0 <= j < s@.len() && s@[j] == b && !has_byte_after(s@, b, j)) by {
                    assert(0 <= i < s@.len() && s@[i as int] == b && !has_byte_after(
                        s@,
                        b,
                        i as int,
                    ));
                }
                if i < j {
                    assert(s@[j] != b);
                }
                if j < i {
                    assert(has_byte_after(s@, b, j));
                }
                assert(has_byte_before(s@, b, s@.len() as int)) by {
                    assert(0 <= i < s@.len() && s@[i as int] == b);
                }
            }
            return Some(i);
        }
    }
    None
}

/// The outcome of a validation call: the ROM listing tree when only
/// listing, or the flash authorization.
#[derive(Debug)]
pub enum ValidationResult {
    Listing(serde_json::Value),
    FlashToken { token: String, erase: bool },
}

/// The `PkgRom` object of a flash validation response, as extracted from
/// the JSON tree.
#[derive(Debug, Clone, PartialEq, Eq)]
pub struct PackageRom {
    pub validate: Option<String>,
    pub erase: Option<String>,
}

impl PackageRom {
    /// The flash decision a well-formed `PkgRom` object carries: the token
    /// is its required `Validate` string, and erase holds exactly when the
    /// `Erase` string is `1`.
    pub fn flash_fields(self) -> (r: (String, bool))
        requires
            self.validate is Some,
        ensures
            r.0@ == match self.validate {
                Option::Some(s) => s@,
                Option::None => Seq::<char>::empty(),
            },
            r.1 == (self.erase matches Some(e) && e@ == "1"@),
    {
        let token = match self.validate {
            Option::Some(s) => s,
            Option::None => String::new(),
        };
        let erase = match self.erase {
            Option::Some(e) => {
                let one = String::from_str("1");
                e == one
            },
            Option::None => false,
        };
        (token, erase)
    }
}

/// Relies on `serde_json::Value`: the parsed JSON tree of a response. The
/// tree is opaque here; only the lookups below read it.
#[verifier::external_type_specification]
#[verifier::external_body]
pub struct ExJsonValue(serde_json::Value);

/// Whether `serde_json` parses a byte string as a JSON document; a
/// function of the bytes alone.
pub uninterp spec fn spec_json_parses(b: Seq<u8>) -> bool;

/// Whether the document parsed from these bytes carries a `PkgRom` key.
pub uninterp spec fn spec_has_pkg_rom(b: Seq<u8>) -> bool;

/// The `PkgRom.Validate` string of the document parsed from these bytes,
/// when it is present and is a string.
pub uninterp spec fn spec_pkg_rom_validate(b: Seq<u8>) -> Option<Seq<char>>;

/// The `PkgRom.Erase` string of the document parsed from these bytes, when
/// it is present and is a string.
pub uninterp spec fn spec_pkg_rom_erase(b: Seq<u8>) -> Option<Seq<char>>;

/// Relies on `serde_json::from_slice`: whether a byte string parses is a
/// function of the bytes; a parse error is carried into the library's
/// error type with its message.
#[verifier::external_body]
fn json_from_slice(b: &[u8]) -> (r: Result<serde_json::Value, Error>)
    ensures
        r is Ok <==> spec_json_parses(b@),
        r matches Err(e) ==> e matches Error::InvalidResponse(_),
{
    match serde_json::from_slice::<serde_json::Value>(b) {
        Ok(v) => Ok(v),
        Err(e) => Err(Error::InvalidResponse(e.to_string())),
    }
}

/// Relies on `serde_json::from_slice`, `Value::get` and `Value::as_str`:
/// parse the document and read its `PkgRom` object and that object's
/// `Validate` and `Erase` strings; all four outcomes are functions of the
/// bytes alone.
#[verifier::external_body]
fn json_pkg_rom_fields(b: &[u8]) -> (r: Result<Option<PackageRom>, Error>)
    ensures
        r is Ok <==> spec_json_parses(b@),
        r matches Err(e) ==> e matches Error::InvalidResponse(_),
        r matches Ok(opt) ==> (opt is Some <==> spec_has_pkg_rom(b@)),
        r matches Ok(opt) ==> (opt matches Some(p) ==> (match p.validate {
            Option::Some(s) => spec_pkg_rom_validate(b@) == Option::Some(s@),
            Option::None => spec_pkg_rom_validate(b@) is None,
        }) && (match p.erase {
            Option::Some(s) => spec_pkg_rom_erase(b@) == Option::Some(s@),
            Option::None => spec_pkg_rom_erase(b@) is None,
        })),
{
    let v = match serde_json::from_slice::<serde_json::Value>(b) {
        Ok(v) => v,
        Err(e) => return Err(Error::InvalidResponse(e.to_string())),
    };
    match v.get("PkgRom") {
        None => Ok(None),
        Some(p) => Ok(Some(PackageRom {
            validate: p.get("Validate").and_then(|x| x.as_str()).map(|s| s.to_string()),
            erase: p.get("Erase").and_then(|x| x.as_str()).map(|s| s.to_string()),
        })),
    }
}

/// What the verdict on a decrypted plaintext must be. The plaintext is read
/// as text (lossily); without a `{` followed somewhere by a `}` there is no
/// JSON; the span from the first `{` to the last `}` must parse; a flash
/// call then demands the `PkgRom` object and fixes the token and erase flag
/// from its `Validate` and `Erase` strings, while a listing call hands the
/// parsed tree back.
pub open spec fn spec_response_outcome(
    plain: Seq<u8>,
    flash: bool,
    r: Result<ValidationResult, Error>,
) -> bool {
    let lt = encode_utf8(crate::text::spec_utf8_lossy(plain));
    match spec_brace_span(lt) {
        Option::None => r matches Err(Error::InvalidResponse(m)) && m@ == "JSON not found"@,
        Option::Some(span) => {
            let doc = lt.subrange(span.0, span.1 + 1);
            if !spec_json_parses(doc) {
                r matches Err(Error::InvalidResponse(_))
            } else if flash {
                if !spec_has_pkg_rom(doc) {
                    r matches Err(Error::InvalidResponse(m)) && m@ == "PkgRom missing"@
                } else if spec_pkg_rom_validate(doc) is None {
                    r matches Err(Error::InvalidResponse(m)) && m@ == "Validate missing"@
                } else {
                    r matches Ok(v) && v matches ValidationResult::FlashToken { token, erase }
                        && token@ == (match spec_pkg_rom_validate(doc) {
                        Option::Some(s) => s,
                        Option::None => Seq::<char>::empty(),
                    }) && erase == (spec_pkg_rom_erase(doc) == Option::Some("1"@))
                }
            } else {
                r matches Ok(v) && v is Listing
            }
        },
    }
}

/// Judge a decrypted validation plaintext: parse the JSON object embedded
/// between the first `{` and the last `}`, then either hand the tree back
/// as a listing, or extract the `PkgRom` flash authorization.
pub fn parse_plaintext(plain: &[u8], flash: bool) -> (r: Result<ValidationResult, Error>)
    ensures
        spec_response_outcome(plain@, flash, r),
        r matches Err(e) ==> e matches Error::InvalidResponse(_),
{
    let text = crate::text::bytes_to_string_lossy(plain);
    let tb = text.as_str().as_bytes();
    proof {
        assert(tb@ == encode_utf8(crate::text::spec_utf8_lossy(plain@)));
    }
    let start = find_byte_first(tb, 0x7b);
    let end = find_byte_last(tb, 0x7d);
    match (start, end) {
        (Some(s), Some(e)) => {
            if e < s {
                proof {
                    assert(spec_brace_span(tb@) is None);
                }
                return Err(Error::InvalidResponse(String::from_str("JSON not found")));
            }
            proof {
                assert(spec_brace_span(tb@) == Option::Some((s as int, e as int)));
            }
            let n = tb.len();
            proof {
                assert(e < n);
            }
            let slice = &tb[s..e + 1];
            if flash {
                match json_pkg_rom_fields(slice) {
                    Err(err) => Err(err),
                    Ok(Option::None) => Err(
                        Error::InvalidResponse(String::from_str("PkgRom missing")),
                    ),
                    Ok(Option::Some(pkg)) => {
                        if pkg.validate.is_none() {
                            return Err(Error::InvalidResponse(String::from_str(
                                "Validate missing",
                            )));
                        }
                        let (token, erase) = pkg.flash_fields();
                        Ok(ValidationResult::FlashToken { token, erase })
                    },
                }
            } else {
                match json_from_slice(slice) {
                    Err(err) => Err(err),
                    Ok(v) => Ok(ValidationResult::Listing(v)),
                }
            }
        },
        _ => {
            proof {
                assert(spec_brace_span(tb@) is None);
            }
            Err(Error::InvalidResponse(String::from_str("JSON not found")))
        },
    }
}

/// Decode and judge a raw validation response body: Base64, AES-128-CBC
/// with the fixed key and IV, then the embedded JSON. Every failure is a
/// function of the body: a body that is not canonical Base64, or whose
/// bytes do not decrypt to well-formed padding, is a crypto error, and
/// anything else is judged by `spec_response_outcome` on the decrypted
/// plaintext.
pub fn validate_response(body: &[u8], flash: bool) -> (r: Result<ValidationResult, Error>)
    ensures
        r matches Ok(v) ==> (flash ==> v is FlashToken) && (!flash ==> v is Listing),
        r matches Err(e) ==> (e matches Error::Crypto(_) || e matches Error::InvalidResponse(_)),
        !(exists|v: Seq<u8>| body@ == spec_base64(v)) ==> r matches Err(Error::Crypto(_)),
        (exists|v: Seq<u8>| body@ == spec_base64(v)) && !spec_aes128_cbc_decrypt_ok(
            spec_validation_key(),
            spec_validation_iv(),
            spec_b64_decode(body@),
        ) ==> r matches Err(Error::Crypto(_)),
        (exists|v: Seq<u8>| body@ == spec_base64(v)) && spec_aes128_cbc_decrypt_ok(
            spec_validation_key(),
            spec_validation_iv(),
            spec_b64_decode(body@),
        ) ==> spec_response_outcome(
            spec_aes128_cbc_decrypt(
                spec_validation_key(),
                spec_validation_iv(),
                spec_b64_decode(body@),
            ),
            flash,
            r,
        ),
{
    let key = validation_key();
    let iv = validation_iv();
    let decoded = match b64_decode(body) {
        Ok(v) => v,
        Err(e) => {
            return Err(e);
        },
    };
    let plain = match aes128_cbc_decrypt(key.as_slice(), iv.as_slice(), decoded.as_slice()) {
        Ok(v) => v,
        Err(e) => {
            return Err(e);
        },
    };
    parse_plaintext(plain.as_slice(), flash)
}

} // verus!
