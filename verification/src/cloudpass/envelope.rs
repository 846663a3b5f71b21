//! The encrypted Cloud Pass response envelope: base64 fields, a raw RSA
//! public-key operation that recovers the AES key from a PKCS#1 v1.5 type-1
//! message, and an AES-256-GCM opening of the payload.

use vstd::prelude::*;
use base64::Engine;
use aes_gcm::aead::Aead;
use aes_gcm::{Aes256Gcm, KeyInit, Nonce};

verus! {

/// What the base64 standard engine decodes a string to, if anything. The
/// result of `base64`'s decode is a function of the input characters alone,
/// so the name stands for it.
pub uninterp spec fn b64_decode_of(s: Seq<char>) -> Option<Seq<u8>>;

/// Relies on base64's STANDARD engine decode, a pure function of its input.
#[verifier::external_body]
pub fn b64_decode(s: &str) -> (r: Option<Vec<u8>>)
    ensures
        match r {
            Some(v) => b64_decode_of(s@) == Some(v@),
            None => b64_decode_of(s@) is None,
        },
{
    base64::engine::general_purpose::STANDARD.decode(s).ok()
}

/// The big-endian bytes of `base ^ exp mod modulus`, without leading
/// zeros. The name stands for the result of `BigUint::modpow` between
/// `from_bytes_be` and `to_bytes_be`, a function of the three byte strings.
pub uninterp spec fn mod_pow_of(base: Seq<u8>, exp: Seq<u8>, modulus: Seq<u8>) -> Seq<u8>;

/// Relies on rsa's BigUint: from_bytes_be and to_bytes_be convert without
/// surprises, and modpow returns `self ^ exponent % modulus`, which is
/// below the modulus, so its minimal big-endian form is no longer than the
/// modulus bytes, whose first byte is required non-zero; modpow panics on a
/// zero modulus, which that requirement rules out.
#[verifier::external_body]
pub fn mod_pow_bytes(base: &[u8], exp: &[u8], modulus: &[u8]) -> (r: Vec<u8>)
    requires
        modulus@.len() >= 1,
        modulus@[0] != 0,
    ensures
        r@ == mod_pow_of(base@, exp@, modulus@),
        1 <= r@.len() <= modulus@.len(),
{
    let c = rsa::BigUint::from_bytes_be(base);
    let e = rsa::BigUint::from_bytes_be(exp);
    let n = rsa::BigUint::from_bytes_be(modulus);
    c.modpow(&e, &n).to_bytes_be()
}

/// What AES-256-GCM opens the ciphertext-and-tag to under this key and
/// nonce, if the tag verifies. Decryption is a function of its three
/// inputs, so the name stands for it.
pub uninterp spec fn aes256_gcm_open_of(key: Seq<u8>, nonce: Seq<u8>, data: Seq<u8>) -> Option<
    Seq<u8>,
>;

/// Relies on aes_gcm's Aes256Gcm and the aead decrypt: deterministic in
/// key, nonce and ciphertext. `new_from_slice` wants exactly thirty-two key
/// bytes and `Nonce::from_slice` panics off twelve nonce bytes, so both
/// lengths are required.
#[verifier::external_body]
pub fn aes256_gcm_open(key: &[u8], nonce: &[u8], ct_and_tag: &[u8]) -> (r: Option<Vec<u8>>)
    requires
        key@.len() == 32,
        nonce@.len() == 12,
    ensures
        match r {
            Some(v) => aes256_gcm_open_of(key@, nonce@, ct_and_tag@) == Some(v@),
            None => aes256_gcm_open_of(key@, nonce@, ct_and_tag@) is None,
        },
{
    let cipher = match Aes256Gcm::new_from_slice(key) {
        Ok(c) => c,
        Err(_) => {
            return None;
        },
    };
    cipher.decrypt(Nonce::from_slice(nonce), ct_and_tag).ok()
}

/// A PKCS#1 v1.5 type-1 message: two marker bytes, a filler block of
/// `0xff`, a zero separator, then the payload.
pub open spec fn spec_pkcs1_type1_pad(payload: Seq<u8>, klen: int) -> Seq<u8> {
    seq![0u8, 1u8] + Seq::new((klen - 3 - payload.len()) as nat, |i: int| 0xffu8) + seq![0u8]
        + payload
}

/// The first index at or after `i` that does not hold `0xff`.
pub open spec fn ff_run_end(m: Seq<u8>, i: int) -> int
    decreases m.len() - i,
{
    if i < 0 || i >= m.len() || m[i] != 0xff {
        i
    } else {
        ff_run_end(m, i + 1)
    }
}

/// Strips PKCS#1 v1.5 type-1 padding: the message must open with the two
/// marker bytes; the filler of `0xff` runs to a zero separator and the rest
/// is the payload.
pub open spec fn spec_pkcs1_type1_unpad(m: Seq<u8>) -> Option<Seq<u8>> {
    if m.len() >= 11 && m[0] == 0u8 && m[1] == 1u8 {
        let sep = ff_run_end(m, 2);
        if sep < m.len() && m[sep] == 0u8 {
            Some(m.skip(sep + 1))
        } else {
            None
        }
    } else {
        None
    }
}

/// Padding then unpadding hands the payload back: the filler block holds no
/// zero and ends exactly at the separator. This holds for every payload
/// that leaves room for the eight filler bytes the format demands —
/// thirty-two byte AES keys in a 256-byte message in particular.
pub proof fn lemma_pkcs1_pad_unpad(payload: Seq<u8>, klen: int)
    requires
        payload.len() + 11 <= klen,
    ensures
        spec_pkcs1_type1_pad(payload, klen).len() == klen,
        spec_pkcs1_type1_unpad(spec_pkcs1_type1_pad(payload, klen)) == Some(payload),
{
    let m = spec_pkcs1_type1_pad(payload, klen);
    let fill = (klen - 3 - payload.len()) as int;
    assert(m.len() == klen);
    assert(m[0] == 0u8 && m[1] == 1u8);
    assert(forall|t: int| 2 <= t < 2 + fill ==> m[t] == 0xffu8);
    assert(m[2 + fill] == 0u8);
    lemma_ff_run_end(m, 2, 2 + fill);
    assert(spec_pkcs1_type1_unpad(m) == Some(m.skip(2 + fill + 1)));
    assert(m.skip(2 + fill + 1) =~= payload);
}

/// The filler scan stops exactly at the first byte that is not `0xff`.
proof fn lemma_ff_run_end(m: Seq<u8>, i: int, j: int)
    requires
        0 <= i <= j < m.len(),
        forall|t: int| i <= t < j ==> m[t] == 0xffu8,
        m[j] != 0xffu8,
    ensures
        ff_run_end(m, i) == j,
    decreases j - i,
{
    if i == j {
    } else {
        lemma_ff_run_end(m, i + 1, j);
    }
}

/// Builds a PKCS#1 v1.5 type-1 message around the payload.
pub fn pkcs1_type1_pad(payload: &[u8], klen: usize) -> (r: Vec<u8>)
    requires
        payload@.len() + 11 <= klen,
    ensures
        r@ == spec_pkcs1_type1_pad(payload@, klen as int),
        r@.len() == klen,
{
    let mut out: Vec<u8> = Vec::new();
    out.push(0);
    out.push(1);
    let fill = klen - 3 - payload.len();
    let mut i: usize = 0;
    while i < fill
        invariant
            i <= fill,
            fill == klen - 3 - payload@.len(),
            out@ =~= seq![0u8, 1u8] + Seq::new(i as nat, |t: int| 0xffu8),
        decreases fill - i,
    {
        out.push(0xff);
        proof {
            assert(out@ =~= seq![0u8, 1u8] + Seq::new((i + 1) as nat, |t: int| 0xffu8));
        }
        i = i + 1;
    }
    out.push(0);
    let mut j: usize = 0;
    while j < payload.len()
        invariant
            j <= payload@.len(),
            fill == klen - 3 - payload@.len(),
            out@ =~= seq![0u8, 1u8] + Seq::new(fill as nat, |t: int| 0xffu8) + seq![0u8]
                + payload@.subrange(0, j as int),
        decreases payload@.len() - j,
    {
        let b = payload[j];
        out.push(b);
        proof {
            assert(out@ =~= seq![0u8, 1u8] + Seq::new(fill as nat, |t: int| 0xffu8) + seq![0u8]
                + payload@.subrange(0, j + 1));
        }
        j = j + 1;
    }
    proof {
        assert(payload@.subrange(0, payload@.len() as int) =~= payload@);
        assert(out@ =~= spec_pkcs1_type1_pad(payload@, klen as int));
    }
    out
}

/// Strips PKCS#1 v1.5 type-1 padding.
pub fn pkcs1_type1_unpad(m: &[u8]) -> (r: Option<Vec<u8>>)
    ensures
        match r {
            Some(v) => spec_pkcs1_type1_unpad(m@) == Some(v@),
            None => spec_pkcs1_type1_unpad(m@) is None,
        },
{
    let n = m.len();
    if n < 11 || m[0] != 0 || m[1] != 1 {
        return None;
    }
    let mut i: usize = 2;
    while i < n && m[i] == 0xff
        invariant
            2 <= i <= n,
            n == m@.len(),
            forall|t: int| 2 <= t < i ==> m@[t] == 0xffu8,
        decreases n - i,
    {
        i = i + 1;
    }
    proof {
        if i < n {
            lemma_ff_run_end(m@, 2, i as int);
        } else {
            lemma_ff_run_end_off(m@, 2);
        }
    }
    if i >= n || m[i] != 0 {
        return None;
    }
    let mut out: Vec<u8> = Vec::new();
    let mut j: usize = i + 1;
    while j < n
        invariant
            i + 1 <= j <= n,
            n == m@.len(),
            out@ =~= m@.subrange(i + 1, j as int),
        decreases n - j,
    {
        let b = m[j];
        out.push(b);
        j = j + 1;
    }
    proof {
        assert(out@ =~= m@.skip(i + 1));
    }
    Some(out)
}

/// The filler scan runs off the end when everything from `i` on is `0xff`.
proof fn lemma_ff_run_end_off(m: Seq<u8>, i: int)
    requires
        0 <= i <= m.len(),
        forall|t: int| i <= t < m.len() ==> m[t] == 0xffu8,
    ensures
        ff_run_end(m, i) == m.len(),
    decreases m.len() - i,
{
    if i < m.len() {
        lemma_ff_run_end_off(m, i + 1);
    }
}

/// `s` left-padded with zeros to length `klen`.
pub open spec fn spec_left_pad(s: Seq<u8>, klen: int) -> Seq<u8> {
    Seq::new((klen - s.len()) as nat, |i: int| 0u8) + s
}

/// Left-pads with zeros to length `klen`.
pub fn left_pad(s: Vec<u8>, klen: usize) -> (r: Vec<u8>)
    requires
        s@.len() <= klen,
    ensures
        r@ == spec_left_pad(s@, klen as int),
        r@.len() == klen,
{
    let mut out: Vec<u8> = Vec::new();
    let fill = klen - s.len();
    let mut i: usize = 0;
    while i < fill
        invariant
            i <= fill,
            out@ =~= Seq::new(i as nat, |t: int| 0u8),
        decreases fill - i,
    {
        out.push(0);
        proof {
            assert(out@ =~= Seq::new((i + 1) as nat, |t: int| 0u8));
        }
        i = i + 1;
    }
    let mut j: usize = 0;
    while j < s.len()
        invariant
            j <= s@.len(),
            fill == klen - s@.len(),
            out@ =~= Seq::new(fill as nat, |t: int| 0u8) + s@.subrange(0, j as int),
        decreases s@.len() - j,
    {
        let b = s[j];
        out.push(b);
        proof {
            assert(out@ =~= Seq::new(fill as nat, |t: int| 0u8) + s@.subrange(0, j + 1));
        }
        j = j + 1;
    }
    proof {
        assert(s@.subrange(0, s@.len() as int) =~= s@);
        assert(out@ =~= spec_left_pad(s@, klen as int));
    }
    out
}

/// The base64 fields of a response marked encrypted.
#[derive(Clone, Debug)]
pub struct EncryptedEnvelope {
    pub key_b64: String,
    pub iv_b64: String,
    pub tag_b64: String,
    pub data_b64: String,
}

/// Why an envelope does not open.
#[derive(Clone, Copy, Debug, PartialEq, Eq, Structural)]
pub enum EnvelopeError {
    /// The key field is not base64.
    BadKeyEncoding,
    /// The iv field is not base64.
    BadIvEncoding,
    /// The tag field is not base64.
    BadTagEncoding,
    /// The data field is not base64.
    BadDataEncoding,
    /// The encrypted key is not exactly one RSA block.
    BadKeyLength,
    /// The recovered message is not PKCS#1 v1.5 type-1.
    BadPadding,
    /// The recovered AES key is not thirty-two bytes.
    BadAesKeyLength,
    /// The iv is not twelve bytes.
    BadIvLength,
    /// The authentication tag does not verify.
    AeadFailed,
}

/// The AES key the envelope's key field recovers to under this RSA public
/// key, if the message unpads.
pub open spec fn spec_recovered_key(enc_key: Seq<u8>, n: Seq<u8>, e: Seq<u8>) -> Option<Seq<u8>> {
    spec_pkcs1_type1_unpad(spec_left_pad(mod_pow_of(enc_key, e, n), n.len() as int))
}

/// An opened envelope: what success with plaintext `pt` means under the
/// public key `(n, e)`.
pub open spec fn envelope_open_ok(
    env: EncryptedEnvelope,
    n: Seq<u8>,
    e: Seq<u8>,
    pt: Seq<u8>,
) -> bool {
    &&& b64_decode_of(env.key_b64@) is Some
    &&& b64_decode_of(env.iv_b64@) is Some
    &&& b64_decode_of(env.tag_b64@) is Some
    &&& b64_decode_of(env.data_b64@) is Some
    &&& {
        let key = b64_decode_of(env.key_b64@)->Some_0;
        let iv = b64_decode_of(env.iv_b64@)->Some_0;
        let tag = b64_decode_of(env.tag_b64@)->Some_0;
        let data = b64_decode_of(env.data_b64@)->Some_0;
        &&& key.len() == n.len()
        &&& spec_recovered_key(key, n, e) is Some
        &&& spec_recovered_key(key, n, e)->Some_0.len() == 32
        &&& iv.len() == 12
        &&& aes256_gcm_open_of(spec_recovered_key(key, n, e)->Some_0, iv, data + tag) == Some(pt)
    }
}

/// A failed envelope: exactly when each error kind is reported under the
/// public key `(n, e)`.
pub open spec fn envelope_open_err(
    env: EncryptedEnvelope,
    n: Seq<u8>,
    e: Seq<u8>,
    k: EnvelopeError,
) -> bool {
    match k {
        EnvelopeError::BadKeyEncoding => b64_decode_of(env.key_b64@) is None,
        EnvelopeError::BadIvEncoding => b64_decode_of(env.key_b64@) is Some && b64_decode_of(
            env.iv_b64@,
        ) is None,
        EnvelopeError::BadTagEncoding => b64_decode_of(env.key_b64@) is Some && b64_decode_of(
            env.iv_b64@,
        ) is Some && b64_decode_of(env.tag_b64@) is None,
        EnvelopeError::BadDataEncoding => b64_decode_of(env.key_b64@) is Some && b64_decode_of(
            env.iv_b64@,
        ) is Some && b64_decode_of(env.tag_b64@) is Some && b64_decode_of(env.data_b64@) is None,
        EnvelopeError::BadKeyLength => b64_decode_of(env.key_b64@) is Some && b64_decode_of(
            env.key_b64@,
        )->Some_0.len() != n.len(),
        EnvelopeError::BadPadding => b64_decode_of(env.key_b64@) is Some && spec_recovered_key(
            b64_decode_of(env.key_b64@)->Some_0,
            n,
            e,
        ) is None,
        EnvelopeError::BadAesKeyLength => b64_decode_of(env.key_b64@) is Some
            && spec_recovered_key(b64_decode_of(env.key_b64@)->Some_0, n, e) is Some
            && spec_recovered_key(b64_decode_of(env.key_b64@)->Some_0, n, e)->Some_0.len() != 32,
        EnvelopeError::BadIvLength => b64_decode_of(env.iv_b64@) is Some && b64_decode_of(
            env.iv_b64@,
        )->Some_0.len() != 12,
        EnvelopeError::AeadFailed => {
            &&& b64_decode_of(env.key_b64@) is Some
            &&& b64_decode_of(env.iv_b64@) is Some
            &&& b64_decode_of(env.tag_b64@) is Some
            &&& b64_decode_of(env.data_b64@) is Some
            &&& aes256_gcm_open_of(
                spec_recovered_key(b64_decode_of(env.key_b64@)->Some_0, n, e)->Some_0,
                b64_decode_of(env.iv_b64@)->Some_0,
                b64_decode_of(env.data_b64@)->Some_0 + b64_decode_of(env.tag_b64@)->Some_0,
            ) is None
        },
    }
}

/// Opens an encrypted envelope with an RSA public key given as big-endian
/// modulus and exponent bytes, the modulus without leading zeros.
///
/// The four fields are base64-decoded; the key field must be exactly one
/// RSA block, which the raw public-key operation (the message to the power
/// of the exponent, modulo the modulus) turns back into a PKCS#1 v1.5
/// type-1 message whose payload is the thirty-two byte AES key; the data is
/// then opened with AES-256-GCM under the twelve-byte iv, the tag appended
/// to the ciphertext. Success and every failure are pinned down exactly.
pub fn decrypt_envelope(env: &EncryptedEnvelope, n_bytes: &Vec<u8>, e_bytes: &Vec<u8>) -> (r:
    Result<Vec<u8>, EnvelopeError>)
    requires
        n_bytes@.len() >= 1,
        n_bytes@[0] != 0,
    ensures
        match r {
            Ok(pt) => envelope_open_ok(*env, n_bytes@, e_bytes@, pt@),
            Err(k) => envelope_open_err(*env, n_bytes@, e_bytes@, k),
        },
{
    let enc_key = match b64_decode(env.key_b64.as_str()) {
        Some(v) => v,
        None => {
            return Err(EnvelopeError::BadKeyEncoding);
        },
    };
    let iv = match b64_decode(env.iv_b64.as_str()) {
        Some(v) => v,
        None => {
            return Err(EnvelopeError::BadIvEncoding);
        },
    };
    let tag = match b64_decode(env.tag_b64.as_str()) {
        Some(v) => v,
        None => {
            return Err(EnvelopeError::BadTagEncoding);
        },
    };
    let data = match b64_decode(env.data_b64.as_str()) {
        Some(v) => v,
        None => {
            return Err(EnvelopeError::BadDataEncoding);
        },
    };
    if enc_key.len() != n_bytes.len() {
        return Err(EnvelopeError::BadKeyLength);
    }
    let m = mod_pow_bytes(enc_key.as_slice(), e_bytes.as_slice(), n_bytes.as_slice());
    let padded = left_pad(m, n_bytes.len());
    let aes_key = match pkcs1_type1_unpad(padded.as_slice()) {
        Some(k) => k,
        None => {
            return Err(EnvelopeError::BadPadding);
        },
    };
    if aes_key.len() != 32 {
        return Err(EnvelopeError::BadAesKeyLength);
    }
    if iv.len() != 12 {
        return Err(EnvelopeError::BadIvLength);
    }
    proof {
        assert(spec_recovered_key(enc_key@, n_bytes@, e_bytes@) == Some(aes_key@));
    }
    let ghost data0 = data@;
    let mut ct_and_tag = data;
    ct_and_tag.extend_from_slice(tag.as_slice());
    proof {
        assert(ct_and_tag@ == data0 + tag@);
    }
    match aes256_gcm_open(aes_key.as_slice(), iv.as_slice(), ct_and_tag.as_slice()) {
        Some(pt) => Ok(pt),
        None => Err(EnvelopeError::AeadFailed),
    }
}

/// The big-endian bytes of the embedded public key's modulus.
pub closed spec fn spec_embedded_modulus() -> Seq<u8> {
    seq![
        0xcdu8, 0x21u8, 0x32u8, 0xeau8, 0xd8u8, 0x1fu8, 0xb7u8, 0xa9u8,
        0xa8u8, 0x99u8, 0xf4u8, 0xdbu8, 0x5du8, 0x5eu8, 0x78u8, 0x1fu8,
        0x58u8, 0x13u8, 0x52u8, 0x02u8, 0x2au8, 0x92u8, 0x30u8, 0x35u8,
        0xd3u8, 0x76u8, 0x90u8, 0xc3u8, 0x28u8, 0xa8u8, 0x96u8, 0x97u8,
        0x57u8, 0x98u8, 0xf6u8, 0x35u8, 0x36u8, 0x80u8, 0x95u8, 0x47u8,
        0x82u8, 0x33u8, 0x82u8, 0x46u8, 0x69u8, 0xa6u8, 0x85u8, 0xcdu8,
        0xc9u8, 0x81u8, 0xadu8, 0x7cu8, 0x93u8, 0xf5u8, 0x6du8, 0xbcu8,
        0x58u8, 0x24u8, 0x74u8, 0x77u8, 0x97u8, 0x49u8, 0x17u8, 0x92u8,
        0xc9u8, 0xd4u8, 0x7bu8, 0x46u8, 0x3cu8, 0x8au8, 0xe5u8, 0x7bu8,
        0xe5u8, 0xb8u8, 0xefu8, 0x1du8, 0x83u8, 0x20u8, 0x39u8, 0xd3u8,
        0x51u8, 0xd6u8, 0x2au8, 0xaau8, 0x46u8, 0x54u8, 0x3cu8, 0x0cu8,
        0xceu8, 0xc5u8, 0x02u8, 0xadu8, 0x08u8, 0x27u8, 0x56u8, 0x39u8,
        0xb1u8, 0x8fu8, 0x14u8, 0x37u8, 0xccu8, 0xeau8, 0xceu8, 0x42u8,
        0x3du8, 0xb4u8, 0x65u8, 0x2bu8, 0x0du8, 0xa0u8, 0xa1u8, 0xd1u8,
        0xa2u8, 0x25u8, 0xedu8, 0xd5u8, 0xe9u8, 0x29u8, 0xb8u8, 0x5fu8,
        0x07u8, 0x0eu8, 0x04u8, 0x6cu8, 0x81u8, 0xb3u8, 0xb2u8, 0x34u8,
        0xe6u8, 0x4au8, 0x56u8, 0xcau8, 0xd6u8, 0x2du8, 0xb9u8, 0x25u8,
        0xcau8, 0xb9u8, 0xe6u8, 0x49u8, 0xefu8, 0x29u8, 0x95u8, 0x65u8,
        0x1fu8, 0x81u8, 0x3du8, 0x37u8, 0xecu8, 0xeau8, 0x11u8, 0x35u8,
        0x08u8, 0x63u8, 0x93u8, 0x63u8, 0x77u8, 0x75u8, 0xddu8, 0x6du8,
        0x5cu8, 0xf9u8, 0xddu8, 0xe6u8, 0xb1u8, 0x5eu8, 0xedu8, 0x5eu8,
        0xb4u8, 0xa0u8, 0x9fu8, 0xf1u8, 0x5au8, 0x05u8, 0x65u8, 0x6au8,
        0x7bu8, 0x27u8, 0x7fu8, 0xf4u8, 0x59u8, 0x1eu8, 0x02u8, 0xbdu8,
        0x38u8, 0x6cu8, 0x65u8, 0x1bu8, 0x63u8, 0x96u8, 0xcdu8, 0x18u8,
        0x19u8, 0x3au8, 0x59u8, 0x0au8, 0xe1u8, 0x70u8, 0x4au8, 0x0fu8,
        0x5bu8, 0xc9u8, 0x6cu8, 0x05u8, 0xd1u8, 0x52u8, 0xafu8, 0x32u8,
        0xfau8, 0xf5u8, 0x2fu8, 0xa9u8, 0xf7u8, 0x78u8, 0x21u8, 0xfbu8,
        0x51u8, 0xd1u8, 0x27u8, 0x2cu8, 0x22u8, 0x76u8, 0xc3u8, 0xd5u8,
        0x52u8, 0x68u8, 0x64u8, 0x3eu8, 0x95u8, 0xf7u8, 0x0bu8, 0x06u8,
        0xdeu8, 0x4bu8, 0x4cu8, 0x08u8, 0x59u8, 0xcdu8, 0x9au8, 0xc6u8,
        0x8au8, 0x4bu8, 0xf2u8, 0xaeu8, 0x59u8, 0x58u8, 0x99u8, 0xb5u8,
        0x17u8, 0xf5u8, 0x3bu8, 0x37u8, 0x53u8, 0x3cu8, 0x90u8, 0x19u8,
    ]
}

/// The big-endian bytes of the embedded public key's exponent.
pub closed spec fn spec_embedded_exponent() -> Seq<u8> {
    seq![0x01u8, 0x00u8, 0x01u8]
}

/// The modulus of the RSA public key compiled into the binary, big-endian,
/// 2048 bits.
#[verifier::rlimit(60)]
pub fn embedded_rsa_modulus() -> (r: Vec<u8>)
    ensures
        r@ == spec_embedded_modulus(),
        r@.len() == 256,
        r@[0] != 0,
{
    let n: Vec<u8> = vec![
        0xcd, 0x21, 0x32, 0xea, 0xd8, 0x1f, 0xb7, 0xa9, 0xa8, 0x99, 0xf4, 0xdb,
        0x5d, 0x5e, 0x78, 0x1f, 0x58, 0x13, 0x52, 0x02, 0x2a, 0x92, 0x30, 0x35,
        0xd3, 0x76, 0x90, 0xc3, 0x28, 0xa8, 0x96, 0x97, 0x57, 0x98, 0xf6, 0x35,
        0x36, 0x80, 0x95, 0x47, 0x82, 0x33, 0x82, 0x46, 0x69, 0xa6, 0x85, 0xcd,
        0xc9, 0x81, 0xad, 0x7c, 0x93, 0xf5, 0x6d, 0xbc, 0x58, 0x24, 0x74, 0x77,
        0x97, 0x49, 0x17, 0x92, 0xc9, 0xd4, 0x7b, 0x46, 0x3c, 0x8a, 0xe5, 0x7b,
        0xe5, 0xb8, 0xef, 0x1d, 0x83, 0x20, 0x39, 0xd3, 0x51, 0xd6, 0x2a, 0xaa,
        0x46, 0x54, 0x3c, 0x0c, 0xce, 0xc5, 0x02, 0xad, 0x08, 0x27, 0x56, 0x39,
        0xb1, 0x8f, 0x14, 0x37, 0xcc, 0xea, 0xce, 0x42, 0x3d, 0xb4, 0x65, 0x2b,
        0x0d, 0xa0, 0xa1, 0xd1, 0xa2, 0x25, 0xed, 0xd5, 0xe9, 0x29, 0xb8, 0x5f,
        0x07, 0x0e, 0x04, 0x6c, 0x81, 0xb3, 0xb2, 0x34, 0xe6, 0x4a, 0x56, 0xca,
        0xd6, 0x2d, 0xb9, 0x25, 0xca, 0xb9, 0xe6, 0x49, 0xef, 0x29, 0x95, 0x65,
        0x1f, 0x81, 0x3d, 0x37, 0xec, 0xea, 0x11, 0x35, 0x08, 0x63, 0x93, 0x63,
        0x77, 0x75, 0xdd, 0x6d, 0x5c, 0xf9, 0xdd, 0xe6, 0xb1, 0x5e, 0xed, 0x5e,
        0xb4, 0xa0, 0x9f, 0xf1, 0x5a, 0x05, 0x65, 0x6a, 0x7b, 0x27, 0x7f, 0xf4,
        0x59, 0x1e, 0x02, 0xbd, 0x38, 0x6c, 0x65, 0x1b, 0x63, 0x96, 0xcd, 0x18,
        0x19, 0x3a, 0x59, 0x0a, 0xe1, 0x70, 0x4a, 0x0f, 0x5b, 0xc9, 0x6c, 0x05,
        0xd1, 0x52, 0xaf, 0x32, 0xfa, 0xf5, 0x2f, 0xa9, 0xf7, 0x78, 0x21, 0xfb,
        0x51, 0xd1, 0x27, 0x2c, 0x22, 0x76, 0xc3, 0xd5, 0x52, 0x68, 0x64, 0x3e,
        0x95, 0xf7, 0x0b, 0x06, 0xde, 0x4b, 0x4c, 0x08, 0x59, 0xcd, 0x9a, 0xc6,
        0x8a, 0x4b, 0xf2, 0xae, 0x59, 0x58, 0x99, 0xb5, 0x17, 0xf5, 0x3b, 0x37,
        0x53, 0x3c, 0x90, 0x19,
    ];
    proof {
        assert(n@ =~= spec_embedded_modulus());
        assert(n@[0] == 0xcdu8);
    }
    n
}

/// The public exponent of the embedded key.
pub fn embedded_rsa_exponent() -> (r: Vec<u8>)
    ensures
        r@ == spec_embedded_exponent(),
        r@.len() == 3,
{
    let e: Vec<u8> = vec![0x01, 0x00, 0x01];
    proof {
        assert(e@ =~= spec_embedded_exponent());
    }
    e
}

/// Opens an encrypted envelope with the embedded public key: the
/// `decrypt_envelope` contract, instantiated at the compiled-in modulus and
/// exponent.
pub fn decrypt_envelope_embedded(env: &EncryptedEnvelope) -> (r: Result<Vec<u8>, EnvelopeError>)
    ensures
        match r {
            Ok(pt) => envelope_open_ok(
                *env,
                spec_embedded_modulus(),
                spec_embedded_exponent(),
                pt@,
            ),
            Err(k) => envelope_open_err(
                *env,
                spec_embedded_modulus(),
                spec_embedded_exponent(),
                k,
            ),
        },
{
    let n = embedded_rsa_modulus();
    let e = embedded_rsa_exponent();
    decrypt_envelope(env, &n, &e)
}

} // verus!
