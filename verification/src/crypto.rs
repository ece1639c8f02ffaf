//! Keys and certificates: how they are read, written and compared.

use vstd::prelude::*;
use vstd::string::*;

use p256::elliptic_curve::Generate;
use p256::pkcs8::{DecodePrivateKey, DecodePublicKey, EncodePrivateKey, EncodePublicKey};

use crate::codec::{base64_char, base64_decode, base64_encode, base64_text, law_base64_is_unambiguous};
use crate::text::{is_space, str_eq, trim_end_text, trim_start_text, trim_text, trimmed};

verus! {

/// A P-256 private key, held as its PKCS#8 encoding.
pub struct SigningKey {
    pkcs8: Vec<u8>,
}

/// A P-256 public key, held as its encoding as subject public key info.
pub struct PublicKey {
    spki: Vec<u8>,
}

/// No encoding of a P-256 key is longer, be it of a private or a public one.
pub const MAX_KEY_LEN: usize = 256;

/// The PKCS#8 encoding of the private key in a PKCS#8 document, if it is one
/// of a P-256 key.
pub uninterp spec fn pkcs8_key(der: Seq<u8>) -> Option<Seq<u8>>;

/// The PKCS#8 encoding of the private key in a SEC1 document, if it is one of
/// a P-256 key.
pub uninterp spec fn sec1_key(der: Seq<u8>) -> Option<Seq<u8>>;

/// The encoding of the public key of a private key in a PKCS#8 document.
pub uninterp spec fn public_key_of(pkcs8: Seq<u8>) -> Option<Seq<u8>>;

/// The encoding of the public key in a document of subject public key info,
/// if it is one of a P-256 key.
pub uninterp spec fn spki_key(der: Seq<u8>) -> Option<Seq<u8>>;

impl SigningKey {
    /// The encoding held is that of a key, as encoding that key gives it.
    pub open spec fn wf(&self) -> bool {
        &&& pkcs8_key(self.der()) == Some(self.der())
        &&& 0 < self.der().len() <= MAX_KEY_LEN
    }

    /// The PKCS#8 encoding of the key.
    pub closed spec fn der(&self) -> Seq<u8> {
        self.pkcs8@
    }

    /// The PKCS#8 encoding of the key.
    pub fn to_pkcs8_der(&self) -> (r: &[u8])
        ensures
            r@ == self.der(),
    {
        self.pkcs8.as_slice()
    }

    /// The encodings of the key and of the public key that belongs to it.
    pub fn into_pair(self) -> (r: Result<(Vec<u8>, Vec<u8>), KeyError>)
        requires
            self.wf(),
        ensures
            r matches Ok((private_der, public_der)) && private_der@ == self.der() && key_pair(
                private_der@,
                public_der@,
            ),
    {
        match encode_public_key(self.pkcs8.as_slice()) {
            Some(public_der) => Ok((self.pkcs8, public_der)),
            None => Err(KeyError::MarshalPublic),
        }
    }

    /// The public key that belongs to the key.
    pub fn public_key(&self) -> (r: Option<PublicKey>)
        ensures
            match r {
                Some(key) => key.wf() && public_key_of(self.der()) == Some(key.der()),
                None => public_key_of(self.der()) is None,
            },
    {
        match encode_public_key(self.pkcs8.as_slice()) {
            Some(spki) => Some(PublicKey { spki }),
            None => None,
        }
    }
}

impl PublicKey {
    /// The encoding held is that of a key, as encoding that key gives it.
    pub open spec fn wf(&self) -> bool {
        spki_key(self.der()) == Some(self.der())
    }

    /// The encoding of the key as subject public key info.
    pub closed spec fn der(&self) -> Seq<u8> {
        self.spki@
    }

    /// The encoding of the key as subject public key info.
    pub fn to_public_key_der(&self) -> (r: &[u8])
        ensures
            r@ == self.der(),
    {
        self.spki.as_slice()
    }

    /// Reads a key from subject public key info.
    pub fn from_public_key_der(der: &[u8]) -> (r: Option<PublicKey>)
        ensures
            match r {
                Some(key) => key.wf() && spki_key(der@) == Some(key.der()),
                None => spki_key(der@) is None,
            },
    {
        match read_spki(der) {
            Some(spki) => Some(PublicKey { spki }),
            None => None,
        }
    }

    /// Whether two keys are the same.
    pub fn same_as(&self, other: &PublicKey) -> (r: bool)
        ensures
            r == (self.der() == other.der()),
    {
        bytes_eq(self.spki.as_slice(), other.spki.as_slice())
    }
}

fn bytes_eq(a: &[u8], b: &[u8]) -> (r: bool)
    ensures
        r == (a@ == b@),
{
    if a.len() != b.len() {
        return false;
    }
    let mut i: usize = 0;
    while i < a.len()
        invariant
            i <= a@.len(),
            a@.len() == b@.len(),
            forall|j: int| 0 <= j < i ==> a@[j] == b@[j],
        decreases a@.len() - i,
    {
        if a[i] != b[i] {
            return false;
        }
        i = i + 1;
    }
    assert(a@ =~= b@);
    true
}

/// `p256::ecdsa::SigningKey::from_pkcs8_der`, with the key encoded again by
/// `to_pkcs8_der`. What encoding a key gives is read as that key. The encoding
/// holds a scalar of 32 bytes and a point of 65.
#[verifier::external_body]
fn read_pkcs8(der: &[u8]) -> (r: Option<Vec<u8>>)
    ensures
        match r {
            Some(pkcs8) => pkcs8_key(der@) == Some(pkcs8@) && pkcs8_key(pkcs8@) == Some(pkcs8@)
                && 0 < pkcs8@.len() <= MAX_KEY_LEN,
            None => pkcs8_key(der@) is None,
        },
{
    let key = p256::ecdsa::SigningKey::from_pkcs8_der(der).ok()?;
    Some(key.to_pkcs8_der().ok()?.as_bytes().to_vec())
}

/// `p256::SecretKey::from_sec1_der`, with the key encoded by `to_pkcs8_der`.
/// What encoding a key gives is read as that key. The encoding holds a scalar
/// of 32 bytes and a point of 65.
#[verifier::external_body]
fn read_sec1(der: &[u8]) -> (r: Option<Vec<u8>>)
    ensures
        match r {
            Some(pkcs8) => sec1_key(der@) == Some(pkcs8@) && pkcs8_key(pkcs8@) == Some(pkcs8@)
                && 0 < pkcs8@.len() <= MAX_KEY_LEN,
            None => sec1_key(der@) is None,
        },
{
    let secret = p256::SecretKey::from_sec1_der(der).ok()?;
    Some(p256::ecdsa::SigningKey::from(secret).to_pkcs8_der().ok()?.as_bytes().to_vec())
}

/// `p256::ecdsa::VerifyingKey::to_public_key_der` for the private key that
/// `p256::ecdsa::SigningKey::from_pkcs8_der` reads, where it reads one. What
/// encoding a public key gives is read as that key. The encoding holds a point
/// of 65 bytes.
#[verifier::external_body]
fn encode_public_key(pkcs8: &[u8]) -> (r: Option<Vec<u8>>)
    ensures
        match r {
            Some(spki) => public_key_of(pkcs8@) == Some(spki@) && spki_key(spki@) == Some(spki@)
                && 0 < spki@.len() <= MAX_KEY_LEN,
            None => public_key_of(pkcs8@) is None,
        },
        r is Some <==> pkcs8_key(pkcs8@) is Some,
{
    let key = p256::ecdsa::SigningKey::from_pkcs8_der(pkcs8).ok()?;
    Some(key.verifying_key().to_public_key_der().ok()?.as_bytes().to_vec())
}

/// `p256::ecdsa::SigningKey::try_generate`, with the key encoded by
/// `to_pkcs8_der`. Which key it is, chance decides; there is none where the
/// system has no randomness to give. The encoding holds a scalar of 32 bytes
/// and a point of 65.
#[verifier::external_body]
fn generate_pkcs8() -> (r: Option<Vec<u8>>)
    ensures
        r matches Some(pkcs8) ==> pkcs8_key(pkcs8@) == Some(pkcs8@) && 0 < pkcs8@.len()
            <= MAX_KEY_LEN,
{
    let key = p256::ecdsa::SigningKey::try_generate().ok()?;
    Some(key.to_pkcs8_der().ok()?.as_bytes().to_vec())
}

/// `p256::PublicKey::from_public_key_der`, with the key encoded again by
/// `to_public_key_der`. What encoding a key gives is read as that key.
#[verifier::external_body]
fn read_spki(der: &[u8]) -> (r: Option<Vec<u8>>)
    ensures
        match r {
            Some(spki) => spki_key(der@) == Some(spki@) && spki_key(spki@) == Some(spki@),
            None => spki_key(der@) is None,
        },
{
    let key = p256::PublicKey::from_public_key_der(der).ok()?;
    Some(key.to_public_key_der().ok()?.as_bytes().to_vec())
}

/// Why a key could not be had.
#[derive(Clone, Copy, Debug, PartialEq, Eq, Structural)]
pub enum KeyError {
    /// The private key is not in base64.
    NotBase64,
    /// The private key is neither PKCS#8 nor SEC1.
    NotPrivateKey,
    /// The private key could not be encoded.
    MarshalPrivate,
    /// The public key could not be encoded.
    MarshalPublic,
    /// The endpoint's public key is not in PEM.
    NotPem,
    /// The PEM block is not a public key.
    WrongPemTag,
    /// The endpoint's public key is none.
    NotPublicKey,
    /// The key could not be taken for signing a certificate.
    NoKeyPair,
    /// What a certificate says could not be put together.
    NoParams,
    /// No certificate could be made.
    NoCertificate,
}

impl KeyError {
    /// What the error says.
    pub open spec fn text(&self) -> Seq<char> {
        match self {
            KeyError::NotBase64 => "failed to decode private key"@,
            KeyError::NotPrivateKey => "failed to parse private key"@,
            KeyError::MarshalPrivate => "failed to marshal private key"@,
            KeyError::MarshalPublic => "failed to marshal public key"@,
            KeyError::NotPem => "failed to decode endpoint public key"@,
            KeyError::WrongPemTag => "expected PUBLIC KEY PEM block"@,
            KeyError::NotPublicKey => "failed to parse endpoint public key"@,
            KeyError::NoKeyPair => "failed to build key pair"@,
            KeyError::NoParams => "failed to create cert params"@,
            KeyError::NoCertificate => "failed to generate certificate"@,
        }
    }

    /// Writes the error as a message.
    pub fn message(&self) -> (out: &'static str)
        ensures
            out@ == self.text(),
    {
        match self {
            KeyError::NotBase64 => "failed to decode private key",
            KeyError::NotPrivateKey => "failed to parse private key",
            KeyError::MarshalPrivate => "failed to marshal private key",
            KeyError::MarshalPublic => "failed to marshal public key",
            KeyError::NotPem => "failed to decode endpoint public key",
            KeyError::WrongPemTag => "expected PUBLIC KEY PEM block",
            KeyError::NotPublicKey => "failed to parse endpoint public key",
            KeyError::NoKeyPair => "failed to build key pair",
            KeyError::NoParams => "failed to create cert params",
            KeyError::NoCertificate => "failed to generate certificate",
        }
    }
}

/// The bytes that a base64 text stands for, if it is one.
pub open spec fn base64_bytes(text: Seq<char>) -> Option<Seq<u8>> {
    if exists|b: Seq<u8>| #[trigger] base64_text(b) == text {
        Some(choose|b: Seq<u8>| #[trigger] base64_text(b) == text)
    } else {
        None
    }
}

/// A base64 text stands for the bytes that it was made of.
pub proof fn law_base64_roundtrip(b: Seq<u8>)
    ensures
        base64_bytes(base64_text(b)) == Some(b),
{
    let c = choose|c: Seq<u8>| #[trigger] base64_text(c) == base64_text(b);
    law_base64_is_unambiguous(c, b);
}

/// The private key in a document, PKCS#8 or SEC1.
pub open spec fn private_key_in(der: Seq<u8>) -> Option<Seq<u8>> {
    match pkcs8_key(der) {
        Some(key) => Some(key),
        None => sec1_key(der),
    }
}

/// Whether two encodings are those of a private key and of the public key
/// that belongs to it.
pub open spec fn key_pair(private_der: Seq<u8>, public_der: Seq<u8>) -> bool {
    &&& pkcs8_key(private_der) == Some(private_der)
    &&& public_key_of(private_der) == Some(public_der)
    &&& spki_key(public_der) == Some(public_der)
    &&& 0 < private_der.len() <= MAX_KEY_LEN
    &&& 0 < public_der.len() <= MAX_KEY_LEN
}

/// Generates a key pair: the PKCS#8 encoding of the private key, and the
/// encoding of its public key.
pub fn generate_ec_keypair() -> (r: Result<(Vec<u8>, Vec<u8>), KeyError>)
    ensures
        match r {
            Ok((private_der, public_der)) => key_pair(private_der@, public_der@),
            Err(err) => err == KeyError::MarshalPrivate,
        },
{
    match generate_pkcs8() {
        Some(pkcs8) => SigningKey { pkcs8 }.into_pair(),
        None => Err(KeyError::MarshalPrivate),
    }
}

/// Reads a private key from base64, with or without white space around it.
/// PKCS#8 is tried first, then SEC1.
pub fn decode_private_key(b64: &str) -> (r: Result<SigningKey, KeyError>)
    ensures
        match base64_bytes(trim_text(b64@)) {
            Some(der) => match private_key_in(der) {
                Some(key) => r matches Ok(k) && k.wf() && k.der() == key,
                None => r matches Err(err) && err == KeyError::NotPrivateKey,
            },
            None => r matches Err(err) && err == KeyError::NotBase64,
        },
{
    let text = trimmed(b64);
    let der = match base64_decode(text.as_str()) {
        Some(der) => der,
        None => {
            return Err(KeyError::NotBase64);
        },
    };
    proof {
        law_base64_roundtrip(der@);
    }
    decode_private_der(der.as_slice())
}

/// Reads a private key from a PKCS#8 or SEC1 document.
pub fn decode_private_der(der: &[u8]) -> (r: Result<SigningKey, KeyError>)
    ensures
        match private_key_in(der@) {
            Some(key) => r matches Ok(k) && k.wf() && k.der() == key,
            None => r matches Err(err) && err == KeyError::NotPrivateKey,
        },
{
    if let Some(pkcs8) = read_pkcs8(der) {
        return Ok(SigningKey { pkcs8 });
    }
    match read_sec1(der) {
        Some(pkcs8) => Ok(SigningKey { pkcs8 }),
        None => Err(KeyError::NotPrivateKey),
    }
}

/// Writes a private key as base64 of its PKCS#8 encoding.
pub fn encode_private_key(key: &SigningKey) -> (out: String)
    requires
        key.wf(),
    ensures
        out@ == base64_text(key.der()),
{
    base64_encode(key.pkcs8.as_slice())
}

pub proof fn lemma_base64_has_no_space(b: Seq<u8>)
    ensures
        base64_text(b).len() > 0 ==> !is_space(base64_text(b)[0]) && !is_space(
            base64_text(b).last(),
        ),
    decreases b.len(),
{
    assert forall|n: int| 0 <= n < 64 implies !is_space(#[trigger] base64_char(n)) by {}
    assert(!is_space('='));
    if b.len() > 0 {
        assert(!is_space(base64_char(b[0] as int / 4)));
    }
    if b.len() >= 3 {
        let rest = base64_text(b.skip(3));
        assert(!is_space(base64_char(b[2] as int % 64)));
        if b.len() > 3 {
            lemma_base64_has_no_space(b.skip(3));
            assert(rest.len() > 0);
            assert(base64_text(b).last() == rest.last());
        } else {
            assert(rest =~= Seq::<char>::empty());
        }
    }
}

/// A key that was written is read back as it was, and written again as it
/// was.
pub proof fn law_private_key_roundtrip(key: Seq<u8>)
    requires
        pkcs8_key(key) == Some(key),
    ensures
        base64_bytes(trim_text(base64_text(key))) == Some(key),
        private_key_in(key) == Some(key),
{
    lemma_base64_has_no_space(key);
    law_base64_roundtrip(key);
    let s = base64_text(key);
    assert(trim_start_text(s) == s);
    assert(trim_end_text(s) == s);
}

/// The tag and the contents of the first PEM block in a text.
pub uninterp spec fn pem_block(text: Seq<char>) -> Option<(Seq<char>, Seq<u8>)>;

/// `pem::parse`, with the tag and the contents of the block. How a block is
/// taken apart is left to the name `pem_block`.
#[verifier::external_body]
fn read_pem(text: &str) -> (r: Option<(String, Vec<u8>)>)
    ensures
        match r {
            Some((tag, contents)) => pem_block(text@) == Some((tag@, contents@)),
            None => pem_block(text@) is None,
        },
{
    let block = pem::parse(text).ok()?;
    Some((block.tag().to_owned(), block.contents().to_vec()))
}

/// The public key in a PEM block.
pub open spec fn key_in_block(tag: Seq<char>, contents: Seq<u8>) -> Result<Seq<u8>, KeyError> {
    if tag != "PUBLIC KEY"@ {
        Err(KeyError::WrongPemTag)
    } else {
        match spki_key(contents) {
            Some(key) => Ok(key),
            None => Err(KeyError::NotPublicKey),
        }
    }
}

/// Reads the public key of an endpoint from a PEM block.
pub fn decode_endpoint_block(tag: &str, contents: &[u8]) -> (r: Result<PublicKey, KeyError>)
    ensures
        match r {
            Ok(key) => key.wf() && key_in_block(tag@, contents@) == Ok::<Seq<u8>, KeyError>(
                key.der(),
            ),
            Err(err) => key_in_block(tag@, contents@) == Err::<Seq<u8>, KeyError>(err),
        },
{
    if !str_eq(tag, "PUBLIC KEY") {
        return Err(KeyError::WrongPemTag);
    }
    match PublicKey::from_public_key_der(contents) {
        Some(key) => Ok(key),
        None => Err(KeyError::NotPublicKey),
    }
}

/// Reads the public key of an endpoint from PEM.
pub fn decode_endpoint_public_key(pem_str: &str) -> (r: Result<PublicKey, KeyError>)
    ensures
        match pem_block(pem_str@) {
            Some((tag, contents)) => match r {
                Ok(key) => key.wf() && key_in_block(tag, contents) == Ok::<Seq<u8>, KeyError>(
                    key.der(),
                ),
                Err(err) => key_in_block(tag, contents) == Err::<Seq<u8>, KeyError>(err),
            },
            None => r matches Err(err) && err == KeyError::NotPem,
        },
{
    match read_pem(pem_str) {
        Some((tag, contents)) => decode_endpoint_block(tag.as_str(), contents.as_slice()),
        None => Err(KeyError::NotPem),
    }
}

/// A day: year, month and day of the month.
#[derive(Clone, Copy, Debug, PartialEq, Eq, Structural)]
pub struct Day {
    pub year: i32,
    pub month: u8,
    pub day: u8,
}

/// What of a certificate is read: the public key info, and the days on which
/// it becomes valid and expires (in UTC).
pub struct CertificateParts {
    pub spki: Vec<u8>,
    pub not_before: Day,
    pub not_after: Day,
}

/// What of a certificate is read, without the buffer that the key comes in.
pub struct CertificateFacts {
    pub spki: Seq<u8>,
    pub not_before: Day,
    pub not_after: Day,
}

/// What is read of a certificate, if it parses.
pub uninterp spec fn certificate_facts(der: Seq<u8>) -> Option<CertificateFacts>;

/// `x509_parser::parse_x509_certificate`, with the subject public key info
/// and the validity. How a certificate is taken apart is left to the name
/// `certificate_facts`.
#[verifier::external_body]
fn read_certificate(der: &[u8]) -> (r: Option<CertificateParts>)
    ensures
        match r {
            Some(parts) => certificate_facts(der@) == Some(
                CertificateFacts {
                    spki: parts.spki@,
                    not_before: parts.not_before,
                    not_after: parts.not_after,
                },
            ),
            None => certificate_facts(der@) is None,
        },
{
    let (_, cert) = x509_parser::parse_x509_certificate(der).ok()?;
    let (from, to) = (cert.validity().not_before.to_datetime(), cert.validity().not_after.to_datetime());
    let not_before = Day { year: from.year(), month: from.month().into(), day: from.day() };
    let not_after = Day { year: to.year(), month: to.month().into(), day: to.day() };
    Some(CertificateParts { spki: cert.public_key().raw.to_vec(), not_before, not_after })
}

/// Whether an error is one of making a certificate for a key.
pub open spec fn certificate_error(err: KeyError) -> bool {
    err == KeyError::NoKeyPair || err == KeyError::NoCertificate
}

/// `rcgen::CertificateParams::self_signed` for the key of a PKCS#8 encoding,
/// with the key pair as `rcgen` keeps it. The certificate holds the public
/// key that belongs to the key and the days of its validity; its signature is
/// chance. The key pair is kept as it was given. The error tells which of
/// `rcgen::KeyPair::from_pkcs8_der_and_sign_algo` and `self_signed` failed;
/// `rcgen::CertificateParams::new` does not fail on an empty list of names. That
/// neither fails is left unsaid: signing takes randomness that the system may
/// not have.
#[verifier::external_body]
fn self_sign(pkcs8: &[u8], from: Day, to: Day) -> (r: Result<(Vec<u8>, Vec<u8>), KeyError>)
    requires
        pkcs8_key(pkcs8@) == Some(pkcs8@),
        2000 <= from.year <= 2049 && 1 <= from.month <= 12 && 1 <= from.day <= 28,
        2000 <= to.year <= 2049 && 1 <= to.month <= 12 && 1 <= to.day <= 28,
    ensures
        match r {
            Ok((cert, key)) => key@ == pkcs8@ && certificate_is_for(cert@, pkcs8@, from, to),
            Err(err) => certificate_error(err),
        },
{
    let der = rustls::pki_types::PrivatePkcs8KeyDer::from(pkcs8.to_vec());
    let pair = rcgen::KeyPair::from_pkcs8_der_and_sign_algo(&der, &rcgen::PKCS_ECDSA_P256_SHA256);
    let pair = pair.map_err(|_| KeyError::NoKeyPair)?;
    let params = rcgen::CertificateParams::new(Vec::<String>::new());
    let mut params = params.map_err(|_| KeyError::NoParams)?;
    params.not_before = rcgen::date_time_ymd(from.year, from.month, from.day);
    params.not_after = rcgen::date_time_ymd(to.year, to.month, to.day);
    let cert = params.self_signed(&pair).map_err(|_| KeyError::NoCertificate)?;
    Ok((cert.der().to_vec(), pair.serialize_der()))
}

/// Whether a certificate holds the public key of a private key and the days
/// of its validity.
pub open spec fn certificate_is_for(der: Seq<u8>, pkcs8: Seq<u8>, from: Day, to: Day) -> bool {
    certificate_facts(der) matches Some(facts) && spki_key(facts.spki) is Some && spki_key(
        facts.spki,
    ) == public_key_of(pkcs8) && facts.not_before == from && facts.not_after == to
}

/// The day on which a client certificate becomes valid.
pub open spec fn client_valid_from() -> Day {
    Day { year: 2020, month: 1, day: 1 }
}

/// The day on which a client certificate expires.
pub open spec fn client_valid_to() -> Day {
    Day { year: 2030, month: 1, day: 1 }
}

/// Makes a client certificate for a key: the certificate, and the PKCS#8
/// encoding of the key.
pub fn generate_self_signed_cert(signing_key: &SigningKey) -> (r: Result<
    (Vec<u8>, Vec<u8>),
    KeyError,
>)
    requires
        signing_key.wf(),
    ensures
        match r {
            Ok((cert, key)) => key@ == signing_key.der() && certificate_is_for(
                cert@,
                signing_key.der(),
                client_valid_from(),
                client_valid_to(),
            ),
            Err(err) => certificate_error(err),
        },
{
    self_sign(
        signing_key.pkcs8.as_slice(),
        Day { year: 2020, month: 1, day: 1 },
        Day { year: 2030, month: 1, day: 1 },
    )
}

/// A PEM block as text.
pub uninterp spec fn pem_text(tag: Seq<char>, contents: Seq<u8>) -> Seq<char>;

/// `pem::Pem::new` and the `Display` of the block. How a block is laid out is
/// left to the name `pem_text`.
#[verifier::external_body]
fn write_pem(tag: &str, contents: Vec<u8>) -> (out: String)
    ensures
        out@ == pem_text(tag@, contents@),
{
    pem::Pem::new(tag, contents).to_string()
}

/// The texts of the files that hold a client's TLS credentials.
pub struct ClientPem {
    pub cert_pem: String,
    pub key_pem: String,
}

/// Makes the PEM texts of a certificate and its key.
pub fn client_pem(cert: Vec<u8>, key: Vec<u8>) -> (r: ClientPem)
    ensures
        r.cert_pem@ == pem_text("CERTIFICATE"@, cert@),
        r.key_pem@ == pem_text("PRIVATE KEY"@, key@),
{
    ClientPem { cert_pem: write_pem("CERTIFICATE", cert), key_pem: write_pem("PRIVATE KEY", key) }
}

/// Makes a client certificate for a key and the PEM texts of both.
pub fn prepare_quiche_client_credentials(signing_key: &SigningKey) -> (r: Result<
    ClientPem,
    KeyError,
>)
    requires
        signing_key.wf(),
    ensures
        match r {
            Ok(pem) => pem.key_pem@ == pem_text("PRIVATE KEY"@, signing_key.der()) && exists|
                cert: Seq<u8>,
            | #[trigger]
                pem_text("CERTIFICATE"@, cert) == pem.cert_pem@ && certificate_is_for(
                    cert,
                    signing_key.der(),
                    client_valid_from(),
                    client_valid_to(),
                ),
            Err(err) => certificate_error(err),
        },
{
    match generate_self_signed_cert(signing_key) {
        Ok((cert, key)) => Ok(client_pem(cert, key)),
        Err(err) => Err(err),
    }
}

/// Why a server certificate is refused.
#[derive(Clone, Copy, Debug, PartialEq, Eq, Structural)]
pub enum PinError {
    /// It does not parse.
    Malformed,
    /// Its key is not one of P-256.
    NotP256,
    /// Its key is not the one that is expected.
    DifferentKey,
}

impl PinError {
    /// What the error says.
    pub open spec fn text(&self) -> Seq<char> {
        match self {
            PinError::Malformed => "failed to parse server certificate"@,
            PinError::NotP256 => "server certificate is not ECDSA P-256"@,
            PinError::DifferentKey =>
                "remote endpoint has a different public key than what we trust in config"@,
        }
    }

    /// Writes the error as a message.
    pub fn message(&self) -> (out: &'static str)
        ensures
            out@ == self.text(),
    {
        match self {
            PinError::Malformed => "failed to parse server certificate",
            PinError::NotP256 => "server certificate is not ECDSA P-256",
            PinError::DifferentKey =>
                "remote endpoint has a different public key than what we trust in config",
        }
    }
}

/// Judges the public key info of a server certificate against the key that is
/// expected.
pub fn check_pinned_key(spki: &[u8], expected: &PublicKey) -> (r: Result<(), PinError>)
    ensures
        match r {
            Ok(()) => spki_key(spki@) == Some(expected.der()),
            Err(PinError::NotP256) => spki_key(spki@) is None,
            Err(PinError::DifferentKey) => spki_key(spki@) matches Some(key) && key
                != expected.der(),
            Err(PinError::Malformed) => false,
        },
{
    match PublicKey::from_public_key_der(spki) {
        Some(peer) => if peer.same_as(expected) {
            Ok(())
        } else {
            Err(PinError::DifferentKey)
        },
        None => Err(PinError::NotP256),
    }
}

/// Why a server certificate is refused where a key is expected, if it is.
pub open spec fn pinned_verdict(cert: Seq<u8>, expected: Seq<u8>) -> Option<PinError> {
    match certificate_facts(cert) {
        None => Some(PinError::Malformed),
        Some(facts) => match spki_key(facts.spki) {
            None => Some(PinError::NotP256),
            Some(key) => if key == expected {
                None
            } else {
                Some(PinError::DifferentKey)
            },
        },
    }
}

/// Judges a server certificate: it is accepted where its public key is the
/// one that is expected, whatever else it says.
pub fn verify_server_cert(end_entity: &[u8], expected: &PublicKey) -> (r: Result<(), PinError>)
    ensures
        match pinned_verdict(end_entity@, expected.der()) {
            Some(err) => r == Err::<(), PinError>(err),
            None => r is Ok,
        },
{
    match read_certificate(end_entity) {
        Some(parts) => check_pinned_key(parts.spki.as_slice(), expected),
        None => Err(PinError::Malformed),
    }
}

/// A client's own certificate is accepted by whoever expects the client's
/// public key.
pub proof fn law_own_certificate_is_accepted(cert: Seq<u8>, pkcs8: Seq<u8>, from: Day, to: Day)
    requires
        certificate_is_for(cert, pkcs8, from, to),
    ensures
        public_key_of(pkcs8) matches Some(key) && pinned_verdict(cert, key) is None,
{
}

/// The schemes of a server's handshake signature.
#[derive(Clone, Copy, Debug, PartialEq, Eq, Structural)]
pub enum SignatureScheme {
    EcdsaNistp256Sha256,
    EcdsaNistp384Sha384,
    RsaPssSha256,
    RsaPkcs1Sha256,
}

/// The schemes offered: those of ECDSA, and those of RSA where any server
/// certificate is accepted.
pub fn supported_verify_schemes(insecure: bool) -> (out: Vec<SignatureScheme>)
    ensures
        out@ == (if insecure {
            seq![
                SignatureScheme::EcdsaNistp256Sha256,
                SignatureScheme::EcdsaNistp384Sha384,
                SignatureScheme::RsaPssSha256,
                SignatureScheme::RsaPkcs1Sha256,
            ]
        } else {
            seq![SignatureScheme::EcdsaNistp256Sha256, SignatureScheme::EcdsaNistp384Sha384]
        }),
{
    let mut out: Vec<SignatureScheme> = Vec::new();
    out.push(SignatureScheme::EcdsaNistp256Sha256);
    out.push(SignatureScheme::EcdsaNistp384Sha384);
    if insecure {
        out.push(SignatureScheme::RsaPssSha256);
        out.push(SignatureScheme::RsaPkcs1Sha256);
    }
    assert(out@ =~= (if insecure {
        seq![
            SignatureScheme::EcdsaNistp256Sha256,
            SignatureScheme::EcdsaNistp384Sha384,
            SignatureScheme::RsaPssSha256,
            SignatureScheme::RsaPkcs1Sha256,
        ]
    } else {
        seq![SignatureScheme::EcdsaNistp256Sha256, SignatureScheme::EcdsaNistp384Sha384]
    }));
    out
}

/// A private key is read from PKCS#8 where the document is one, and from SEC1
/// else; a document that is neither holds none.
pub proof fn law_private_keys_of_either_form(der: Seq<u8>, key: Seq<u8>)
    ensures
        pkcs8_key(der) == Some(key) ==> private_key_in(der) == Some(key),
        pkcs8_key(der) is None && sec1_key(der) == Some(key) ==> private_key_in(der) == Some(key),
        pkcs8_key(der) is None && sec1_key(der) is None ==> private_key_in(der) is None,
{
}

/// A server is accepted by its key alone: exactly where its certificate can be
/// read and holds the key that is expected. Two keys are never both accepted
/// with one certificate.
pub proof fn law_only_the_pinned_key_is_accepted(cert: Seq<u8>, expected: Seq<u8>, other: Seq<u8>)
    ensures
        pinned_verdict(cert, expected) is None <==> (certificate_facts(cert) matches Some(facts)
            && spki_key(facts.spki) == Some(expected)),
        pinned_verdict(cert, expected) is None && expected != other ==> pinned_verdict(cert, other)
            == Some(PinError::DifferentKey),
        certificate_facts(cert) is None ==> pinned_verdict(cert, expected) == Some(
            PinError::Malformed,
        ),
        certificate_facts(cert) matches Some(facts) && spki_key(facts.spki) is None
            ==> pinned_verdict(cert, expected) == Some(PinError::NotP256),
{
}

/// The key of an endpoint is read from a block of public key info, and a block
/// with another tag is refused whatever it holds.
pub proof fn law_endpoint_key_is_read(tag: Seq<char>, key: Seq<u8>)
    requires
        spki_key(key) == Some(key),
    ensures
        key_in_block("PUBLIC KEY"@, key) == Ok::<Seq<u8>, KeyError>(key),
        tag != "PUBLIC KEY"@ ==> key_in_block(tag, key) == Err::<Seq<u8>, KeyError>(
            KeyError::WrongPemTag,
        ),
{
}

/// A certificate that is no public key info of P-256 gives no key.
pub proof fn law_other_blocks_hold_no_key(contents: Seq<u8>)
    requires
        spki_key(contents) is None,
    ensures
        key_in_block("PUBLIC KEY"@, contents) == Err::<Seq<u8>, KeyError>(KeyError::NotPublicKey),
{
}

/// A client's certificate is valid from the start of 2020 to the start of 2030,
/// and holds the public key that belongs to the client's private key.
pub proof fn law_certificate_of_a_client(cert: Seq<u8>, pkcs8: Seq<u8>)
    requires
        certificate_is_for(cert, pkcs8, client_valid_from(), client_valid_to()),
    ensures
        certificate_facts(cert) matches Some(facts) && {
            &&& spki_key(facts.spki) == public_key_of(pkcs8)
            &&& public_key_of(pkcs8) is Some
            &&& facts.not_before.year == 2020 && facts.not_before.month == 1
                && facts.not_before.day == 1
            &&& facts.not_after.year == 2030 && facts.not_after.month == 1 && facts.not_after.day
                == 1
        },
{
}

/// The two halves of a key pair belong together, and each is read back from its
/// encoding as it is. A private key has one public key.
pub proof fn law_key_pairs_belong_together(
    private_der: Seq<u8>,
    public_der: Seq<u8>,
    other: Seq<u8>,
)
    requires
        key_pair(private_der, public_der),
    ensures
        public_key_of(private_der) == Some(public_der),
        private_key_in(private_der) == Some(private_der),
        key_in_block("PUBLIC KEY"@, public_der) == Ok::<Seq<u8>, KeyError>(public_der),
        private_der.len() > 0,
        public_der.len() > 0,
        key_pair(private_der, other) ==> other == public_der,
{
}

/// What each failure with a key is reported as.
pub proof fn law_key_errors_are_reported()
    ensures
        KeyError::NotBase64.text() == "failed to decode private key"@,
        KeyError::NotPrivateKey.text() == "failed to parse private key"@,
        KeyError::MarshalPrivate.text() == "failed to marshal private key"@,
        KeyError::MarshalPublic.text() == "failed to marshal public key"@,
        KeyError::NotPem.text() == "failed to decode endpoint public key"@,
        KeyError::WrongPemTag.text() == "expected PUBLIC KEY PEM block"@,
        KeyError::NotPublicKey.text() == "failed to parse endpoint public key"@,
        KeyError::NoKeyPair.text() == "failed to build key pair"@,
        KeyError::NoParams.text() == "failed to create cert params"@,
        KeyError::NoCertificate.text() == "failed to generate certificate"@,
        PinError::Malformed.text() == "failed to parse server certificate"@,
        PinError::NotP256.text() == "server certificate is not ECDSA P-256"@,
        PinError::DifferentKey.text()
            == "remote endpoint has a different public key than what we trust in config"@,
{
}

} // verus!
