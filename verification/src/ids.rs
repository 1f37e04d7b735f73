//! Public-key identities and signatures.
//!
//! A `UserID` is a raw Ed25519 public key; a `Signature` is a raw Ed25519
//! signature. Both travel in a human-readable base58 form and are decoded
//! with exact length checks before anything else trusts them. Signature
//! verification is the sole trust boundary for write authenticity.

use vstd::prelude::*;

verus! {

/// Why decoding an identity or a signature from its encoded form failed.
#[derive(PartialEq, Eq, Structural, Clone, Copy, Debug)]
pub enum DecodeError {
    /// The text is not valid base58.
    BadEncoding,
    /// The decoded bytes do not have the required length.
    WrongLength,
}

/// The base58 text (as ASCII bytes) that encodes the given bytes.
pub uninterp spec fn b58_encode_of(b: Seq<u8>) -> Seq<u8>;

/// The bytes that the given base58 text (as ASCII bytes) decodes to, or
/// `None` when some character falls outside the base58 alphabet.
pub uninterp spec fn b58_decode_of(s: Seq<u8>) -> Option<Seq<u8>>;

/// Whether `sig` is a valid Ed25519 signature over `msg` under the public
/// key `key`.
pub uninterp spec fn sig_valid_of(key: Seq<u8>, sig: Seq<u8>, msg: Seq<u8>) -> bool;

/// Relies on `bs58::encode(..).into_vec()`: the base58 text for the given
/// bytes, as ASCII bytes; the result depends on the input bytes alone.
/// Its encoding loop emits at least one character per input byte (a
/// digit for a nonzero carry, a `1` for each leading zero), so a
/// non-empty input never encodes to the empty text.
#[verifier::external_body]
fn b58_encode(b: &[u8]) -> (r: Vec<u8>)
    ensures
        r@ == b58_encode_of(b@),
        b@.len() > 0 ==> r@.len() > 0,
{
    bs58::encode(b).into_vec()
}

/// Relies on `bs58::decode(..).into_vec()`: decodes base58 text back to
/// bytes, rejecting characters outside the alphabet; the result depends on
/// the input text alone.
#[verifier::external_body]
fn b58_decode(s: &[u8]) -> (r: Option<Vec<u8>>)
    ensures
        r is Some <==> b58_decode_of(s@) is Some,
        r matches Some(v) ==> b58_decode_of(s@) == Some(v@),
{
    bs58::decode(s).into_vec().ok()
}

/// Relies on `ed25519_dalek::VerifyingKey::from_bytes` and
/// `VerifyingKey::verify_strict`: whether `sig` is a valid Ed25519
/// signature by the key `key` over `msg`; a key that does not decode to a
/// curve point verifies nothing. The result depends on the three byte
/// strings alone.
#[verifier::external_body]
fn ed25519_verify(key: &[u8], sig: &[u8], msg: &[u8]) -> (r: bool)
    requires
        key@.len() == 32,
        sig@.len() == 64,
    ensures
        r == sig_valid_of(key@, sig@, msg@),
{
    let key: &[u8; 32] = match key.try_into() {
        Ok(k) => k,
        Err(_) => return false,
    };
    let sig: &[u8; 64] = match sig.try_into() {
        Ok(s) => s,
        Err(_) => return false,
    };
    match ed25519_dalek::VerifyingKey::from_bytes(key) {
        Ok(k) => k.verify_strict(msg, &ed25519_dalek::Signature::from_bytes(sig)).is_ok(),
        Err(_) => false,
    }
}

/// Byte-for-byte copy of a byte vector.
pub fn copy_bytes(b: &[u8]) -> (r: Vec<u8>)
    ensures
        r@ == b@,
{
    let mut r: Vec<u8> = Vec::new();
    let mut i: usize = 0;
    while i < b.len()
        invariant
            i <= b@.len(),
            r@ == b@.subrange(0, i as int),
        decreases b@.len() - i,
    {
        r.push(b[i]);
        i = i + 1;
    }
    assert(r@ == b@);
    r
}

/// Byte-for-byte equality of two byte strings.
pub fn bytes_eq(a: &[u8], b: &[u8]) -> (r: bool)
    ensures
        r == (a@ == b@),
{
    if a.len() != b.len() {
        assert(a@ != b@);
        return false;
    }
    let mut i: usize = 0;
    while i < a.len()
        invariant
            i <= a@.len(),
            a@.len() == b@.len(),
            forall|j: int| 0 <= j < i ==> a@[j] == b@[j],
        decreases a@.len() - i,
    {
        if a[i] != b[i] {
            return false;
        }
        i = i + 1;
    }
    assert(a@ =~= b@);
    true
}

/// A public-key identity: exactly 32 raw Ed25519 public-key bytes.
/// Equality is byte equality; a value is immutable once constructed.
#[derive(Debug)]
pub struct UserID {
    bytes: Vec<u8>,
}

impl View for UserID {
    type V = Seq<u8>;

    closed spec fn view(&self) -> Seq<u8> {
        self.bytes@
    }
}

impl UserID {
    /// Every constructed identity holds exactly 32 key bytes.
    pub open spec fn wf(&self) -> bool {
        self@.len() == 32
    }

    /// Wrap raw key bytes, rejecting any length other than 32.
    pub fn from_vec(bytes: Vec<u8>) -> (r: Result<UserID, DecodeError>)
        ensures
            r is Ok <==> bytes@.len() == 32,
            r matches Ok(u) ==> u@ == bytes@ && u.wf(),
            r matches Err(e) ==> e == DecodeError::WrongLength,
    {
        if bytes.len() == 32 {
            Ok(UserID { bytes })
        } else {
            Err(DecodeError::WrongLength)
        }
    }

    /// Decode an identity from its base58 text (given as ASCII bytes).
    pub fn from_base58(s: &[u8]) -> (r: Result<UserID, DecodeError>)
        ensures
            match b58_decode_of(s@) {
                Option::None => r == Result::<UserID, DecodeError>::Err(
                    DecodeError::BadEncoding,
                ),
                Option::Some(b) => if b.len() == 32 {
                    r matches Ok(u) && u@ == b && u.wf()
                } else {
                    r == Result::<UserID, DecodeError>::Err(DecodeError::WrongLength)
                },
            },
    {
        match b58_decode(s) {
            Option::None => Err(DecodeError::BadEncoding),
            Option::Some(bytes) => UserID::from_vec(bytes),
        }
    }

    /// The base58 text of this identity, as ASCII bytes; never empty
    /// for a non-empty identity.
    pub fn to_base58(&self) -> (r: Vec<u8>)
        ensures
            r@ == b58_encode_of(self@),
            self@.len() > 0 ==> r@.len() > 0,
    {
        b58_encode(self.bytes.as_slice())
    }

    /// The raw key bytes.
    pub fn bytes(&self) -> (r: &[u8])
        ensures
            r@ == self@,
    {
        self.bytes.as_slice()
    }

    /// Byte equality of two identities.
    pub fn same_as(&self, other: &UserID) -> (r: bool)
        ensures
            r == (self@ == other@),
    {
        bytes_eq(self.bytes.as_slice(), other.bytes.as_slice())
    }

    /// An independent copy of this identity.
    pub fn duplicate(&self) -> (r: UserID)
        ensures
            r@ == self@,
    {
        UserID { bytes: copy_bytes(self.bytes.as_slice()) }
    }
}

/// A fixed-size cryptographic signature: exactly 64 raw Ed25519 signature
/// bytes over an exact byte sequence; immutable once constructed.
#[derive(Debug)]
pub struct Signature {
    bytes: Vec<u8>,
}

impl View for Signature {
    type V = Seq<u8>;

    closed spec fn view(&self) -> Seq<u8> {
        self.bytes@
    }
}

impl Signature {
    /// Every constructed signature holds exactly 64 bytes.
    pub open spec fn wf(&self) -> bool {
        self@.len() == 64
    }

    /// Wrap raw signature bytes, rejecting any length other than 64.
    pub fn from_vec(bytes: Vec<u8>) -> (r: Result<Signature, DecodeError>)
        ensures
            r is Ok <==> bytes@.len() == 64,
            r matches Ok(s) ==> s@ == bytes@ && s.wf(),
            r matches Err(e) ==> e == DecodeError::WrongLength,
    {
        if bytes.len() == 64 {
            Ok(Signature { bytes })
        } else {
            Err(DecodeError::WrongLength)
        }
    }

    /// Decode a signature from its base58 text (given as ASCII bytes).
    pub fn from_base58(s: &[u8]) -> (r: Result<Signature, DecodeError>)
        ensures
            match b58_decode_of(s@) {
                Option::None => r == Result::<Signature, DecodeError>::Err(
                    DecodeError::BadEncoding,
                ),
                Option::Some(b) => if b.len() == 64 {
                    r matches Ok(sg) && sg@ == b && sg.wf()
                } else {
                    r == Result::<Signature, DecodeError>::Err(DecodeError::WrongLength)
                },
            },
    {
        match b58_decode(s) {
            Option::None => Err(DecodeError::BadEncoding),
            Option::Some(bytes) => Signature::from_vec(bytes),
        }
    }

    /// The base58 text of this signature, as ASCII bytes.
    pub fn to_base58(&self) -> (r: Vec<u8>)
        ensures
            r@ == b58_encode_of(self@),
    {
        b58_encode(self.bytes.as_slice())
    }

    /// The raw signature bytes.
    pub fn bytes(&self) -> (r: &[u8])
        ensures
            r@ == self@,
    {
        self.bytes.as_slice()
    }

    /// Byte equality of two signatures.
    pub fn same_as(&self, other: &Signature) -> (r: bool)
        ensures
            r == (self@ == other@),
    {
        bytes_eq(self.bytes.as_slice(), other.bytes.as_slice())
    }

    /// An independent copy of this signature.
    pub fn duplicate(&self) -> (r: Signature)
        ensures
            r@ == self@,
    {
        Signature { bytes: copy_bytes(self.bytes.as_slice()) }
    }

    /// Cryptographic validity of `bytes` under `user`'s key: the one trust
    /// boundary for write authenticity. Pure; no side effects.
    pub fn is_valid(&self, user: &UserID, bytes: &[u8]) -> (r: bool)
        requires
            user.wf(),
            self.wf(),
        ensures
            r == sig_valid_of(user@, self@, bytes@),
    {
        ed25519_verify(user.bytes.as_slice(), self.bytes.as_slice(), bytes)
    }
}

} // verus!
