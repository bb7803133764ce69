//! Identities: a node's identifier and signing key, how an identifier is
//! derived from a public key and the key found again in it, and how
//! signatures are made and verified.

use vstd::prelude::*;
use crate::clock::get_current_timestamp;
use crate::dht::{bytes_of, text_bytes};
use crate::outside::{ed25519_public, ed25519_public_key, ed25519_sign, ed25519_signature, ed25519_verifies, ed25519_verify, random_u64};
use crate::text::{chars_of, owned, push_text};
use crate::types::{opt_bytes, texts, DID};

verus! {

/// The hexadecimal digit for `d`, in small letters; `'0'` when `d` is not
/// below sixteen.
pub open spec fn hex_digit(d: nat) -> char {
    if d == 1 {
        '1'
    } else if d == 2 {
        '2'
    } else if d == 3 {
        '3'
    } else if d == 4 {
        '4'
    } else if d == 5 {
        '5'
    } else if d == 6 {
        '6'
    } else if d == 7 {
        '7'
    } else if d == 8 {
        '8'
    } else if d == 9 {
        '9'
    } else if d == 10 {
        'a'
    } else if d == 11 {
        'b'
    } else if d == 12 {
        'c'
    } else if d == 13 {
        'd'
    } else if d == 14 {
        'e'
    } else if d == 15 {
        'f'
    } else {
        '0'
    }
}

/// The bytes `bytes` in hexadecimal: two digits for each byte, the high one
/// first.
pub open spec fn hex(bytes: Seq<u8>) -> Seq<char>
    decreases bytes.len(),
{
    if bytes.len() == 0 {
        Seq::empty()
    } else {
        hex(bytes.drop_last()).push(hex_digit((bytes.last() / 16) as nat)).push(hex_digit((bytes.last() % 16) as nat))
    }
}

/// The identifier of the holder of `public_key` under `method`.
pub open spec fn did_text(method: Seq<char>, public_key: Seq<u8>) -> Seq<char> {
    "did:"@ + method + ":"@ + hex(public_key)
}

fn hex_digit_of(d: u8) -> (c: char)
    requires
        d < 16,
    ensures
        c == hex_digit(d as nat),
{
    if d == 1 {
        '1'
    } else if d == 2 {
        '2'
    } else if d == 3 {
        '3'
    } else if d == 4 {
        '4'
    } else if d == 5 {
        '5'
    } else if d == 6 {
        '6'
    } else if d == 7 {
        '7'
    } else if d == 8 {
        '8'
    } else if d == 9 {
        '9'
    } else if d == 10 {
        'a'
    } else if d == 11 {
        'b'
    } else if d == 12 {
        'c'
    } else if d == 13 {
        'd'
    } else if d == 14 {
        'e'
    } else if d == 15 {
        'f'
    } else {
        '0'
    }
}

/// Appends `bytes` in hexadecimal to `out`.
pub fn push_hex(out: &mut String, bytes: &Vec<u8>)
    ensures
        final(out)@ == old(out)@ + hex(bytes@),
{
    let mut i: usize = 0;
    assert(out@ =~= old(out)@ + hex(bytes@.take(0)));
    while i < bytes.len()
        invariant
            i <= bytes.len(),
            out@ == old(out)@ + hex(bytes@.take(i as int)),
        decreases bytes.len() - i,
    {
        proof {
            assert(bytes@.take(i + 1).drop_last() =~= bytes@.take(i as int));
            assert(bytes@.take(i + 1).last() == bytes@[i as int]);
        }
        let b = bytes[i];
        out.push(hex_digit_of(b / 16));
        out.push(hex_digit_of(b % 16));
        i = i + 1;
        assert(out@ =~= old(out)@ + hex(bytes@.take(i as int)));
    }
    assert(bytes@.take(bytes.len() as int) =~= bytes@);
}

/// The identifier of the holder of `public_key` under `method`: `did:`, the
/// method, a colon, and the key in hexadecimal.
pub fn did_for_key(method: &str, public_key: &Vec<u8>) -> (did: String)
    ensures
        did@ == did_text(method@, public_key@),
{
    let mut did = owned("did:");
    push_text(&mut did, method);
    push_text(&mut did, ":");
    push_hex(&mut did, public_key);
    did
}

/// The identity record of the holder of `public_key` under `method`,
/// reachable at `endpoints` and created at `now`.
pub fn new_identity(method: &str, public_key: Vec<u8>, endpoints: Vec<String>, now: u64) -> (did: DID)
    ensures
        did.id@ == did_text(method@, public_key@),
        did.public_key@ == public_key@,
        texts(did.endpoints@) == texts(endpoints@),
        did.created_at == now,
{
    let id = did_for_key(method, &public_key);
    DID { id, public_key, endpoints, created_at: now }
}

/// The value of the hexadecimal digit `c`, which is written with small
/// letters; `None` for any other character.
pub open spec fn hex_value(c: char) -> Option<u8> {
    if c == '0' {
        Some(0u8)
    } else if c == '1' {
        Some(1u8)
    } else if c == '2' {
        Some(2u8)
    } else if c == '3' {
        Some(3u8)
    } else if c == '4' {
        Some(4u8)
    } else if c == '5' {
        Some(5u8)
    } else if c == '6' {
        Some(6u8)
    } else if c == '7' {
        Some(7u8)
    } else if c == '8' {
        Some(8u8)
    } else if c == '9' {
        Some(9u8)
    } else if c == 'a' {
        Some(10u8)
    } else if c == 'b' {
        Some(11u8)
    } else if c == 'c' {
        Some(12u8)
    } else if c == 'd' {
        Some(13u8)
    } else if c == 'e' {
        Some(14u8)
    } else if c == 'f' {
        Some(15u8)
    } else {
        None
    }
}

/// The bytes that `s` writes in hexadecimal, two digits for each byte;
/// `None` where `s` has an odd length or holds anything but digits.
pub open spec fn unhex(s: Seq<char>) -> Option<Seq<u8>>
    decreases s.len(),
{
    if s.len() == 0 {
        Some(Seq::empty())
    } else if s.len() == 1 {
        None
    } else {
        match (unhex(s.take(s.len() - 2)), hex_value(s[s.len() - 2]), hex_value(s[s.len() - 1])) {
            (Some(bytes), Some(high), Some(low)) => Some(bytes.push((high * 16 + low) as u8)),
            _ => None,
        }
    }
}

/// The position of the last colon in `s`, if there is one.
pub open spec fn last_colon(s: Seq<char>) -> Option<int>
    decreases s.len(),
{
    if s.len() == 0 {
        None
    } else if s.last() == ':' {
        Some(s.len() - 1)
    } else {
        last_colon(s.drop_last())
    }
}

/// The public key that the identifier `did` names: what follows its last
/// colon, read as hexadecimal. `None` where `did` has no colon or what
/// follows is not hexadecimal.
pub open spec fn key_of_did(did: Seq<char>) -> Option<Seq<u8>> {
    match last_colon(did) {
        Some(i) => unhex(did.skip(i + 1)),
        None => None,
    }
}

/// Whether `signature` is a valid signature of `did` for `payload`: `did`
/// names a public key, and the key accepts the signature.
pub open spec fn signature_valid(did: Seq<char>, payload: Seq<u8>, signature: Seq<u8>) -> bool {
    match key_of_did(did) {
        Some(key) => ed25519_verifies(key, payload, signature),
        None => false,
    }
}

/// A colon with no colon after it is the last colon.
proof fn lemma_last_colon(s: Seq<char>, k: int)
    requires
        0 <= k < s.len(),
        s[k] == ':',
        forall|j: int| k < j < s.len() ==> s[j] != ':',
    ensures
        last_colon(s) == Some(k),
    decreases s.len(),
{
    if s.len() - 1 != k {
        lemma_last_colon(s.drop_last(), k);
    }
}

/// A text without a colon has no last colon.
proof fn lemma_no_colon(s: Seq<char>)
    requires
        forall|j: int| 0 <= j < s.len() ==> s[j] != ':',
    ensures
        last_colon(s).is_none(),
    decreases s.len(),
{
    if s.len() > 0 {
        lemma_no_colon(s.drop_last());
    }
}

/// A text of odd length is not hexadecimal.
proof fn lemma_unhex_odd(s: Seq<char>)
    requires
        s.len() % 2 == 1,
    ensures
        unhex(s).is_none(),
    decreases s.len(),
{
    if s.len() > 1 {
        lemma_unhex_odd(s.take(s.len() - 2));
    }
}

/// A text that begins with something that is not hexadecimal is not
/// hexadecimal.
proof fn lemma_unhex_prefix(s: Seq<char>, k: int)
    requires
        0 <= 2 * k <= s.len(),
        s.len() % 2 == 0,
        unhex(s.take(2 * k)).is_none(),
    ensures
        unhex(s).is_none(),
    decreases s.len(),
{
    if 2 * k == s.len() {
        assert(s.take(2 * k) =~= s);
    } else {
        let t = s.take(s.len() - 2);
        assert(t.take(2 * k) =~= s.take(2 * k));
        lemma_unhex_prefix(t, k);
    }
}

/// Writing bytes in hexadecimal and reading them back gives the bytes, and
/// the digits hold no colon.
pub proof fn lemma_unhex_hex(bytes: Seq<u8>)
    ensures
        unhex(hex(bytes)) == Some(bytes),
        hex(bytes).len() == 2 * bytes.len(),
        forall|j: int| 0 <= j < hex(bytes).len() ==> hex(bytes)[j] != ':',
    decreases bytes.len(),
{
    if bytes.len() > 0 {
        let rest = bytes.drop_last();
        lemma_unhex_hex(rest);
        let b = bytes.last();
        let h = hex(bytes);
        assert(h.take(h.len() - 2) =~= hex(rest));
        assert(h[h.len() - 2] == hex_digit((b / 16) as nat));
        assert(h[h.len() - 1] == hex_digit((b % 16) as nat));
        assert(hex_value(hex_digit((b / 16) as nat)) == Some((b / 16) as u8));
        assert(hex_value(hex_digit((b % 16) as nat)) == Some((b % 16) as u8));
        assert((b / 16) * 16 + b % 16 == b);
        assert(rest.push(b) =~= bytes);
        assert forall|j: int| 0 <= j < h.len() implies h[j] != ':' by {
            if j < h.len() - 2 {
                assert(h[j] == hex(rest)[j]);
            }
        }
    }
}

/// The public key is found again in the identifier that was derived from
/// it, whatever the method.
pub proof fn lemma_key_of_did_text(method: Seq<char>, public_key: Seq<u8>)
    ensures
        key_of_did(did_text(method, public_key)) == Some(public_key),
{
    lemma_unhex_hex(public_key);
    let head = "did:"@ + method;
    let did = did_text(method, public_key);
    let k = head.len() as int;
    reveal_strlit(":");
    assert(did =~= head + ":"@ + hex(public_key));
    assert(did[k] == ':');
    assert forall|j: int| k < j < did.len() implies did[j] != ':' by {
        assert(did[j] == hex(public_key)[j - k - 1]);
    }
    lemma_last_colon(did, k);
    assert(did.skip(k + 1) =~= hex(public_key));
}

fn hex_value_of(c: char) -> (r: Option<u8>)
    ensures
        r == hex_value(c),
{
    if c == '0' {
        Some(0)
    } else if c == '1' {
        Some(1)
    } else if c == '2' {
        Some(2)
    } else if c == '3' {
        Some(3)
    } else if c == '4' {
        Some(4)
    } else if c == '5' {
        Some(5)
    } else if c == '6' {
        Some(6)
    } else if c == '7' {
        Some(7)
    } else if c == '8' {
        Some(8)
    } else if c == '9' {
        Some(9)
    } else if c == 'a' {
        Some(10)
    } else if c == 'b' {
        Some(11)
    } else if c == 'c' {
        Some(12)
    } else if c == 'd' {
        Some(13)
    } else if c == 'e' {
        Some(14)
    } else if c == 'f' {
        Some(15)
    } else {
        None
    }
}

/// The public key that the identifier `did` names, if it names one.
pub fn public_key_of(did: &str) -> (r: Option<Vec<u8>>)
    ensures
        opt_bytes(r) == key_of_did(did@),
{
    let chars = chars_of(did);
    let mut i: usize = chars.len();
    while i > 0 && chars[i - 1] != ':'
        invariant
            i <= chars.len(),
            forall|j: int| i <= j < chars.len() ==> chars@[j] != ':',
        decreases i,
    {
        i = i - 1;
    }
    if i == 0 {
        proof {
            lemma_no_colon(chars@);
        }
        return None;
    }
    proof {
        lemma_last_colon(chars@, i - 1);
    }
    let ghost tail = chars@.skip(i as int);
    let n: usize = chars.len() - i;
    if n % 2 == 1 {
        proof {
            lemma_unhex_odd(tail);
        }
        return None;
    }
    let mut key: Vec<u8> = Vec::new();
    let mut k: usize = 0;
    assert(tail.take(0) =~= Seq::<char>::empty());
    while 2 * k < n
        invariant
            i + n == chars.len(),
            n % 2 == 0,
            2 * k <= n,
            i >= 1,
            chars@ == did@,
            last_colon(chars@) == Some(i - 1),
            tail == chars@.skip(i as int),
            tail.len() == n,
            unhex(tail.take(2 * k)) == Some(key@),
        decreases n - 2 * k,
    {
        let high = hex_value_of(chars[i + 2 * k]);
        let low = hex_value_of(chars[i + 2 * k + 1]);
        proof {
            let t = tail.take(2 * k + 2);
            assert(t.take(t.len() - 2) =~= tail.take(2 * k as int));
            assert(t[t.len() - 2] == chars@[i + 2 * k]);
            assert(t[t.len() - 1] == chars@[i + 2 * k + 1]);
        }
        match (high, low) {
            (Some(h), Some(l)) => {
                key.push(h * 16 + l);
            },
            _ => {
                proof {
                    assert(unhex(tail.take(2 * (k + 1))).is_none());
                    lemma_unhex_prefix(tail, k + 1);
                }
                return None;
            },
        }
        k = k + 1;
    }
    assert(tail.take(n as int) =~= tail);
    Some(key)
}

/// Whether `signature` is a valid signature of `did` for `payload`.
pub fn verify(did: &str, payload: &Vec<u8>, signature: &Vec<u8>) -> (r: bool)
    ensures
        r == signature_valid(did@, payload@, signature@),
{
    match public_key_of(did) {
        Some(key) => ed25519_verify(&key, payload, signature),
        None => false,
    }
}

/// Whether `signature` is a valid signature of `did` for the text
/// `payload`.
pub fn verify_text(did: &str, payload: &str, signature: &Vec<u8>) -> (r: bool)
    ensures
        r == signature_valid(did@, text_bytes(payload@), signature@),
{
    let bytes = bytes_of(payload);
    verify(did, &bytes, signature)
}

/// The identity of a node: its record and its secret signing key.
pub struct Identity {
    did: DID,
    secret_key: Vec<u8>,
}

impl Identity {
    /// The node's identifier.
    pub closed spec fn id(&self) -> Seq<char> {
        self.did.id@
    }

    /// The node's public key.
    pub closed spec fn public_key(&self) -> Seq<u8> {
        self.did.public_key@
    }

    /// The node's secret key.
    pub closed spec fn secret_key(&self) -> Seq<u8> {
        self.secret_key@
    }

    /// When the identity was created.
    pub closed spec fn created_at(&self) -> u64 {
        self.did.created_at
    }

    /// The network addresses at which the node is reached.
    pub closed spec fn endpoints(&self) -> Seq<Seq<char>> {
        texts(self.did.endpoints@)
    }

    /// The secret key is a key, the public key belongs to it, and the
    /// identifier names the public key.
    #[verifier::type_invariant]
    spec fn well_formed(&self) -> bool {
        &&& self.secret_key@.len() == 32
        &&& ed25519_public_key(self.secret_key@) == Some(self.did.public_key@)
        &&& key_of_did(self.did.id@) == Some(self.did.public_key@)
    }

    /// The identity that holds `secret_key`, with an identifier under
    /// `method`; `None` where `secret_key` is not a key, which is 32 bytes.
    pub fn from_secret_key(method: &str, secret_key: Vec<u8>, endpoints: Vec<String>, now: u64) -> (r: Option<Identity>)
        ensures
            r is Some <==> secret_key@.len() == 32,
            r is Some ==> {
                let identity = r.unwrap();
                &&& identity.secret_key() == secret_key@
                &&& ed25519_public_key(secret_key@) == Some(identity.public_key())
                &&& identity.id() == did_text(method@, identity.public_key())
                &&& identity.endpoints() == texts(endpoints@)
                &&& identity.created_at() == now
            },
    {
        match ed25519_public(&secret_key) {
            Some(public_key) => {
                proof {
                    lemma_key_of_did_text(method@, public_key@);
                }
                let did = new_identity(method, public_key, endpoints, now);
                Some(Identity { did, secret_key })
            },
            None => None,
        }
    }

    /// A new identity with a secret key drawn at random, created at the
    /// time of the system clock.
    pub fn generate(method: &str, endpoints: Vec<String>) -> (identity: Identity)
        ensures
            identity.id() == did_text(method@, identity.public_key()),
            identity.endpoints() == texts(endpoints@),
            identity.secret_key().len() == 32,
            ed25519_public_key(identity.secret_key()) == Some(identity.public_key()),
    {
        let mut secret_key: Vec<u8> = Vec::new();
        while secret_key.len() < 32
            invariant
                secret_key.len() <= 32,
            decreases 32 - secret_key.len(),
        {
            secret_key.push((random_u64() % 256) as u8);
        }
        let now = get_current_timestamp();
        Identity::from_secret_key(method, secret_key, endpoints, now).unwrap()
    }

    /// The node's identity record.
    pub fn local_did(&self) -> (did: &DID)
        ensures
            did.id@ == self.id(),
            did.public_key@ == self.public_key(),
            did.created_at == self.created_at(),
            texts(did.endpoints@) == self.endpoints(),
            key_of_did(did.id@) == Some(did.public_key@),
    {
        proof {
            use_type_invariant(self);
        }
        &self.did
    }

    /// The signature of this node for `payload`. It is valid for the node's
    /// identifier wherever the key accepts what it signed.
    pub fn sign(&self, payload: &Vec<u8>) -> (signature: Vec<u8>)
        ensures
            ed25519_signature(self.secret_key(), payload@) == Some(signature@),
            signature@.len() == 64,
            signature_valid(self.id(), payload@, signature@) == ed25519_verifies(
                self.public_key(),
                payload@,
                signature@,
            ),
    {
        proof {
            use_type_invariant(self);
        }
        ed25519_sign(&self.secret_key, payload).unwrap()
    }

    /// The signature of this node for the text `payload`.
    pub fn sign_text(&self, payload: &str) -> (signature: Vec<u8>)
        ensures
            ed25519_signature(self.secret_key(), text_bytes(payload@)) == Some(signature@),
            signature@.len() == 64,
    {
        let bytes = bytes_of(payload);
        self.sign(&bytes)
    }
}

} // verus!
