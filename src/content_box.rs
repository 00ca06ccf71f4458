//! Multi-recipient envelope encryption: the payload is sealed once under a
//! fresh content key, and that key is wrapped once per recipient under the
//! X25519 secret it shares with the sender.
use vstd::prelude::*;
use crate::error::Error;
use crate::primitives::{
    all_zero, gcm_decrypt, gcm_encrypt, gcm_seal, is_all_zero, public_key, rand_buf,
    shared_secret, x25519, x25519_public, GCM_MAX_CIPHERTEXT, GCM_MAX_PLAINTEXT,
};

verus! {

pub type PublicKeyBuf = [u8; 32];

pub type NonceBuf = [u8; 12];

/// One recipient's wrapped copy of the content key.
pub struct Respondent {
    pub key: PublicKeyBuf,
    pub nonce: NonceBuf,
    pub wrapped: Vec<u8>,
}

/// An encrypted payload together with one wrapped content key per recipient.
pub struct ContentBox {
    pub content: Vec<u8>,
    pub sender: PublicKeyBuf,
    pub nonce: NonceBuf,
    pub respondents: Vec<Respondent>,
}

/// The unique plaintext that seals to `ct`, if there is one and the cipher
/// accepts a ciphertext of that length.
pub open spec fn gcm_open(key: Seq<u8>, nonce: Seq<u8>, ct: Seq<u8>) -> Option<Seq<u8>> {
    if ct.len() <= GCM_MAX_CIPHERTEXT && exists|p: Seq<u8>| gcm_seal(key, nonce, p) == ct {
        Some(choose|p: Seq<u8>| gcm_seal(key, nonce, p) == ct)
    } else {
        None
    }
}

/// `i` is the first entry of `rs` for the public key `key`.
pub open spec fn finds(rs: Seq<Respondent>, key: Seq<u8>, i: int) -> bool {
    &&& 0 <= i < rs.len()
    &&& rs[i].key@ == key
    &&& forall|j: int| 0 <= j < i ==> rs[j].key@ != key
}

pub open spec fn lookup(rs: Seq<Respondent>, key: Seq<u8>) -> Option<int> {
    if exists|i: int| finds(rs, key, i) {
        Some(choose|i: int| finds(rs, key, i))
    } else {
        None
    }
}

/// What decoding `b` with the secret scalar `secret` yields.
pub open spec fn opened(b: ContentBox, secret: Seq<u8>) -> Result<Seq<u8>, Error> {
    match lookup(b.respondents@, x25519_public(secret)) {
        None => Err(Error::NotARecipient),
        Some(i) => {
            let shared = x25519(secret, b.sender@);
            if is_all_zero(shared) {
                Err(Error::KeyAgreementFailure)
            } else {
                match gcm_open(shared, b.respondents@[i].nonce@, b.respondents@[i].wrapped@) {
                    None => Err(Error::CryptoFailure),
                    Some(k) => if k.len() != 32 {
                        Err(Error::CryptoFailure)
                    } else {
                        match gcm_open(k, b.nonce@, b.content@) {
                            None => Err(Error::CryptoFailure),
                            Some(p) => Ok(p),
                        }
                    },
                }
            }
        },
    }
}

pub open spec fn result_bytes(r: Result<Vec<u8>, Error>) -> Result<Seq<u8>, Error> {
    match r {
        Ok(v) => Ok(v@),
        Err(e) => Err(e),
    }
}

pub open spec fn is_recipient(rs: Seq<PublicKeyBuf>, pk: Seq<u8>) -> bool {
    exists|j: int| 0 <= j < rs.len() && rs[j]@ == pk
}

/// Entry `e` wraps `key` for the recipient at index `j`, the last of the
/// first `n` recipients with that public key.
pub open spec fn wraps(
    e: Respondent,
    sender: Seq<u8>,
    rs: Seq<PublicKeyBuf>,
    nonces: Seq<NonceBuf>,
    key: Seq<u8>,
    j: int,
    n: int,
) -> bool {
    &&& 0 <= j < n
    &&& rs[j]@ == e.key@
    &&& forall|j2: int| j < j2 < n ==> rs[j2]@ != e.key@
    &&& e.nonce@ == nonces[j]@
    &&& e.wrapped@.len() == 48
    &&& !is_all_zero(x25519(sender, e.key@))
    &&& e.wrapped@ == gcm_seal(x25519(sender, e.key@), e.nonce@, key)
    &&& gcm_open(x25519(sender, e.key@), e.nonce@, e.wrapped@) == Some(key)
}

/// `b` seals `content` from `sender` for the recipients `rs`, with content
/// key `key`, content nonce `nonce` and wrapping nonces `nonces`: one entry
/// per distinct public key, a later duplicate replacing an earlier one.
pub open spec fn sealed_for(
    b: ContentBox,
    content: Seq<u8>,
    sender: Seq<u8>,
    rs: Seq<PublicKeyBuf>,
    key: Seq<u8>,
    nonce: Seq<u8>,
    nonces: Seq<NonceBuf>,
) -> bool {
    &&& b.sender@ == x25519_public(sender)
    &&& b.nonce@ == nonce
    &&& b.content@ == gcm_seal(key, nonce, content)
    &&& b.content@.len() == content.len() + 16
    &&& gcm_open(key, nonce, b.content@) == Some(content)
    &&& forall|t1: int, t2: int|
        0 <= t1 < t2 < b.respondents@.len() ==> b.respondents@[t1].key@
            != b.respondents@[t2].key@
    &&& forall|t: int|
        0 <= t < b.respondents@.len() ==> wraps_some(
            #[trigger] b.respondents@[t],
            sender,
            rs,
            nonces,
            key,
        )
    &&& forall|j: int| 0 <= j < rs.len() ==> has_entry(b.respondents@, #[trigger] rs[j]@)
}

/// `e` wraps `key` for some recipient of `rs`, the last with its public key.
pub open spec fn wraps_some(
    e: Respondent,
    sender: Seq<u8>,
    rs: Seq<PublicKeyBuf>,
    nonces: Seq<NonceBuf>,
    key: Seq<u8>,
) -> bool {
    exists|j: int| wraps(e, sender, rs, nonces, key, j, rs.len() as int)
}

pub open spec fn has_entry(entries: Seq<Respondent>, pk: Seq<u8>) -> bool {
    exists|t: int| 0 <= t < entries.len() && entries[t].key@ == pk
}

/// Every recipient decodes `content`; every other key is refused.
pub open spec fn decodes_for(b: ContentBox, content: Seq<u8>, rs: Seq<PublicKeyBuf>) -> bool {
    &&& forall|s: Seq<u8>|
        s.len() == 32 && is_recipient(rs, x25519_public(s)) ==> #[trigger] opened(b, s) == Ok::<Seq<u8>, Error>(
            content,
        )
    &&& forall|s: Seq<u8>|
        s.len() == 32 && !is_recipient(rs, x25519_public(s)) ==> #[trigger] opened(b, s) == Err::<Seq<u8>, Error>(
            Error::NotARecipient,
        )
}

/// Byte-wise equality of two public keys.
pub fn keys_equal(a: &PublicKeyBuf, b: &PublicKeyBuf) -> (r: bool)
    ensures
        r == (a@ == b@),
{
    let mut i: usize = 0;
    while i < 32
        invariant
            0 <= i <= 32,
            a@.len() == 32,
            b@.len() == 32,
            forall|j: int| 0 <= j < i ==> a@[j] == b@[j],
        decreases 32 - i,
    {
        if a[i] != b[i] {
            return false;
        }
        i = i + 1;
    }
    assert(a@ =~= b@);
    true
}

/// The index of the first entry for `key`.
pub fn find_respondent(rs: &Vec<Respondent>, key: &PublicKeyBuf) -> (r: Option<usize>)
    ensures
        match r {
            Some(i) => finds(rs@, key@, i as int),
            None => forall|i: int| 0 <= i < rs@.len() ==> rs@[i].key@ != key@,
        },
{
    let mut i: usize = 0;
    while i < rs.len()
        invariant
            0 <= i <= rs@.len(),
            forall|j: int| 0 <= j < i ==> rs@[j].key@ != key@,
        decreases rs@.len() - i,
    {
        if keys_equal(&rs[i].key, key) {
            return Some(i);
        }
        i = i + 1;
    }
    None
}

/// Opens an AES-256-GCM ciphertext, with the result stated over `gcm_open`.
fn open_sealed(key: &[u8], nonce: &[u8], ct: &[u8]) -> (r: Option<Vec<u8>>)
    requires
        key@.len() == 32,
        nonce@.len() == 12,
    ensures
        match r {
            Some(p) => gcm_open(key@, nonce@, ct@) == Some(p@),
            None => gcm_open(key@, nonce@, ct@) is None,
        },
{
    let r = gcm_decrypt(key, nonce, ct);
    proof {
        if ct@.len() <= GCM_MAX_CIPHERTEXT && exists|p: Seq<u8>| gcm_seal(key@, nonce@, p) == ct@ {
            let c = choose|p: Seq<u8>| gcm_seal(key@, nonce@, p) == ct@;
            assert(gcm_seal(key@, nonce@, c) == ct@);
        }
    }
    r
}

impl ContentBox {
    /// Adds a recipient's entry, replacing the first entry with the same
    /// public key if there is one.
    pub fn put_respondent(&mut self, e: Respondent)
        ensures
            final(self).content == old(self).content,
            final(self).sender == old(self).sender,
            final(self).nonce == old(self).nonce,
            match lookup(old(self).respondents@, e.key@) {
                Some(t) => final(self).respondents@ == old(self).respondents@.update(t, e),
                None => final(self).respondents@ == old(self).respondents@.push(e),
            },
    {
        match find_respondent(&self.respondents, &e.key) {
            Some(t) => {
                proof {
                    lemma_lookup_finds(self.respondents@, e.key@, t as int);
                }
                self.respondents.set(t, e);
            },
            None => {
                proof {
                    if exists|i: int| finds(self.respondents@, e.key@, i) {
                        let c = choose|i: int| finds(self.respondents@, e.key@, i);
                        assert(self.respondents@[c].key@ != e.key@);
                    }
                }
                self.respondents.push(e);
            },
        }
    }

    /// Seals `content` from `sender` for `respondents`, under the content key
    /// `key` and content nonce `nonce`, wrapping the key for the recipient at
    /// index `j` with `wrap_nonces[j]`. A public key that occurs twice keeps
    /// the entry of its last occurrence.
    pub fn encode_with(
        content: &[u8],
        sender: &[u8; 32],
        respondents: &Vec<PublicKeyBuf>,
        key: &[u8; 32],
        nonce: &NonceBuf,
        wrap_nonces: &Vec<NonceBuf>,
    ) -> (r: Result<ContentBox, Error>)
        requires
            wrap_nonces@.len() == respondents@.len(),
        ensures
            content@.len() > GCM_MAX_PLAINTEXT ==> r == Err::<ContentBox, Error>(
                Error::CryptoFailure,
            ),
            content@.len() <= GCM_MAX_PLAINTEXT ==> (r is Err <==> exists|j: int|
                0 <= j < respondents@.len() && is_all_zero(
                    #[trigger] x25519(sender@, respondents@[j]@),
                )),
            content@.len() <= GCM_MAX_PLAINTEXT && r is Err ==> r == Err::<ContentBox, Error>(
                Error::KeyAgreementFailure,
            ),
            r is Ok ==> sealed_for(
                r->Ok_0,
                content@,
                sender@,
                respondents@,
                key@,
                nonce@,
                wrap_nonces@,
            ),
            r is Ok ==> decodes_for(r->Ok_0, content@, respondents@),
    {
        let ct = match gcm_encrypt(key, nonce, content) {
            Some(c) => c,
            None => return Err(Error::CryptoFailure),
        };
        assert(gcm_seal(key@, nonce@, content@) == ct@);
        let sender_pk = public_key(sender);
        let mut entries: Vec<Respondent> = Vec::new();
        let ghost mut src: Seq<int> = Seq::empty();
        let ghost mut dst: Seq<int> = Seq::empty();
        let mut i: usize = 0;
        while i < respondents.len()
            invariant
                0 <= i <= respondents@.len(),
                wrap_nonces@.len() == respondents@.len(),
                content@.len() <= GCM_MAX_PLAINTEXT,
                src.len() == entries@.len(),
                dst.len() == i,
                forall|t1: int, t2: int|
                    0 <= t1 < t2 < entries@.len() ==> entries@[t1].key@ != entries@[t2].key@,
                forall|t: int|
                    0 <= t < entries@.len() ==> wraps(
                        #[trigger] entries@[t],
                        sender@,
                        respondents@,
                        wrap_nonces@,
                        key@,
                        src[t],
                        i as int,
                    ),
                forall|j: int|
                    0 <= j < i ==> 0 <= #[trigger] dst[j] < entries@.len() && entries@[dst[j]].key@
                        == respondents@[j]@,
                forall|j: int|
                    0 <= j < i ==> !is_all_zero(#[trigger] x25519(sender@, respondents@[j]@)),
            decreases respondents@.len() - i,
        {
            let rk = &respondents[i];
            let shared = shared_secret(sender, rk);
            if all_zero(&shared) {
                return Err(Error::KeyAgreementFailure);
            }
            let wn = &wrap_nonces[i];
            let wrapped = match gcm_encrypt(&shared, wn, key) {
                Some(w) => w,
                None => return Err(Error::CryptoFailure),
            };
            assert(gcm_seal(shared@, wn@, key@) == wrapped@);
            let e = Respondent { key: *rk, nonce: *wn, wrapped };
            match find_respondent(&entries, rk) {
                Some(t) => {
                    entries.set(t, e);
                    proof {
                        src = src.update(t as int, i as int);
                        dst = dst.push(t as int);
                    }
                },
                None => {
                    entries.push(e);
                    proof {
                        src = src.push(i as int);
                        dst = dst.push(entries@.len() - 1);
                    }
                },
            }
            i = i + 1;
        }
        let b = ContentBox { content: ct, sender: sender_pk, nonce: *nonce, respondents: entries };
        proof {
            assert(gcm_seal(key@, nonce@, content@) == b.content@);
            assert(gcm_open(key@, nonce@, b.content@) == Some(content@));
            assert forall|t: int| 0 <= t < b.respondents@.len() implies wraps_some(
                #[trigger] b.respondents@[t],
                sender@,
                respondents@,
                wrap_nonces@,
                key@,
            ) by {
                assert(wraps(b.respondents@[t], sender@, respondents@, wrap_nonces@, key@, src[t], i as int));
            }
            assert forall|j: int| 0 <= j < respondents@.len() implies has_entry(
                b.respondents@,
                #[trigger] respondents@[j]@,
            ) by {
                assert(0 <= dst[j] < entries@.len());
                assert(b.respondents@[dst[j]].key@ == respondents@[j]@);
            }
            assert forall|s: Seq<u8>|
                s.len() == 32 && is_recipient(respondents@, x25519_public(s)) implies #[trigger] opened(b, s)
                    == Ok::<Seq<u8>, Error>(content@) by {
                let j = choose|j: int| 0 <= j < respondents@.len() && respondents@[j]@ == x25519_public(s);
                let t = dst[j];
                assert(b.respondents@[t].key@ == x25519_public(s));
                assert(finds(b.respondents@, x25519_public(s), t));
                lemma_lookup_finds(b.respondents@, x25519_public(s), t);
                assert(wraps(b.respondents@[t], sender@, respondents@, wrap_nonces@, key@, src[t], i as int));
                assert(x25519(s, sender_pk@) == x25519(sender@, x25519_public(s)));
            }
            assert forall|s: Seq<u8>|
                s.len() == 32 && !is_recipient(respondents@, x25519_public(s)) implies #[trigger] opened(b, s)
                    == Err::<Seq<u8>, Error>(Error::NotARecipient) by {
                if exists|t: int| finds(b.respondents@, x25519_public(s), t) {
                    let t = choose|t: int| finds(b.respondents@, x25519_public(s), t);
                    assert(wraps(b.respondents@[t], sender@, respondents@, wrap_nonces@, key@, src[t], i as int));
                    assert(respondents@[src[t]]@ == x25519_public(s));
                }
            }
        }
        Ok(b)
    }

    /// Encrypts `content` once under a fresh random key and nonce, and wraps
    /// that key for each recipient under a fresh random nonce.
    pub fn encode(content: &[u8], sender: &[u8; 32], respondents: &Vec<PublicKeyBuf>) -> (r: Result<
        ContentBox,
        Error,
    >)
        ensures
            content@.len() > GCM_MAX_PLAINTEXT ==> r == Err::<ContentBox, Error>(
                Error::CryptoFailure,
            ),
            content@.len() <= GCM_MAX_PLAINTEXT ==> (r is Err <==> exists|j: int|
                0 <= j < respondents@.len() && is_all_zero(
                    #[trigger] x25519(sender@, respondents@[j]@),
                )),
            content@.len() <= GCM_MAX_PLAINTEXT && r is Err ==> r == Err::<ContentBox, Error>(
                Error::KeyAgreementFailure,
            ),
            r is Ok ==> exists|key: Seq<u8>, nonces: Seq<NonceBuf>|
                key.len() == 32 && nonces.len() == respondents@.len() && #[trigger] sealed_for(
                    r->Ok_0,
                    content@,
                    sender@,
                    respondents@,
                    key,
                    r->Ok_0.nonce@,
                    nonces,
                ),
            r is Ok ==> decodes_for(r->Ok_0, content@, respondents@),
    {
        let key: [u8; 32] = rand_buf();
        let nonce: NonceBuf = rand_buf();
        let mut wrap_nonces: Vec<NonceBuf> = Vec::new();
        let mut i: usize = 0;
        while i < respondents.len()
            invariant
                0 <= i <= respondents@.len(),
                wrap_nonces@.len() == i,
            decreases respondents@.len() - i,
        {
            wrap_nonces.push(rand_buf());
            i = i + 1;
        }
        let r = ContentBox::encode_with(content, sender, respondents, &key, &nonce, &wrap_nonces);
        proof {
            if r is Ok {
                assert(sealed_for(r->Ok_0, content@, sender@, respondents@, key@, r->Ok_0.nonce@, wrap_nonces@));
            }
        }
        r
    }

    /// Decodes the payload with the recipient's secret scalar: looks up the
    /// recipient's entry, unwraps the content key under the secret shared
    /// with the sender, and opens the content.
    pub fn content(&self, recipient: &[u8; 32]) -> (r: Result<Vec<u8>, Error>)
        ensures
            result_bytes(r) == opened(*self, recipient@),
    {
        let me = public_key(recipient);
        let i = match find_respondent(&self.respondents, &me) {
            Some(i) => i,
            None => {
                proof {
                    if exists|i: int| finds(self.respondents@, me@, i) {
                        let c = choose|i: int| finds(self.respondents@, me@, i);
                        assert(self.respondents@[c].key@ != me@);
                    }
                }
                return Err(Error::NotARecipient);
            },
        };
        proof {
            lemma_lookup_finds(self.respondents@, me@, i as int);
        }
        let entry = &self.respondents[i];
        let shared = shared_secret(recipient, &self.sender);
        if all_zero(&shared) {
            return Err(Error::KeyAgreementFailure);
        }
        let key = match open_sealed(&shared, &entry.nonce, &entry.wrapped) {
            Some(k) => k,
            None => return Err(Error::CryptoFailure),
        };
        if key.len() != 32 {
            return Err(Error::CryptoFailure);
        }
        match open_sealed(&key, &self.nonce, &self.content) {
            Some(p) => Ok(p),
            None => Err(Error::CryptoFailure),
        }
    }
}

proof fn lemma_lookup_finds(rs: Seq<Respondent>, key: Seq<u8>, i: int)
    requires
        finds(rs, key, i),
    ensures
        lookup(rs, key) == Some(i),
{
    let c = choose|c: int| finds(rs, key, c);
    if c < i {
        assert(rs[c].key@ != key);
    } else if c > i {
        assert(rs[i].key@ != key);
    }
}

/// Tampering with one recipient's entry (its nonce or wrapped key) leaves
/// decoding by every recipient with another public key exactly as it was.
pub proof fn lemma_tamper_other_entry(b: ContentBox, b2: ContentBox, t: int, secret: Seq<u8>)
    requires
        0 <= t < b.respondents@.len(),
        b2.content@ == b.content@,
        b2.sender@ == b.sender@,
        b2.nonce@ == b.nonce@,
        b2.respondents@.len() == b.respondents@.len(),
        b2.respondents@[t].key@ == b.respondents@[t].key@,
        forall|i: int|
            0 <= i < b.respondents@.len() && i != t ==> #[trigger] b2.respondents@[i] == b.respondents@[i],
        b.respondents@[t].key@ != x25519_public(secret),
    ensures
        opened(b2, secret) == opened(b, secret),
{
    let me = x25519_public(secret);
    assert forall|i: int| 0 <= i < b.respondents@.len() implies #[trigger] b2.respondents@[i].key@
        == b.respondents@[i].key@ by {
        if i != t {
            assert(b2.respondents@[i] == b.respondents@[i]);
        }
    }
    if exists|i: int| finds(b.respondents@, me, i) {
        let i = choose|i: int| finds(b.respondents@, me, i);
        assert forall|j: int| 0 <= j < i implies b2.respondents@[j].key@ != me by {
            assert(b2.respondents@[j].key@ == b.respondents@[j].key@);
        }
        assert(b2.respondents@[i].key@ == b.respondents@[i].key@);
        assert(finds(b2.respondents@, me, i));
        lemma_lookup_finds(b.respondents@, me, i);
        lemma_lookup_finds(b2.respondents@, me, i);
        assert(i != t);
        assert(b2.respondents@[i] == b.respondents@[i]);
    } else {
        if exists|i: int| finds(b2.respondents@, me, i) {
            let i = choose|i: int| finds(b2.respondents@, me, i);
            assert forall|j: int| 0 <= j < i implies b.respondents@[j].key@ != me by {
                assert(b2.respondents@[j].key@ == b.respondents@[j].key@);
            }
            assert(b2.respondents@[i].key@ == b.respondents@[i].key@);
            assert(finds(b.respondents@, me, i));
        }
    }
}

/// A decode whose wrapped key or content the cipher refuses fails with
/// `CryptoFailure`: a tampered envelope never yields other bytes silently.
pub proof fn lemma_refused_is_crypto_failure(b: ContentBox, secret: Seq<u8>)
    requires
        lookup(b.respondents@, x25519_public(secret)) is Some,
        !is_all_zero(x25519(secret, b.sender@)),
    ensures
        ({
            let e = b.respondents@[lookup(b.respondents@, x25519_public(secret))->0];
            let k = gcm_open(x25519(secret, b.sender@), e.nonce@, e.wrapped@);
            (k is None || (k is Some && gcm_open(k->0, b.nonce@, b.content@) is None))
                ==> opened(b, secret) == Err::<Seq<u8>, Error>(Error::CryptoFailure)
        }),
{
}

} // verus!
