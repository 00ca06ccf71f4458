//! Chunked, length-prefixed transport framing over a Noise transport state:
//! a value's bytes are split into chunks that each fit one Noise message,
//! encrypted in order, concatenated and prefixed with their total length.
use vstd::prelude::*;
use crate::error::Error;
use crate::framing::{be32, encode_len};

verus! {

/// Length of a ChaCha20-Poly1305 authentication tag.
pub const TAG_SIZE: usize = 16;

/// Largest plaintext chunk: one Noise message minus its tag.
pub const SOURCE_CHUNK_SIZE: usize = 65535 - TAG_SIZE;

/// Largest ciphertext chunk: one Noise message.
pub const ENC_CHUNK_SIZE: usize = 65535;

#[verifier::external_type_specification]
#[verifier::external_body]
pub struct ExTransportState(snow::TransportState);

/// Relies on `snow::TransportState::write_message`: it encrypts one chunk of at
/// most `MAXMSGLEN - TAGLEN` bytes under the sending cipher, advancing its
/// nonce, into a message of the chunk's length plus the 16-byte tag.
#[verifier::external_body]
fn transport_encrypt(state: &mut snow::TransportState, chunk: &[u8]) -> (r: Option<Vec<u8>>)
    requires
        chunk@.len() <= SOURCE_CHUNK_SIZE,
    ensures
        r is Some ==> r->0@.len() == chunk@.len() + TAG_SIZE,
{
    let mut buf = vec![0u8; chunk.len() + TAG_SIZE];
    match state.write_message(chunk, &mut buf) {
        Ok(_) => Some(buf),
        Err(_) => None,
    }
}

/// Relies on `snow::TransportState::read_message`: it authenticates and
/// decrypts one message under the receiving cipher, advancing its nonce, and
/// returns a payload 16 bytes shorter than the message.
#[verifier::external_body]
fn transport_decrypt(state: &mut snow::TransportState, msg: &[u8]) -> (r: Option<Vec<u8>>)
    requires
        msg@.len() <= ENC_CHUNK_SIZE,
    ensures
        r is Some ==> r->0@.len() + TAG_SIZE == msg@.len(),
{
    let mut buf = vec![0u8; msg.len()];
    match state.read_message(msg, &mut buf) {
        Ok(n) => {
            buf.truncate(n);
            Some(buf)
        },
        Err(_) => None,
    }
}

/// The byte sequences of `cs`, one after the other.
pub open spec fn concat(cs: Seq<Seq<u8>>) -> Seq<u8>
    decreases cs.len(),
{
    if cs.len() == 0 {
        Seq::empty()
    } else {
        concat(cs.drop_last()) + cs.last()
    }
}

/// How many pieces of at most `size` bytes `n` bytes split into.
pub open spec fn chunk_count(n: int, size: int) -> int
    decreases n,
    when size > 0
{
    if n <= 0 {
        0
    } else if n <= size {
        1
    } else {
        1 + chunk_count(n - size, size)
    }
}

/// The `k`-th plaintext chunk of `p`.
pub open spec fn source_chunk(p: Seq<u8>, k: int) -> Seq<u8> {
    let lo = k * SOURCE_CHUNK_SIZE;
    let hi = if p.len() - lo < SOURCE_CHUNK_SIZE { p.len() as int } else { lo + SOURCE_CHUNK_SIZE };
    p.subrange(lo, hi)
}

/// The `k`-th ciphertext chunk of a frame body `c`.
pub open spec fn cipher_group(c: Seq<u8>, k: int) -> Seq<u8> {
    let lo = k * ENC_CHUNK_SIZE;
    let hi = if c.len() - lo < ENC_CHUNK_SIZE { c.len() as int } else { lo + ENC_CHUNK_SIZE };
    c.subrange(lo, hi)
}

/// Length of the frame body that carries `n` plaintext bytes.
pub open spec fn frame_body_len(n: int) -> int {
    n + TAG_SIZE * chunk_count(n, SOURCE_CHUNK_SIZE as int)
}

/// The plaintext chunks of `p`, in order.
pub open spec fn source_chunks(p: Seq<u8>) -> Seq<Seq<u8>> {
    Seq::new(chunk_count(p.len() as int, SOURCE_CHUNK_SIZE as int) as nat, |k: int| source_chunk(p, k))
}

/// `cts` are ciphertext chunks for the plaintext chunks of `p`, one for each
/// and each a tag longer.
pub open spec fn chunks_carry(cts: Seq<Seq<u8>>, p: Seq<u8>) -> bool {
    &&& cts.len() == chunk_count(p.len() as int, SOURCE_CHUNK_SIZE as int)
    &&& forall|k: int| 0 <= k < cts.len() ==> #[trigger] cts[k].len() == source_chunk(p, k).len() + TAG_SIZE
}

/// `f` is the frame that carries `p` in the ciphertext chunks `cts`: the
/// big-endian body length, then the chunks in order.
pub open spec fn is_frame_of(f: Seq<u8>, p: Seq<u8>, cts: Seq<Seq<u8>>) -> bool {
    chunks_carry(cts, p) && f == be32(frame_body_len(p.len() as int) as u32) + concat(cts)
}

/// The `ENC_CHUNK_SIZE` groups of a frame body, the last possibly shorter.
pub open spec fn body_groups(c: Seq<u8>) -> Seq<Seq<u8>> {
    Seq::new(chunk_count(c.len() as int, ENC_CHUNK_SIZE as int) as nat, |k: int| cipher_group(c, k))
}

/// `pts` are as many as the groups of the frame body `c`, each a tag
/// shorter than its group.
pub open spec fn chunk_lengths_match(pts: Seq<Seq<u8>>, c: Seq<u8>) -> bool {
    &&& pts.len() == chunk_count(c.len() as int, ENC_CHUNK_SIZE as int)
    &&& forall|k: int| 0 <= k < pts.len() ==> #[trigger] pts[k].len() + TAG_SIZE == cipher_group(c, k).len()
}

/// `b` continues the history `a`.
pub open spec fn extends(a: Seq<Seq<u8>>, b: Seq<Seq<u8>>) -> bool {
    a.len() <= b.len() && b.subrange(0, a.len() as int) == a
}

/// What `b` added to the history `a`.
pub open spec fn fresh(a: Seq<Seq<u8>>, b: Seq<Seq<u8>>) -> Seq<Seq<u8>> {
    b.subrange(a.len() as int, b.len() as int)
}

proof fn lemma_extends_append(a: Seq<Seq<u8>>, x: Seq<Seq<u8>>)
    ensures
        extends(a, a + x),
        fresh(a, a + x) == x,
{
    assert((a + x).subrange(0, a.len() as int) =~= a);
    assert((a + x).subrange(a.len() as int, (a + x).len() as int) =~= x);
}

proof fn lemma_chunk_count_bound(n: int, size: int)
    requires
        size > 0,
    ensures
        0 <= chunk_count(n, size),
        n >= 0 ==> chunk_count(n, size) <= n,
    decreases n,
{
    if n > size {
        lemma_chunk_count_bound(n - size, size);
    }
}

proof fn lemma_concat_push(cs: Seq<Seq<u8>>, c: Seq<u8>)
    ensures
        concat(cs.push(c)) == concat(cs) + c,
{
    assert(cs.push(c).drop_last() =~= cs);
}

proof fn lemma_chunk_index_in_range(n: int, size: int, k: int)
    requires
        size > 0,
        0 <= k < chunk_count(n, size),
    ensures
        k * size < n,
    decreases n,
{
    if k == 0 {
        assert(k * size == 0) by (nonlinear_arith)
            requires
                k == 0,
        ;
    } else if n > size {
        lemma_chunk_index_in_range(n - size, size, k - 1);
        assert(k * size == (k - 1) * size + size) by (nonlinear_arith);
    }
}

proof fn lemma_concat_append(a: Seq<Seq<u8>>, b: Seq<Seq<u8>>)
    ensures
        concat(a + b) == concat(a) + concat(b),
    decreases b.len(),
{
    if b.len() == 0 {
        assert(a + b =~= a);
        assert(concat(b) =~= Seq::<u8>::empty());
        assert(concat(a) + concat(b) =~= concat(a));
    } else {
        lemma_concat_append(a, b.drop_last());
        assert((a + b).drop_last() =~= a + b.drop_last());
        assert(concat(a) + concat(b) =~= concat(a) + concat(b.drop_last()) + b.last());
    }
}

proof fn lemma_concat_first(cs: Seq<Seq<u8>>)
    requires
        cs.len() > 0,
    ensures
        concat(cs) == cs[0] + concat(cs.drop_first()),
{
    lemma_concat_append(seq![cs[0]], cs.drop_first());
    assert(seq![cs[0]] + cs.drop_first() =~= cs);
    let one = seq![cs[0]];
    assert(one.drop_last() =~= Seq::<Seq<u8>>::empty());
    assert(concat(one.drop_last()) =~= Seq::<u8>::empty());
    assert(concat(one) == concat(one.drop_last()) + one.last());
    assert(concat(one) =~= cs[0]);
}

/// Chunking boundaries: the receiver's partition of a frame body into
/// `ENC_CHUNK_SIZE` groups recovers exactly the sender's ciphertext chunks,
/// one group per chunk, and the plaintext chunks of a payload reassemble it.
pub proof fn lemma_chunk_boundaries(p: Seq<u8>, cts: Seq<Seq<u8>>)
    requires
        chunks_carry(cts, p),
    ensures
        concat(source_chunks(p)) == p,
        chunk_count(concat(cts).len() as int, ENC_CHUNK_SIZE as int) == cts.len(),
        forall|k: int| 0 <= k < cts.len() ==> #[trigger] cipher_group(concat(cts), k) == cts[k],
    decreases p.len(),
{
    let sc = source_chunks(p);
    if p.len() == 0 {
        assert(sc =~= Seq::<Seq<u8>>::empty());
        assert(cts =~= Seq::<Seq<u8>>::empty());
        assert(concat(sc) =~= p);
    } else if p.len() <= SOURCE_CHUNK_SIZE {
        assert(cts.len() == 1);
        assert(cts[0].len() == source_chunk(p, 0).len() + TAG_SIZE);
        assert(source_chunk(p, 0) =~= p);
        lemma_concat_first(cts);
        assert(cts.drop_first() =~= Seq::<Seq<u8>>::empty());
        assert(concat(cts) =~= cts[0]);
        assert(cipher_group(concat(cts), 0) =~= cts[0]);
        lemma_concat_first(sc);
        assert(sc.drop_first() =~= Seq::<Seq<u8>>::empty());
        assert(concat(sc) =~= p);
    } else {
        lemma_chunk_count_bound(p.len() - SOURCE_CHUNK_SIZE, SOURCE_CHUNK_SIZE as int);
        let p2 = p.subrange(SOURCE_CHUNK_SIZE as int, p.len() as int);
        let c2 = cts.drop_first();
        assert forall|k: int| 0 <= k < c2.len() implies #[trigger] c2[k].len() == source_chunk(p2, k).len() + TAG_SIZE by {
            assert((k + 1) * (SOURCE_CHUNK_SIZE as int) == k * (SOURCE_CHUNK_SIZE as int) + SOURCE_CHUNK_SIZE) by (nonlinear_arith);
            lemma_chunk_index_in_range(p2.len() as int, SOURCE_CHUNK_SIZE as int, k);
            assert(cts[k + 1].len() == source_chunk(p, k + 1).len() + TAG_SIZE);
            assert(source_chunk(p2, k) =~= source_chunk(p, k + 1));
        }
        assert(chunks_carry(c2, p2));
        lemma_chunk_boundaries(p2, c2);
        assert(cts[0].len() == source_chunk(p, 0).len() + TAG_SIZE);
        assert(cts[0].len() == ENC_CHUNK_SIZE);
        lemma_concat_first(cts);
        let x = concat(c2);
        assert(concat(cts) == cts[0] + x);
        assert(x.len() > 0) by {
            assert(c2.len() > 0);
            assert(cipher_group(x, 0) == c2[0]);
            assert(c2[0].len() == source_chunk(p2, 0).len() + TAG_SIZE);
        }
        assert forall|k: int| 0 <= k < cts.len() implies #[trigger] cipher_group(concat(cts), k) == cts[k] by {
            if k == 0 {
                assert(cipher_group(concat(cts), 0) =~= cts[0]);
            } else {
                assert(cipher_group(x, k - 1) == c2[k - 1]);
                assert(k * (ENC_CHUNK_SIZE as int) == (k - 1) * (ENC_CHUNK_SIZE as int) + ENC_CHUNK_SIZE) by (nonlinear_arith);
                lemma_chunk_index_in_range(x.len() as int, ENC_CHUNK_SIZE as int, k - 1);
                assert(cipher_group(concat(cts), k) =~= cipher_group(x, k - 1));
            }
        }
        lemma_concat_first(sc);
        assert(sc.drop_first() =~= source_chunks(p2)) by {
            assert forall|k: int| 0 <= k < sc.len() - 1 implies sc.drop_first()[k] == source_chunks(p2)[k] by {
                assert((k + 1) * (SOURCE_CHUNK_SIZE as int) == k * (SOURCE_CHUNK_SIZE as int) + SOURCE_CHUNK_SIZE) by (nonlinear_arith);
                lemma_chunk_index_in_range(p2.len() as int, SOURCE_CHUNK_SIZE as int, k);
                assert(source_chunk(p2, k) =~= source_chunk(p, k + 1));
            }
        }
        assert(sc[0] =~= p.subrange(0, SOURCE_CHUNK_SIZE as int));
        assert(concat(sc) =~= p);
    }
}

/// What the receiver hands its cipher for a frame carrying `p` is exactly
/// the sender's ciphertext chunks, in order; what comes back has, chunk by
/// chunk, the length of the plaintext chunk it was made from.
pub proof fn lemma_frame_chunks_match(f: Seq<u8>, p: Seq<u8>, cts: Seq<Seq<u8>>, pts: Seq<Seq<u8>>)
    requires
        is_frame_of(f, p, cts),
        chunk_lengths_match(pts, f.subrange(4, f.len() as int)),
    ensures
        body_groups(f.subrange(4, f.len() as int)) == cts,
        pts.len() == source_chunks(p).len(),
        forall|k: int| 0 <= k < pts.len() ==> #[trigger] pts[k].len() == source_chunk(p, k).len(),
{
    lemma_chunk_boundaries(p, cts);
    assert(f.subrange(4, f.len() as int) =~= concat(cts));
    assert(body_groups(concat(cts)) =~= cts);
    assert forall|k: int| 0 <= k < pts.len() implies #[trigger] pts[k].len() == source_chunk(p, k).len() by {
        assert(cipher_group(concat(cts), k) == cts[k]);
        assert(cts[k].len() == source_chunk(p, k).len() + TAG_SIZE);
    }
}

/// The body length of a frame for `n` plaintext bytes, if it fits the
/// four-byte prefix.
pub fn frame_len(n: usize) -> (r: Option<u32>)
    ensures
        frame_body_len(n as int) <= u32::MAX ==> r == Some(frame_body_len(n as int) as u32),
        frame_body_len(n as int) > u32::MAX ==> r is None,
{
    proof {
        lemma_chunk_count_bound(n as int, SOURCE_CHUNK_SIZE as int);
    }
    if n > u32::MAX as usize {
        return None;
    }
    let mut rem: usize = n;
    let mut total: u64 = n as u64;
    while rem > 0
        invariant
            rem <= n <= u32::MAX,
            total + TAG_SIZE * chunk_count(rem as int, SOURCE_CHUNK_SIZE as int) == frame_body_len(
                n as int,
            ),
            total <= n + TAG_SIZE * (chunk_count(n as int, SOURCE_CHUNK_SIZE as int) - chunk_count(rem as int, SOURCE_CHUNK_SIZE as int)),
            chunk_count(rem as int, SOURCE_CHUNK_SIZE as int) <= chunk_count(n as int, SOURCE_CHUNK_SIZE as int) <= n,
        decreases rem,
    {
        proof {
            lemma_chunk_count_bound(rem as int - SOURCE_CHUNK_SIZE, SOURCE_CHUNK_SIZE as int);
        }
        total = total + TAG_SIZE as u64;
        if rem <= SOURCE_CHUNK_SIZE {
            rem = 0;
        } else {
            rem = rem - SOURCE_CHUNK_SIZE;
        }
    }
    if total > u32::MAX as u64 {
        None
    } else {
        Some(total as u32)
    }
}

/// The exclusively owned Noise transport state of one connection, with the
/// history of each direction: the plaintext chunks handed to the sending
/// cipher and the ciphertexts it returned, the ciphertext groups handed to
/// the receiving cipher and the plaintexts it returned, all in order.
pub struct TransportSession {
    state: snow::TransportState,
    sent: Ghost<Seq<Seq<u8>>>,
    sealed: Ghost<Seq<Seq<u8>>>,
    opened: Ghost<Seq<Seq<u8>>>,
    received: Ghost<Seq<Seq<u8>>>,
}

impl TransportSession {
    /// Plaintext chunks encrypted by the sending cipher so far.
    pub closed spec fn sent(&self) -> Seq<Seq<u8>> {
        self.sent@
    }

    /// Ciphertexts the sending cipher returned so far.
    pub closed spec fn sealed(&self) -> Seq<Seq<u8>> {
        self.sealed@
    }

    /// Ciphertext groups the receiving cipher accepted so far.
    pub closed spec fn opened(&self) -> Seq<Seq<u8>> {
        self.opened@
    }

    /// Plaintexts the receiving cipher returned so far.
    pub closed spec fn received(&self) -> Seq<Seq<u8>> {
        self.received@
    }

    pub fn new(state: snow::TransportState) -> (r: TransportSession)
        ensures
            r.sent() == Seq::<Seq<u8>>::empty(),
            r.sealed() == Seq::<Seq<u8>>::empty(),
            r.opened() == Seq::<Seq<u8>>::empty(),
            r.received() == Seq::<Seq<u8>>::empty(),
    {
        TransportSession {
            state,
            sent: Ghost(Seq::empty()),
            sealed: Ghost(Seq::empty()),
            opened: Ghost(Seq::empty()),
            received: Ghost(Seq::empty()),
        }
    }

    /// Splits `payload` into chunks of at most `SOURCE_CHUNK_SIZE` bytes,
    /// encrypts them in order under the sending cipher and frames the
    /// ciphertexts it returned behind the big-endian length of their
    /// concatenation. A payload whose frame length does not fit the prefix is
    /// refused before any encryption; an empty payload needs none.
    pub fn seal_frame(&mut self, payload: &[u8]) -> (r: Result<Vec<u8>, Error>)
        ensures
            final(self).received() == old(self).received(),
            final(self).opened() == old(self).opened(),
            extends(old(self).sent(), final(self).sent()),
            extends(old(self).sealed(), final(self).sealed()),
            frame_body_len(payload@.len() as int) > u32::MAX ==> r == Err::<Vec<u8>, Error>(
                Error::ProtocolViolation,
            ) && final(self).sent() == old(self).sent() && final(self).sealed() == old(
                self,
            ).sealed(),
            payload@.len() == 0 ==> (r matches Ok(f) && f@ == seq![0u8, 0u8, 0u8, 0u8]),
            frame_body_len(payload@.len() as int) <= u32::MAX ==> match r {
                Ok(f) => final(self).sent() == old(self).sent() + source_chunks(payload@)
                    && is_frame_of(f@, payload@, fresh(old(self).sealed(), final(self).sealed())),
                Err(e) => e == Error::CryptoFailure,
            },
    {
        let ghost old_sent = self.sent@;
        let ghost old_sealed = self.sealed@;
        proof {
            lemma_extends_append(old_sent, Seq::empty());
            lemma_extends_append(old_sealed, Seq::empty());
            assert(old_sent + Seq::<Seq<u8>>::empty() =~= old_sent);
            assert(old_sealed + Seq::<Seq<u8>>::empty() =~= old_sealed);
        }
        let total = match frame_len(payload.len()) {
            Some(t) => t,
            None => return Err(Error::ProtocolViolation),
        };
        let prefix = encode_len(total);
        let mut out: Vec<u8> = Vec::new();
        let ghost mut cts: Seq<Seq<u8>> = Seq::empty();
        let ghost p = payload@;
        let ghost count = chunk_count(p.len() as int, SOURCE_CHUNK_SIZE as int);
        let mut pos: usize = 0;
        let mut k: usize = 0;
        while pos < payload.len()
            invariant
                p == payload@,
                pos <= p.len(),
                pos == p.len() || pos == k * SOURCE_CHUNK_SIZE,
                k <= pos,
                frame_body_len(p.len() as int) <= u32::MAX,
                k == cts.len(),
                count == k + chunk_count(p.len() - pos, SOURCE_CHUNK_SIZE as int),
                out@ == concat(cts),
                forall|j: int| 0 <= j < k ==> #[trigger] cts[j].len() == source_chunk(p, j).len() + TAG_SIZE,
                self.sent@ == old_sent + Seq::new(k as nat, |j: int| source_chunk(p, j)),
                self.sealed@ == old_sealed + cts,
                extends(old_sent, self.sent@),
                extends(old_sealed, self.sealed@),
                old_sent == old(self).sent@,
                old_sealed == old(self).sealed@,
                self.received@ == old(self).received@,
                self.opened@ == old(self).opened@,
            decreases p.len() - pos,
        {
            let end: usize = if payload.len() - pos < SOURCE_CHUNK_SIZE {
                payload.len()
            } else {
                pos + SOURCE_CHUNK_SIZE
            };
            assert((k + 1) * SOURCE_CHUNK_SIZE == k * SOURCE_CHUNK_SIZE + SOURCE_CHUNK_SIZE) by (nonlinear_arith);
            let chunk = vstd::slice::slice_subrange(payload, pos, end);
            assert(chunk@ == source_chunk(p, k as int));
            let mut ct = match transport_encrypt(&mut self.state, chunk) {
                Some(c) => c,
                None => return Err(Error::CryptoFailure),
            };
            proof {
                lemma_concat_push(cts, ct@);
                cts = cts.push(ct@);
                self.sent@ = self.sent@.push(chunk@);
                self.sealed@ = self.sealed@.push(ct@);
                assert(self.sent@ =~= old_sent + Seq::new((k + 1) as nat, |j: int| source_chunk(p, j)));
                assert(self.sealed@ =~= old_sealed + cts);
                lemma_extends_append(old_sent, Seq::new((k + 1) as nat, |j: int| source_chunk(p, j)));
                lemma_extends_append(old_sealed, cts);
            }
            out.append(&mut ct);
            pos = end;
            k = k + 1;
        }
        let mut frame: Vec<u8> = Vec::new();
        frame.push(prefix[0]);
        frame.push(prefix[1]);
        frame.push(prefix[2]);
        frame.push(prefix[3]);
        frame.append(&mut out);
        proof {
            lemma_extends_append(old_sealed, cts);
            assert(chunks_carry(cts, p));
            assert(frame@ =~= be32(total) + concat(cts));
            assert(source_chunks(p) =~= Seq::new(k as nat, |j: int| source_chunk(p, j)));
            if p.len() == 0 {
                assert(cts.len() == 0);
                assert(concat(cts) =~= Seq::<u8>::empty());
                assert(total == 0);
                assert(((0u32 >> 24u32) as u8) == 0u8 && ((0u32 >> 16u32) as u8) == 0u8 && ((0u32
                    >> 8u32) as u8) == 0u8 && (0u32 as u8) == 0u8) by (bit_vector);
                assert(frame@ =~= seq![0u8, 0u8, 0u8, 0u8]);
            }
        }
        Ok(frame)
    }

    /// Splits a frame body into `ENC_CHUNK_SIZE` groups, the last possibly
    /// shorter, hands them in order to the receiving cipher and concatenates
    /// what it returns. An empty body needs no decryption.
    pub fn open_frame(&mut self, body: &[u8]) -> (r: Result<Vec<u8>, Error>)
        ensures
            final(self).sent() == old(self).sent(),
            final(self).sealed() == old(self).sealed(),
            extends(old(self).opened(), final(self).opened()),
            extends(old(self).received(), final(self).received()),
            body@.len() == 0 ==> (r matches Ok(p) && p@.len() == 0),
            match r {
                Ok(p) => fresh(old(self).opened(), final(self).opened()) == body_groups(body@)
                    && chunk_lengths_match(fresh(old(self).received(), final(self).received()), body@)
                    && p@ == concat(fresh(old(self).received(), final(self).received())),
                Err(e) => e == Error::CryptoFailure,
            },
    {
        let mut out: Vec<u8> = Vec::new();
        let ghost mut pts: Seq<Seq<u8>> = Seq::empty();
        let ghost old_received = self.received@;
        let ghost old_opened = self.opened@;
        let ghost c = body@;
        proof {
            lemma_extends_append(old_received, Seq::empty());
            lemma_extends_append(old_opened, Seq::empty());
            assert(old_received + Seq::<Seq<u8>>::empty() =~= old_received);
            assert(old_opened + Seq::<Seq<u8>>::empty() =~= old_opened);
        }
        let mut pos: usize = 0;
        let mut k: usize = 0;
        while pos < body.len()
            invariant
                c == body@,
                pos <= c.len(),
                pos == c.len() || pos == k * ENC_CHUNK_SIZE,
                k <= pos,
                k == pts.len(),
                chunk_count(c.len() as int, ENC_CHUNK_SIZE as int) == k + chunk_count(c.len() - pos, ENC_CHUNK_SIZE as int),
                out@ == concat(pts),
                forall|j: int| 0 <= j < k ==> #[trigger] pts[j].len() + TAG_SIZE == cipher_group(c, j).len(),
                self.received@ == old_received + pts,
                self.opened@ == old_opened + Seq::new(k as nat, |j: int| cipher_group(c, j)),
                extends(old_received, self.received@),
                extends(old_opened, self.opened@),
                old_received == old(self).received@,
                old_opened == old(self).opened@,
                self.sent@ == old(self).sent@,
                self.sealed@ == old(self).sealed@,
            decreases c.len() - pos,
        {
            let end: usize = if body.len() - pos < ENC_CHUNK_SIZE {
                body.len()
            } else {
                pos + ENC_CHUNK_SIZE
            };
            assert((k + 1) * ENC_CHUNK_SIZE == k * ENC_CHUNK_SIZE + ENC_CHUNK_SIZE) by (nonlinear_arith);
            let group = vstd::slice::slice_subrange(body, pos, end);
            assert(group@ == cipher_group(c, k as int));
            let mut pt = match transport_decrypt(&mut self.state, group) {
                Some(q) => q,
                None => return Err(Error::CryptoFailure),
            };
            proof {
                lemma_concat_push(pts, pt@);
                pts = pts.push(pt@);
                self.received@ = self.received@.push(pt@);
                self.opened@ = self.opened@.push(group@);
                assert(self.received@ =~= old_received + pts);
                assert(self.opened@ =~= old_opened + Seq::new((k + 1) as nat, |j: int| cipher_group(c, j)));
                lemma_extends_append(old_received, pts);
                lemma_extends_append(old_opened, Seq::new((k + 1) as nat, |j: int| cipher_group(c, j)));
            }
            out.append(&mut pt);
            pos = end;
            k = k + 1;
        }
        proof {
            assert(chunk_lengths_match(pts, c));
            lemma_extends_append(old_received, pts);
            lemma_extends_append(old_opened, Seq::new(k as nat, |j: int| cipher_group(c, j)));
            assert(body_groups(c) =~= Seq::new(k as nat, |j: int| cipher_group(c, j)));
            if c.len() == 0 {
                assert(concat(pts) =~= Seq::<u8>::empty());
            }
        }
        Ok(out)
    }
}

/// Exclusive ownership of a connection's transport session: an operation
/// takes the session out for its duration and puts it back when done. A
/// session that was never put back leaves the slot empty for good.
pub struct SessionSlot {
    session: Option<TransportSession>,
}

impl SessionSlot {
    pub closed spec fn held(&self) -> Option<TransportSession> {
        self.session
    }

    pub fn new(session: TransportSession) -> (r: SessionSlot)
        ensures
            r.held() == Some(session),
    {
        SessionSlot { session: Some(session) }
    }

    /// Takes the session out, or fails with `InvalidState` when it is not
    /// there.
    pub fn take(&mut self) -> (r: Result<TransportSession, Error>)
        ensures
            old(self).held() matches Some(s) ==> r == Ok::<TransportSession, Error>(s)
                && final(self).held() is None,
            old(self).held() is None ==> r == Err::<TransportSession, Error>(Error::InvalidState)
                && final(self).held() is None,
    {
        match self.session.take() {
            Some(s) => Ok(s),
            None => Err(Error::InvalidState),
        }
    }

    /// Puts a session (back) in.
    pub fn restore(&mut self, session: TransportSession)
        ensures
            final(self).held() == Some(session),
    {
        self.session = Some(session);
    }
}

} // verus!
