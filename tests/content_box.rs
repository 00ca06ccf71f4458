use protocol::content_box::{ContentBox, PublicKeyBuf, Respondent};
use protocol::error::Error;
use protocol::messaging::Message;
use protocol::primitives::rand_buf;
use x25519_dalek::{PublicKey, StaticSecret};

fn public_of(secret: &[u8; 32]) -> PublicKeyBuf {
    PublicKey::from(&StaticSecret::from(*secret)).to_bytes()
}

fn hello() -> Vec<u8> {
    bincode::serialize(&"Hello, world!".to_string()).unwrap()
}

fn read_string(bytes: &[u8]) -> String {
    bincode::deserialize(bytes).unwrap()
}

#[test]
fn test() {
    let sender: [u8; 32] = rand_buf::<32>();
    let recipient: [u8; 32] = rand_buf::<32>();
    let recipient2: [u8; 32] = rand_buf::<32>();

    let content = ContentBox::encode(
        &hello(),
        &sender,
        &vec![public_of(&recipient), public_of(&recipient2)],
    )
    .unwrap();

    assert_eq!(read_string(&content.content(&recipient).unwrap()), "Hello, world!");
    assert_eq!(read_string(&content.content(&recipient2).unwrap()), "Hello, world!");
}

#[test]
fn non_recipient_is_refused() {
    let sender: [u8; 32] = rand_buf();
    let a: [u8; 32] = rand_buf();
    let b: [u8; 32] = rand_buf();
    let c: [u8; 32] = rand_buf();
    let boxed = ContentBox::encode(&hello(), &sender, &vec![public_of(&a), public_of(&b)]).unwrap();
    assert_eq!(boxed.content(&c).unwrap_err(), Error::NotARecipient);
    assert_eq!(boxed.content(&sender).unwrap_err(), Error::NotARecipient);
}

#[test]
fn empty_recipient_set_has_no_readers() {
    let sender: [u8; 32] = rand_buf();
    let a: [u8; 32] = rand_buf();
    let boxed = ContentBox::encode(&hello(), &sender, &vec![]).unwrap();
    assert!(boxed.respondents.is_empty());
    assert_eq!(boxed.content(&a).unwrap_err(), Error::NotARecipient);
}

#[test]
fn empty_payload_round_trips() {
    let sender: [u8; 32] = rand_buf();
    let a: [u8; 32] = rand_buf();
    let boxed = ContentBox::encode(&[], &sender, &vec![public_of(&a)]).unwrap();
    assert_eq!(boxed.content.len(), 16);
    assert_eq!(boxed.content(&a).unwrap(), Vec::<u8>::new());
}

#[test]
fn flipped_content_bit_fails_for_everyone() {
    let sender: [u8; 32] = rand_buf();
    let a: [u8; 32] = rand_buf();
    let b: [u8; 32] = rand_buf();
    for bit in [0usize, 7, 40, 8 * 20 + 3] {
        let mut boxed =
            ContentBox::encode(&hello(), &sender, &vec![public_of(&a), public_of(&b)]).unwrap();
        boxed.content[bit / 8] ^= 1 << (bit % 8);
        assert_eq!(boxed.content(&a).unwrap_err(), Error::CryptoFailure);
        assert_eq!(boxed.content(&b).unwrap_err(), Error::CryptoFailure);
    }
}

#[test]
fn flipped_content_nonce_bit_fails_for_everyone() {
    let sender: [u8; 32] = rand_buf();
    let a: [u8; 32] = rand_buf();
    let b: [u8; 32] = rand_buf();
    let mut boxed =
        ContentBox::encode(&hello(), &sender, &vec![public_of(&a), public_of(&b)]).unwrap();
    boxed.nonce[11] ^= 0x80;
    assert_eq!(boxed.content(&a).unwrap_err(), Error::CryptoFailure);
    assert_eq!(boxed.content(&b).unwrap_err(), Error::CryptoFailure);
}

#[test]
fn flipped_wrapped_key_bit_fails_only_that_recipient() {
    let sender: [u8; 32] = rand_buf();
    let a: [u8; 32] = rand_buf();
    let b: [u8; 32] = rand_buf();
    let mut boxed =
        ContentBox::encode(&hello(), &sender, &vec![public_of(&a), public_of(&b)]).unwrap();
    let t = boxed.respondents.iter().position(|r| r.key == public_of(&a)).unwrap();
    boxed.respondents[t].wrapped[5] ^= 0x10;
    assert_eq!(boxed.content(&a).unwrap_err(), Error::CryptoFailure);
    assert_eq!(read_string(&boxed.content(&b).unwrap()), "Hello, world!");
}

#[test]
fn flipped_wrap_nonce_bit_fails_only_that_recipient() {
    let sender: [u8; 32] = rand_buf();
    let a: [u8; 32] = rand_buf();
    let b: [u8; 32] = rand_buf();
    let mut boxed =
        ContentBox::encode(&hello(), &sender, &vec![public_of(&a), public_of(&b)]).unwrap();
    let t = boxed.respondents.iter().position(|r| r.key == public_of(&b)).unwrap();
    boxed.respondents[t].nonce[0] ^= 0x01;
    assert_eq!(boxed.content(&b).unwrap_err(), Error::CryptoFailure);
    assert_eq!(read_string(&boxed.content(&a).unwrap()), "Hello, world!");
}

#[test]
fn two_encodings_differ() {
    let sender: [u8; 32] = rand_buf();
    let a: [u8; 32] = rand_buf();
    let rs = vec![public_of(&a)];
    let x = ContentBox::encode(&hello(), &sender, &rs).unwrap();
    let y = ContentBox::encode(&hello(), &sender, &rs).unwrap();
    assert_ne!(x.content, y.content);
    assert_ne!(x.nonce, y.nonce);
    assert_ne!(x.respondents[0].nonce, y.respondents[0].nonce);
    assert_ne!(x.respondents[0].wrapped, y.respondents[0].wrapped);
}

#[test]
fn fixed_randomness_gives_fixed_envelope() {
    let sender = [1u8; 32];
    let a = [2u8; 32];
    let rs = vec![public_of(&a)];
    let key = [3u8; 32];
    let nonce = [4u8; 12];
    let nonces = vec![[5u8; 12]];
    let x = ContentBox::encode_with(&hello(), &sender, &rs, &key, &nonce, &nonces).unwrap();
    let y = ContentBox::encode_with(&hello(), &sender, &rs, &key, &nonce, &nonces).unwrap();
    assert_eq!(x.content, y.content);
    assert_eq!(x.respondents[0].wrapped, y.respondents[0].wrapped);
    assert_eq!(x.sender, public_of(&sender));
    assert_eq!(x.nonce, nonce);
    assert_eq!(x.respondents[0].nonce, [5u8; 12]);
    assert_eq!(x.content.len(), hello().len() + 16);
    assert_ne!(&x.content[..hello().len()], &hello()[..]);
    assert_eq!(x.respondents[0].wrapped.len(), 48);
    assert_ne!(&x.respondents[0].wrapped[..32], &key[..]);
    assert_eq!(read_string(&x.content(&a).unwrap()), "Hello, world!");
}

#[test]
fn duplicate_recipient_keeps_last_entry() {
    let sender: [u8; 32] = rand_buf();
    let a: [u8; 32] = rand_buf();
    let b: [u8; 32] = rand_buf();
    let rs = vec![public_of(&a), public_of(&b), public_of(&a)];
    let nonces = vec![[7u8; 12], [8u8; 12], [9u8; 12]];
    let boxed =
        ContentBox::encode_with(&hello(), &sender, &rs, &[6u8; 32], &[0u8; 12], &nonces).unwrap();
    assert_eq!(boxed.respondents.len(), 2);
    let t = boxed.respondents.iter().position(|r| r.key == public_of(&a)).unwrap();
    assert_eq!(boxed.respondents[t].nonce, [9u8; 12]);
    assert_eq!(read_string(&boxed.content(&a).unwrap()), "Hello, world!");
    assert_eq!(read_string(&boxed.content(&b).unwrap()), "Hello, world!");
}

#[test]
fn low_order_recipient_key_is_refused() {
    let sender: [u8; 32] = rand_buf();
    let a: [u8; 32] = rand_buf();
    let r = ContentBox::encode(&hello(), &sender, &vec![public_of(&a), [0u8; 32]]);
    assert_eq!(r.err(), Some(Error::KeyAgreementFailure));
}

#[test]
fn low_order_sender_key_is_refused_on_decode() {
    let sender: [u8; 32] = rand_buf();
    let a: [u8; 32] = rand_buf();
    let mut boxed = ContentBox::encode(&hello(), &sender, &vec![public_of(&a)]).unwrap();
    boxed.sender = [0u8; 32];
    assert_eq!(boxed.content(&a).unwrap_err(), Error::KeyAgreementFailure);
}

#[test]
fn message_seals_its_content() {
    let sender: [u8; 32] = rand_buf();
    let a: [u8; 32] = rand_buf();
    let m = Message::new(&hello(), &sender, &vec![public_of(&a)]).unwrap();
    assert_eq!(read_string(&m.content_box().content(&a).unwrap()), "Hello, world!");
}

#[test]
fn put_respondent_replaces_same_key() {
    let mut b = ContentBox { content: vec![], sender: [0u8; 32], nonce: [0u8; 12], respondents: vec![] };
    b.put_respondent(Respondent { key: [1u8; 32], nonce: [1u8; 12], wrapped: vec![1] });
    b.put_respondent(Respondent { key: [2u8; 32], nonce: [2u8; 12], wrapped: vec![2] });
    b.put_respondent(Respondent { key: [1u8; 32], nonce: [3u8; 12], wrapped: vec![3] });
    assert_eq!(b.respondents.len(), 2);
    assert_eq!(b.respondents[0].key, [1u8; 32]);
    assert_eq!(b.respondents[0].nonce, [3u8; 12]);
    assert_eq!(b.respondents[0].wrapped, vec![3]);
    assert_eq!(b.respondents[1].wrapped, vec![2]);
}
