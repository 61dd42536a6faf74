use vstd::prelude::*;
use vstd::utf8::{decode_utf8, valid_utf8};

use rand::{Rng, RngCore};
use rsa::{RsaPrivateKey, RsaPublicKey};

use crate::aes_framing::{
    aes_decrypt_spec, aes_encrypt_spec, decrypt_aes, encrypt_aes, strip_trailing_zeros, BLOCK_LEN,
};
use crate::lobby::{
    entries_plain, join_client_list, join_entries, law_split_join, split_client_list,
    split_entries, ENTRY_END,
};
use crate::rsa_keys::{
    decrypt_rsa, encrypt_rsa, parsed_public_key, public_key_from_pem, public_key_of,
    generated_key, key_size, pem_reads_back, public_key_to_pem, readable_generated_key, rsa_plaintext,
    PKCS1_PADDING_MIN,
};
use crate::text::{
    bytes_equal, challenge_reply_fields, challenge_reply_text, lemma_reply_bytes, parse_challenge_reply,
    str_from_utf8, write_challenge_reply,
};

verus! {

/// Where the server is in authenticating one client.
#[derive(Clone, Copy, PartialEq, Eq, Debug, Structural)]
pub enum ServerHandshakeStage {
    NotStarted,
    SentPublicKey,
    SentChallenge,
    Authenticated,
    FailedAuthentication,
}

/// Where a client is in being authenticated by the server.
#[derive(Clone, Copy, PartialEq, Eq, Debug, Structural)]
pub enum ClientHandshakeStage {
    NotStarted,
    RequestedPublicKey,
    SharedSessionKey,
    RespondedToChallenge,
    Authenticated,
    FailedAuthentication,
}

/// The three-letter tag at the head of every datagram of the lobby protocol.
#[derive(Clone, Copy, PartialEq, Eq, Debug, Structural)]
pub enum Tag {
    /// "PKR": a client asks for the server's public key.
    PublicKeyRequest,
    /// "SSK": a client sends its session key, encrypted with the server's public key.
    SharedSessionKey,
    /// "CAC": a client answers the challenge.
    ClientAttemptedChallenge,
    /// "CGM": a game message from a client.
    ClientGameMessage,
    /// "MPK": the server sends its public key.
    MyPublicKey,
    /// "SCC": the server sends a challenge.
    SentClientChallenge,
    /// "CCR": the server tells whether the challenge was met.
    ClientChallengeResult,
    /// "SGM": a game message from the server.
    ServerGameMessage,
    /// "STG": the server starts the game.
    StartGame,
    /// "SLM": the server sends the list of players in the lobby.
    ServerLobbyMessage,
}

/// Why a datagram stops the handshake (the peer sent something that it cannot go on with).
#[derive(Clone, Copy, PartialEq, Eq, Debug, Structural)]
pub enum HandshakeError {
    /// The first three bytes are not UTF-8 text.
    TagNotText,
    /// The datagram is shorter than its tag.
    ShortDatagram,
    /// The server's public key could not be written as PEM.
    PublicKeyUnavailable,
    /// The session key did not decrypt with the server's private key.
    SessionKeyUndecryptable,
    /// The challenge answer is not UTF-8 text.
    ReplyNotText,
    /// The challenge answer is not JSON with a "nonce" and a "timestamp" number.
    ReplyNotJson,
    /// The server's public key is not UTF-8 text.
    PublicKeyNotText,
    /// The session key could not be encrypted with the server's public key.
    SessionKeyNotEncrypted,
    /// The challenge does not decrypt to eight bytes.
    ChallengeNotEightBytes,
    /// The challenge is the largest number, which has no successor.
    ChallengeTooLarge,
    /// The verdict or the player list is not UTF-8 text.
    ServerTextNotText,
}

/// The three ASCII letters of a tag.
pub open spec fn tag_text(t: Tag) -> Seq<u8> {
    match t {
        Tag::PublicKeyRequest => seq![80u8, 75u8, 82u8],
        Tag::SharedSessionKey => seq![83u8, 83u8, 75u8],
        Tag::ClientAttemptedChallenge => seq![67u8, 65u8, 67u8],
        Tag::ClientGameMessage => seq![67u8, 71u8, 77u8],
        Tag::MyPublicKey => seq![77u8, 80u8, 75u8],
        Tag::SentClientChallenge => seq![83u8, 67u8, 67u8],
        Tag::ClientChallengeResult => seq![67u8, 67u8, 82u8],
        Tag::ServerGameMessage => seq![83u8, 71u8, 77u8],
        Tag::StartGame => seq![83u8, 84u8, 71u8],
        Tag::ServerLobbyMessage => seq![83u8, 76u8, 77u8],
    }
}

/// The bytes of a tag.
pub fn tag_bytes(t: Tag) -> (b: Vec<u8>)
    ensures
        b@ == tag_text(t),
{
    let (x, y, z): (u8, u8, u8) = match t {
        Tag::PublicKeyRequest => (80, 75, 82),
        Tag::SharedSessionKey => (83, 83, 75),
        Tag::ClientAttemptedChallenge => (67, 65, 67),
        Tag::ClientGameMessage => (67, 71, 77),
        Tag::MyPublicKey => (77, 80, 75),
        Tag::SentClientChallenge => (83, 67, 67),
        Tag::ClientChallengeResult => (67, 67, 82),
        Tag::ServerGameMessage => (83, 71, 77),
        Tag::StartGame => (83, 84, 71),
        Tag::ServerLobbyMessage => (83, 76, 77),
    };
    let mut b: Vec<u8> = Vec::new();
    b.push(x);
    b.push(y);
    b.push(z);
    assert(b@ =~= tag_text(t));
    b
}

/// The first three bytes of a datagram as they sit in the zeroed receive buffer.
pub open spec fn datagram_head(d: Seq<u8>) -> Seq<u8> {
    Seq::new(3, |i: int| if i < d.len() { d[i] } else { 0u8 })
}

/// The tag whose text is `head`, if any.
pub open spec fn tag_of(head: Seq<u8>) -> Option<Tag> {
    if head == tag_text(Tag::PublicKeyRequest) {
        Some(Tag::PublicKeyRequest)
    } else if head == tag_text(Tag::SharedSessionKey) {
        Some(Tag::SharedSessionKey)
    } else if head == tag_text(Tag::ClientAttemptedChallenge) {
        Some(Tag::ClientAttemptedChallenge)
    } else if head == tag_text(Tag::ClientGameMessage) {
        Some(Tag::ClientGameMessage)
    } else if head == tag_text(Tag::MyPublicKey) {
        Some(Tag::MyPublicKey)
    } else if head == tag_text(Tag::SentClientChallenge) {
        Some(Tag::SentClientChallenge)
    } else if head == tag_text(Tag::ClientChallengeResult) {
        Some(Tag::ClientChallengeResult)
    } else if head == tag_text(Tag::ServerGameMessage) {
        Some(Tag::ServerGameMessage)
    } else if head == tag_text(Tag::StartGame) {
        Some(Tag::StartGame)
    } else if head == tag_text(Tag::ServerLobbyMessage) {
        Some(Tag::ServerLobbyMessage)
    } else {
        None
    }
}

/// Reads the tag of a datagram; `Ok(None)` for a head that is text but no tag.
pub fn read_tag(datagram: &[u8]) -> (res: Result<Option<Tag>, HandshakeError>)
    ensures
        !valid_utf8(datagram_head(datagram@)) ==> res == Err::<Option<Tag>, HandshakeError>(
            HandshakeError::TagNotText,
        ),
        valid_utf8(datagram_head(datagram@)) ==> res == Ok::<Option<Tag>, HandshakeError>(
            tag_of(datagram_head(datagram@)),
        ),
{
    let mut head: Vec<u8> = Vec::new();
    let mut i: usize = 0;
    while i < 3
        invariant
            i <= 3,
            head@.len() == i,
            forall|j: int| 0 <= j < i ==> #[trigger] head@[j] == datagram_head(datagram@)[j],
        decreases 3 - i,
    {
        if i < datagram.len() {
            head.push(datagram[i]);
        } else {
            head.push(0);
        }
        i = i + 1;
    }
    assert(head@ =~= datagram_head(datagram@));
    if str_from_utf8(head.as_slice()).is_none() {
        return Err(HandshakeError::TagNotText);
    }
    if bytes_equal(head.as_slice(), tag_bytes(Tag::PublicKeyRequest).as_slice()) {
        Ok(Some(Tag::PublicKeyRequest))
    } else if bytes_equal(head.as_slice(), tag_bytes(Tag::SharedSessionKey).as_slice()) {
        Ok(Some(Tag::SharedSessionKey))
    } else if bytes_equal(head.as_slice(), tag_bytes(Tag::ClientAttemptedChallenge).as_slice()) {
        Ok(Some(Tag::ClientAttemptedChallenge))
    } else if bytes_equal(head.as_slice(), tag_bytes(Tag::ClientGameMessage).as_slice()) {
        Ok(Some(Tag::ClientGameMessage))
    } else if bytes_equal(head.as_slice(), tag_bytes(Tag::MyPublicKey).as_slice()) {
        Ok(Some(Tag::MyPublicKey))
    } else if bytes_equal(head.as_slice(), tag_bytes(Tag::SentClientChallenge).as_slice()) {
        Ok(Some(Tag::SentClientChallenge))
    } else if bytes_equal(head.as_slice(), tag_bytes(Tag::ClientChallengeResult).as_slice()) {
        Ok(Some(Tag::ClientChallengeResult))
    } else if bytes_equal(head.as_slice(), tag_bytes(Tag::ServerGameMessage).as_slice()) {
        Ok(Some(Tag::ServerGameMessage))
    } else if bytes_equal(head.as_slice(), tag_bytes(Tag::StartGame).as_slice()) {
        Ok(Some(Tag::StartGame))
    } else if bytes_equal(head.as_slice(), tag_bytes(Tag::ServerLobbyMessage).as_slice()) {
        Ok(Some(Tag::ServerLobbyMessage))
    } else {
        Ok(None)
    }
}

/// The bytes of `d` from index `start` on.
fn copy_from(d: &[u8], start: usize) -> (out: Vec<u8>)
    requires
        start <= d@.len(),
    ensures
        out@ == d@.subrange(start as int, d@.len() as int),
{
    let mut out: Vec<u8> = Vec::new();
    let mut i: usize = start;
    while i < d.len()
        invariant
            start <= i <= d@.len(),
            out@ == d@.subrange(start as int, i as int),
        decreases d@.len() - i,
    {
        out.push(d[i]);
        i = i + 1;
        assert(out@ =~= d@.subrange(start as int, i as int));
    }
    out
}

/// `a` followed by `b`.
fn concat(a: &[u8], b: &[u8]) -> (out: Vec<u8>)
    ensures
        out@ == a@ + b@,
{
    let mut out: Vec<u8> = Vec::new();
    let mut i: usize = 0;
    while i < a.len()
        invariant
            i <= a@.len(),
            out@ == a@.subrange(0, i as int),
        decreases a@.len() - i,
    {
        out.push(a[i]);
        i = i + 1;
        assert(out@ =~= a@.subrange(0, i as int));
    }
    let mut j: usize = 0;
    while j < b.len()
        invariant
            j <= b@.len(),
            out@ == a@ + b@.subrange(0, j as int),
        decreases b@.len() - j,
    {
        out.push(b[j]);
        j = j + 1;
        assert(out@ =~= a@ + b@.subrange(0, j as int));
    }
    assert(a@.subrange(0, a@.len() as int) =~= a@);
    assert(b@.subrange(0, b@.len() as int) =~= b@);
    out
}

/// The part of a datagram after its tag that the server reads: the rest of the datagram when
/// it is longer than its tag, else the whole datagram.
pub open spec fn server_payload(d: Seq<u8>) -> Seq<u8> {
    if d.len() > 3 {
        d.subrange(3, d.len() as int)
    } else {
        d
    }
}

/// The eight bytes of `v`, most significant first.
pub open spec fn be_bytes(v: u64) -> Seq<u8> {
    seq![
        (v >> 56u64) as u8,
        (v >> 48u64) as u8,
        (v >> 40u64) as u8,
        (v >> 32u64) as u8,
        (v >> 24u64) as u8,
        (v >> 16u64) as u8,
        (v >> 8u64) as u8,
        v as u8,
    ]
}

/// The number whose eight bytes, most significant first, are `b`.
pub open spec fn from_be_bytes(b: Seq<u8>) -> u64 {
    ((b[0] as u64) << 56u64) | ((b[1] as u64) << 48u64) | ((b[2] as u64) << 40u64) | ((
    b[3] as u64) << 32u64) | ((b[4] as u64) << 24u64) | ((b[5] as u64) << 16u64) | ((
    b[6] as u64) << 8u64) | (b[7] as u64)
}

/// Writes `v` as eight bytes, most significant first.
pub fn u64_to_be_bytes(v: u64) -> (b: Vec<u8>)
    ensures
        b@ == be_bytes(v),
{
    let mut b: Vec<u8> = Vec::new();
    b.push((v >> 56u64) as u8);
    b.push((v >> 48u64) as u8);
    b.push((v >> 40u64) as u8);
    b.push((v >> 32u64) as u8);
    b.push((v >> 24u64) as u8);
    b.push((v >> 16u64) as u8);
    b.push((v >> 8u64) as u8);
    b.push(v as u8);
    assert(b@ =~= be_bytes(v));
    b
}

/// Reads eight bytes, most significant first, as a number.
pub fn u64_from_be_bytes(b: &[u8]) -> (v: u64)
    requires
        b@.len() == 8,
    ensures
        v == from_be_bytes(b@),
{
    ((b[0] as u64) << 56u64) | ((b[1] as u64) << 48u64) | ((b[2] as u64) << 40u64) | ((
    b[3] as u64) << 32u64) | ((b[4] as u64) << 24u64) | ((b[5] as u64) << 16u64) | ((
    b[6] as u64) << 8u64) | (b[7] as u64)
}

/// Reading back the bytes of a number gives the number.
pub proof fn law_be_bytes_round_trip(v: u64)
    ensures
        from_be_bytes(be_bytes(v)) == v,
{
    let b0 = (v >> 56u64) as u8;
    let b1 = (v >> 48u64) as u8;
    let b2 = (v >> 40u64) as u8;
    let b3 = (v >> 32u64) as u8;
    let b4 = (v >> 24u64) as u8;
    let b5 = (v >> 16u64) as u8;
    let b6 = (v >> 8u64) as u8;
    let b7 = v as u8;
    assert(((b0 as u64) << 56u64) | ((b1 as u64) << 48u64) | ((b2 as u64) << 40u64) | ((
    b3 as u64) << 32u64) | ((b4 as u64) << 24u64) | ((b5 as u64) << 16u64) | ((b6 as u64)
        << 8u64) | (b7 as u64) == v) by (bit_vector)
        requires
            b0 == (v >> 56u64) as u8,
            b1 == (v >> 48u64) as u8,
            b2 == (v >> 40u64) as u8,
            b3 == (v >> 32u64) as u8,
            b4 == (v >> 24u64) as u8,
            b5 == (v >> 16u64) as u8,
            b6 == (v >> 8u64) as u8,
            b7 == v as u8,
    ;
}

/// "PASSED" or "FAILED".
pub open spec fn verdict_text(passed: bool) -> Seq<u8> {
    if passed {
        seq![80u8, 65u8, 83u8, 83u8, 69u8, 68u8]
    } else {
        seq![70u8, 65u8, 73u8, 76u8, 69u8, 68u8]
    }
}

fn verdict_bytes(passed: bool) -> (b: Vec<u8>)
    ensures
        b@ == verdict_text(passed),
{
    let mut b: Vec<u8> = Vec::new();
    if passed {
        b.push(80);
        b.push(65);
        b.push(83);
        b.push(83);
        b.push(69);
        b.push(68);
    } else {
        b.push(70);
        b.push(65);
        b.push(73);
        b.push(76);
        b.push(69);
        b.push(68);
    }
    assert(b@ =~= verdict_text(passed));
    b
}

/// A verdict has no zero byte to strip.
pub proof fn lemma_verdict_unpadded(passed: bool)
    ensures
        strip_trailing_zeros(verdict_text(passed)) == verdict_text(passed),
{
    assert(verdict_text(passed).last() != 0);
}

/// What the server keeps of one client that is not yet an authenticated player: its stage,
/// its session key and the challenge it was sent.
pub struct ClientRecord {
    pub stage: ServerHandshakeStage,
    pub key: Option<Vec<u8>>,
    pub challenge: Option<u64>,
}

/// The record of a client the server has not heard from.
pub open spec fn default_record() -> ClientRecord {
    ClientRecord { stage: ServerHandshakeStage::NotStarted, key: None, challenge: None }
}

/// What the server knows of a sender: its record, or that of a sender it has not heard from.
pub open spec fn record_or_default(r: Option<ClientRecord>) -> ClientRecord {
    match r {
        Some(c) => c,
        None => default_record(),
    }
}

/// A client that was sent a challenge, or passed it, has a 16-byte session key and a
/// challenge.
pub open spec fn record_wf(r: Option<ClientRecord>) -> bool {
    r matches Some(c) ==> ((c.stage == ServerHandshakeStage::SentChallenge || c.stage
        == ServerHandshakeStage::Authenticated) ==> {
        &&& c.key matches Some(k)
        &&& k@.len() == BLOCK_LEN
        &&& c.challenge is Some
    })
}

/// What the server does with a datagram of the handshake.
pub enum ServerReply {
    /// The sender is an authenticated player: the handshake leaves it alone.
    Ignored,
    /// Send these bytes back to the sender.
    Send(Vec<u8>),
    /// The session key did not decrypt to 16 bytes: nothing is sent and nothing changes.
    BadSessionKey,
    /// The challenge answer was checked: send `reply` back; when `passed`, the sender becomes
    /// a player.
    Verdict { reply: Vec<u8>, passed: bool },
    /// A game message from a client that passed the handshake.
    GameMessage,
    /// A datagram that does not fit the sender's stage.
    Unrecognized,
}

/// Draws the challenge for a client: `rand::thread_rng().gen::<u64>()`.
/// Trusted for nothing beyond its type: the number is random.
#[verifier::external_body]
fn random_challenge() -> u64 {
    rand::thread_rng().gen::<u64>()
}

/// Draws a session key: `fill_bytes` of `rand::thread_rng()` into 16 bytes.
/// Trusted: the key has 16 bytes.
#[verifier::external_body]
fn random_session_key() -> (key: Vec<u8>)
    ensures
        key@.len() == BLOCK_LEN,
{
    let mut key = [0u8; 16];
    rand::thread_rng().fill_bytes(&mut key);
    key.to_vec()
}

/// How the server's record of the sender changes with a datagram, and what it answers,
/// for a datagram from a sender that is not an authenticated player, whose tag is text.
pub open spec fn server_step_ok(
    old_record: Option<ClientRecord>,
    new_record: Option<ClientRecord>,
    datagram: Seq<u8>,
    private_key: RsaPrivateKey,
    public_key: RsaPublicKey,
    fresh_challenge: u64,
    res: Result<ServerReply, HandshakeError>,
) -> bool {
    let t = tag_of(datagram_head(datagram));
    let r = record_or_default(old_record);
    let payload = server_payload(datagram);
    if t == Some(Tag::PublicKeyRequest) && r.stage == ServerHandshakeStage::NotStarted {
        &&& readable_generated_key(public_key) ==> (res matches Ok(ServerReply::Send(_)))
        &&& match res {
            Ok(ServerReply::Send(m)) => {
                &&& m@.len() >= 3
                &&& m@.subrange(0, 3) == tag_text(Tag::MyPublicKey)
                &&& valid_utf8(m@.subrange(3, m@.len() as int))
                &&& pem_reads_back(decode_utf8(m@.subrange(3, m@.len() as int)), public_key)
                &&& new_record == Some(
                    ClientRecord { stage: ServerHandshakeStage::SentPublicKey, ..r },
                )
            },
            Err(e) => e == HandshakeError::PublicKeyUnavailable && new_record == Some(r),
            _ => false,
        }
    } else if t == Some(Tag::SharedSessionKey) && r.stage == ServerHandshakeStage::SentPublicKey {
        match rsa_plaintext(private_key, payload) {
            None => res == Err::<ServerReply, HandshakeError>(
                HandshakeError::SessionKeyUndecryptable,
            ) && new_record == Some(r),
            Some(session_key) => if session_key.len() != BLOCK_LEN {
                (res matches Ok(ServerReply::BadSessionKey)) && new_record == Some(r)
            } else {
                &&& res matches Ok(ServerReply::Send(m))
                &&& new_record matches Some(n)
                &&& n.stage == ServerHandshakeStage::SentChallenge
                &&& n.challenge == Some(fresh_challenge)
                &&& n.key matches Some(k)
                &&& k@ == session_key
                &&& m@ == tag_text(Tag::SentClientChallenge) + aes_encrypt_spec(
                    k@,
                    be_bytes(fresh_challenge),
                )
                &&& aes_decrypt_spec(k@, m@.subrange(3, m@.len() as int)) == strip_trailing_zeros(
                    be_bytes(fresh_challenge),
                )
            },
        }
    } else if t == Some(Tag::ClientAttemptedChallenge) && r.stage
        == ServerHandshakeStage::SentChallenge {
        let k = r.key->0;
        let c = r.challenge->0;
        let text = aes_decrypt_spec(k@, payload);
        if c == u64::MAX {
            res == Err::<ServerReply, HandshakeError>(HandshakeError::ChallengeTooLarge)
                && new_record == Some(r)
        } else if !valid_utf8(text) {
            res == Err::<ServerReply, HandshakeError>(HandshakeError::ReplyNotText) && new_record
                == Some(r)
        } else if challenge_reply_fields(decode_utf8(text)) is None {
            res == Err::<ServerReply, HandshakeError>(HandshakeError::ReplyNotJson) && new_record
                == Some(r)
        } else {
            let fields = challenge_reply_fields(decode_utf8(text))->0;
            let nonce = fields.0;
            let passed = nonce == c + 1;
            &&& res matches Ok(ServerReply::Verdict { reply, passed: p })
            &&& p == passed
            &&& reply@ == tag_text(Tag::ClientChallengeResult) + aes_encrypt_spec(
                k@,
                verdict_text(passed),
            )
            &&& aes_decrypt_spec(k@, reply@.subrange(3, reply@.len() as int)) == verdict_text(
                passed,
            )
            &&& new_record == if passed {
                Some(ClientRecord { stage: ServerHandshakeStage::Authenticated, ..r })
            } else {
                None
            }
        }
    } else if t == Some(Tag::ClientGameMessage) && r.stage == ServerHandshakeStage::Authenticated {
        (res matches Ok(ServerReply::GameMessage)) && new_record == Some(r)
    } else {
        (res matches Ok(ServerReply::Unrecognized)) && new_record == Some(r)
    }
}

/// Handles one datagram of the handshake on the server, with the challenge it hands out when
/// the sender's session key arrives.
///
/// `record` is what the server keeps of the sender, and `authenticated` whether the sender is
/// already a player. A public key request of a new client is answered with the public key; a
/// session key after that, with the challenge encrypted under the session key; an answer to
/// the challenge, with "PASSED" when it is the challenge plus one (and the sender becomes a
/// player) or else "FAILED" (and the server forgets the sender). An error is a datagram that
/// the server cannot go on with (an answer to the largest challenge is one: the challenge
/// has no successor).
pub fn server_handle_message_with_challenge(
    record: &mut Option<ClientRecord>,
    authenticated: bool,
    datagram: &[u8],
    private_key: &RsaPrivateKey,
    public_key: &RsaPublicKey,
    fresh_challenge: u64,
) -> (res: Result<ServerReply, HandshakeError>)
    requires
        record_wf(*old(record)),
    ensures
        record_wf(*final(record)),
        authenticated ==> (res matches Ok(ServerReply::Ignored)) && *final(record) == *old(record),
        !authenticated && !valid_utf8(datagram_head(datagram@)) ==> res
            == Err::<ServerReply, HandshakeError>(HandshakeError::TagNotText) && *final(record)
            == *old(record),
        !authenticated && valid_utf8(datagram_head(datagram@)) ==> server_step_ok(
            *old(record),
            *final(record),
            datagram@,
            *private_key,
            *public_key,
            fresh_challenge,
            res,
        ),
        (*final(record) matches Some(n) && n.stage == ServerHandshakeStage::Authenticated) ==> (
        record_or_default(*old(record)).stage == ServerHandshakeStage::Authenticated || (
        res matches Ok(ServerReply::Verdict { passed: true, .. }))),
{
    if authenticated {
        return Ok(ServerReply::Ignored);
    }
    let tag = read_tag(datagram)?;
    let payload = if datagram.len() > 3 {
        copy_from(datagram, 3)
    } else {
        copy_from(datagram, 0)
    };
    assert(payload@ =~= server_payload(datagram@));
    let rec = match record.take() {
        Some(r) => r,
        None => ClientRecord { stage: ServerHandshakeStage::NotStarted, key: None, challenge: None },
    };
    match (tag, rec.stage) {
        (Some(Tag::PublicKeyRequest), ServerHandshakeStage::NotStarted) => {
            match public_key_to_pem(public_key) {
                Ok(pem) => {
                    let head = tag_bytes(Tag::MyPublicKey);
                    let message = concat(head.as_slice(), pem.as_str().as_bytes());
                    proof {
                        assert(message@.subrange(0, 3) =~= tag_text(Tag::MyPublicKey));
                        assert(message@.subrange(3, message@.len() as int) =~= vstd::utf8::encode_utf8(pem@));
                        vstd::utf8::encode_utf8_valid_utf8(pem@);
                        vstd::utf8::encode_utf8_decode_utf8(pem@);
                    }
                    *record = Some(
                        ClientRecord {
                            stage: ServerHandshakeStage::SentPublicKey,
                            key: rec.key,
                            challenge: rec.challenge,
                        },
                    );
                    Ok(ServerReply::Send(message))
                },
                Err(_) => {
                    *record = Some(rec);
                    Err(HandshakeError::PublicKeyUnavailable)
                },
            }
        },
        (Some(Tag::SharedSessionKey), ServerHandshakeStage::SentPublicKey) => {
            match decrypt_rsa(private_key, payload.as_slice()) {
                Ok(key) => {
                    if key.len() != BLOCK_LEN {
                        *record = Some(rec);
                        return Ok(ServerReply::BadSessionKey);
                    }
                    let challenge_bytes = u64_to_be_bytes(fresh_challenge);
                    let ciphertext = encrypt_aes(key.as_slice(), challenge_bytes.as_slice());
                    let head = tag_bytes(Tag::SentClientChallenge);
                    let message = concat(head.as_slice(), ciphertext.as_slice());
                    assert(message@.subrange(3, message@.len() as int) =~= ciphertext@);
                    *record = Some(
                        ClientRecord {
                            stage: ServerHandshakeStage::SentChallenge,
                            key: Some(key),
                            challenge: Some(fresh_challenge),
                        },
                    );
                    Ok(ServerReply::Send(message))
                },
                Err(_) => {
                    *record = Some(rec);
                    Err(HandshakeError::SessionKeyUndecryptable)
                },
            }
        },
        (Some(Tag::ClientAttemptedChallenge), ServerHandshakeStage::SentChallenge) => {
            let expected = match rec.challenge {
                Some(c) => {
                    if c == u64::MAX {
                        *record = Some(rec);
                        return Err(HandshakeError::ChallengeTooLarge);
                    }
                    c + 1
                },
                None => {
                    *record = Some(rec);
                    return Ok(ServerReply::Unrecognized);
                },
            };
            let (text, verdict) = match &rec.key {
                Some(key) => {
                    let text = decrypt_aes(key.as_slice(), payload.as_slice());
                    let fields = match str_from_utf8(text.as_slice()) {
                        Some(s) => parse_challenge_reply(s),
                        None => {
                            *record = Some(rec);
                            return Err(HandshakeError::ReplyNotText);
                        },
                    };
                    let (nonce, _timestamp) = match fields {
                        Some(f) => f,
                        None => {
                            *record = Some(rec);
                            return Err(HandshakeError::ReplyNotJson);
                        },
                    };
                    let passed = nonce == expected;
                    let ciphertext = encrypt_aes(key.as_slice(), verdict_bytes(passed).as_slice());
                    let head = tag_bytes(Tag::ClientChallengeResult);
                    let message = concat(head.as_slice(), ciphertext.as_slice());
                    proof {
                        assert(message@.subrange(3, message@.len() as int) =~= ciphertext@);
                        lemma_verdict_unpadded(passed);
                    }
                    (message, passed)
                },
                None => {
                    *record = Some(rec);
                    return Ok(ServerReply::Unrecognized);
                },
            };
            if verdict {
                *record = Some(
                    ClientRecord {
                        stage: ServerHandshakeStage::Authenticated,
                        key: rec.key,
                        challenge: rec.challenge,
                    },
                );
            } else {
                *record = None;
            }
            Ok(ServerReply::Verdict { reply: text, passed: verdict })
        },
        (Some(Tag::ClientGameMessage), ServerHandshakeStage::Authenticated) => {
            *record = Some(rec);
            Ok(ServerReply::GameMessage)
        },
        _ => {
            *record = Some(rec);
            Ok(ServerReply::Unrecognized)
        },
    }
}

/// Handles one datagram of the handshake on the server, as
/// `server_handle_message_with_challenge` does with a challenge drawn at random.
pub fn server_handle_message(
    record: &mut Option<ClientRecord>,
    authenticated: bool,
    datagram: &[u8],
    private_key: &RsaPrivateKey,
    public_key: &RsaPublicKey,
) -> (res: Result<ServerReply, HandshakeError>)
    requires
        record_wf(*old(record)),
    ensures
        record_wf(*final(record)),
        authenticated ==> (res matches Ok(ServerReply::Ignored)) && *final(record) == *old(record),
        !authenticated && !valid_utf8(datagram_head(datagram@)) ==> res
            == Err::<ServerReply, HandshakeError>(HandshakeError::TagNotText) && *final(record)
            == *old(record),
        !authenticated && valid_utf8(datagram_head(datagram@)) ==> exists|c: u64|
            #[trigger] server_step_ok(
                *old(record),
                *final(record),
                datagram@,
                *private_key,
                *public_key,
                c,
                res,
            ),
{
    let challenge = random_challenge();
    let res = server_handle_message_with_challenge(
        record,
        authenticated,
        datagram,
        private_key,
        public_key,
        challenge,
    );
    proof {
        if !authenticated && valid_utf8(datagram_head(datagram@)) {
            assert(server_step_ok(
                *old(record),
                *final(record),
                datagram@,
                *private_key,
                *public_key,
                challenge,
                res,
            ));
        }
    }
    res
}

/// The lobby message for one player: "SLM" and the player list (each entry followed by
/// '$') encrypted under the player's session key. The player decrypts the list back.
pub fn lobby_message(key: &[u8], entries: &Vec<Vec<u8>>) -> (message: Vec<u8>)
    requires
        key@.len() == BLOCK_LEN,
    ensures
        message@ == tag_text(Tag::ServerLobbyMessage) + aes_encrypt_spec(
            key@,
            join_entries(entries@.map_values(|e: Vec<u8>| e@)),
        ),
        aes_decrypt_spec(key@, message@.subrange(3, message@.len() as int)) == join_entries(
            entries@.map_values(|e: Vec<u8>| e@),
        ),
{
    let joined = join_client_list(entries);
    let ciphertext = encrypt_aes(key, joined.as_slice());
    let head = tag_bytes(Tag::ServerLobbyMessage);
    let message = concat(head.as_slice(), ciphertext.as_slice());
    proof {
        assert(message@.subrange(3, message@.len() as int) =~= ciphertext@);
        let list = entries@.map_values(|e: Vec<u8>| e@);
        if list.len() > 0 {
            assert(joined@.last() == ENTRY_END);
        }
        assert(strip_trailing_zeros(joined@) == joined@);
    }
    message
}

/// The signal that starts the game: "STG".
pub fn start_game_message() -> (message: Vec<u8>)
    ensures
        message@ == tag_text(Tag::StartGame),
{
    tag_bytes(Tag::StartGame)
}

/// What a client keeps of its handshake with the server.
pub struct ClientSession {
    pub stage: ClientHandshakeStage,
    pub server_public_key: Option<RsaPublicKey>,
    pub aes_key: Option<Vec<u8>>,
}

/// A client that shared its session key has a 16-byte key.
pub open spec fn session_wf(s: ClientSession) -> bool {
    (s.stage == ClientHandshakeStage::SharedSessionKey || s.stage
        == ClientHandshakeStage::RespondedToChallenge || s.stage
        == ClientHandshakeStage::Authenticated) ==> {
        &&& s.aes_key matches Some(k)
        &&& k@.len() == BLOCK_LEN
    }
}

/// What a client does with a datagram from the server.
pub enum ClientReply {
    /// Send these bytes to the server.
    Send(Vec<u8>),
    /// The server's public key did not parse: nothing changes.
    BadPublicKey,
    /// The server's verdict on the challenge answer.
    Verdict(bool),
    /// A game message from the server.
    GameMessage,
    /// The server starts the game.
    StartGame,
    /// The entries of the player list.
    ClientList(Vec<Vec<u8>>),
    /// A datagram that does not fit the client's stage.
    Unknown,
}

/// How a client's session changes with a datagram whose tag is text, and what it does.
pub open spec fn client_step_ok(
    old_session: ClientSession,
    new_session: ClientSession,
    datagram: Seq<u8>,
    fresh_key: Seq<u8>,
    now: u64,
    res: Result<ClientReply, HandshakeError>,
) -> bool {
    let t = tag_of(datagram_head(datagram));
    let st = old_session.stage;
    if datagram.len() < 3 {
        res == Err::<ClientReply, HandshakeError>(HandshakeError::ShortDatagram) && new_session
            == old_session
    } else {
        let data = datagram.subrange(3, datagram.len() as int);
        if st == ClientHandshakeStage::RequestedPublicKey && t == Some(Tag::MyPublicKey) {
            if !valid_utf8(data) {
                res == Err::<ClientReply, HandshakeError>(HandshakeError::PublicKeyNotText)
                    && new_session == old_session
            } else {
                match parsed_public_key(decode_utf8(data)) {
                    None => (res matches Ok(ClientReply::BadPublicKey)) && new_session
                        == old_session,
                    Some(server_key) => {
                        &&& new_session.server_public_key == Some(server_key)
                        &&& new_session.aes_key matches Some(k)
                        &&& k@ == fresh_key
                        &&& forall|s: RsaPrivateKey|
                            generated_key(s) && #[trigger] public_key_of(s) == server_key ==> ((res is Ok)
                                == (fresh_key.len() + PKCS1_PADDING_MIN <= key_size(server_key)))
                        &&& match res {
                            Ok(ClientReply::Send(m)) => {
                                &&& new_session.stage == ClientHandshakeStage::SharedSessionKey
                                &&& m@.len() >= 3 + fresh_key.len() + PKCS1_PADDING_MIN
                                &&& m@.subrange(0, 3) == tag_text(Tag::SharedSessionKey)
                                &&& forall|s: RsaPrivateKey|
                                    generated_key(s) && public_key_of(s) == server_key
                                        ==> #[trigger] rsa_plaintext(
                                        s,
                                        m@.subrange(3, m@.len() as int),
                                    ) == Some(fresh_key)
                            },
                            Err(e) => e == HandshakeError::SessionKeyNotEncrypted
                                && new_session.stage == old_session.stage,
                            _ => false,
                        }
                    },
                }
            }
        } else if st == ClientHandshakeStage::SharedSessionKey && t == Some(
            Tag::SentClientChallenge,
        ) {
            let k = old_session.aes_key->0;
            let challenge = aes_decrypt_spec(k@, data);
            if challenge.len() != 8 {
                res == Err::<ClientReply, HandshakeError>(HandshakeError::ChallengeNotEightBytes)
                    && new_session == old_session
            } else if from_be_bytes(challenge) == u64::MAX {
                res == Err::<ClientReply, HandshakeError>(HandshakeError::ChallengeTooLarge)
                    && new_session == old_session
            } else {
                let answer = (from_be_bytes(challenge) + 1) as u64;
                &&& res matches Ok(ClientReply::Send(m))
                &&& m@ == tag_text(Tag::ClientAttemptedChallenge) + aes_encrypt_spec(
                    k@,
                    vstd::utf8::encode_utf8(challenge_reply_text(answer, now)),
                )
                &&& aes_decrypt_spec(k@, m@.subrange(3, m@.len() as int)) == strip_trailing_zeros(
                    vstd::utf8::encode_utf8(challenge_reply_text(answer, now)),
                )
                &&& challenge_reply_fields(challenge_reply_text(answer, now)) == Some((answer, now))
                &&& m@.len() > 3
                &&& new_session == ClientSession {
                    stage: ClientHandshakeStage::RespondedToChallenge,
                    ..old_session
                }
            }
        } else if st == ClientHandshakeStage::RespondedToChallenge && t == Some(
            Tag::ClientChallengeResult,
        ) {
            let k = old_session.aes_key->0;
            let text = aes_decrypt_spec(k@, data);
            if !valid_utf8(text) {
                res == Err::<ClientReply, HandshakeError>(HandshakeError::ServerTextNotText)
                    && new_session == old_session
            } else {
                let passed = text == verdict_text(true);
                &&& res == Ok::<ClientReply, HandshakeError>(ClientReply::Verdict(passed))
                &&& new_session == ClientSession {
                    stage: if passed {
                        ClientHandshakeStage::Authenticated
                    } else {
                        ClientHandshakeStage::FailedAuthentication
                    },
                    ..old_session
                }
            }
        } else if st == ClientHandshakeStage::Authenticated && t == Some(Tag::ServerGameMessage) {
            (res matches Ok(ClientReply::GameMessage)) && new_session == old_session
        } else if st == ClientHandshakeStage::Authenticated && t == Some(Tag::StartGame) {
            (res matches Ok(ClientReply::StartGame)) && new_session == old_session
        } else if st == ClientHandshakeStage::Authenticated && t == Some(Tag::ServerLobbyMessage) {
            let k = old_session.aes_key->0;
            let text = aes_decrypt_spec(k@, data);
            if !valid_utf8(text) {
                res == Err::<ClientReply, HandshakeError>(HandshakeError::ServerTextNotText)
                    && new_session == old_session
            } else {
                &&& res matches Ok(ClientReply::ClientList(es))
                &&& es@.map_values(|e: Vec<u8>| e@) == split_entries(text)
                &&& new_session == old_session
            }
        } else {
            (res matches Ok(ClientReply::Unknown)) && new_session == old_session
        }
    }
}

/// Handles one datagram from the server on a client, with the session key it shares when
/// the server's public key arrives and the time (in seconds since the Unix epoch) that it
/// puts in its challenge answer.
///
/// The server's public key is answered with the session key encrypted under it; the
/// challenge, with the challenge plus one (and the time) as JSON encrypted under the session
/// key; the verdict moves the client to `Authenticated` when it reads "PASSED", else to
/// `FailedAuthentication`. An authenticated client reads the start signal and the player
/// list. An error is a datagram that the client cannot go on with.
pub fn client_handle_message_with_key(
    session: &mut ClientSession,
    datagram: &[u8],
    fresh_key: &[u8],
    now: u64,
) -> (res: Result<ClientReply, HandshakeError>)
    requires
        session_wf(*old(session)),
        fresh_key@.len() == BLOCK_LEN,
    ensures
        session_wf(*final(session)),
        !valid_utf8(datagram_head(datagram@)) ==> res == Err::<ClientReply, HandshakeError>(
            HandshakeError::TagNotText,
        ) && *final(session) == *old(session),
        valid_utf8(datagram_head(datagram@)) ==> client_step_ok(
            *old(session),
            *final(session),
            datagram@,
            fresh_key@,
            now,
            res,
        ),
        final(session).stage == ClientHandshakeStage::Authenticated ==> old(session).stage
            == ClientHandshakeStage::Authenticated || res == Ok::<ClientReply, HandshakeError>(
            ClientReply::Verdict(true),
        ),
{
    let tag = read_tag(datagram)?;
    if datagram.len() < 3 {
        return Err(HandshakeError::ShortDatagram);
    }
    let data = copy_from(datagram, 3);
    match (session.stage, tag) {
        (ClientHandshakeStage::RequestedPublicKey, Some(Tag::MyPublicKey)) => {
            let text = match str_from_utf8(data.as_slice()) {
                Some(t) => t,
                None => return Err(HandshakeError::PublicKeyNotText),
            };
            let public_key = match public_key_from_pem(text) {
                Ok(k) => k,
                Err(_) => return Ok(ClientReply::BadPublicKey),
            };
            session.server_public_key = Some(public_key);
            let key_copy = copy_from(fresh_key, 0);
            assert(key_copy@ =~= fresh_key@);
            session.aes_key = Some(key_copy);
            let encrypted = match &session.server_public_key {
                Some(k) => encrypt_rsa(k, fresh_key),
                None => return Ok(ClientReply::BadPublicKey),
            };
            match encrypted {
                Ok(e) => {
                    let head = tag_bytes(Tag::SharedSessionKey);
                    let message = concat(head.as_slice(), e.as_slice());
                    assert(message@.subrange(0, 3) =~= tag_text(Tag::SharedSessionKey));
                    assert(message@.subrange(3, message@.len() as int) =~= e@);
                    session.stage = ClientHandshakeStage::SharedSessionKey;
                    Ok(ClientReply::Send(message))
                },
                Err(_) => {
                    Err(HandshakeError::SessionKeyNotEncrypted)
                },
            }
        },
        (ClientHandshakeStage::SharedSessionKey, Some(Tag::SentClientChallenge)) => {
            let message = match &session.aes_key {
                Some(key) => {
                    let challenge = decrypt_aes(key.as_slice(), data.as_slice());
                    if challenge.len() != 8 {
                        return Err(HandshakeError::ChallengeNotEightBytes);
                    }
                    let nonce = u64_from_be_bytes(challenge.as_slice());
                    if nonce == u64::MAX {
                        return Err(HandshakeError::ChallengeTooLarge);
                    }
                    let reply = write_challenge_reply(nonce + 1, now);
                    let ciphertext = encrypt_aes(key.as_slice(), reply.as_str().as_bytes());
                    let head = tag_bytes(Tag::ClientAttemptedChallenge);
                    let message = concat(head.as_slice(), ciphertext.as_slice());
                    proof {
                        assert(message@.subrange(3, message@.len() as int) =~= ciphertext@);
                        lemma_reply_bytes((nonce + 1) as u64, now);
                    }
                    message
                },
                None => return Ok(ClientReply::Unknown),
            };
            session.stage = ClientHandshakeStage::RespondedToChallenge;
            Ok(ClientReply::Send(message))
        },
        (ClientHandshakeStage::RespondedToChallenge, Some(Tag::ClientChallengeResult)) => {
            let passed = match &session.aes_key {
                Some(key) => {
                    let text = decrypt_aes(key.as_slice(), data.as_slice());
                    if str_from_utf8(text.as_slice()).is_none() {
                        return Err(HandshakeError::ServerTextNotText);
                    }
                    bytes_equal(text.as_slice(), verdict_bytes(true).as_slice())
                },
                None => return Ok(ClientReply::Unknown),
            };
            session.stage = if passed {
                ClientHandshakeStage::Authenticated
            } else {
                ClientHandshakeStage::FailedAuthentication
            };
            Ok(ClientReply::Verdict(passed))
        },
        (ClientHandshakeStage::Authenticated, Some(Tag::ServerGameMessage)) => {
            Ok(ClientReply::GameMessage)
        },
        (ClientHandshakeStage::Authenticated, Some(Tag::StartGame)) => Ok(ClientReply::StartGame),
        (ClientHandshakeStage::Authenticated, Some(Tag::ServerLobbyMessage)) => {
            match &session.aes_key {
                Some(key) => {
                    let text = decrypt_aes(key.as_slice(), data.as_slice());
                    if str_from_utf8(text.as_slice()).is_none() {
                        return Err(HandshakeError::ServerTextNotText);
                    }
                    Ok(ClientReply::ClientList(split_client_list(text.as_slice())))
                },
                None => Ok(ClientReply::Unknown),
            }
        },
        _ => Ok(ClientReply::Unknown),
    }
}

/// Handles one datagram from the server on a client, as `client_handle_message_with_key`
/// does with a session key drawn at random.
pub fn client_handle_message(session: &mut ClientSession, datagram: &[u8], now: u64) -> (res:
    Result<ClientReply, HandshakeError>)
    requires
        session_wf(*old(session)),
    ensures
        session_wf(*final(session)),
        !valid_utf8(datagram_head(datagram@)) ==> res == Err::<ClientReply, HandshakeError>(
            HandshakeError::TagNotText,
        ) && *final(session) == *old(session),
        valid_utf8(datagram_head(datagram@)) ==> exists|k: Seq<u8>|
            k.len() == BLOCK_LEN && #[trigger] client_step_ok(
                *old(session),
                *final(session),
                datagram@,
                k,
                now,
                res,
            ),
{
    let key = random_session_key();
    let res = client_handle_message_with_key(session, datagram, key.as_slice(), now);
    proof {
        if valid_utf8(datagram_head(datagram@)) {
            assert(client_step_ok(*old(session), *final(session), datagram@, key@, now, res));
        }
    }
    res
}

/// Bytes below 128 are well-formed UTF-8.
pub proof fn lemma_ascii_valid_utf8(s: Seq<u8>)
    requires
        forall|i: int| 0 <= i < s.len() ==> #[trigger] s[i] < 128,
    ensures
        valid_utf8(s),
    decreases s.len(),
{
    if s.len() > 0 {
        let rest = s.subrange(1, s.len() as int);
        assert forall|i: int| 0 <= i < rest.len() implies #[trigger] rest[i] < 128 by {
            assert(rest[i] == s[i + 1]);
        }
        lemma_ascii_valid_utf8(rest);
        assert(vstd::utf8::pop_first_scalar(s) =~= rest);
    }
}

/// A client reads a verdict message the way the server meant it: the verdict is text, and it
/// is "PASSED" exactly when the server passed the client.
pub proof fn law_client_reads_verdict(passed: bool)
    ensures
        valid_utf8(verdict_text(passed)),
        (verdict_text(passed) == verdict_text(true)) == passed,
{
    lemma_ascii_valid_utf8(verdict_text(passed));
    if !passed {
        assert(verdict_text(false)[0] != verdict_text(true)[0]);
    }
}

/// Stripping trailing zero bytes never lengthens a byte string.
pub proof fn lemma_strip_len(s: Seq<u8>)
    ensures
        strip_trailing_zeros(s).len() <= s.len(),
    decreases s.len(),
{
    if s.len() > 0 && s.last() == 0 {
        lemma_strip_len(s.drop_last());
    }
}

/// A client can read its challenge back exactly when the challenge's lowest byte is not
/// zero: the zero padding that the AES framing strips off takes trailing zero bytes of the
/// challenge with it. When it can, it reads the server's challenge.
pub proof fn law_challenge_readable(c: u64)
    ensures
        (strip_trailing_zeros(be_bytes(c)).len() == 8) == (c as u8 != 0),
        c as u8 != 0 ==> from_be_bytes(strip_trailing_zeros(be_bytes(c))) == c,
{
    let b = be_bytes(c);
    if c as u8 != 0 {
        assert(b.last() == c as u8);
        law_be_bytes_round_trip(c);
    } else {
        assert(b.last() == 0);
        lemma_strip_len(b.drop_last());
    }
}

/// The bytes that a server's answer sends back, if it sends any.
pub open spec fn server_sent(res: Result<ServerReply, HandshakeError>) -> Seq<u8> {
    match res {
        Ok(ServerReply::Send(m)) => m@,
        Ok(ServerReply::Verdict { reply, .. }) => reply@,
        _ => Seq::empty(),
    }
}

/// The bytes that a client's answer sends to the server, if it sends any.
pub open spec fn client_sent(res: Result<ClientReply, HandshakeError>) -> Seq<u8> {
    match res {
        Ok(ClientReply::Send(m)) => m@,
        _ => Seq::empty(),
    }
}

proof fn lemma_head_of_tagged(t: Tag, rest: Seq<u8>)
    ensures
        datagram_head(tag_text(t) + rest) == tag_text(t),
        tag_of(datagram_head(tag_text(t) + rest)) == Some(t),
        (tag_text(t) + rest).len() >= 3,
        (tag_text(t) + rest).subrange(3, (tag_text(t) + rest).len() as int) == rest,
{
    assert(datagram_head(tag_text(t) + rest) =~= tag_text(t));
    assert((tag_text(t) + rest).subrange(3, (tag_text(t) + rest).len() as int) =~= rest);
}

/// A client that shares its session key with the server and answers the server's challenge
/// as the protocol says is let in: the server passes it and the client reads "PASSED". This
/// holds whenever the challenge has a successor and its lowest byte is not zero (otherwise
/// the framing's zero stripping shortens it; see `law_challenge_readable`).
pub proof fn law_honest_client_is_authenticated(
    private_key: RsaPrivateKey,
    public_key: RsaPublicKey,
    rec0: Option<ClientRecord>,
    rec1: Option<ClientRecord>,
    session_key_datagram: Seq<u8>,
    challenge: u64,
    res1: Result<ServerReply, HandshakeError>,
    s1: ClientSession,
    s2: ClientSession,
    fresh_key: Seq<u8>,
    now: u64,
    res2: Result<ClientReply, HandshakeError>,
    rec2: Option<ClientRecord>,
    later_challenge: u64,
    res3: Result<ServerReply, HandshakeError>,
    s3: ClientSession,
    res4: Result<ClientReply, HandshakeError>,
)
    requires
        record_or_default(rec0).stage == ServerHandshakeStage::SentPublicKey,
        tag_of(datagram_head(session_key_datagram)) == Some(Tag::SharedSessionKey),
        server_step_ok(rec0, rec1, session_key_datagram, private_key, public_key, challenge, res1),
        res1 matches Ok(ServerReply::Send(_)),
        s1.stage == ClientHandshakeStage::SharedSessionKey,
        s1.aes_key is Some,
        s1.aes_key->0@ == record_or_default(rec1).key->0@,
        client_step_ok(s1, s2, server_sent(res1), fresh_key, now, res2),
        server_step_ok(rec1, rec2, client_sent(res2), private_key, public_key, later_challenge, res3),
        client_step_ok(s2, s3, server_sent(res3), fresh_key, now, res4),
        challenge as u8 != 0,
        challenge != u64::MAX,
    ensures
        res2 matches Ok(ClientReply::Send(_)),
        res3 matches Ok(ServerReply::Verdict { passed: true, .. }),
        rec2 matches Some(r) && r.stage == ServerHandshakeStage::Authenticated,
        res4 == Ok::<ClientReply, HandshakeError>(ClientReply::Verdict(true)),
        s3.stage == ClientHandshakeStage::Authenticated,
{
    let r1 = record_or_default(rec1);
    let k = r1.key->0@;
    let c = challenge;
    // The challenge the server sends, and what the client reads of it.
    let scc = server_sent(res1);
    let enc_c = aes_encrypt_spec(k, be_bytes(c));
    assert(scc == tag_text(Tag::SentClientChallenge) + enc_c);
    lemma_head_of_tagged(Tag::SentClientChallenge, enc_c);
    law_challenge_readable(c);
    assert(aes_decrypt_spec(k, scc.subrange(3, scc.len() as int)) == strip_trailing_zeros(be_bytes(c)));
    let answer = (c + 1) as u64;
    // The answer the client sends, and what the server reads of it.
    let text = challenge_reply_text(answer, now);
    let bytes = vstd::utf8::encode_utf8(text);
    lemma_reply_bytes(answer, now);
    let cac = client_sent(res2);
    let enc_a = aes_encrypt_spec(k, bytes);
    assert(cac == tag_text(Tag::ClientAttemptedChallenge) + enc_a);
    lemma_head_of_tagged(Tag::ClientAttemptedChallenge, enc_a);
    assert(server_payload(cac) == enc_a);
    assert(aes_decrypt_spec(k, enc_a) == bytes);
    assert(challenge_reply_fields(vstd::utf8::decode_utf8(bytes)) == Some((answer, now)));
    // The verdict the server sends, and what the client reads of it.
    let ccr = server_sent(res3);
    let enc_v = aes_encrypt_spec(k, verdict_text(true));
    assert(ccr == tag_text(Tag::ClientChallengeResult) + enc_v);
    lemma_head_of_tagged(Tag::ClientChallengeResult, enc_v);
    law_client_reads_verdict(true);
}

/// The key exchange shares the client's session key with the server: when the server's
/// key pair was made by the generator (of at most 4096 bits), a client that asked for the
/// public key reads it from the server's answer, and the server decrypts the client's session
/// key message to the client's fresh key, keeps it and sends its challenge, whenever the key
/// is large enough to carry a session key under PKCS#1 v1.5 padding.
pub proof fn law_key_exchange_shares_key(
    private_key: RsaPrivateKey,
    public_key: RsaPublicKey,
    rec0: Option<ClientRecord>,
    rec1: Option<ClientRecord>,
    key_request: Seq<u8>,
    res1: Result<ServerReply, HandshakeError>,
    s0: ClientSession,
    s1: ClientSession,
    fresh_key: Seq<u8>,
    now: u64,
    res2: Result<ClientReply, HandshakeError>,
    rec2: Option<ClientRecord>,
    challenge: u64,
    res3: Result<ServerReply, HandshakeError>,
)
    requires
        generated_key(private_key),
        public_key == public_key_of(private_key),
        crate::rsa_keys::modulus_bits(public_key) <= 4096,
        BLOCK_LEN + PKCS1_PADDING_MIN <= key_size(public_key),
        record_or_default(rec0).stage == ServerHandshakeStage::NotStarted,
        tag_of(datagram_head(key_request)) == Some(Tag::PublicKeyRequest),
        server_step_ok(rec0, rec1, key_request, private_key, public_key, challenge, res1),
        s0.stage == ClientHandshakeStage::RequestedPublicKey,
        fresh_key.len() == BLOCK_LEN,
        client_step_ok(s0, s1, server_sent(res1), fresh_key, now, res2),
        server_step_ok(rec1, rec2, client_sent(res2), private_key, public_key, challenge, res3),
    ensures
        s1.stage == ClientHandshakeStage::SharedSessionKey,
        s1.server_public_key == Some(public_key),
        s1.aes_key is Some && s1.aes_key->0@ == fresh_key,
        res3 matches Ok(ServerReply::Send(_)),
        record_or_default(rec2).stage == ServerHandshakeStage::SentChallenge,
        record_or_default(rec2).key is Some && record_or_default(rec2).key->0@ == fresh_key,
        record_or_default(rec2).challenge == Some(challenge),
{
    let mpk = server_sent(res1);
    let body = mpk.subrange(3, mpk.len() as int);
    assert(mpk == tag_text(Tag::MyPublicKey) + body);
    lemma_head_of_tagged(Tag::MyPublicKey, body);
    assert(readable_generated_key(public_key));
    let ssk = client_sent(res2);
    let sealed = ssk.subrange(3, ssk.len() as int);
    assert(ssk == tag_text(Tag::SharedSessionKey) + sealed);
    lemma_head_of_tagged(Tag::SharedSessionKey, sealed);
    assert(server_payload(ssk) == sealed);
    assert(rsa_plaintext(private_key, sealed) == Some(fresh_key));
}

/// The player list, each entry followed by '$', is well-formed UTF-8 when every entry is.
proof fn lemma_joined_list_utf8(list: Seq<Seq<u8>>)
    requires
        forall|i: int| 0 <= i < list.len() ==> valid_utf8(#[trigger] list[i]),
    ensures
        valid_utf8(join_entries(list)),
    decreases list.len(),
{
    if list.len() > 0 {
        let rest = list.drop_last();
        assert forall|i: int| 0 <= i < rest.len() implies valid_utf8(#[trigger] rest[i]) by {
            assert(rest[i] == list[i]);
        }
        lemma_joined_list_utf8(rest);
        lemma_ascii_valid_utf8(seq![ENTRY_END]);
        vstd::utf8::valid_utf8_concat(join_entries(rest), list.last());
        vstd::utf8::valid_utf8_concat(join_entries(rest) + list.last(), seq![ENTRY_END]);
    }
}

/// A player list that the server sends under a player's session key is read back by that
/// player as the same list, entry for entry, when no entry holds a '$' and each is UTF-8
/// text (as the JSON of a player is); the player's session does not change.
pub proof fn law_client_reads_lobby_list(
    key: Seq<u8>,
    list: Seq<Seq<u8>>,
    message: Seq<u8>,
    session: ClientSession,
    new_session: ClientSession,
    fresh_key: Seq<u8>,
    now: u64,
    res: Result<ClientReply, HandshakeError>,
)
    requires
        entries_plain(list),
        forall|i: int| 0 <= i < list.len() ==> valid_utf8(#[trigger] list[i]),
        message == tag_text(Tag::ServerLobbyMessage) + aes_encrypt_spec(key, join_entries(list)),
        aes_decrypt_spec(key, message.subrange(3, message.len() as int)) == join_entries(list),
        session.stage == ClientHandshakeStage::Authenticated,
        session.aes_key is Some,
        session.aes_key->0@ == key,
        client_step_ok(session, new_session, message, fresh_key, now, res),
    ensures
        res matches Ok(ClientReply::ClientList(entries)) && entries@.map_values(
            |e: Vec<u8>| e@,
        ) == list,
        new_session == session,
{
    lemma_head_of_tagged(Tag::ServerLobbyMessage, aes_encrypt_spec(key, join_entries(list)));
    lemma_joined_list_utf8(list);
    law_split_join(list);
}

} // verus!
