use rsa::{RsaPrivateKey, RsaPublicKey};
use slugout::aes_framing::{decrypt_aes, encrypt_aes};
use slugout::handshake::{
    client_handle_message, client_handle_message_with_key, lobby_message, read_tag,
    server_handle_message, server_handle_message_with_challenge, start_game_message, tag_bytes,
    u64_from_be_bytes, u64_to_be_bytes, ClientHandshakeStage, ClientRecord, ClientReply,
    ClientSession, HandshakeError, ServerHandshakeStage, ServerReply, Tag,
};
use slugout::rsa_keys::{decrypt_rsa, encrypt_rsa, generate_server_rsa_keypair};

fn server_keys(bits: usize) -> (RsaPrivateKey, RsaPublicKey) {
    let mut rng = rand::thread_rng();
    let private = RsaPrivateKey::new(&mut rng, bits).unwrap();
    let public = RsaPublicKey::from(&private);
    (private, public)
}

fn new_session() -> ClientSession {
    ClientSession {
        stage: ClientHandshakeStage::RequestedPublicKey,
        server_public_key: None,
        aes_key: None,
    }
}

fn sent(r: Result<ServerReply, HandshakeError>) -> Vec<u8> {
    match r {
        Ok(ServerReply::Send(m)) => m,
        _ => panic!("the server sent nothing"),
    }
}

fn client_sent(r: Result<ClientReply, HandshakeError>) -> Vec<u8> {
    match r {
        Ok(ClientReply::Send(m)) => m,
        _ => panic!("the client sent nothing"),
    }
}

fn stage_of(record: &Option<ClientRecord>) -> Option<ServerHandshakeStage> {
    record.as_ref().map(|r| r.stage)
}

/// Runs the handshake up to the point where the client has answered the challenge.
fn up_to_answer(
    private: &RsaPrivateKey,
    public: &RsaPublicKey,
    key: &[u8],
    challenge: u64,
) -> (Option<ClientRecord>, ClientSession, Vec<u8>) {
    let mut record: Option<ClientRecord> = None;
    let mpk = sent(server_handle_message_with_challenge(&mut record, false, b"PKR", private, public, challenge));
    let mut session = new_session();
    let ssk = client_sent(client_handle_message_with_key(&mut session, &mpk, key, 1700000000));
    let scc = sent(server_handle_message_with_challenge(&mut record, false, &ssk, private, public, challenge));
    let cac = client_sent(client_handle_message_with_key(&mut session, &scc, key, 1700000000));
    (record, session, cac)
}

#[test]
fn full_handshake_authenticates_the_client() {
    let (private, public) = server_keys(512);
    let key = [7u8; 16];
    let mut record: Option<ClientRecord> = None;
    let mpk = sent(server_handle_message_with_challenge(&mut record, false, b"PKR", &private, &public, 41));
    assert_eq!(&mpk[0..3], b"MPK");
    assert_eq!(stage_of(&record), Some(ServerHandshakeStage::SentPublicKey));

    let mut session = new_session();
    let ssk = client_sent(client_handle_message_with_key(&mut session, &mpk, &key, 1700000000));
    assert_eq!(&ssk[0..3], b"SSK");
    assert_eq!(session.stage, ClientHandshakeStage::SharedSessionKey);
    assert_eq!(session.aes_key, Some(key.to_vec()));

    let scc = sent(server_handle_message_with_challenge(&mut record, false, &ssk, &private, &public, 41));
    assert_eq!(&scc[0..3], b"SCC");
    assert_eq!(stage_of(&record), Some(ServerHandshakeStage::SentChallenge));
    assert_eq!(record.as_ref().unwrap().challenge, Some(41));
    assert_eq!(record.as_ref().unwrap().key, Some(key.to_vec()));
    assert_eq!(decrypt_aes(&key, &scc[3..]), u64_to_be_bytes(41));

    let cac = client_sent(client_handle_message_with_key(&mut session, &scc, &key, 1700000000));
    assert_eq!(&cac[0..3], b"CAC");
    assert_eq!(session.stage, ClientHandshakeStage::RespondedToChallenge);
    let answer = String::from_utf8(decrypt_aes(&key, &cac[3..])).unwrap();
    assert_eq!(answer, "{\"nonce\":42,\"timestamp\":1700000000}");
    let value: serde_json::Value = serde_json::from_str(&answer).unwrap();
    assert_eq!(value["nonce"].as_u64(), Some(42));
    assert_eq!(value["timestamp"].as_u64(), Some(1700000000));

    let reply = match server_handle_message_with_challenge(&mut record, false, &cac, &private, &public, 99) {
        Ok(ServerReply::Verdict { reply, passed }) => {
            assert!(passed);
            reply
        }
        _ => panic!("no verdict"),
    };
    assert_eq!(&reply[0..3], b"CCR");
    assert_eq!(decrypt_aes(&key, &reply[3..]), b"PASSED".to_vec());
    assert_eq!(stage_of(&record), Some(ServerHandshakeStage::Authenticated));

    match client_handle_message_with_key(&mut session, &reply, &key, 1700000000) {
        Ok(ClientReply::Verdict(true)) => {}
        _ => panic!("the client did not read the verdict"),
    }
    assert_eq!(session.stage, ClientHandshakeStage::Authenticated);
}

#[test]
fn handshake_with_random_challenge_and_key_succeeds() {
    let (private, public) = server_keys(512);
    let mut record: Option<ClientRecord> = None;
    let mut session = new_session();
    let mpk = sent(server_handle_message(&mut record, false, b"PKR", &private, &public));
    let ssk = client_sent(client_handle_message(&mut session, &mpk, 5));
    let key = session.aes_key.clone().unwrap();
    assert_eq!(key.len(), 16);
    let scc = sent(server_handle_message(&mut record, false, &ssk, &private, &public));
    let challenge = record.as_ref().unwrap().challenge.unwrap();
    // A challenge whose last byte is zero loses that byte to the zero stripping of the
    // framing; the client then refuses it.
    if challenge % 256 == 0 {
        match client_handle_message(&mut session, &scc, 5) {
            Err(e) => assert_eq!(e, HandshakeError::ChallengeNotEightBytes),
            _ => panic!("expected a refusal"),
        }
        return;
    }
    if challenge == u64::MAX {
        return;
    }
    let cac = client_sent(client_handle_message(&mut session, &scc, 5));
    match server_handle_message(&mut record, false, &cac, &private, &public) {
        Ok(ServerReply::Verdict { passed, .. }) => assert!(passed),
        _ => panic!("no verdict"),
    }
    assert_eq!(stage_of(&record), Some(ServerHandshakeStage::Authenticated));
}

#[test]
fn wrong_answer_fails_and_is_forgotten() {
    let (private, public) = server_keys(512);
    let key = [3u8; 16];
    let (mut record, mut session, _cac) = up_to_answer(&private, &public, &key, 41);
    let mut wrong = tag_bytes(Tag::ClientAttemptedChallenge);
    wrong.extend_from_slice(&encrypt_aes(&key, b"{\"nonce\":41,\"timestamp\":0}"));
    let reply = match server_handle_message_with_challenge(&mut record, false, &wrong, &private, &public, 1) {
        Ok(ServerReply::Verdict { reply, passed }) => {
            assert!(!passed);
            reply
        }
        _ => panic!("no verdict"),
    };
    assert!(record.is_none());
    assert_eq!(decrypt_aes(&key, &reply[3..]), b"FAILED".to_vec());
    match client_handle_message_with_key(&mut session, &reply, &key, 0) {
        Ok(ClientReply::Verdict(false)) => {}
        _ => panic!("the client did not read the verdict"),
    }
    assert_eq!(session.stage, ClientHandshakeStage::FailedAuthentication);
}

#[test]
fn authenticated_sender_is_ignored() {
    let (private, public) = server_keys(512);
    let mut record: Option<ClientRecord> = None;
    match server_handle_message_with_challenge(&mut record, true, b"PKR", &private, &public, 1) {
        Ok(ServerReply::Ignored) => {}
        _ => panic!("expected the datagram to be ignored"),
    }
    assert!(record.is_none());
}

#[test]
fn game_message_of_authenticated_record() {
    let (private, public) = server_keys(512);
    let mut record = Some(ClientRecord {
        stage: ServerHandshakeStage::Authenticated,
        key: Some(vec![1u8; 16]),
        challenge: Some(9),
    });
    match server_handle_message_with_challenge(&mut record, false, b"CGMhello", &private, &public, 1) {
        Ok(ServerReply::GameMessage) => {}
        _ => panic!("expected a game message"),
    }
    assert_eq!(stage_of(&record), Some(ServerHandshakeStage::Authenticated));
}

#[test]
fn out_of_order_datagram_is_unrecognized() {
    let (private, public) = server_keys(512);
    let mut record: Option<ClientRecord> = None;
    match server_handle_message_with_challenge(&mut record, false, b"CAC", &private, &public, 1) {
        Ok(ServerReply::Unrecognized) => {}
        _ => panic!("expected an unrecognized datagram"),
    }
    assert_eq!(stage_of(&record), Some(ServerHandshakeStage::NotStarted));
}

#[test]
fn server_error_tag_not_text() {
    let (private, public) = server_keys(512);
    let mut record: Option<ClientRecord> = None;
    match server_handle_message_with_challenge(&mut record, false, &[0xff, 0xfe, 0x41], &private, &public, 1) {
        Err(e) => assert_eq!(e, HandshakeError::TagNotText),
        _ => panic!("expected an error"),
    }
    assert!(record.is_none());
}

#[test]
fn server_error_session_key_undecryptable() {
    let (private, public) = server_keys(512);
    let mut record = Some(ClientRecord {
        stage: ServerHandshakeStage::SentPublicKey,
        key: None,
        challenge: None,
    });
    match server_handle_message_with_challenge(&mut record, false, b"SSKnot a ciphertext", &private, &public, 1) {
        Err(e) => assert_eq!(e, HandshakeError::SessionKeyUndecryptable),
        _ => panic!("expected an error"),
    }
    assert_eq!(stage_of(&record), Some(ServerHandshakeStage::SentPublicKey));
}

#[test]
fn server_bad_session_key_length() {
    let (private, public) = server_keys(512);
    let mut record = Some(ClientRecord {
        stage: ServerHandshakeStage::SentPublicKey,
        key: None,
        challenge: None,
    });
    let mut ssk = b"SSK".to_vec();
    ssk.extend_from_slice(&encrypt_rsa(&public, &[1u8; 5]).unwrap());
    match server_handle_message_with_challenge(&mut record, false, &ssk, &private, &public, 1) {
        Ok(ServerReply::BadSessionKey) => {}
        _ => panic!("expected a bad session key"),
    }
    assert_eq!(stage_of(&record), Some(ServerHandshakeStage::SentPublicKey));
}

#[test]
fn server_error_challenge_too_large() {
    let (private, public) = server_keys(512);
    let key = [5u8; 16];
    let (mut record, _session, _cac) = up_to_answer(&private, &public, &key, 17);
    record.as_mut().unwrap().challenge = Some(u64::MAX);
    let mut cac = b"CAC".to_vec();
    cac.extend_from_slice(&encrypt_aes(&key, b"{\"nonce\":0,\"timestamp\":0}"));
    match server_handle_message_with_challenge(&mut record, false, &cac, &private, &public, 1) {
        Err(e) => assert_eq!(e, HandshakeError::ChallengeTooLarge),
        _ => panic!("expected an error"),
    }
}

#[test]
fn server_error_reply_not_text() {
    let (private, public) = server_keys(512);
    let key = [5u8; 16];
    let (mut record, _session, _cac) = up_to_answer(&private, &public, &key, 17);
    let mut cac = b"CAC".to_vec();
    cac.extend_from_slice(&encrypt_aes(&key, &[0xff, 0xfe, 0xfd]));
    match server_handle_message_with_challenge(&mut record, false, &cac, &private, &public, 1) {
        Err(e) => assert_eq!(e, HandshakeError::ReplyNotText),
        _ => panic!("expected an error"),
    }
    assert_eq!(stage_of(&record), Some(ServerHandshakeStage::SentChallenge));
}

#[test]
fn server_error_reply_not_json() {
    let (private, public) = server_keys(512);
    let key = [5u8; 16];
    let (mut record, _session, _cac) = up_to_answer(&private, &public, &key, 17);
    let mut cac = b"CAC".to_vec();
    cac.extend_from_slice(&encrypt_aes(&key, b"hello"));
    match server_handle_message_with_challenge(&mut record, false, &cac, &private, &public, 1) {
        Err(e) => assert_eq!(e, HandshakeError::ReplyNotJson),
        _ => panic!("expected an error"),
    }
}

#[test]
fn client_error_short_datagram() {
    let mut session = new_session();
    match client_handle_message_with_key(&mut session, b"MP", &[0u8; 16], 0) {
        Err(e) => assert_eq!(e, HandshakeError::ShortDatagram),
        _ => panic!("expected an error"),
    }
    assert_eq!(session.stage, ClientHandshakeStage::RequestedPublicKey);
}

#[test]
fn client_error_tag_not_text() {
    let mut session = new_session();
    match client_handle_message_with_key(&mut session, &[0xc3, 0x28, 0x41, 0x42], &[0u8; 16], 0) {
        Err(e) => assert_eq!(e, HandshakeError::TagNotText),
        _ => panic!("expected an error"),
    }
}

#[test]
fn client_error_public_key_not_text() {
    let mut session = new_session();
    match client_handle_message_with_key(&mut session, &[77, 80, 75, 0xff], &[0u8; 16], 0) {
        Err(e) => assert_eq!(e, HandshakeError::PublicKeyNotText),
        _ => panic!("expected an error"),
    }
    assert_eq!(session.stage, ClientHandshakeStage::RequestedPublicKey);
}

#[test]
fn client_bad_public_key() {
    let mut session = new_session();
    match client_handle_message_with_key(&mut session, b"MPKnot a key", &[0u8; 16], 0) {
        Ok(ClientReply::BadPublicKey) => {}
        _ => panic!("expected a bad public key"),
    }
    assert_eq!(session.stage, ClientHandshakeStage::RequestedPublicKey);
    assert!(session.aes_key.is_none());
}

#[test]
fn client_error_session_key_not_encrypted() {
    // A key too small for PKCS#1 v1.5 padding of a 16-byte message.
    let (private, public) = server_keys(128);
    let mut record: Option<ClientRecord> = None;
    let mpk = sent(server_handle_message_with_challenge(&mut record, false, b"PKR", &private, &public, 1));
    let mut session = new_session();
    match client_handle_message_with_key(&mut session, &mpk, &[1u8; 16], 0) {
        Err(e) => assert_eq!(e, HandshakeError::SessionKeyNotEncrypted),
        _ => panic!("expected an error"),
    }
}

fn shared_session(key: &[u8]) -> ClientSession {
    ClientSession {
        stage: ClientHandshakeStage::SharedSessionKey,
        server_public_key: None,
        aes_key: Some(key.to_vec()),
    }
}

#[test]
fn client_error_challenge_not_eight_bytes() {
    let key = [9u8; 16];
    let mut session = shared_session(&key);
    let mut scc = b"SCC".to_vec();
    scc.extend_from_slice(&encrypt_aes(&key, &[1, 2, 3]));
    match client_handle_message_with_key(&mut session, &scc, &key, 0) {
        Err(e) => assert_eq!(e, HandshakeError::ChallengeNotEightBytes),
        _ => panic!("expected an error"),
    }
    assert_eq!(session.stage, ClientHandshakeStage::SharedSessionKey);
}

#[test]
fn challenge_ending_in_zero_byte_is_refused() {
    let key = [9u8; 16];
    let mut session = shared_session(&key);
    let mut scc = b"SCC".to_vec();
    scc.extend_from_slice(&encrypt_aes(&key, &u64_to_be_bytes(256)));
    match client_handle_message_with_key(&mut session, &scc, &key, 0) {
        Err(e) => assert_eq!(e, HandshakeError::ChallengeNotEightBytes),
        _ => panic!("expected an error"),
    }
}

#[test]
fn client_error_challenge_too_large() {
    let key = [9u8; 16];
    let mut session = shared_session(&key);
    let mut scc = b"SCC".to_vec();
    scc.extend_from_slice(&encrypt_aes(&key, &u64_to_be_bytes(u64::MAX)));
    match client_handle_message_with_key(&mut session, &scc, &key, 0) {
        Err(e) => assert_eq!(e, HandshakeError::ChallengeTooLarge),
        _ => panic!("expected an error"),
    }
}

fn authenticated_session(key: &[u8]) -> ClientSession {
    ClientSession {
        stage: ClientHandshakeStage::Authenticated,
        server_public_key: None,
        aes_key: Some(key.to_vec()),
    }
}

#[test]
fn client_error_server_text_not_text() {
    let key = [4u8; 16];
    let mut session = authenticated_session(&key);
    let mut slm = b"SLM".to_vec();
    slm.extend_from_slice(&encrypt_aes(&key, &[0xff, 0x80]));
    match client_handle_message_with_key(&mut session, &slm, &key, 0) {
        Err(e) => assert_eq!(e, HandshakeError::ServerTextNotText),
        _ => panic!("expected an error"),
    }
}

#[test]
fn client_reads_lobby_list() {
    let key = [4u8; 16];
    let entries = vec![b"user1".to_vec(), b"user2".to_vec()];
    let message = lobby_message(&key, &entries);
    assert_eq!(&message[0..3], b"SLM");
    assert_eq!(decrypt_aes(&key, &message[3..]), b"user1$user2$".to_vec());
    let mut session = authenticated_session(&key);
    match client_handle_message_with_key(&mut session, &message, &key, 0) {
        Ok(ClientReply::ClientList(list)) => assert_eq!(list, entries),
        _ => panic!("expected the player list"),
    }
}

#[test]
fn client_reads_start_signal_and_game_message() {
    let key = [4u8; 16];
    let mut session = authenticated_session(&key);
    let start = start_game_message();
    assert_eq!(start, b"STG".to_vec());
    match client_handle_message_with_key(&mut session, &start, &key, 0) {
        Ok(ClientReply::StartGame) => {}
        _ => panic!("expected the start signal"),
    }
    match client_handle_message_with_key(&mut session, b"SGM{}", &key, 0) {
        Ok(ClientReply::GameMessage) => {}
        _ => panic!("expected a game message"),
    }
    match client_handle_message_with_key(&mut session, b"XYZ", &key, 0) {
        Ok(ClientReply::Unknown) => {}
        _ => panic!("expected an unknown datagram"),
    }
    assert_eq!(session.stage, ClientHandshakeStage::Authenticated);
}

#[test]
fn tags_read_back() {
    let tags = [
        Tag::PublicKeyRequest,
        Tag::SharedSessionKey,
        Tag::ClientAttemptedChallenge,
        Tag::ClientGameMessage,
        Tag::MyPublicKey,
        Tag::SentClientChallenge,
        Tag::ClientChallengeResult,
        Tag::ServerGameMessage,
        Tag::StartGame,
        Tag::ServerLobbyMessage,
    ];
    for t in tags {
        let mut d = tag_bytes(t);
        d.extend_from_slice(b"payload");
        assert_eq!(read_tag(&d), Ok(Some(t)));
    }
    assert_eq!(tag_bytes(Tag::ServerLobbyMessage), b"SLM".to_vec());
    assert_eq!(read_tag(b"ABC"), Ok(None));
    assert_eq!(read_tag(b"PK"), Ok(None));
    assert_eq!(read_tag(&[0x80, 0x80, 0x80]), Err(HandshakeError::TagNotText));
}

#[test]
fn be_bytes_round_trip() {
    assert_eq!(u64_to_be_bytes(0x0102030405060708), vec![1, 2, 3, 4, 5, 6, 7, 8]);
    assert_eq!(u64_from_be_bytes(&[1, 2, 3, 4, 5, 6, 7, 8]), 0x0102030405060708);
    for v in [0u64, 1, 255, 256, 41, u64::MAX, 0xdead_beef_0bad_f00d] {
        assert_eq!(u64_from_be_bytes(&u64_to_be_bytes(v)), v);
    }
}

#[test]
fn aes_known_answer() {
    let key: Vec<u8> = (0u8..16).collect();
    let plain = [
        0x00, 0x11, 0x22, 0x33, 0x44, 0x55, 0x66, 0x77, 0x88, 0x99, 0xaa, 0xbb, 0xcc, 0xdd, 0xee,
        0xff,
    ];
    let expected = [
        0x69, 0xc4, 0xe0, 0xd8, 0x6a, 0x7b, 0x04, 0x30, 0xd8, 0xcd, 0xb7, 0x80, 0x70, 0xb4, 0xc5,
        0x5a,
    ];
    assert_eq!(encrypt_aes(&key, &plain), expected.to_vec());
    assert_eq!(decrypt_aes(&key, &expected), plain.to_vec());
}

#[test]
fn aes_round_trip_strips_trailing_zeros() {
    let key = [0x2bu8; 16];
    let message = b"a message that is longer than one block".to_vec();
    let c = encrypt_aes(&key, &message);
    assert_eq!(c.len(), 48);
    assert_ne!(c[0..16].to_vec(), message[0..16].to_vec());
    assert_eq!(decrypt_aes(&key, &c), message);
    let with_zeros = vec![1u8, 2, 0, 0];
    assert_eq!(decrypt_aes(&key, &encrypt_aes(&key, &with_zeros)), vec![1u8, 2]);
    assert_eq!(encrypt_aes(&key, &[]), Vec::<u8>::new());
}

#[test]
fn rsa_round_trip_and_failure_text() {
    let (private, public) = server_keys(512);
    let secret = [42u8; 16];
    let c = encrypt_rsa(&public, &secret).unwrap();
    assert_eq!(c.len(), 64);
    assert_eq!(decrypt_rsa(&private, &c), Ok(secret.to_vec()));
    match decrypt_rsa(&private, &[1u8; 64]) {
        Err(text) => assert!(text.starts_with("Failed to decrypt: ")),
        Ok(_) => panic!("expected a failure"),
    }
}

#[test]
fn server_key_pair_works_together() {
    let (private, public) = generate_server_rsa_keypair().unwrap();
    let c = encrypt_rsa(&public, b"0123456789abcdef").unwrap();
    assert_eq!(c.len(), 128);
    assert_eq!(decrypt_rsa(&private, &c), Ok(b"0123456789abcdef".to_vec()));
}

#[test]
fn rsa_padding_takes_eleven_bytes() {
    let (private, public) = server_keys(512);
    let longest = [7u8; 53];
    let c = encrypt_rsa(&public, &longest).unwrap();
    assert_eq!(c.len(), 64);
    assert_eq!(decrypt_rsa(&private, &c), Ok(longest.to_vec()));
    assert!(encrypt_rsa(&public, &[7u8; 54]).is_err());
    let empty = encrypt_rsa(&public, &[]).unwrap();
    assert!(empty.len() >= 11);
    assert_eq!(decrypt_rsa(&private, &empty), Ok(Vec::new()));
}

#[test]
fn decrypt_failure_text_names_the_error() {
    let (private, _public) = server_keys(512);
    match decrypt_rsa(&private, &[0u8; 64]) {
        Err(text) => {
            assert!(text.starts_with("Failed to decrypt: "));
            assert!(text.len() > "Failed to decrypt: ".len());
        }
        Ok(_) => panic!("expected a failure"),
    }
}
