use vstd::prelude::*;

verus! {

/// What a game update of a running multiplayer game carries; its five-letter tag says which
/// and who sends it.
#[derive(Clone, Copy, PartialEq, Eq, Debug, Structural)]
pub enum UpdateKind {
    /// A player moved ("PLAFC" from a client, "PLAFS" from the server).
    PlayerMoved,
    /// A ball moved ("BALFC" from a client, "BALFS" from the server).
    BallMoved,
    /// A bat moved ("BATFC" from a client, "BATFS" from the server).
    BatMoved,
    /// A player was hit ("PHIFC" both ways).
    PlayerHit,
}

/// The tag of an update that a client sends.
pub open spec fn client_tag(k: UpdateKind) -> Seq<u8> {
    match k {
        UpdateKind::PlayerMoved => seq![80u8, 76u8, 65u8, 70u8, 67u8],
        UpdateKind::BallMoved => seq![66u8, 65u8, 76u8, 70u8, 67u8],
        UpdateKind::BatMoved => seq![66u8, 65u8, 84u8, 70u8, 67u8],
        UpdateKind::PlayerHit => seq![80u8, 72u8, 73u8, 70u8, 67u8],
    }
}

/// The tag of an update that the server relays to every player.
pub open spec fn server_tag(k: UpdateKind) -> Seq<u8> {
    match k {
        UpdateKind::PlayerMoved => seq![80u8, 76u8, 65u8, 70u8, 83u8],
        UpdateKind::BallMoved => seq![66u8, 65u8, 76u8, 70u8, 83u8],
        UpdateKind::BatMoved => seq![66u8, 65u8, 84u8, 70u8, 83u8],
        UpdateKind::PlayerHit => seq![80u8, 72u8, 73u8, 70u8, 67u8],
    }
}

/// The first five bytes of a datagram, read from a zero-filled buffer: bytes past its end
/// are zero.
pub open spec fn update_head(d: Seq<u8>) -> Seq<u8> {
    Seq::new(5, |i: int| if i < d.len() { d[i] } else { 0u8 })
}

/// The kind of update whose tag is `head`: a client's tag when `from_client`, else the
/// server's; `None` when no kind has that tag.
pub open spec fn kind_with_tag(head: Seq<u8>, from_client: bool) -> Option<UpdateKind> {
    let tag = |k: UpdateKind| if from_client {
        client_tag(k)
    } else {
        server_tag(k)
    };
    if head == tag(UpdateKind::PlayerMoved) {
        Some(UpdateKind::PlayerMoved)
    } else if head == tag(UpdateKind::BallMoved) {
        Some(UpdateKind::BallMoved)
    } else if head == tag(UpdateKind::BatMoved) {
        Some(UpdateKind::BatMoved)
    } else if head == tag(UpdateKind::PlayerHit) {
        Some(UpdateKind::PlayerHit)
    } else {
        None
    }
}

fn tag_bytes(k: UpdateKind, from_client: bool) -> (b: Vec<u8>)
    ensures
        b@ == (if from_client {
            client_tag(k)
        } else {
            server_tag(k)
        }),
{
    let mut b: Vec<u8> = Vec::new();
    match k {
        UpdateKind::PlayerMoved => {
            b.push(80);
            b.push(76);
            b.push(65);
            b.push(70);
        },
        UpdateKind::BallMoved => {
            b.push(66);
            b.push(65);
            b.push(76);
            b.push(70);
        },
        UpdateKind::BatMoved => {
            b.push(66);
            b.push(65);
            b.push(84);
            b.push(70);
        },
        UpdateKind::PlayerHit => {
            b.push(80);
            b.push(72);
            b.push(73);
            b.push(70);
        },
    }
    if from_client || k == UpdateKind::PlayerHit {
        b.push(67);
    } else {
        b.push(83);
    }
    proof {
        let t = if from_client {
            client_tag(k)
        } else {
            server_tag(k)
        };
        assert(b@ =~= t);
    }
    b
}

fn heads_equal(head: &Vec<u8>, tag: &Vec<u8>) -> (eq: bool)
    requires
        head@.len() == 5,
        tag@.len() == 5,
    ensures
        eq == (head@ == tag@),
{
    let mut i: usize = 0;
    while i < 5
        invariant
            i <= 5,
            head@.len() == 5,
            tag@.len() == 5,
            forall|j: int| 0 <= j < i ==> head@[j] == tag@[j],
        decreases 5 - i,
    {
        if head[i] != tag[i] {
            return false;
        }
        i = i + 1;
    }
    assert(head@ =~= tag@);
    true
}

/// Reads the kind of a game update from its first five bytes: a client's tag when
/// `from_client`, else the server's; `None` for any other head.
pub fn read_update(datagram: &[u8], from_client: bool) -> (kind: Option<UpdateKind>)
    ensures
        kind == kind_with_tag(update_head(datagram@), from_client),
{
    let mut head: Vec<u8> = Vec::new();
    let mut i: usize = 0;
    while i < 5
        invariant
            i <= 5,
            head@.len() == i,
            forall|j: int| 0 <= j < i ==> #[trigger] head@[j] == update_head(datagram@)[j],
        decreases 5 - i,
    {
        if i < datagram.len() {
            head.push(datagram[i]);
        } else {
            head.push(0);
        }
        i = i + 1;
    }
    assert(head@ =~= update_head(datagram@));
    if heads_equal(&head, &tag_bytes(UpdateKind::PlayerMoved, from_client)) {
        Some(UpdateKind::PlayerMoved)
    } else if heads_equal(&head, &tag_bytes(UpdateKind::BallMoved, from_client)) {
        Some(UpdateKind::BallMoved)
    } else if heads_equal(&head, &tag_bytes(UpdateKind::BatMoved, from_client)) {
        Some(UpdateKind::BatMoved)
    } else if heads_equal(&head, &tag_bytes(UpdateKind::PlayerHit, from_client)) {
        Some(UpdateKind::PlayerHit)
    } else {
        None
    }
}

/// An update as it goes on the wire: its tag (a client's when `from_client`, else the
/// server's), then the body.
pub fn update_message(kind: UpdateKind, from_client: bool, body: &[u8]) -> (message: Vec<u8>)
    ensures
        message@ == (if from_client {
            client_tag(kind)
        } else {
            server_tag(kind)
        }) + body@,
{
    let mut message = tag_bytes(kind, from_client);
    let ghost head = message@;
    let mut i: usize = 0;
    while i < body.len()
        invariant
            i <= body@.len(),
            message@ == head + body@.subrange(0, i as int),
        decreases body@.len() - i,
    {
        message.push(body[i]);
        i = i + 1;
        assert(message@ =~= head + body@.subrange(0, i as int));
    }
    assert(body@.subrange(0, body@.len() as int) =~= body@);
    message
}

/// The body of an update: what follows its five-byte tag.
pub fn update_body(datagram: &[u8]) -> (body: Vec<u8>)
    requires
        datagram@.len() >= 5,
    ensures
        body@ == datagram@.subrange(5, datagram@.len() as int),
{
    let mut body: Vec<u8> = Vec::new();
    let mut i: usize = 5;
    while i < datagram.len()
        invariant
            5 <= i <= datagram@.len(),
            body@ == datagram@.subrange(5, i as int),
        decreases datagram@.len() - i,
    {
        body.push(datagram[i]);
        i = i + 1;
        assert(body@ =~= datagram@.subrange(5, i as int));
    }
    body
}

/// Every update is read back as the kind it was written as, by the side it is meant for,
/// and its body is what follows the tag.
pub proof fn law_update_round_trip(kind: UpdateKind, from_client: bool, body: Seq<u8>)
    ensures
        ({
            let tag = if from_client {
                client_tag(kind)
            } else {
                server_tag(kind)
            };
            let m = tag + body;
            &&& kind_with_tag(update_head(m), from_client) == Some(kind)
            &&& m.subrange(5, m.len() as int) == body
        }),
{
    let tag = if from_client {
        client_tag(kind)
    } else {
        server_tag(kind)
    };
    let m = tag + body;
    assert(update_head(m) =~= tag);
    assert(m.subrange(5, m.len() as int) =~= body);
}

} // verus!
