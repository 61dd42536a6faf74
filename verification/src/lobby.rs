use vstd::prelude::*;

use crate::aes_framing::{aes_decrypt_spec, encrypt_aes, strip_trailing_zeros, BLOCK_LEN};
use crate::decimal::{decimal, law_decimal_round_trip, parse_integer, parse_u64, write_decimal};
use crate::text::bytes_equal;

verus! {

/// The byte that ends every entry of the player list on the wire ('$').
pub const ENTRY_END: u8 = 36;

/// The entries one after the other, each followed by '$'.
pub open spec fn join_entries(list: Seq<Seq<u8>>) -> Seq<u8>
    decreases list.len(),
{
    if list.len() == 0 {
        Seq::empty()
    } else {
        join_entries(list.drop_last()) + list.last() + seq![ENTRY_END]
    }
}

/// The pieces of `s` between the '$' bytes (an empty text is one empty piece).
pub open spec fn split_pieces(s: Seq<u8>) -> Seq<Seq<u8>>
    decreases s.len(),
{
    if s.len() == 0 {
        seq![Seq::empty()]
    } else {
        let p = split_pieces(s.drop_last());
        if s.last() == ENTRY_END {
            p.push(Seq::empty())
        } else {
            p.update(p.len() - 1, p.last().push(s.last()))
        }
    }
}

/// The entries of a received player list: every piece but the last.
pub open spec fn split_entries(s: Seq<u8>) -> Seq<Seq<u8>> {
    split_pieces(s).drop_last()
}

/// No entry holds the byte that ends entries.
pub open spec fn entries_plain(list: Seq<Seq<u8>>) -> bool {
    forall|i: int, j: int|
        0 <= i < list.len() && 0 <= j < list[i].len() ==> #[trigger] list[i][j] != ENTRY_END
}

/// Splitting at '$' always gives at least one piece.
pub proof fn lemma_split_pieces_nonempty(s: Seq<u8>)
    ensures
        split_pieces(s).len() >= 1,
    decreases s.len(),
{
    if s.len() > 0 {
        lemma_split_pieces_nonempty(s.drop_last());
    }
}

proof fn lemma_split_append_plain(s: Seq<u8>, e: Seq<u8>)
    requires
        forall|j: int| 0 <= j < e.len() ==> #[trigger] e[j] != ENTRY_END,
    ensures
        split_pieces(s + e) == split_pieces(s).update(
            split_pieces(s).len() - 1,
            split_pieces(s).last() + e,
        ),
    decreases e.len(),
{
    lemma_split_pieces_nonempty(s);
    if e.len() == 0 {
        assert(s + e =~= s);
        assert(split_pieces(s).last() + e =~= split_pieces(s).last());
        assert(split_pieces(s).update(split_pieces(s).len() - 1, split_pieces(s).last())
            =~= split_pieces(s));
    } else {
        let e0 = e.drop_last();
        lemma_split_append_plain(s, e0);
        assert((s + e).drop_last() =~= s + e0);
        assert((s + e).last() == e.last());
        assert(split_pieces(s).last() + e0 + seq![e.last()] =~= split_pieces(s).last() + e);
        let p = split_pieces(s);
        let q = split_pieces(s + e0);
        assert(q.last() == p.last() + e0);
        assert(e.last() != ENTRY_END);
        assert((p.last() + e0).push(e.last()) =~= p.last() + e);
        assert(split_pieces(s + e) == q.update(q.len() - 1, q.last().push(e.last())));
        assert(q.update(q.len() - 1, q.last().push(e.last())) =~= p.update(
            p.len() - 1,
            p.last() + e,
        ));
    }
}

/// Splitting a joined list at '$' gives the list back, when no entry holds a '$'.
pub proof fn law_split_join(list: Seq<Seq<u8>>)
    requires
        entries_plain(list),
    ensures
        split_entries(join_entries(list)) == list,
        split_pieces(join_entries(list)) == list.push(Seq::empty()),
    decreases list.len(),
{
    if list.len() == 0 {
        assert(split_pieces(Seq::<u8>::empty()) =~= seq![Seq::<u8>::empty()]);
        assert(split_entries(join_entries(list)) =~= list);
    } else {
        let prefix = list.drop_last();
        assert(entries_plain(prefix)) by {
            assert forall|i: int, j: int| 0 <= i < prefix.len() && 0 <= j < prefix[i].len() implies #[trigger] prefix[i][j]
                != ENTRY_END by {
                assert(prefix[i] == list[i]);
            }
        }
        law_split_join(prefix);
        let x = join_entries(prefix);
        let e = list.last();
        assert forall|j: int| 0 <= j < e.len() implies #[trigger] e[j] != ENTRY_END by {
            assert(list[list.len() - 1][j] != ENTRY_END);
        }
        lemma_split_append_plain(x, e);
        let whole = x + e + seq![ENTRY_END];
        assert(whole.drop_last() =~= x + e);
        assert(split_pieces(x + e) =~= prefix.push(e));
        assert(split_pieces(whole) =~= prefix.push(e).push(Seq::empty()));
        assert(prefix.push(e) =~= list);
        assert(split_entries(join_entries(list)) =~= list);
    }
}

/// The player list as the server sends it: each entry followed by '$'.
pub fn join_client_list(entries: &Vec<Vec<u8>>) -> (joined: Vec<u8>)
    ensures
        joined@ == join_entries(entries@.map_values(|e: Vec<u8>| e@)),
{
    let ghost views = entries@.map_values(|e: Vec<u8>| e@);
    let mut joined: Vec<u8> = Vec::new();
    let mut i: usize = 0;
    while i < entries.len()
        invariant
            i <= entries@.len(),
            views == entries@.map_values(|e: Vec<u8>| e@),
            joined@ == join_entries(views.subrange(0, i as int)),
        decreases entries@.len() - i,
    {
        let ghost before = joined@;
        let entry = &entries[i];
        let mut j: usize = 0;
        while j < entry.len()
            invariant
                j <= entry@.len(),
                joined@ == before + entry@.subrange(0, j as int),
            decreases entry@.len() - j,
        {
            joined.push(entry[j]);
            j = j + 1;
            assert(joined@ =~= before + entry@.subrange(0, j as int));
        }
        joined.push(ENTRY_END);
        proof {
            assert(entry@.subrange(0, entry@.len() as int) =~= entry@);
            let next = views.subrange(0, i + 1);
            assert(next.drop_last() =~= views.subrange(0, i as int));
            assert(next.last() == entry@);
            assert(joined@ =~= join_entries(next));
        }
        i = i + 1;
    }
    assert(views.subrange(0, entries@.len() as int) =~= views);
    joined
}

/// The entries of a received player list: the pieces between '$' bytes, all but the last.
pub fn split_client_list(bytes: &[u8]) -> (entries: Vec<Vec<u8>>)
    ensures
        entries@.map_values(|e: Vec<u8>| e@) == split_entries(bytes@),
{
    let mut done: Vec<Vec<u8>> = Vec::new();
    let mut current: Vec<u8> = Vec::new();
    let mut i: usize = 0;
    while i < bytes.len()
        invariant
            i <= bytes@.len(),
            done@.map_values(|e: Vec<u8>| e@).push(current@) == split_pieces(
                bytes@.subrange(0, i as int),
            ),
        decreases bytes@.len() - i,
    {
        let ghost prefix = bytes@.subrange(0, i as int);
        let ghost next = bytes@.subrange(0, i + 1);
        assert(next.drop_last() =~= prefix);
        assert(next.last() == bytes@[i as int]);
        let ghost old_done = done@.map_values(|e: Vec<u8>| e@);
        if bytes[i] == ENTRY_END {
            let mut finished: Vec<u8> = Vec::new();
            std::mem::swap(&mut finished, &mut current);
            done.push(finished);
            assert(done@.map_values(|e: Vec<u8>| e@) =~= old_done.push(finished@));
            assert(done@.map_values(|e: Vec<u8>| e@).push(current@) =~= split_pieces(next));
        } else {
            let ghost old_current = current@;
            current.push(bytes[i]);
            assert(done@.map_values(|e: Vec<u8>| e@) =~= old_done);
            assert(done@.map_values(|e: Vec<u8>| e@).push(current@) =~= old_done.push(
                old_current,
            ).update(old_done.len() as int, old_current.push(bytes@[i as int])));
        }
        i = i + 1;
    }
    assert(bytes@.subrange(0, bytes@.len() as int) =~= bytes@);
    assert(done@.map_values(|e: Vec<u8>| e@) =~= split_entries(bytes@));
    done
}

/// The text that every player's name begins with: "user".
pub open spec fn user_prefix() -> Seq<u8> {
    seq![117u8, 115u8, 101u8, 114u8]
}

/// The name of the `n`-th player to join: "user" and `n` in decimal.
pub open spec fn username_text(n: u64) -> Seq<u8> {
    user_prefix() + decimal(n)
}

/// The player number that a name carries: the text after its first four bytes, read as a
/// decimal number; `None` where there is no such number.
pub open spec fn player_number_of(name: Seq<u8>) -> Option<int> {
    if name.len() < 4 {
        None
    } else {
        parse_integer(name.subrange(4, name.len() as int), false, 0, u64::MAX as int)
    }
}

/// The name of the `n`-th player to join: "user{n}".
pub fn username(n: u64) -> (name: Vec<u8>)
    ensures
        name@ == username_text(n),
{
    let mut name: Vec<u8> = Vec::new();
    name.push(117);
    name.push(115);
    name.push(101);
    name.push(114);
    let digits = write_decimal(n);
    let mut i: usize = 0;
    while i < digits.len()
        invariant
            i <= digits@.len(),
            digits@ == decimal(n),
            name@ == user_prefix() + digits@.subrange(0, i as int),
        decreases digits@.len() - i,
    {
        name.push(digits[i]);
        i = i + 1;
        assert(name@ =~= user_prefix() + digits@.subrange(0, i as int));
    }
    assert(digits@.subrange(0, digits@.len() as int) =~= digits@);
    name
}

/// The player number in a name such as "user3": the text after the first four bytes read as
/// a decimal number, `None` where that text is no such number.
pub fn player_number(name: &[u8]) -> (number: Option<u64>)
    ensures
        number matches Some(k) ==> player_number_of(name@) == Some(k as int),
        number is None ==> player_number_of(name@) is None,
{
    if name.len() < 4 {
        return None;
    }
    let mut rest: Vec<u8> = Vec::new();
    let mut i: usize = 4;
    while i < name.len()
        invariant
            4 <= i <= name@.len(),
            rest@ == name@.subrange(4, i as int),
        decreases name@.len() - i,
    {
        rest.push(name[i]);
        i = i + 1;
        assert(rest@ =~= name@.subrange(4, i as int));
    }
    parse_u64(rest.as_slice())
}

/// The number in the name given to a player is the number it was made with.
pub proof fn law_player_number_of_username(n: u64)
    ensures
        player_number_of(username_text(n)) == Some(n as int),
{
    law_decimal_round_trip(n);
    let name = username_text(n);
    assert(name.subrange(4, name.len() as int) =~= decimal(n));
}

/// Where a player starts, by the number of players who joined before it: the four corners in
/// turn, the centre for the first.
pub open spec fn start_position(player_number: int) -> (int, int) {
    if player_number == 1 {
        (-225, 225)
    } else if player_number == 2 {
        (225, 225)
    } else if player_number == 3 {
        (-225, -225)
    } else if player_number == 4 {
        (225, -225)
    } else {
        (0, 0)
    }
}

/// Where the player that joins after `player_number` others starts. A lobby holds at most
/// five players.
pub fn determine_start_pos(player_number: usize) -> (pos: (i32, i32))
    requires
        player_number <= 4,
    ensures
        pos.0 == start_position(player_number as int).0,
        pos.1 == start_position(player_number as int).1,
{
    match player_number {
        1 => (-225, 225),
        2 => (225, 225),
        3 => (-225, -225),
        4 => (225, -225),
        _ => (0, 0),
    }
}

/// A player of a running game: the address it plays from and the lives it has left.
pub struct LobbyPlayer {
    pub address: Vec<u8>,
    pub health: i32,
}

/// Some player at `address` has no lives left.
pub open spec fn address_is_dead(players: Seq<LobbyPlayer>, address: Seq<u8>) -> bool {
    exists|j: int| 0 <= j < players.len() && players[j].health == 0 && #[trigger] players[j].address@ == address
}

/// The players that go on: every player whose address no player without lives plays from.
pub open spec fn survivors(players: Seq<LobbyPlayer>) -> Seq<LobbyPlayer> {
    players.filter(|p: LobbyPlayer| !address_is_dead(players, p.address@))
}

/// Whether some player plays from `address` with no lives left.
fn is_dead_address(players: &Vec<LobbyPlayer>, address: &[u8]) -> (dead: bool)
    ensures
        dead == address_is_dead(players@, address@),
{
    let mut i: usize = 0;
    while i < players.len()
        invariant
            i <= players@.len(),
            forall|j: int|
                0 <= j < i ==> !(players@[j].health == 0 && #[trigger] players@[j].address@ == address@),
        decreases players@.len() - i,
    {
        if players[i].health == 0 && bytes_equal(players[i].address.as_slice(), address) {
            return true;
        }
        i = i + 1;
    }
    false
}

/// Removes every player whose address a player with no lives left plays from, and says
/// whether the game is over: whether every player left has no lives left.
pub fn check_end_game(players: &mut Vec<LobbyPlayer>) -> (game_over: bool)
    ensures
        final(players)@ == survivors(old(players)@),
        game_over == (forall|i: int|
            0 <= i < final(players)@.len() ==> #[trigger] final(players)@[i].health == 0),
{
    let mut source: Vec<LobbyPlayer> = Vec::new();
    std::mem::swap(&mut source, players);
    let ghost orig = source@;
    let mut keep: Vec<bool> = Vec::new();
    let mut i: usize = 0;
    while i < source.len()
        invariant
            source@ == orig,
            i <= orig.len(),
            keep@.len() == i,
            forall|j: int| 0 <= j < i ==> #[trigger] keep@[j] == !address_is_dead(orig, orig[j].address@),
        decreases orig.len() - i,
    {
        let dead = is_dead_address(&source, source[i].address.as_slice());
        keep.push(!dead);
        i = i + 1;
    }
    let n = source.len();
    let mut k: usize = 0;
    while k < n
        invariant
            n == orig.len(),
            k <= n,
            keep@.len() == n,
            forall|j: int| 0 <= j < n ==> #[trigger] keep@[j] == !address_is_dead(orig, orig[j].address@),
            source@ == orig.skip(k as int),
            players@ == orig.take(k as int).filter(|p: LobbyPlayer| !address_is_dead(orig, p.address@)),
        decreases n - k,
    {
        let p = source.remove(0);
        proof {
            reveal(Seq::filter);
            assert(orig.take(k + 1).drop_last() =~= orig.take(k as int));
            assert(orig.take(k + 1).last() == orig[k as int]);
            assert(orig.skip(k + 1) =~= orig.skip(k as int).remove(0));
        }
        if keep[k] {
            players.push(p);
        }
        k = k + 1;
    }
    assert(orig.take(n as int) =~= orig);
    let mut all_dead = true;
    let mut m: usize = 0;
    while m < players.len()
        invariant
            m <= players@.len(),
            all_dead == (forall|i: int| 0 <= i < m ==> #[trigger] players@[i].health == 0),
        decreases players@.len() - m,
    {
        if players[m].health != 0 {
            all_dead = false;
        }
        m = m + 1;
    }
    all_dead
}

/// After the end-of-game check every player left has lives, so the game is over exactly when
/// no player is left: a player without lives takes every player at its address with it.
pub proof fn law_game_over_iff_nobody_left(players: Seq<LobbyPlayer>)
    ensures
        forall|i: int| 0 <= i < survivors(players).len() ==> #[trigger] survivors(players)[i].health != 0,
        (forall|i: int| 0 <= i < survivors(players).len() ==> #[trigger] survivors(players)[i].health == 0)
            <==> survivors(players).len() == 0,
{
    let pred = |p: LobbyPlayer| !address_is_dead(players, p.address@);
    let s = survivors(players);
    assert forall|i: int| 0 <= i < s.len() implies #[trigger] s[i].health != 0 by {
        broadcast use vstd::seq_lib::group_filter_ensures;

        let p = s[i];
        assert(pred(p));
        assert(s.contains(p));
        players.lemma_filter_contains_rev(pred, p);
        let j = choose|j: int| 0 <= j < players.len() && players[j] == p;
        if p.health == 0 {
            assert(players[j].health == 0 && players[j].address@ == p.address@);
            assert(address_is_dead(players, p.address@));
        }
    }
    if s.len() > 0 {
        assert(s[0].health != 0);
    }
}

} // verus!
