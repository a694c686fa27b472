//! Seats of a four-player table: who sits where, and whose turn it is.
use vstd::prelude::*;

verus! {

/// Four seats, numbered 1 to 4; each holds the number of the player sitting there, if any.
pub struct GameServer {
    pub players: Vec<Option<u8>>,
    pub current_player: u8,
    pub game_started: bool,
}

/// The state of a `GameServer`.
pub struct GameServerView {
    pub players: Seq<Option<u8>>,
    pub current_player: u8,
    pub game_started: bool,
}

impl View for GameServer {
    type V = GameServerView;

    open spec fn view(&self) -> GameServerView {
        GameServerView { players: self.players@, current_player: self.current_player, game_started: self.game_started }
    }
}

/// The seat after seat `c`: after the fourth comes the first.
pub open spec fn seat_after(c: u8) -> u8 {
    if c == 4 {
        1
    } else {
        (c + 1) as u8
    }
}

/// The first taken seat among the `k` seats after seat `c`, going round the table.
pub open spec fn next_taken_seat(players: Seq<Option<u8>>, c: u8, k: nat) -> Option<u8>
    decreases k,
{
    if k == 0 {
        None
    } else {
        let n = seat_after(c);
        if players[n - 1] is Some {
            Some(n)
        } else {
            next_taken_seat(players, n, (k - 1) as nat)
        }
    }
}

/// The index of the first empty seat from index `i` on, if there is one.
pub open spec fn first_free_from(players: Seq<Option<u8>>, i: int) -> Option<int>
    decreases players.len() - i,
{
    if i < 0 || i >= players.len() {
        None
    } else if players[i] is None {
        Some(i)
    } else {
        first_free_from(players, i + 1)
    }
}

/// The index of the first taken seat among the first four from index `i` on, if there is one.
pub open spec fn first_taken_from(players: Seq<Option<u8>>, i: int) -> Option<int>
    decreases 4 - i,
{
    if i < 0 || i >= 4 {
        None
    } else if players[i] is Some {
        Some(i)
    } else {
        first_taken_from(players, i + 1)
    }
}

impl GameServerView {
    /// Seating a newcomer: refused once the game has started; otherwise the first empty seat
    /// `i` goes to player `i + 1`, and with no empty seat nobody is seated.
    pub open spec fn assign_outcome(self) -> (GameServerView, Option<u8>) {
        if self.game_started {
            (self, None)
        } else {
            match first_free_from(self.players, 0) {
                Some(i) => (GameServerView { players: self.players.update(i, Some((i + 1) as u8)), ..self }, Some((i + 1) as u8)),
                None => (self, None),
            }
        }
    }

    /// The seat of player `player` (seat number `player`) emptied, where there is such a seat.
    pub open spec fn freed(self, player: u8) -> GameServerView {
        if 1 <= player && player - 1 < self.players.len() {
            GameServerView { players: self.players.update(player - 1, None), ..self }
        } else {
            self
        }
    }
}

impl GameServer {
    /// Four empty seats, the game not started, seat 1 to move first.
    pub fn new() -> (s: Self)
        ensures
            s@.players == seq![None::<u8>, None, None, None],
            s@.current_player == 1,
            !s@.game_started,
    {
        let mut players: Vec<Option<u8>> = Vec::new();
        players.push(None);
        players.push(None);
        players.push(None);
        players.push(None);
        assert(players@ =~= seq![None::<u8>, None, None, None]);
        GameServer { players, current_player: 1, game_started: false }
    }

    /// Seats a newcomer at the first empty seat and returns their player number (the seat's
    /// number); `None` once the game has started or when every seat is taken.
    pub fn assign_slot(&mut self) -> (r: Option<u8>)
        requires
            old(self).players.len() <= 255,
        ensures
            (final(self)@, r) == old(self)@.assign_outcome(),
    {
        if self.game_started {
            return None;
        }
        let n = self.players.len();
        let mut i: usize = 0;
        while i < n
            invariant
                n == self.players@.len(),
                n <= 255,
                i <= n,
                !self.game_started,
                self@ == old(self)@,
                first_free_from(self.players@, 0) == first_free_from(self.players@, i as int),
            decreases n - i,
        {
            if self.players[i].is_none() {
                assert(first_free_from(self.players@, i as int) == Some(i as int));
                let player: u8 = i as u8 + 1;
                self.players.set(i, Some(player));
                return Some(player);
            }
            assert(first_free_from(self.players@, i as int) == first_free_from(self.players@, i + 1));
            i += 1;
        }
        assert(first_free_from(self.players@, n as int) is None);
        None
    }

    /// Empties seat number `player`, if there is such a seat.
    pub fn free_slot(&mut self, player: u8)
        requires
            player >= 1,
        ensures
            final(self)@ == old(self)@.freed(player),
    {
        let idx: usize = (player - 1) as usize;
        if idx < self.players.len() {
            self.players.set(idx, None);
        }
    }

    /// Passes the turn to the next taken seat round the table, looking at most four seats
    /// ahead; nothing happens before the game has started or when no seat is taken.
    pub fn next_turn(&mut self)
        requires
            old(self).game_started ==> old(self).players.len() >= 4 && old(self).current_player <= 4,
        ensures
            final(self)@ == (if old(self)@.game_started {
                match next_taken_seat(old(self)@.players, old(self)@.current_player, 4) {
                    Some(n) => GameServerView { current_player: n, ..old(self)@ },
                    None => old(self)@,
                }
            } else {
                old(self)@
            }),
    {
        if !self.game_started {
            return;
        }
        let ghost players = self.players@;
        let ghost start = self.current_player;
        let mut next_player = self.current_player;
        let mut i: u8 = 0;
        while i < 4
            invariant
                i <= 4,
                self@ == old(self)@,
                self.players@ == players,
                self.current_player == start,
                self.game_started,
                players.len() >= 4,
                next_player <= 4,
                next_taken_seat(players, start, 4) == next_taken_seat(players, next_player, (4 - i) as nat),
            decreases 4 - i,
        {
            let ghost prev = next_player;
            next_player = if next_player == 4 { 1 } else { next_player + 1 };
            assert(next_player == seat_after(prev));
            if self.players[next_player as usize - 1].is_some() {
                assert(next_taken_seat(players, prev, (4 - i) as nat) == Some(next_player));
                self.current_player = next_player;
                return;
            }
            assert(next_taken_seat(players, prev, (4 - i) as nat) == next_taken_seat(players, next_player, (4 - i - 1) as nat));
            i += 1;
        }
        assert(next_taken_seat(players, next_player, 0) is None);
    }

    /// Whether it is the turn of player `player`.
    pub fn is_current_player(&self, player: u8) -> (b: bool)
        ensures
            b == (self.current_player == player),
    {
        self.current_player == player
    }

    /// Whose turn it is, once the game has started.
    pub fn get_current_player(&self) -> (r: Option<u8>)
        ensures
            r == (if self.game_started { Some(self.current_player) } else { None::<u8> }),
    {
        if self.game_started {
            Some(self.current_player)
        } else {
            None
        }
    }

    /// Starts the game (once): the first taken seat moves first; with no seat taken the
    /// turn stays where it was.
    pub fn start_game(&mut self)
        requires
            !old(self).game_started ==> old(self).players.len() >= 4,
        ensures
            final(self)@ == (if old(self)@.game_started {
                old(self)@
            } else {
                match first_taken_from(old(self)@.players, 0) {
                    Some(i) => GameServerView { game_started: true, current_player: (i + 1) as u8, ..old(self)@ },
                    None => GameServerView { game_started: true, ..old(self)@ },
                }
            }),
    {
        if self.game_started {
            return;
        }
        self.game_started = true;
        let mut i: usize = 0;
        let mut first: Option<u8> = None;
        while i < 4 && first.is_none()
            invariant
                i <= 4,
                self.players@.len() >= 4,
                first matches Some(n) ==> first_taken_from(self.players@, 0) == Some(n - 1) && 1 <= n <= 4,
                first is None ==> first_taken_from(self.players@, 0) == first_taken_from(self.players@, i as int),
            decreases 4 - i,
        {
            if self.players[i].is_some() {
                assert(first_taken_from(self.players@, i as int) == Some(i as int));
                first = Some(i as u8 + 1);
            } else {
                assert(first_taken_from(self.players@, i as int) == first_taken_from(self.players@, i + 1));
            }
            i += 1;
        }
        assert(first is None ==> first_taken_from(self.players@, 4) is None);
        if let Some(n) = first {
            self.current_player = n;
        }
    }

    /// Ends the game; the seats stay as they are.
    pub fn end_game(&mut self)
        ensures
            final(self)@ == (GameServerView { game_started: false, ..old(self)@ }),
    {
        self.game_started = false;
    }
}

/// Freeing the seat a newcomer was given undoes the seating.
pub proof fn law_free_undoes_assign(s: GameServerView)
    requires
        s.players.len() <= 255,
    ensures
        s.assign_outcome().1 matches Some(p) ==> s.assign_outcome().0.freed(p) == s,
{
    if let Some(i) = first_free_from(s.players, 0) {
        lemma_first_free_facts(s.players, 0);
        if !s.game_started {
            assert(s.assign_outcome().0.freed((i + 1) as u8).players =~= s.players);
        }
    }
}

/// What the search for an empty seat finds is an empty seat.
proof fn lemma_first_free_facts(players: Seq<Option<u8>>, i: int)
    requires
        0 <= i,
    ensures
        first_free_from(players, i) matches Some(k) ==> i <= k < players.len() && players[k] is None,
    decreases players.len() - i,
{
    if i < players.len() && players[i] is Some {
        lemma_first_free_facts(players, i + 1);
    }
}

/// The steps from seat `c` (at most four seats ahead) find a taken seat exactly when one of
/// the seats they pass is taken, and what they find is taken.
proof fn lemma_next_taken_seat(players: Seq<Option<u8>>, c: u8, k: nat)
    requires
        c <= 4,
        players.len() >= 4,
        k <= 4,
    ensures
        next_taken_seat(players, c, k) matches Some(n) ==> 1 <= n <= 4 && players[n - 1] is Some,
    decreases k,
{
    if k > 0 {
        lemma_next_taken_seat(players, seat_after(c), (k - 1) as nat);
    }
}

/// The turn only ever passes to a taken seat, and with any seat taken it always passes to
/// one: four steps round the table visit every seat.
pub proof fn law_next_turn_finds_a_taken_seat(players: Seq<Option<u8>>, c: u8)
    requires
        c <= 4,
        players.len() >= 4,
    ensures
        next_taken_seat(players, c, 4) matches Some(n) ==> 1 <= n <= 4 && players[n - 1] is Some,
        (exists|k: int| 0 <= k < 4 && #[trigger] players[k] is Some) ==> next_taken_seat(players, c, 4) is Some,
{
    lemma_next_taken_seat(players, c, 4);
    if exists|k: int| 0 <= k < 4 && #[trigger] players[k] is Some {
        let k = choose|k: int| 0 <= k < 4 && #[trigger] players[k] is Some;
        let s1 = seat_after(c);
        let s2 = seat_after(s1);
        let s3 = seat_after(s2);
        let s4 = seat_after(s3);
        assert(k == s1 - 1 || k == s2 - 1 || k == s3 - 1 || k == s4 - 1);
        reveal_with_fuel(next_taken_seat, 5);
    }
}

} // verus!
