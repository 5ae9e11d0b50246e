use vstd::prelude::*;

verus! {

/// Who controls a player slot. `Nobody` marks an empty slot.
#[derive(Clone, Copy, Debug, PartialEq, Eq, Structural)]
pub enum PlayerController {
    LocalHuman,
    NetworkHuman,
    AI,
    Nobody,
}

/// The controller a slot gets when its button is pressed: a local human
/// becomes a computer player, a computer player leaves the slot empty, an
/// empty slot goes to the local human, and any other controller becomes a
/// computer player.
pub open spec fn spec_next_controller(c: PlayerController) -> PlayerController {
    match c {
        PlayerController::LocalHuman => PlayerController::AI,
        PlayerController::AI => PlayerController::Nobody,
        PlayerController::Nobody => PlayerController::LocalHuman,
        _ => PlayerController::AI,
    }
}

impl PlayerController {
    /// The controller a slot cycles to when its button is pressed.
    pub fn cycled(self) -> (r: PlayerController)
        ensures
            r == spec_next_controller(self),
    {
        match self {
            PlayerController::LocalHuman => PlayerController::AI,
            PlayerController::AI => PlayerController::Nobody,
            PlayerController::Nobody => PlayerController::LocalHuman,
            _ => PlayerController::AI,
        }
    }
}

/// One player of a match, as the rules see it (its colour is a matter of
/// display only).
#[derive(Clone, Debug)]
pub struct Player {
    pub id: usize,
    pub team_id: usize,
    pub faction: String,
    pub controller: PlayerController,
    pub credits: u32,
}

/// The players of a match.
#[derive(Clone, Debug)]
pub struct Players {
    pub players: Vec<Player>,
}

/// No two players share an id.
pub open spec fn spec_distinct_ids(players: Seq<Player>) -> bool {
    forall|i: int, j: int| 0 <= i < j < players.len() ==> (#[trigger] players[i]).id != (#[trigger] players[j]).id
}

/// Two lists of players with the same ids, position by position.
pub open spec fn spec_same_ids(a: Seq<Player>, b: Seq<Player>) -> bool {
    a.len() == b.len() && forall|i: int| 0 <= i < a.len() ==> (#[trigger] a[i]).id == b[i].id
}

/// Changing what players hold but not their ids keeps the ids distinct.
pub proof fn lemma_same_ids_distinct(a: Seq<Player>, b: Seq<Player>)
    requires
        spec_same_ids(a, b),
        spec_distinct_ids(a),
    ensures
        spec_distinct_ids(b),
{
    assert forall|i: int, j: int| 0 <= i < j < b.len() implies (#[trigger] b[i]).id != (#[trigger] b[j]).id by {
        assert(a[i].id == b[i].id && a[j].id == b[j].id);
    }
}

/// The first index of a player with the given id, or -1.
pub open spec fn spec_player_index(players: Seq<Player>, id: usize) -> int
    decreases players.len(),
{
    if players.len() == 0 {
        -1
    } else if players[0].id == id {
        0
    } else {
        let r = spec_player_index(players.subrange(1, players.len() as int), id);
        if r < 0 { -1 } else { r + 1 }
    }
}

proof fn lemma_player_index(players: Seq<Player>, id: usize)
    ensures
        -1 <= spec_player_index(players, id) < players.len(),
        spec_player_index(players, id) >= 0 ==> players[spec_player_index(players, id)].id == id,
        forall|j: int| 0 <= j < players.len() && (spec_player_index(players, id) < 0 || j < spec_player_index(players, id))
            ==> (#[trigger] players[j]).id != id,
    decreases players.len(),
{
    if players.len() > 0 && players[0].id != id {
        let rest = players.subrange(1, players.len() as int);
        lemma_player_index(rest, id);
        assert forall|j: int| 0 <= j < players.len() && (spec_player_index(players, id) < 0 || j < spec_player_index(players, id))
            implies (#[trigger] players[j]).id != id by {
            if j > 0 {
                assert(players[j] == rest[j - 1]);
            }
        }
    }
}

impl Players {
    /// The players' invariant: no two of them share an id, so an id names
    /// at most one player.
    pub open spec fn wf(&self) -> bool {
        spec_distinct_ids(self.players@)
    }

    /// No player yet.
    pub fn new() -> (r: Players)
        ensures
            r.players@.len() == 0,
            r.wf(),
    {
        Players { players: Vec::new() }
    }

    /// Where the player with the given id is listed.
    pub fn index_of(&self, id: usize) -> (r: Option<usize>)
        ensures
            spec_player_index(self.players@, id) < 0 ==> r is None,
            spec_player_index(self.players@, id) >= 0 ==> (r matches Some(i) && i == spec_player_index(self.players@, id)),
            r matches Some(i) ==> i < self.players@.len() && self.players@[i as int].id == id,
    {
        proof { lemma_player_index(self.players@, id); }
        let mut i: usize = 0;
        while i < self.players.len()
            invariant
                i <= self.players.len(),
                forall|j: int| 0 <= j < i ==> (#[trigger] self.players@[j]).id != id,
            decreases self.players.len() - i,
        {
            if self.players[i].id == id {
                proof { lemma_player_index(self.players@, id); }
                return Some(i);
            }
            i = i + 1;
        }
        None
    }

    /// The player with the given id.
    pub fn get(&self, id: usize) -> (r: Option<&Player>)
        ensures
            spec_player_index(self.players@, id) < 0 ==> r is None,
            spec_player_index(self.players@, id) >= 0 ==> r == Some(&self.players@[spec_player_index(self.players@, id)]),
    {
        proof { lemma_player_index(self.players@, id); }
        let found = self.index_of(id);
        match found {
            Some(i) => {
                Some(&self.players[i])
            },
            None => None,
        }
    }
}

} // verus!
