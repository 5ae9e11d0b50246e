use vstd::prelude::*;
use vstd::string::*;
use crate::player::{Players, Player, PlayerController, spec_next_controller, spec_distinct_ids, spec_same_ids, lemma_same_ids_distinct};

verus! {

/// The screen the application shows.
#[derive(Clone, Copy, Debug, PartialEq, Eq, Structural)]
pub enum AppState {
    MainMenu,
    FactionSelection,
    InGame,
}

/// How the match stands.
#[derive(Clone, Copy, Debug, PartialEq, Eq, Structural)]
pub enum GameResult {
    Playing,
    Victory,
    Defeat,
}

/// Whether the match is still being played.
pub fn game_is_playing(result: GameResult) -> (r: bool)
    ensures
        r == (result == GameResult::Playing),
{
    result == GameResult::Playing
}

/// Milliseconds of play before the match can be decided.
pub const GAME_CHECK_DELAY_MS: u64 = 5000;

/// Some building belongs to the local player.
pub open spec fn spec_local_has_building(owners: Seq<usize>, local: usize) -> bool {
    exists|i: int| 0 <= i < owners.len() && owners[i] == local
}

/// Some building belongs to someone else.
pub open spec fn spec_enemy_has_building(owners: Seq<usize>, local: usize) -> bool {
    exists|i: int| 0 <= i < owners.len() && owners[i] != local
}

/// The result after a check: a match still being played, past the delay,
/// is lost when the local player has no building left and won when only
/// the local player has buildings.
pub open spec fn spec_game_result(result: GameResult, elapsed_ms: u64, owners: Seq<usize>, local: usize) -> GameResult {
    if result != GameResult::Playing || elapsed_ms < GAME_CHECK_DELAY_MS {
        result
    } else if !spec_local_has_building(owners, local) {
        GameResult::Defeat
    } else if !spec_enemy_has_building(owners, local) {
        GameResult::Victory
    } else {
        result
    }
}

/// Decides the match from the owners of the standing buildings, once
/// `elapsed_ms` (the play time counted so far, advanced here by `delta_ms`
/// while the match is on) has reached the delay.
pub fn check_game_over_conditions(result: &mut GameResult, elapsed_ms: &mut u64, delta_ms: u64, owners: &Vec<usize>, local_player: usize)
    ensures
        *old(result) != GameResult::Playing ==> *final(result) == *old(result) && *final(elapsed_ms) == *old(elapsed_ms),
        *old(result) == GameResult::Playing ==> *final(elapsed_ms) == if *old(elapsed_ms) + delta_ms > u64::MAX { u64::MAX as int } else { *old(elapsed_ms) + delta_ms },
        *final(result) == spec_game_result(*old(result), *final(elapsed_ms), owners@, local_player),
{
    if *result != GameResult::Playing {
        return;
    }
    *elapsed_ms = elapsed_ms.saturating_add(delta_ms);
    if *elapsed_ms < GAME_CHECK_DELAY_MS {
        return;
    }
    let mut player_has = false;
    let mut enemy_has = false;
    let mut i: usize = 0;
    while i < owners.len()
        invariant
            i <= owners@.len(),
            player_has == exists|j: int| 0 <= j < i && owners@[j] == local_player,
            enemy_has == exists|j: int| 0 <= j < i && owners@[j] != local_player,
        decreases owners@.len() - i,
    {
        if owners[i] == local_player {
            player_has = true;
        } else {
            enemy_has = true;
        }
        i = i + 1;
    }
    if !player_has {
        *result = GameResult::Defeat;
    } else if !enemy_has {
        *result = GameResult::Victory;
    }
}

/// Once decided, a match stays decided.
pub proof fn law_result_is_final(result: GameResult, elapsed_ms: u64, owners: Seq<usize>, local: usize)
    requires
        result != GameResult::Playing,
    ensures
        spec_game_result(result, elapsed_ms, owners, local) == result,
{
}

/// Past the delay, a player with no building left loses and a player who
/// alone has buildings wins.
pub proof fn law_last_one_standing(elapsed_ms: u64, owners: Seq<usize>, local: usize)
    requires
        elapsed_ms >= GAME_CHECK_DELAY_MS,
    ensures
        !spec_local_has_building(owners, local) ==> spec_game_result(GameResult::Playing, elapsed_ms, owners, local) == GameResult::Defeat,
        spec_local_has_building(owners, local) && !spec_enemy_has_building(owners, local)
            ==> spec_game_result(GameResult::Playing, elapsed_ms, owners, local) == GameResult::Victory,
        spec_local_has_building(owners, local) && spec_enemy_has_building(owners, local)
            ==> spec_game_result(GameResult::Playing, elapsed_ms, owners, local) == GameResult::Playing,
{
}

/// A match still being played is lost, once the delay has passed, exactly
/// when no standing building belongs to the local player, and won exactly
/// when at least one does and every one does.
pub proof fn law_result_reads_every_owner(elapsed_ms: u64, owners: Seq<usize>, local: usize)
    requires
        elapsed_ms >= GAME_CHECK_DELAY_MS,
    ensures
        (spec_game_result(GameResult::Playing, elapsed_ms, owners, local) == GameResult::Defeat)
            == (forall|i: int| 0 <= i < owners.len() ==> owners[i] != local),
        (spec_game_result(GameResult::Playing, elapsed_ms, owners, local) == GameResult::Victory)
            == ((exists|i: int| 0 <= i < owners.len() && owners[i] == local)
                && forall|i: int| 0 <= i < owners.len() ==> owners[i] == local),
{
}

/// The result depends only on whose buildings stand, not on the order (or
/// the number) in which they are listed: two lists naming the same owners
/// give the same result.
pub proof fn law_result_ignores_order(result: GameResult, elapsed_ms: u64, owners: Seq<usize>, others: Seq<usize>, local: usize)
    requires
        forall|x: usize| owners.contains(x) <==> others.contains(x),
    ensures
        spec_game_result(result, elapsed_ms, owners, local) == spec_game_result(result, elapsed_ms, others, local),
{
    if exists|i: int| 0 <= i < owners.len() && owners[i] == local {
        let i = choose|i: int| 0 <= i < owners.len() && owners[i] == local;
        assert(owners.contains(owners[i]));
        assert(others.contains(local));
    }
    if exists|i: int| 0 <= i < others.len() && others[i] == local {
        let i = choose|i: int| 0 <= i < others.len() && others[i] == local;
        assert(others.contains(others[i]));
        assert(owners.contains(local));
    }
    if exists|i: int| 0 <= i < owners.len() && owners[i] != local {
        let i = choose|i: int| 0 <= i < owners.len() && owners[i] != local;
        assert(owners.contains(owners[i]));
        assert(others.contains(owners[i]));
    }
    if exists|i: int| 0 <= i < others.len() && others[i] != local {
        let i = choose|i: int| 0 <= i < others.len() && others[i] != local;
        assert(others.contains(others[i]));
        assert(owners.contains(others[i]));
    }
}

/// How many players are controlled by the local human.
pub open spec fn spec_local_humans(players: Seq<Player>) -> nat
    decreases players.len(),
{
    if players.len() == 0 {
        0
    } else {
        spec_local_humans(players.drop_last()) + if players.last().controller == PlayerController::LocalHuman { 1nat } else { 0nat }
    }
}

/// The players after the controller button of the first player with id
/// `id` is pressed: that slot cycles to its next controller, and when that
/// is the local human, every other local human slot becomes a computer
/// player.
pub open spec fn spec_after_toggle(players: Seq<Player>, k: int) -> Seq<Player> {
    let next = spec_next_controller(players[k].controller);
    Seq::new(players.len(), |j: int|
        if j == k {
            Player { controller: next, ..players[j] }
        } else if next == PlayerController::LocalHuman && players[j].controller == PlayerController::LocalHuman {
            Player { controller: PlayerController::AI, ..players[j] }
        } else {
            players[j]
        })
}

/// Cycles the controller of the player with the given id (see
/// `PlayerController::cycled`); at most one slot is ever the local human.
pub fn toggle_controller(players: &mut Players, id: usize)
    ensures
        old(players).wf() ==> final(players).wf(),
        crate::player::spec_player_index(old(players).players@, id) < 0 ==> final(players).players@ == old(players).players@,
        crate::player::spec_player_index(old(players).players@, id) >= 0 ==>
            final(players).players@ == spec_after_toggle(old(players).players@, crate::player::spec_player_index(old(players).players@, id)),
{
    let k = match players.index_of(id) {
        None => return,
        Some(k) => k,
    };
    let next = players.players[k].controller.cycled();
    let ghost before = players.players@;
    let mut j: usize = 0;
    while j < players.players.len()
        invariant
            k < before.len(),
            players.players@.len() == before.len(),
            next == spec_next_controller(before[k as int].controller),
            j <= before.len(),
            forall|m: int| 0 <= m < j ==> #[trigger] players.players@[m] == spec_after_toggle(before, k as int)[m],
            forall|m: int| j <= m < before.len() ==> #[trigger] players.players@[m] == before[m],
        decreases before.len() - j,
    {
        if j == k {
            players.players[j].controller = next;
        } else if next == PlayerController::LocalHuman && players.players[j].controller == PlayerController::LocalHuman {
            players.players[j].controller = PlayerController::AI;
        }
        j = j + 1;
    }
    assert(players.players@ =~= spec_after_toggle(before, k as int));
}

proof fn lemma_local_humans_bound(players: Seq<Player>)
    ensures
        spec_local_humans(players) <= players.len(),
        spec_local_humans(players) == 0 <==> forall|j: int| 0 <= j < players.len() ==> (#[trigger] players[j]).controller != PlayerController::LocalHuman,
    decreases players.len(),
{
    if players.len() > 0 {
        lemma_local_humans_bound(players.drop_last());
        assert forall|j: int| 0 <= j < players.len() - 1 implies players.drop_last()[j] == #[trigger] players[j] by {}
    }
}

proof fn lemma_local_humans_one(players: Seq<Player>, k: int)
    requires
        0 <= k < players.len(),
        players[k].controller == PlayerController::LocalHuman,
        forall|j: int| 0 <= j < players.len() && j != k ==> (#[trigger] players[j]).controller != PlayerController::LocalHuman,
    ensures
        spec_local_humans(players) == 1,
    decreases players.len(),
{
    let init = players.drop_last();
    if k == players.len() - 1 {
        assert forall|j: int| 0 <= j < init.len() implies (#[trigger] init[j]).controller != PlayerController::LocalHuman by {
            assert(init[j] == players[j]);
        }
        lemma_local_humans_bound(init);
    } else {
        assert forall|j: int| 0 <= j < init.len() && j != k implies (#[trigger] init[j]).controller != PlayerController::LocalHuman by {
            assert(init[j] == players[j]);
        }
        lemma_local_humans_one(init, k);
    }
}

proof fn lemma_local_humans_drop(players: Seq<Player>, after: Seq<Player>)
    requires
        players.len() == after.len(),
        forall|j: int| 0 <= j < players.len() && (#[trigger] after[j]).controller == PlayerController::LocalHuman
            ==> players[j].controller == PlayerController::LocalHuman,
    ensures
        spec_local_humans(after) <= spec_local_humans(players),
    decreases players.len(),
{
    if players.len() > 0 {
        let p = players.drop_last();
        let a = after.drop_last();
        assert forall|j: int| 0 <= j < p.len() && (#[trigger] a[j]).controller == PlayerController::LocalHuman
            implies p[j].controller == PlayerController::LocalHuman by {
            assert(a[j] == after[j] && p[j] == players[j]);
        }
        lemma_local_humans_drop(p, a);
    }
}

/// Pressing a slot's controller button never leaves more than one slot to
/// the local human when there was at most one before.
pub proof fn law_single_local_human(players: Seq<Player>, k: int)
    requires
        0 <= k < players.len(),
        spec_local_humans(players) <= 1,
    ensures
        spec_local_humans(spec_after_toggle(players, k)) <= 1,
{
    let after = spec_after_toggle(players, k);
    let next = spec_next_controller(players[k].controller);
    if next == PlayerController::LocalHuman {
        assert forall|j: int| 0 <= j < after.len() && j != k implies (#[trigger] after[j]).controller != PlayerController::LocalHuman by {}
        lemma_local_humans_one(after, k);
    } else {
        assert forall|j: int| 0 <= j < players.len() && (#[trigger] after[j]).controller == PlayerController::LocalHuman
            implies players[j].controller == PlayerController::LocalHuman by {}
        lemma_local_humans_drop(players, after);
    }
}

/// The id of the first player controlled by the local human.
pub fn local_human_id(players: &Players) -> (r: Option<usize>)
    ensures
        r is None <==> forall|j: int| 0 <= j < players.players@.len() ==> (#[trigger] players.players@[j]).controller != PlayerController::LocalHuman,
        r matches Some(id) ==> exists|j: int| 0 <= j < players.players@.len()
            && (#[trigger] players.players@[j]).controller == PlayerController::LocalHuman && players.players@[j].id == id
            && forall|m: int| 0 <= m < j ==> (#[trigger] players.players@[m]).controller != PlayerController::LocalHuman,
{
    let mut j: usize = 0;
    while j < players.players.len()
        invariant
            j <= players.players@.len(),
            forall|m: int| 0 <= m < j ==> (#[trigger] players.players@[m]).controller != PlayerController::LocalHuman,
        decreases players.players@.len() - j,
    {
        if players.players[j].controller == PlayerController::LocalHuman {
            return Some(players.players[j].id);
        }
        j = j + 1;
    }
    None
}


/// Text `a` comes before text `b` in lexicographic order of characters.
pub open spec fn spec_text_lt(a: Seq<char>, b: Seq<char>) -> bool
    decreases a.len(),
{
    if a.len() == 0 {
        b.len() > 0
    } else if b.len() == 0 {
        false
    } else if a[0] != b[0] {
        a[0] < b[0]
    } else {
        spec_text_lt(a.drop_first(), b.drop_first())
    }
}

/// Whether text `a` comes before text `b`.
pub fn text_lt(a: &str, b: &str) -> (r: bool)
    ensures
        r == spec_text_lt(a@, b@),
{
    let n = a.unicode_len();
    let m = b.unicode_len();
    let mut i: usize = 0;
    assert(a@.subrange(0, n as int) =~= a@);
    assert(b@.subrange(0, m as int) =~= b@);
    while i < n && i < m && a.get_char(i) == b.get_char(i)
        invariant
            i <= n,
            i <= m,
            n == a@.len(),
            m == b@.len(),
            spec_text_lt(a@, b@) == spec_text_lt(a@.subrange(i as int, n as int), b@.subrange(i as int, m as int)),
        decreases n - i,
    {
        proof {
            let sa = a@.subrange(i as int, n as int);
            let sb = b@.subrange(i as int, m as int);
            assert(sa[0] == a@[i as int] && sb[0] == b@[i as int]);
            assert(sa.drop_first() =~= a@.subrange(i + 1, n as int));
            assert(sb.drop_first() =~= b@.subrange(i + 1, m as int));
        }
        i = i + 1;
    }
    let ghost sa = a@.subrange(i as int, n as int);
    let ghost sb = b@.subrange(i as int, m as int);
    if i == n {
        assert(sa.len() == 0);
        i < m
    } else if i == m {
        assert(sb.len() == 0 && sa.len() > 0);
        false
    } else {
        assert(sa[0] == a@[i as int] && sb[0] == b@[i as int]);
        let ca = a.get_char(i);
        let cb = b.get_char(i);
        assert(ca != cb);
        ca < cb
    }
}

/// The ids of a list of names are pairwise different.
pub open spec fn spec_distinct_names(names: Seq<String>) -> bool {
    forall|i: int, j: int| 0 <= i < j < names.len() ==> (#[trigger] names[i])@ != (#[trigger] names[j])@
}

/// `names[k]` comes first in lexicographic order among the names that
/// `keep` selects.
pub open spec fn spec_least_where(names: Seq<String>, k: int, keep: spec_fn(Seq<char>) -> bool) -> bool {
    &&& 0 <= k < names.len()
    &&& keep(names[k]@)
    &&& forall|j: int| 0 <= j < names.len() && j != k && keep((#[trigger] names[j])@) ==> spec_text_lt(names[k]@, names[j]@)
}

/// The faction a player's faction button switches to: with the factions in
/// lexicographic order, the one after the current one (wrapping round to
/// the first), or the first one when the current one is not among them;
/// `None` when there is no faction.
pub open spec fn spec_next_faction(current: Seq<char>, factions: Seq<String>, r: Option<String>) -> bool {
    let after = |t: Seq<char>| spec_text_lt(current, t);
    let any = |t: Seq<char>| true;
    if factions.len() == 0 {
        r is None
    } else if (exists|i: int| 0 <= i < factions.len() && (#[trigger] factions[i])@ == current)
        && (exists|i: int| 0 <= i < factions.len() && spec_text_lt(current, (#[trigger] factions[i])@)) {
        r matches Some(f) && exists|k: int| #[trigger] spec_least_where(factions, k, after) && f@ == factions[k]@
    } else {
        r matches Some(f) && exists|k: int| #[trigger] spec_least_where(factions, k, any) && f@ == factions[k]@
    }
}

proof fn lemma_text_lt_total(a: Seq<char>, b: Seq<char>)
    ensures
        a != b ==> spec_text_lt(a, b) || spec_text_lt(b, a),
        !(spec_text_lt(a, b) && spec_text_lt(b, a)),
    decreases a.len(),
{
    if a.len() > 0 && b.len() > 0 && a[0] == b[0] {
        lemma_text_lt_total(a.drop_first(), b.drop_first());
        if a != b {
            assert(a.drop_first() != b.drop_first()) by {
                if a.drop_first() == b.drop_first() {
                    assert(a =~= seq![a[0]] + a.drop_first());
                    assert(b =~= seq![b[0]] + b.drop_first());
                }
            }
        }
    } else if a.len() == 0 && b.len() == 0 {
        assert(a =~= b);
    } else if a.len() > 0 && b.len() > 0 {
    }
}

proof fn lemma_text_lt_irreflexive(a: Seq<char>)
    ensures
        !spec_text_lt(a, a),
    decreases a.len(),
{
    if a.len() > 0 {
        lemma_text_lt_irreflexive(a.drop_first());
    }
}

proof fn lemma_text_lt_trans(a: Seq<char>, b: Seq<char>, c: Seq<char>)
    requires
        spec_text_lt(a, b),
        spec_text_lt(b, c),
    ensures
        spec_text_lt(a, c),
    decreases a.len(),
{
    if a.len() > 0 && b.len() > 0 && c.len() > 0 && a[0] == b[0] && b[0] == c[0] {
        lemma_text_lt_trans(a.drop_first(), b.drop_first(), c.drop_first());
    }
}

/// The least of the names that come after `current` (or of all names, when
/// `after_only` is false), as an index.
fn least_name(names: &Vec<String>, current: &str, after_only: bool) -> (r: Option<usize>)
    requires
        spec_distinct_names(names@),
    ensures
        ({
            let keep = |t: Seq<char>| !after_only || spec_text_lt(current@, t);
            &&& r is None <==> forall|j: int| 0 <= j < names@.len() ==> !keep((#[trigger] names@[j])@)
            &&& r matches Some(k) ==> spec_least_where(names@, k as int, keep)
        }),
{
    let ghost keep = |t: Seq<char>| !after_only || spec_text_lt(current@, t);
    let mut best: Option<usize> = None;
    let mut i: usize = 0;
    while i < names.len()
        invariant
            i <= names@.len(),
            spec_distinct_names(names@),
            keep == |t: Seq<char>| !after_only || spec_text_lt(current@, t),
            best is None ==> forall|j: int| 0 <= j < i ==> !keep((#[trigger] names@[j])@),
            best matches Some(b) ==> b < i && keep(names@[b as int]@)
                && forall|j: int| 0 <= j < i && j != b && keep((#[trigger] names@[j])@) ==> spec_text_lt(names@[b as int]@, names@[j]@),
        decreases names@.len() - i,
    {
        let kept = !after_only || text_lt(current, names[i].as_str());
        if kept {
            match best {
                None => {
                    best = Some(i);
                },
                Some(b) => {
                    if text_lt(names[i].as_str(), names[b].as_str()) {
                        proof {
                            assert forall|j: int| 0 <= j < i + 1 && j != i && keep((#[trigger] names@[j])@) implies spec_text_lt(names@[i as int]@, names@[j]@) by {
                                if j != b {
                                    lemma_text_lt_trans(names@[i as int]@, names@[b as int]@, names@[j]@);
                                }
                            }
                        }
                        best = Some(i);
                    } else {
                        proof {
                            assert(names@[b as int]@ != names@[i as int]@);
                            lemma_text_lt_total(names@[b as int]@, names@[i as int]@);
                        }
                    }
                },
            }
        }
        i = i + 1;
    }
    best
}

/// The faction after `current` (see `spec_next_faction`).
pub fn next_faction(current: &str, factions: &Vec<String>) -> (r: Option<String>)
    requires
        spec_distinct_names(factions@),
    ensures
        spec_next_faction(current@, factions@, r),
{
    if factions.len() == 0 {
        return None;
    }
    let present = crate::defs::contains_name(factions, current);
    let ghost after = |t: Seq<char>| spec_text_lt(current@, t);
    let ghost any = |t: Seq<char>| true;
    if present {
        match least_name(factions, current, true) {
            Some(k) => {
                assert(spec_least_where(factions@, k as int, after));
                assert(spec_text_lt(current@, factions@[k as int]@));
                return Some(factions[k].clone());
            },
            None => {},
        }
    }
    match least_name(factions, current, false) {
        Some(k) => {
            assert(spec_least_where(factions@, k as int, any));
            Some(factions[k].clone())
        },
        None => {
            assert(factions@[0]@ == factions@[0]@);
            None
        },
    }
}


/// Credits every player starts a match with.
pub const STARTING_CREDITS: u32 = 8000;

/// Some player has the given id.
pub open spec fn spec_has_player(players: Seq<Player>, id: usize) -> bool {
    exists|j: int| 0 <= j < players.len() && (#[trigger] players[j]).id == id
}

/// The players whose id is below `limit`, in order.
pub open spec fn spec_keep_below(players: Seq<Player>, limit: usize) -> Seq<Player>
    decreases players.len(),
{
    if players.len() == 0 {
        Seq::empty()
    } else {
        let rest = spec_keep_below(players.drop_last(), limit);
        if players.last().id < limit { rest.push(players.last()) } else { rest }
    }
}

/// A computer player with the given id (on its own team) and faction.
pub open spec fn spec_new_ai(id: usize, faction: Seq<char>, p: Player) -> bool {
    p.id == id && p.team_id == id && p.faction@ == faction && p.controller == PlayerController::AI && p.credits == STARTING_CREDITS
}

/// `added` holds, in increasing order of id, a new computer player for
/// each id below `n` that no player of `players` has.
pub open spec fn spec_missing_added(players: Seq<Player>, n: int, faction: Seq<char>, added: Seq<Player>) -> bool
    decreases n,
{
    if n <= 0 {
        added.len() == 0
    } else if spec_has_player(players, (n - 1) as usize) {
        spec_missing_added(players, n - 1, faction, added)
    } else {
        added.len() > 0 && spec_new_ai((n - 1) as usize, faction, added.last())
            && spec_missing_added(players, n - 1, faction, added.drop_last())
    }
}

/// The faction of the computer players that fill missing slots: the first
/// known faction, else the fallback.
pub open spec fn spec_slot_faction(first_faction: Option<String>, fallback: Seq<char>) -> Seq<char> {
    match first_faction {
        Some(f) => f@,
        None => fallback,
    }
}

/// The players a new skirmish starts from: when there are none and a
/// faction is known, the local human (id 0) and a computer player (id 1),
/// both of that faction.
pub open spec fn spec_initial_players(players: Seq<Player>, first_faction: Option<String>, start: Seq<Player>) -> bool {
    if players.len() == 0 && first_faction is Some {
        let f = first_faction->0@;
        &&& start.len() == 2
        &&& start[0].id == 0 && start[0].team_id == 0 && start[0].faction@ == f
            && start[0].controller == PlayerController::LocalHuman && start[0].credits == STARTING_CREDITS
        &&& spec_new_ai(1, f, start[1])
    } else {
        start == players
    }
}

/// Some player of `players` is the local human.
pub open spec fn spec_has_local_human(players: Seq<Player>) -> bool {
    exists|i: int| 0 <= i < players.len() && (#[trigger] players[i]).controller == PlayerController::LocalHuman
}

/// `k` is the first position of a player with id 0.
pub open spec fn spec_first_player_zero(players: Seq<Player>, k: int) -> bool {
    0 <= k < players.len() && players[k].id == 0 && forall|j: int| 0 <= j < k ==> (#[trigger] players[j]).id != 0
}

/// A non-empty list without a local human hands player 0 (if there is one)
/// to the local human; any other list stays as it is.
pub open spec fn spec_with_local_human(players: Seq<Player>) -> Seq<Player> {
    if players.len() > 0 && !spec_has_local_human(players) && exists|k: int| #[trigger] spec_first_player_zero(players, k) {
        let k = choose|k: int| #[trigger] spec_first_player_zero(players, k);
        players.update(k, Player { controller: PlayerController::LocalHuman, ..players[k] })
    } else {
        players
    }
}

fn new_player(id: usize, faction: &str, controller: PlayerController) -> (p: Player)
    ensures
        p.id == id,
        p.team_id == id,
        p.faction@ == faction@,
        p.controller == controller,
        p.credits == STARTING_CREDITS,
{
    Player { id, team_id: id, faction: faction.to_string(), controller, credits: STARTING_CREDITS }
}

fn copy_player(p: &Player) -> (r: Player)
    ensures
        r == *p,
{
    Player { id: p.id, team_id: p.team_id, faction: p.faction.clone(), controller: p.controller, credits: p.credits }
}

fn has_player(players: &Vec<Player>, id: usize) -> (r: bool)
    ensures
        r == spec_has_player(players@, id),
{
    let mut j: usize = 0;
    while j < players.len()
        invariant
            j <= players@.len(),
            forall|m: int| 0 <= m < j ==> (#[trigger] players@[m]).id != id,
        decreases players@.len() - j,
    {
        if players[j].id == id {
            return true;
        }
        j = j + 1;
    }
    false
}

/// The players kept below a limit are players of the list, with ids below
/// the limit, and keep the list's ids distinct.
proof fn lemma_keep_below(players: Seq<Player>, limit: usize)
    ensures
        forall|m: int| 0 <= m < spec_keep_below(players, limit).len() ==>
            (#[trigger] spec_keep_below(players, limit)[m]).id < limit
            && spec_has_player(players, spec_keep_below(players, limit)[m].id),
        spec_distinct_ids(players) ==> spec_distinct_ids(spec_keep_below(players, limit)),
    decreases players.len(),
{
    if players.len() > 0 {
        let rest = players.drop_last();
        lemma_keep_below(rest, limit);
        let kr = spec_keep_below(rest, limit);
        let k = spec_keep_below(players, limit);
        assert forall|m: int| 0 <= m < k.len() implies (#[trigger] k[m]).id < limit && spec_has_player(players, k[m].id) by {
            if m < kr.len() {
                assert(k[m] == kr[m]);
                let j = choose|j: int| 0 <= j < rest.len() && (#[trigger] rest[j]).id == kr[m].id;
                assert(players[j] == rest[j]);
            } else {
                assert(k[m] == players.last());
                assert(players[players.len() - 1] == players.last());
            }
        }
        if spec_distinct_ids(players) {
            assert(spec_distinct_ids(rest)) by {
                assert forall|i: int, j: int| 0 <= i < j < rest.len() implies (#[trigger] rest[i]).id != (#[trigger] rest[j]).id by {
                    assert(rest[i] == players[i] && rest[j] == players[j]);
                }
            }
            assert forall|i: int, j: int| 0 <= i < j < k.len() implies (#[trigger] k[i]).id != (#[trigger] k[j]).id by {
                if j >= kr.len() {
                    assert(k[i] == kr[i]);
                    assert(spec_has_player(rest, kr[i].id));
                    let q = choose|q: int| 0 <= q < rest.len() && (#[trigger] rest[q]).id == kr[i].id;
                    assert(rest[q] == players[q]);
                    assert(k[j] == players[players.len() - 1]);
                } else {
                    assert(k[i] == kr[i] && k[j] == kr[j]);
                }
            }
        }
    }
}

/// The players added for missing slots have ids below `n` that no player of
/// the list has, and distinct ones.
proof fn lemma_missing_added(players: Seq<Player>, n: int, faction: Seq<char>, added: Seq<Player>)
    requires
        spec_missing_added(players, n, faction, added),
        n <= usize::MAX,
    ensures
        forall|m: int| 0 <= m < added.len() ==> (#[trigger] added[m]).id < n && !spec_has_player(players, added[m].id),
        spec_distinct_ids(added),
    decreases n,
{
    if n > 0 {
        if spec_has_player(players, (n - 1) as usize) {
            lemma_missing_added(players, n - 1, faction, added);
        } else {
            let rest = added.drop_last();
            lemma_missing_added(players, n - 1, faction, rest);
            assert forall|m: int| 0 <= m < added.len() implies (#[trigger] added[m]).id < n && !spec_has_player(players, added[m].id) by {
                if m < rest.len() {
                    assert(added[m] == rest[m]);
                }
            }
            assert forall|i: int, j: int| 0 <= i < j < added.len() implies (#[trigger] added[i]).id != (#[trigger] added[j]).id by {
                assert(added[i] == rest[i]);
                assert(rest[i].id < n - 1);
                if j < rest.len() {
                    assert(added[j] == rest[j]);
                } else {
                    assert(added[j] == added.last());
                    assert(added.last().id == (n - 1) as usize);
                }
            }
        }
    }
}

/// Handing player 0 to the local human changes no id.
proof fn lemma_with_local_human_ids(players: Seq<Player>)
    ensures
        spec_same_ids(players, spec_with_local_human(players)),
{
}

/// Sets up the player slots of a skirmish for a map recommending
/// `recommended` players: an empty list starts with the local human and a
/// computer player (when a faction is known); every missing slot below
/// `recommended` gets a computer player of the first faction (or of the
/// fallback faction when none is known); players beyond `recommended` are
/// dropped; and if no one is then the local human, player 0 becomes it.
pub fn ensure_player_slots(players: &mut Players, recommended: usize, first_faction: Option<String>, fallback_faction: &str)
    ensures
        old(players).wf() ==> final(players).wf(),
        exists|start: Seq<Player>, added: Seq<Player>|
            #[trigger] spec_initial_players(old(players).players@, first_faction, start)
            && #[trigger] spec_missing_added(start, recommended as int, spec_slot_faction(first_faction, fallback_faction@), added)
            && final(players).players@ == spec_with_local_human(spec_keep_below(start, recommended) + added),
{
    let ghost given = players.players@;
    if players.players.len() == 0 {
        match &first_faction {
            Some(f) => {
                players.players.push(new_player(0, f.as_str(), PlayerController::LocalHuman));
                players.players.push(new_player(1, f.as_str(), PlayerController::AI));
            },
            None => {},
        }
    }
    let ghost start = players.players@;
    assert(spec_initial_players(given, first_faction, start));
    let faction: &str = match &first_faction {
        Some(f) => f.as_str(),
        None => fallback_faction,
    };
    let mut added: Vec<Player> = Vec::new();
    let mut i: usize = 0;
    while i < recommended
        invariant
            i <= recommended,
            players.players@ == start,
            spec_missing_added(start, i as int, faction@, added@),
            forall|m: int| 0 <= m < added@.len() ==> (#[trigger] added@[m]).id < i,
        decreases recommended - i,
    {
        if !has_player(&players.players, i) {
            let ghost before = added@;
            added.push(new_player(i, faction, PlayerController::AI));
            assert(added@.drop_last() =~= before);
        }
        i = i + 1;
    }
    let mut kept: Vec<Player> = Vec::new();
    let mut j: usize = 0;
    while j < players.players.len()
        invariant
            j <= start.len(),
            players.players@ == start,
            kept@ == spec_keep_below(start.subrange(0, j as int), recommended),
        decreases start.len() - j,
    {
        assert(start.subrange(0, j + 1).drop_last() =~= start.subrange(0, j as int));
        if players.players[j].id < recommended {
            kept.push(copy_player(&players.players[j]));
        }
        j = j + 1;
    }
    assert(start.subrange(0, start.len() as int) =~= start);
    let ghost added_view = added@;
    kept.append(&mut added);
    let ghost combined = kept@;
    promote_local_human(&mut kept);
    players.players = kept;
    proof {
        assert(spec_slot_faction(first_faction, fallback_faction@) == faction@);
        assert(spec_initial_players(given, first_faction, start));
        assert(spec_missing_added(start, recommended as int, spec_slot_faction(first_faction, fallback_faction@), added_view));
        assert(combined =~= spec_keep_below(start, recommended) + added_view);
        if old(players).wf() {
            assert(spec_distinct_ids(start)) by {
                if given.len() == 0 && first_faction is Some {
                    assert forall|i: int, j: int| 0 <= i < j < start.len() implies (#[trigger] start[i]).id != (#[trigger] start[j]).id by {
                        assert(i == 0 && j == 1);
                    }
                }
            }
            lemma_keep_below(start, recommended);
            lemma_missing_added(start, recommended as int, faction@, added_view);
            let kb = spec_keep_below(start, recommended);
            assert forall|i: int, j: int| 0 <= i < j < combined.len() implies (#[trigger] combined[i]).id != (#[trigger] combined[j]).id by {
                if j < kb.len() {
                    assert(combined[i] == kb[i] && combined[j] == kb[j]);
                } else if i >= kb.len() {
                    assert(combined[i] == added_view[i - kb.len()] && combined[j] == added_view[j - kb.len()]);
                } else {
                    assert(combined[i] == kb[i] && combined[j] == added_view[j - kb.len()]);
                    assert(spec_has_player(start, kb[i].id));
                    assert(!spec_has_player(start, added_view[j - kb.len()].id));
                }
            }
            lemma_with_local_human_ids(combined);
            lemma_same_ids_distinct(combined, spec_with_local_human(combined));
        }
    }
}

/// Hands player 0 to the local human when a non-empty list has none.
fn promote_local_human(players: &mut Vec<Player>)
    ensures
        final(players)@ == spec_with_local_human(old(players)@),
{
    if players.len() == 0 {
        return;
    }
    let mut i: usize = 0;
    while i < players.len()
        invariant
            i <= players@.len(),
            players@ == old(players)@,
            forall|m: int| 0 <= m < i ==> (#[trigger] players@[m]).controller != PlayerController::LocalHuman,
        decreases players@.len() - i,
    {
        if players[i].controller == PlayerController::LocalHuman {
            assert(spec_has_local_human(players@));
            return;
        }
        i = i + 1;
    }
    assert(!spec_has_local_human(players@));
    let mut k: usize = 0;
    while k < players.len()
        invariant
            k <= players@.len(),
            players@ == old(players)@,
            !spec_has_local_human(players@),
            players@.len() > 0,
            forall|m: int| 0 <= m < k ==> (#[trigger] players@[m]).id != 0,
        decreases players@.len() - k,
    {
        if players[k].id == 0 {
            proof {
                assert(spec_first_player_zero(players@, k as int));
                let c = choose|c: int| #[trigger] spec_first_player_zero(players@, c);
                if c < k {
                    assert(players@[c].id != 0);
                }
                if k < c {
                    assert(players@[k as int].id != 0);
                }
                assert(c == k);
            }
            let mut p = copy_player(&players[k]);
            p.controller = PlayerController::LocalHuman;
            players.set(k, p);
            return;
        }
        k = k + 1;
    }
    assert(!exists|c: int| #[trigger] spec_first_player_zero(players@, c));
}

} // verus!
