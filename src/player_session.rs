use vstd::prelude::*;
use crate::models::{Perk, PlayerInGame, PlayerInfo};
use crate::text::{
    blank, compare_text, is_blank, lemma_text_lt_irreflexive, lemma_text_lt_transitive,
    lemma_text_lt_trichotomy, text_lt,
};

verus! {

/// One player's participation in one match. Times are milliseconds since the
/// Unix epoch.
#[derive(Clone, Copy, Debug, PartialEq, Eq, Structural)]
pub struct PlayerSession {
    pub db_id: Option<u32>,
    pub game_session_id: u32,
    pub steam_id: u64,
    pub perk: Perk,
    pub kills: u32,
    pub started_at: i64,
    pub ended_at: i64,
}

/// What the store has to do for one aligned player.
#[derive(Clone, Copy, Debug, PartialEq, Eq, Structural)]
pub enum ParticipationStep {
    /// A first sighting in this match: insert the row, then count one more
    /// attended match for the player.
    Insert(PlayerSession),
    /// The held row, refreshed, to write back under its id.
    Update(PlayerSession),
}

/// Why the participation stage of a poll was abandoned.
#[derive(Clone, Copy, Debug, PartialEq, Eq, Structural)]
pub enum StageError {
    /// The two rosters differ in length (identity roster, in-game roster).
    LengthMismatch(usize, usize),
    /// Players are listed but no match with a store id is held.
    NoSession,
    /// A roster holds an empty or white-space name.
    BlankName,
    /// A roster holds the same name twice.
    DuplicateName,
}

pub open spec fn names_of_identities(v: Seq<PlayerInfo>) -> Seq<Seq<char>> {
    v.map_values(|p: PlayerInfo| p.name@)
}

pub open spec fn names_in_game(v: Seq<PlayerInGame>) -> Seq<Seq<char>> {
    v.map_values(|p: PlayerInGame| p.name@)
}

pub open spec fn distinct_texts(names: Seq<Seq<char>>) -> bool {
    forall|i: int, j: int|
        0 <= i < names.len() && 0 <= j < names.len() && i != j ==> names[i] != names[j]
}

pub open spec fn any_blank(names: Seq<Seq<char>>) -> bool {
    exists|i: int| 0 <= i < names.len() && is_blank(#[trigger] names[i])
}

/// `p` lists the indices of `names` in ascending order of name.
pub open spec fn is_name_order(names: Seq<Seq<char>>, p: Seq<usize>) -> bool {
    &&& p.len() == names.len()
    &&& forall|k: int| 0 <= k < p.len() ==> (#[trigger] p[k]) < names.len()
    &&& forall|j: usize| j < names.len() ==> #[trigger] p.contains(j)
    &&& forall|a: int, b: int|
        0 <= a < b < p.len() ==> text_lt(names[#[trigger] p[a] as int], names[#[trigger] p[b] as int])
}

/// The row that the pairing of `who` (identity roster) with `seen` (in-game
/// roster) proposes at time `now`.
pub open spec fn candidate(session_id: u32, who: PlayerInfo, seen: PlayerInGame, now: i64) -> PlayerSession {
    PlayerSession {
        db_id: None,
        game_session_id: session_id,
        steam_id: who.steam_id,
        perk: seen.perk,
        kills: seen.kills,
        started_at: now,
        ended_at: now,
    }
}

/// Candidates of both rosters paired by position once each is in name order.
pub open spec fn aligned_candidates(
    session_id: u32,
    identities: Seq<PlayerInfo>,
    in_game: Seq<PlayerInGame>,
    pu: Seq<usize>,
    pg: Seq<usize>,
    now: i64,
) -> Seq<PlayerSession> {
    Seq::new(
        pu.len(),
        |k: int| candidate(session_id, identities[pu[k] as int], in_game[pg[k] as int], now),
    )
}

pub open spec fn same_key(h: PlayerSession, c: PlayerSession) -> bool {
    h.game_session_id == c.game_session_id && h.steam_id == c.steam_id
}

/// Index of the first held row with the key of `c`, or -1.
pub open spec fn held_index(held: Seq<PlayerSession>, c: PlayerSession) -> int
    decreases held.len(),
{
    if held.len() == 0 {
        -1
    } else {
        let r = held_index(held.drop_last(), c);
        if r >= 0 {
            r
        } else if same_key(held.last(), c) {
            held.len() - 1
        } else {
            -1
        }
    }
}

/// The held row refreshed by a new sighting.
pub open spec fn refreshed(h: PlayerSession, c: PlayerSession) -> PlayerSession {
    PlayerSession { perk: c.perk, kills: c.kills, ended_at: c.ended_at, ..h }
}

pub open spec fn step_for(held: Seq<PlayerSession>, c: PlayerSession) -> ParticipationStep {
    let j = held_index(held, c);
    if j >= 0 {
        ParticipationStep::Update(refreshed(held[j], c))
    } else {
        ParticipationStep::Insert(c)
    }
}

/// Some candidate of `cands` has the key (match and player) of `c`.
pub open spec fn key_seen(cands: Seq<PlayerSession>, c: PlayerSession) -> bool {
    exists|j: int| 0 <= j < cands.len() && same_key(#[trigger] cands[j], c)
}

/// One step per key, for the first candidate with that key, in candidate
/// order: the store holds one row per match and player.
pub open spec fn planned_steps(held: Seq<PlayerSession>, cands: Seq<PlayerSession>) -> Seq<
    ParticipationStep,
>
    decreases cands.len(),
{
    if cands.len() == 0 {
        Seq::empty()
    } else {
        let prev = planned_steps(held, cands.drop_last());
        if key_seen(cands.drop_last(), cands.last()) {
            prev
        } else {
            prev.push(step_for(held, cands.last()))
        }
    }
}

/// The row a step leaves in the store when it succeeded under id `id`.
pub open spec fn stored_row(s: ParticipationStep, id: u32) -> PlayerSession {
    match s {
        ParticipationStep::Insert(c) => PlayerSession { db_id: Some(id), ..c },
        ParticipationStep::Update(h) => h,
    }
}

/// The held list after the first `k` steps were carried out; `outcomes[i]` is
/// the store id of a step that succeeded, `None` for one that failed.
pub open spec fn committed(steps: Seq<ParticipationStep>, outcomes: Seq<Option<u32>>, k: int) -> Seq<
    PlayerSession,
>
    decreases k,
{
    if k <= 0 {
        Seq::empty()
    } else {
        let prev = committed(steps, outcomes, k - 1);
        match outcomes[k - 1] {
            Some(id) => prev.push(stored_row(steps[k - 1], id)),
            None => prev,
        }
    }
}

/// Number of inserts, that is of attended matches counted, for `steam_id`.
pub open spec fn inserts_for(steps: Seq<ParticipationStep>, steam_id: u64) -> int
    decreases steps.len(),
{
    if steps.len() == 0 {
        0
    } else {
        inserts_for(steps.drop_last(), steam_id) + match steps.last() {
            ParticipationStep::Insert(c) => if c.steam_id == steam_id { 1int } else { 0int },
            ParticipationStep::Update(_) => 0int,
        }
    }
}

fn identity_names(v: &Vec<PlayerInfo>) -> (r: Vec<String>)
    ensures
        r@.map_values(|s: String| s@) == names_of_identities(v@),
{
    let mut r: Vec<String> = Vec::new();
    let mut i: usize = 0;
    while i < v.len()
        invariant
            i <= v.len(),
            r@.len() == i,
            forall|k: int| 0 <= k < i ==> (#[trigger] r@[k])@ == v@[k].name@,
        decreases v.len() - i,
    {
        r.push(v[i].name.clone());
        i = i + 1;
    }
    assert(r@.map_values(|s: String| s@) =~= names_of_identities(v@));
    r
}

fn in_game_names(v: &Vec<PlayerInGame>) -> (r: Vec<String>)
    ensures
        r@.map_values(|s: String| s@) == names_in_game(v@),
{
    let mut r: Vec<String> = Vec::new();
    let mut i: usize = 0;
    while i < v.len()
        invariant
            i <= v.len(),
            r@.len() == i,
            forall|k: int| 0 <= k < i ==> (#[trigger] r@[k])@ == v@[k].name@,
        decreases v.len() - i,
    {
        r.push(v[i].name.clone());
        i = i + 1;
    }
    assert(r@.map_values(|s: String| s@) =~= names_in_game(v@));
    r
}

/// Whether some name is empty or only white space.
pub fn has_blank_name(names: &Vec<String>) -> (r: bool)
    ensures
        r == any_blank(names@.map_values(|s: String| s@)),
{
    let ghost texts = names@.map_values(|s: String| s@);
    let mut i: usize = 0;
    while i < names.len()
        invariant
            i <= names.len(),
            texts == names@.map_values(|s: String| s@),
            forall|k: int| 0 <= k < i ==> !is_blank(#[trigger] texts[k]),
        decreases names.len() - i,
    {
        if blank(names[i].as_str()) {
            assert(is_blank(texts[i as int]));
            return true;
        }
        i = i + 1;
    }
    false
}

/// The indices of `names` in ascending order of name, or `None` when a name
/// occurs twice.
pub fn name_order(names: &Vec<String>) -> (r: Option<Vec<usize>>)
    ensures
        r is Some <==> distinct_texts(names@.map_values(|s: String| s@)),
        r matches Some(p) ==> is_name_order(names@.map_values(|s: String| s@), p@),
{
    let ghost texts = names@.map_values(|s: String| s@);
    let n = names.len();
    let mut p: Vec<usize> = Vec::new();
    let mut i: usize = 0;
    while i < n
        invariant
            n == names.len(),
            texts == names@.map_values(|s: String| s@),
            i <= n,
            p@.len() == i,
            forall|k: int| 0 <= k < p@.len() ==> (#[trigger] p@[k]) < i,
            forall|j: usize| j < i ==> #[trigger] p@.contains(j),
            forall|a: int, b: int|
                0 <= a < b < p@.len() ==> text_lt(
                    texts[#[trigger] p@[a] as int],
                    texts[#[trigger] p@[b] as int],
                ),
        decreases n - i,
    {
        let mut k: usize = 0;
        let mut after = false;
        while k < p.len() && !after
            invariant
                n == names.len(),
                texts == names@.map_values(|s: String| s@),
                i < n,
                k <= p@.len(),
                forall|m: int| 0 <= m < p@.len() ==> (#[trigger] p@[m]) < i,
                forall|a: int| 0 <= a < k ==> text_lt(texts[#[trigger] p@[a] as int], texts[i as int]),
                after ==> k < p@.len() && text_lt(texts[i as int], texts[p@[k as int] as int]),
            decreases p@.len() - k + (if after { 0int } else { 1int }),
        {
            let c = compare_text(names[p[k]].as_str(), names[i].as_str());
            if c == 0 {
                proof {
                    assert(texts[p@[k as int] as int] == texts[i as int]);
                    assert(p@[k as int] < i);
                }
                return None;
            }
            if c > 0 {
                after = true;
            } else {
                k = k + 1;
            }
        }
        let ghost old_p = p@;
        proof {
            assert forall|b: int| k <= b < old_p.len() implies text_lt(
                texts[i as int],
                texts[#[trigger] old_p[b] as int],
            ) by {
                if b > k {
                    lemma_text_lt_transitive(
                        texts[i as int],
                        texts[old_p[k as int] as int],
                        texts[old_p[b] as int],
                    );
                }
            }
        }
        p.insert(k, i);
        proof {
            assert(p@ == old_p.insert(k as int, i));
            assert forall|a: int, b: int| 0 <= a < b < p@.len() implies text_lt(
                texts[#[trigger] p@[a] as int],
                texts[#[trigger] p@[b] as int],
            ) by {
                if a < k && b < k {
                    assert(p@[a] == old_p[a] && p@[b] == old_p[b]);
                } else if a < k && b == k {
                } else if a < k {
                    assert(p@[a] == old_p[a] && p@[b] == old_p[b - 1]);
                    lemma_text_lt_transitive(
                        texts[old_p[a] as int],
                        texts[i as int],
                        texts[old_p[b - 1] as int],
                    );
                } else if a == k {
                    assert(p@[b] == old_p[b - 1]);
                } else {
                    assert(p@[a] == old_p[a - 1] && p@[b] == old_p[b - 1]);
                }
            }
            assert forall|j: usize| j < i + 1 implies #[trigger] p@.contains(j) by {
                if j == i {
                    assert(p@[k as int] == i);
                } else {
                    assert(old_p.contains(j));
                    let m = choose|m: int| 0 <= m < old_p.len() && old_p[m] == j;
                    if m < k {
                        assert(p@[m] == j);
                    } else {
                        assert(p@[m + 1] == j);
                    }
                }
            }
        }
        i = i + 1;
    }
    proof {
        assert forall|x: int, y: int|
            0 <= x < texts.len() && 0 <= y < texts.len() && x != y implies texts[x] != texts[y] by {
            assert(p@.contains(x as usize));
            assert(p@.contains(y as usize));
            let a = choose|a: int| 0 <= a < p@.len() && p@[a] == x as usize;
            let b = choose|b: int| 0 <= b < p@.len() && p@[b] == y as usize;
            lemma_text_lt_irreflexive(texts[x]);
            if a < b {
                assert(text_lt(texts[p@[a] as int], texts[p@[b] as int]));
            } else {
                assert(text_lt(texts[p@[b] as int], texts[p@[a] as int]));
            }
        }
    }
    Some(p)
}

/// Why the stage is abandoned, if it is: checked in this order.
pub open spec fn stage_error(
    session_id: Option<u32>,
    identities: Seq<PlayerInfo>,
    in_game: Seq<PlayerInGame>,
) -> Option<StageError> {
    if identities.len() == 0 && in_game.len() == 0 {
        None
    } else if identities.len() != in_game.len() {
        Some(StageError::LengthMismatch(identities.len() as usize, in_game.len() as usize))
    } else if session_id is None {
        Some(StageError::NoSession)
    } else if any_blank(names_of_identities(identities)) || any_blank(names_in_game(in_game)) {
        Some(StageError::BlankName)
    } else if !distinct_texts(names_of_identities(identities)) || !distinct_texts(
        names_in_game(in_game),
    ) {
        Some(StageError::DuplicateName)
    } else {
        None
    }
}

proof fn lemma_held_index_extends(held: Seq<PlayerSession>, c: PlayerSession, m: int)
    requires
        0 <= m <= held.len(),
        held_index(held.subrange(0, m), c) >= 0,
    ensures
        held_index(held, c) == held_index(held.subrange(0, m), c),
    decreases held.len() - m,
{
    if m == held.len() {
        assert(held.subrange(0, m) =~= held);
    } else {
        assert(held.drop_last().subrange(0, m) =~= held.subrange(0, m));
        lemma_held_index_extends(held.drop_last(), c, m);
    }
}

proof fn lemma_held_index_valid(held: Seq<PlayerSession>, c: PlayerSession)
    ensures
        -1 <= held_index(held, c) < held.len(),
        held_index(held, c) >= 0 ==> same_key(held[held_index(held, c)], c),
    decreases held.len(),
{
    if held.len() > 0 {
        lemma_held_index_valid(held.drop_last(), c);
    }
}

proof fn lemma_held_index_found(held: Seq<PlayerSession>, c: PlayerSession, j: int)
    requires
        0 <= j < held.len(),
        same_key(held[j], c),
    ensures
        held_index(held, c) >= 0,
    decreases held.len(),
{
    if j < held.len() - 1 {
        lemma_held_index_found(held.drop_last(), c, j);
    }
}

fn holds_steam(v: &Vec<u64>, x: u64) -> (r: bool)
    ensures
        r == exists|m: int| 0 <= m < v@.len() && v@[m] == x,
{
    let mut j: usize = 0;
    while j < v.len()
        invariant
            j <= v@.len(),
            forall|m: int| 0 <= m < j ==> v@[m] != x,
        decreases v@.len() - j,
    {
        if v[j] == x {
            return true;
        }
        j = j + 1;
    }
    false
}

fn find_held(held: &Vec<PlayerSession>, c: &PlayerSession) -> (r: Option<usize>)
    ensures
        match r {
            Some(j) => held_index(held@, *c) == j as int,
            None => held_index(held@, *c) == -1,
        },
{
    let mut j: usize = 0;
    while j < held.len()
        invariant
            j <= held.len(),
            held_index(held@.subrange(0, j as int), *c) == -1,
        decreases held.len() - j,
    {
        proof {
            assert(held@.subrange(0, j + 1).drop_last() =~= held@.subrange(0, j as int));
        }
        if held[j].game_session_id == c.game_session_id && held[j].steam_id == c.steam_id {
            proof {
                lemma_held_index_extends(held@, *c, j + 1);
            }
            return Some(j);
        }
        j = j + 1;
    }
    proof {
        assert(held@.subrange(0, held@.len() as int) =~= held@);
    }
    None
}

/// The participation rows believed current for the held match.
#[derive(Debug)]
pub struct PlayerSessionTracker {
    pub held: Vec<PlayerSession>,
}

impl PlayerSessionTracker {
    pub fn new() -> (r: PlayerSessionTracker)
        ensures
            r.held@.len() == 0,
    {
        PlayerSessionTracker { held: Vec::new() }
    }

    /// Pairs the identity roster with the in-game roster (each sorted by name,
    /// then matched by position) and decides for each pair whether its row is
    /// inserted or the held row updated; a pair whose player was already
    /// paired this tick gets no step. Both rosters empty: nothing to do.
    /// The held list is left as it is; `commit` replaces it.
    pub fn plan(
        &self,
        session_id: Option<u32>,
        identities: &Vec<PlayerInfo>,
        in_game: &Vec<PlayerInGame>,
        now: i64,
    ) -> (r: Result<Vec<ParticipationStep>, StageError>)
        ensures
            identities@.len() == 0 && in_game@.len() == 0 ==> (r matches Ok(v) && v@.len() == 0),
            match stage_error(session_id, identities@, in_game@) {
                Some(e) => r == Err::<Vec<ParticipationStep>, StageError>(e),
                None => (r matches Ok(v) && (identities@.len() > 0 ==> exists|
                    pu: Seq<usize>,
                    pg: Seq<usize>,
                | #![trigger is_name_order(names_of_identities(identities@), pu), is_name_order(names_in_game(in_game@), pg)]
                    is_name_order(names_of_identities(identities@), pu) && is_name_order(
                        names_in_game(in_game@),
                        pg,
                    ) && v@ == planned_steps(
                        self.held@,
                        aligned_candidates(session_id->0, identities@, in_game@, pu, pg, now),
                    ))),
            },
    {
        let nu = identities.len();
        let ng = in_game.len();
        if nu == 0 && ng == 0 {
            return Ok(Vec::new());
        }
        if nu != ng {
            return Err(StageError::LengthMismatch(nu, ng));
        }
        let sid = match session_id {
            Some(s) => s,
            None => {
                return Err(StageError::NoSession);
            },
        };
        let un = identity_names(identities);
        let gn = in_game_names(in_game);
        if has_blank_name(&un) || has_blank_name(&gn) {
            return Err(StageError::BlankName);
        }
        let pu = match name_order(&un) {
            Some(p) => p,
            None => {
                return Err(StageError::DuplicateName);
            },
        };
        let pg = match name_order(&gn) {
            Some(p) => p,
            None => {
                return Err(StageError::DuplicateName);
            },
        };
        let ghost cands = aligned_candidates(sid, identities@, in_game@, pu@, pg@, now);
        let mut steps: Vec<ParticipationStep> = Vec::new();
        let mut seen: Vec<u64> = Vec::new();
        let mut k: usize = 0;
        while k < nu
            invariant
                nu == identities@.len(),
                ng == in_game@.len(),
                nu == ng,
                is_name_order(names_of_identities(identities@), pu@),
                is_name_order(names_in_game(in_game@), pg@),
                cands == aligned_candidates(sid, identities@, in_game@, pu@, pg@, now),
                k <= nu,
                seen@.len() == k,
                forall|m: int| 0 <= m < k ==> seen@[m] == (#[trigger] cands[m]).steam_id,
                steps@ == planned_steps(self.held@, cands.subrange(0, k as int)),
            decreases nu - k,
        {
            assert(pu@[k as int] < nu);
            assert(pg@[k as int] < ng);
            let who = &identities[pu[k]];
            let seen_player = &in_game[pg[k]];
            let c = PlayerSession {
                db_id: None,
                game_session_id: sid,
                steam_id: who.steam_id,
                perk: seen_player.perk,
                kills: seen_player.kills,
                started_at: now,
                ended_at: now,
            };
            assert(c == cands[k as int]);
            let ghost pre = cands.subrange(0, k as int);
            proof {
                assert(cands.subrange(0, k + 1).drop_last() =~= pre);
                assert(cands.subrange(0, k + 1).last() == c);
            }
            let repeated = holds_steam(&seen, c.steam_id);
            proof {
                if repeated {
                    let m = choose|m: int| 0 <= m < seen@.len() && seen@[m] == c.steam_id;
                    assert(same_key(pre[m], c));
                } else {
                    assert forall|j: int| 0 <= j < pre.len() implies !same_key(#[trigger] pre[j], c) by {
                        assert(seen@[j] == cands[j].steam_id);
                    }
                }
            }
            if !repeated {
                let step = match find_held(&self.held, &c) {
                    Some(j) => {
                        proof {
                            lemma_held_index_valid(self.held@, c);
                        }
                        let h = self.held[j];
                        ParticipationStep::Update(
                            PlayerSession { perk: c.perk, kills: c.kills, ended_at: c.ended_at, ..h },
                        )
                    },
                    None => ParticipationStep::Insert(c),
                };
                steps.push(step);
            }
            seen.push(c.steam_id);
            k = k + 1;
        }
        assert(cands.subrange(0, nu as int) =~= cands);
        Ok(steps)
    }

    /// Replaces the held list by the rows whose step succeeded: `outcomes[i]`
    /// is the store id under which step `i` was written, `None` if it failed.
    /// Rows without a step this tick are dropped.
    pub fn commit(&mut self, steps: &Vec<ParticipationStep>, outcomes: &Vec<Option<u32>>)
        requires
            steps@.len() == outcomes@.len(),
        ensures
            final(self).held@ == committed(steps@, outcomes@, steps@.len() as int),
    {
        let mut held: Vec<PlayerSession> = Vec::new();
        let mut k: usize = 0;
        while k < steps.len()
            invariant
                steps@.len() == outcomes@.len(),
                k <= steps@.len(),
                held@ == committed(steps@, outcomes@, k as int),
            decreases steps@.len() - k,
        {
            match outcomes[k] {
                Some(id) => {
                    let row = match steps[k] {
                        ParticipationStep::Insert(c) => PlayerSession { db_id: Some(id), ..c },
                        ParticipationStep::Update(h) => h,
                    };
                    held.push(row);
                },
                None => {},
            }
            k = k + 1;
        }
        self.held = held;
    }
}

proof fn lemma_inserts_push(steps: Seq<ParticipationStep>, x: ParticipationStep, steam_id: u64)
    ensures
        inserts_for(steps.push(x), steam_id) == inserts_for(steps, steam_id) + match x {
            ParticipationStep::Insert(c) => if c.steam_id == steam_id { 1int } else { 0int },
            ParticipationStep::Update(_) => 0int,
        },
{
    assert(steps.push(x).drop_last() =~= steps);
}

proof fn lemma_no_inserts(held: Seq<PlayerSession>, cands: Seq<PlayerSession>, steam_id: u64)
    requires
        forall|i: int|
            0 <= i < cands.len() ==> (#[trigger] cands[i]).steam_id != steam_id || held_index(
                held,
                cands[i],
            ) >= 0,
    ensures
        inserts_for(planned_steps(held, cands), steam_id) == 0,
    decreases cands.len(),
{
    if cands.len() > 0 {
        let init = cands.drop_last();
        assert forall|i: int| 0 <= i < init.len() implies (#[trigger] init[i]).steam_id != steam_id
            || held_index(held, init[i]) >= 0 by {
            assert(init[i] == cands[i]);
        }
        lemma_no_inserts(held, init, steam_id);
        assert(cands[cands.len() - 1] == cands.last());
        lemma_inserts_push(
            planned_steps(held, init),
            step_for(held, cands.last()),
            steam_id,
        );
    }
}

proof fn lemma_unmatched_key(held: Seq<PlayerSession>, c: PlayerSession)
    requires
        forall|j: int| 0 <= j < held.len() ==> !same_key(#[trigger] held[j], c),
    ensures
        held_index(held, c) == -1,
{
    lemma_held_index_valid(held, c);
}

proof fn lemma_one_insert(held: Seq<PlayerSession>, cands: Seq<PlayerSession>, k: int)
    requires
        0 <= k < cands.len(),
        forall|i: int|
            0 <= i < cands.len() ==> (#[trigger] cands[i]).game_session_id
                == cands[k].game_session_id,
        forall|j: int| 0 <= j < held.len() ==> !same_key(#[trigger] held[j], cands[k]),
    ensures
        inserts_for(planned_steps(held, cands), cands[k].steam_id) == 1,
    decreases cands.len(),
{
    let s = cands[k].steam_id;
    let init = cands.drop_last();
    let last = cands.last();
    assert(last == cands[cands.len() - 1]);
    assert forall|i: int| 0 <= i < init.len() implies (#[trigger] init[i]).game_session_id
        == cands[k].game_session_id by {
        assert(init[i] == cands[i]);
    }
    if exists|i: int| 0 <= i < init.len() && (#[trigger] init[i]).steam_id == s {
        let i = choose|i: int| 0 <= i < init.len() && (#[trigger] init[i]).steam_id == s;
        assert(init[i] == cands[i]);
        assert forall|j: int| 0 <= j < held.len() implies !same_key(#[trigger] held[j], init[i]) by {
            assert(!same_key(held[j], cands[k]));
        }
        assert forall|i2: int| 0 <= i2 < init.len() implies (#[trigger] init[i2]).game_session_id
            == init[i].game_session_id by {
            assert(init[i2] == cands[i2]);
        }
        lemma_one_insert(held, init, i);
        lemma_inserts_push(planned_steps(held, init), step_for(held, last), s);
        if last.steam_id == s {
            assert(same_key(init[i], last));
            assert(key_seen(init, last));
        }
    } else {
        if k < cands.len() - 1 {
            assert(init[k] == cands[k]);
        }
        assert(k == cands.len() - 1);
        assert forall|i: int| 0 <= i < init.len() implies (#[trigger] init[i]).steam_id != s
            || held_index(held, init[i]) >= 0 by {}
        lemma_no_inserts(held, init, s);
        assert(!key_seen(init, last));
        lemma_unmatched_key(held, last);
        lemma_inserts_push(planned_steps(held, init), step_for(held, last), s);
    }
}

/// The step inserts a row for `steam_id`.
pub open spec fn inserts_player(step: ParticipationStep, steam_id: u64) -> bool {
    match step {
        ParticipationStep::Insert(c) => c.steam_id == steam_id,
        ParticipationStep::Update(_) => false,
    }
}

proof fn lemma_insert_witness(steps: Seq<ParticipationStep>, steam_id: u64)
    requires
        inserts_for(steps, steam_id) > 0,
    ensures
        exists|m: int|
            0 <= m < steps.len() && inserts_player(#[trigger] steps[m], steam_id),
    decreases steps.len(),
{
    let init = steps.drop_last();
    if inserts_for(init, steam_id) > 0 {
        lemma_insert_witness(init, steam_id);
        let m = choose|m: int|
            0 <= m < init.len() && inserts_player(#[trigger] init[m], steam_id);
        assert(steps[m] == init[m]);
    } else {
        assert(steps[steps.len() - 1] == steps.last());
    }
}

proof fn lemma_steps_from_candidates(held: Seq<PlayerSession>, cands: Seq<PlayerSession>, m: int)
    requires
        0 <= m < planned_steps(held, cands).len(),
    ensures
        exists|i: int|
            0 <= i < cands.len() && planned_steps(held, cands)[m] == step_for(
                held,
                #[trigger] cands[i],
            ),
    decreases cands.len(),
{
    let init = cands.drop_last();
    let prev = planned_steps(held, init);
    if m < prev.len() {
        lemma_steps_from_candidates(held, init, m);
        let i = choose|i: int| 0 <= i < init.len() && prev[m] == step_for(held, #[trigger] init[i]);
        assert(init[i] == cands[i]);
    } else {
        assert(cands.last() == cands[cands.len() - 1]);
    }
}

proof fn lemma_committed_keeps(steps: Seq<ParticipationStep>, outcomes: Seq<Option<u32>>, n: int, k: int)
    requires
        0 <= k < n <= steps.len(),
        n <= outcomes.len(),
        outcomes[k] is Some,
    ensures
        committed(steps, outcomes, n).contains(stored_row(steps[k], outcomes[k]->0)),
    decreases n,
{
    let prev = committed(steps, outcomes, n - 1);
    if k == n - 1 {
        assert(committed(steps, outcomes, n) == prev.push(stored_row(steps[k], outcomes[k]->0)));
        assert(committed(steps, outcomes, n)[prev.len() as int] == stored_row(steps[k], outcomes[k]->0));
    } else {
        lemma_committed_keeps(steps, outcomes, n - 1, k);
        let j = choose|j: int| 0 <= j < prev.len() && prev[j] == stored_row(steps[k], outcomes[k]->0);
        match outcomes[n - 1] {
            Some(id) => {
                assert(committed(steps, outcomes, n)[j] == prev[j]);
            },
            None => {},
        }
    }
}

/// A player's first alignment in a held match counts one attended match (one
/// insert), however often the tick's rosters list the player; once the
/// store operations of that tick succeeded, further alignments of the player
/// in the same match count none.
pub proof fn lemma_attendance_counted_once(
    held: Seq<PlayerSession>,
    cands: Seq<PlayerSession>,
    k: int,
    outcomes: Seq<Option<u32>>,
    later: Seq<PlayerSession>,
)
    requires
        0 <= k < cands.len(),
        forall|i: int|
            0 <= i < cands.len() ==> (#[trigger] cands[i]).game_session_id
                == cands[k].game_session_id,
        forall|j: int| 0 <= j < held.len() ==> !same_key(#[trigger] held[j], cands[k]),
        outcomes.len() == planned_steps(held, cands).len(),
        forall|m: int| 0 <= m < outcomes.len() ==> (#[trigger] outcomes[m]) is Some,
        forall|i: int|
            0 <= i < later.len() ==> (#[trigger] later[i]).game_session_id == cands[k].game_session_id,
    ensures
        inserts_for(planned_steps(held, cands), cands[k].steam_id) == 1,
        inserts_for(
            planned_steps(
                committed(
                    planned_steps(held, cands),
                    outcomes,
                    planned_steps(held, cands).len() as int,
                ),
                later,
            ),
            cands[k].steam_id,
        ) == 0,
{
    let s = cands[k].steam_id;
    let steps = planned_steps(held, cands);
    lemma_one_insert(held, cands, k);
    lemma_insert_witness(steps, s);
    let m = choose|m: int|
        0 <= m < steps.len() && inserts_player(#[trigger] steps[m], s);
    lemma_steps_from_candidates(held, cands, m);
    let i = choose|i: int| 0 <= i < cands.len() && steps[m] == step_for(held, #[trigger] cands[i]);
    assert(steps[m] == ParticipationStep::Insert(cands[i]));
    assert(outcomes[m] is Some);
    lemma_committed_keeps(steps, outcomes, steps.len() as int, m);
    let next = committed(steps, outcomes, steps.len() as int);
    let row = stored_row(steps[m], outcomes[m]->0);
    let j = choose|j: int| 0 <= j < next.len() && next[j] == row;
    assert forall|x: int| 0 <= x < later.len() implies (#[trigger] later[x]).steam_id != s
        || held_index(next, later[x]) >= 0 by {
        if later[x].steam_id == s {
            lemma_held_index_found(next, later[x], j);
        }
    }
    lemma_no_inserts(next, later, s);
}

proof fn lemma_orders_agree_upto(names: Seq<Seq<char>>, p: Seq<usize>, q: Seq<usize>, k: int)
    requires
        is_name_order(names, p),
        is_name_order(names, q),
        0 <= k <= p.len(),
    ensures
        forall|a: int| 0 <= a < k ==> p[a] == q[a],
    decreases k,
{
    if k > 0 {
        lemma_orders_agree_upto(names, p, q, k - 1);
        let m = k - 1;
        if p[m] != q[m] {
            let x = p[m];
            let y = q[m];
            assert(y < names.len());
            assert(x < names.len());
            assert(p.contains(y));
            assert(q.contains(x));
            let b = choose|b: int| 0 <= b < p.len() && p[b] == y;
            let c = choose|c: int| 0 <= c < q.len() && q[c] == x;
            lemma_text_lt_irreflexive(names[y as int]);
            lemma_text_lt_irreflexive(names[x as int]);
            if b < m {
                assert(q[b] == y);
                assert(text_lt(names[q[b] as int], names[q[m] as int]));
            }
            if c < m {
                assert(p[c] == x);
                assert(text_lt(names[p[c] as int], names[p[m] as int]));
            }
            assert(b > m);
            assert(c > m);
            assert(text_lt(names[p[m] as int], names[p[b] as int]));
            assert(text_lt(names[q[m] as int], names[q[c] as int]));
            lemma_text_lt_trichotomy(names[x as int], names[y as int]);
        }
    }
}

/// There is only one name order of a roster: two orders of the same names
/// are the same sequence, so the pairing that `plan` promises is fixed by
/// the names of the two rosters alone.
pub proof fn lemma_name_order_unique(names: Seq<Seq<char>>, p: Seq<usize>, q: Seq<usize>)
    requires
        is_name_order(names, p),
        is_name_order(names, q),
    ensures
        p == q,
{
    lemma_orders_agree_upto(names, p, q, p.len() as int);
    assert(p =~= q);
}

} // verus!
