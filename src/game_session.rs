use vstd::prelude::*;
use crate::clock::utc_now_millis;
use crate::models::{Boss, GameInfo, KfDifficulty};

verus! {

/// Lifecycle of a held match.
#[derive(Clone, Copy, Debug, PartialEq, Eq, Structural)]
pub enum SessionStatus {
    New,
    InProgress,
    Ended,
}

/// One continuous match, as held in memory and written to the store.
/// Times are milliseconds since the Unix epoch.
#[derive(Debug)]
pub struct GameSession {
    pub db_id: Option<u32>,
    pub max_waves: u16,
    pub reached_wave: u16,
    pub max_players: u16,
    pub players_at_most: u16,
    pub map_name: String,
    pub difficulty: KfDifficulty,
    pub game_type: String,
    pub boss: Boss,
    pub started_at: i64,
    pub ended_at: Option<i64>,
    pub status: SessionStatus,
}

/// What the store has to do after one poll of the map information.
#[derive(Debug)]
pub enum SessionAction {
    /// No players: any held match was dropped and nothing is written.
    Idle,
    /// A new match row to insert; its store id goes to `assign_id`.
    Insert(GameSession),
    /// The held match, refreshed, to write back under its id.
    Update(GameSession),
    /// The held match would be updated but never received an id: skip this tick.
    MissingId,
}

pub open spec fn max_u16(a: u16, b: u16) -> u16 {
    if a >= b { a } else { b }
}

/// The held match no longer describes the match being played.
pub open spec fn abandons(held: GameSession, info: GameInfo) -> bool {
    ||| held.map_name@ != info.map_name@
    ||| held.boss != info.boss
    ||| held.reached_wave > info.current_wave
}

/// The row created for a match first seen at `now`.
pub open spec fn fresh_session(info: GameInfo, now: i64) -> GameSession {
    GameSession {
        db_id: None,
        max_waves: info.max_waves,
        reached_wave: info.current_wave,
        max_players: info.max_players,
        players_at_most: info.current_players,
        map_name: info.map_name,
        difficulty: info.difficulty,
        game_type: info.game_type,
        boss: info.boss,
        started_at: now,
        ended_at: None,
        status: SessionStatus::New,
    }
}

/// The held match after one more poll of the same match at `now`.
pub open spec fn continued_session(held: GameSession, info: GameInfo, now: i64) -> GameSession {
    GameSession {
        db_id: held.db_id,
        max_waves: held.max_waves,
        reached_wave: max_u16(held.reached_wave, info.current_wave),
        max_players: held.max_players,
        players_at_most: max_u16(held.players_at_most, info.current_players),
        map_name: held.map_name,
        difficulty: held.difficulty,
        game_type: held.game_type,
        boss: held.boss,
        started_at: held.started_at,
        ended_at: Some(now),
        status: held.status,
    }
}

/// One poll: the held match afterwards, and what the store has to do.
pub open spec fn session_step(held: Option<GameSession>, info: GameInfo, now: i64) -> (
    Option<GameSession>,
    SessionAction,
) {
    if info.current_players == 0 {
        (None, SessionAction::Idle)
    } else {
        let kept = match held {
            Some(h) => if abandons(h, info) { None } else { Some(h) },
            None => None,
        };
        match kept {
            Some(h) => if h.db_id is None {
                (Some(h), SessionAction::MissingId)
            } else {
                let c = continued_session(h, info, now);
                (Some(c), SessionAction::Update(c))
            },
            None => {
                let f = fresh_session(info, now);
                (Some(f), SessionAction::Insert(f))
            },
        }
    }
}

/// The held match once the store has given the pending row the id `id`.
pub open spec fn with_assigned_id(held: Option<GameSession>, id: u32) -> Option<GameSession> {
    match held {
        Some(h) => if h.db_id is None {
            Some(GameSession { db_id: Some(id), status: SessionStatus::InProgress, ..h })
        } else {
            Some(h)
        },
        None => None,
    }
}

/// One poll followed, when a row was inserted, by the store handing back `id`.
pub open spec fn poll_with_store(held: Option<GameSession>, info: GameInfo, now: i64, id: u32) -> (
    Option<GameSession>,
    SessionAction,
) {
    let (h, a) = session_step(held, info, now);
    if a is Insert {
        (with_assigned_id(h, id), a)
    } else {
        (h, a)
    }
}

/// The actions of consecutive polls, the store handing out `id` on each insert.
#[verifier::opaque]
pub open spec fn poll_run(
    held: Option<GameSession>,
    infos: Seq<GameInfo>,
    times: Seq<i64>,
    id: u32,
) -> Seq<SessionAction>
    decreases infos.len(),
{
    if infos.len() == 0 || times.len() == 0 {
        Seq::empty()
    } else {
        let (h, a) = poll_with_store(held, infos[0], times[0], id);
        seq![a] + poll_run(h, infos.drop_first(), times.drop_first(), id)
    }
}

/// The row an action writes, if any.
pub open spec fn written_row(a: SessionAction) -> GameSession
    recommends
        a is Insert || a is Update,
{
    match a {
        SessionAction::Insert(s) => s,
        SessionAction::Update(s) => s,
        _ => arbitrary(),
    }
}

/// Polls of one match: players present, map and boss unchanged, wave counter
/// never going back.
pub open spec fn steady_polls(infos: Seq<GameInfo>) -> bool {
    &&& forall|i: int| 0 <= i < infos.len() ==> (#[trigger] infos[i]).current_players > 0
    &&& forall|i: int|
        0 <= i < infos.len() ==> (#[trigger] infos[i]).map_name@ == infos[0].map_name@
            && infos[i].boss == infos[0].boss
    &&& forall|i: int, j: int|
        0 <= i <= j < infos.len() ==> #[trigger] infos[i].current_wave <= #[trigger] infos[j].current_wave
}

proof fn lemma_steady_tail(infos: Seq<GameInfo>)
    requires
        steady_polls(infos),
        infos.len() > 0,
    ensures
        steady_polls(infos.drop_first()),
        infos[0].current_players > 0,
        infos.len() > 1 ==> infos[1].map_name@ == infos[0].map_name@ && infos[1].boss
            == infos[0].boss && infos[0].current_wave <= infos[1].current_wave,
{
    let rest = infos.drop_first();
    assert(infos[0].current_players > 0);
    assert forall|i: int| 0 <= i < rest.len() implies (#[trigger] rest[i]).map_name@ == rest[0].map_name@
        && rest[i].boss == rest[0].boss by {
        assert(rest[i] == infos[i + 1]);
        assert(infos[i + 1].map_name@ == infos[0].map_name@);
        assert(infos[1].map_name@ == infos[0].map_name@);
    }
    assert forall|i: int| 0 <= i < rest.len() implies (#[trigger] rest[i]).current_players > 0 by {
        assert(rest[i] == infos[i + 1]);
    }
    assert forall|i: int, j: int| 0 <= i <= j < rest.len() implies #[trigger] rest[i].current_wave
        <= #[trigger] rest[j].current_wave by {
        assert(rest[i] == infos[i + 1]);
        assert(rest[j] == infos[j + 1]);
    }
    if infos.len() > 1 {
        assert(infos[1].map_name@ == infos[0].map_name@);
        assert(infos[0].current_wave <= infos[1].current_wave);
    }
}

proof fn lemma_poll_run_unfold(held: Option<GameSession>, infos: Seq<GameInfo>, times: Seq<i64>, id: u32)
    requires
        infos.len() > 0,
        times.len() > 0,
    ensures
        poll_run(held, infos, times, id) == seq![poll_with_store(held, infos[0], times[0], id).1]
            + poll_run(
            poll_with_store(held, infos[0], times[0], id).0,
            infos.drop_first(),
            times.drop_first(),
            id,
        ),
{
    reveal(poll_run);
}

/// Every action from index `from` on updates the row stored under `id`.
pub open spec fn updates_of(acts: Seq<SessionAction>, from: int, id: u32) -> bool {
    forall|k: int|
        from <= k < acts.len() ==> (#[trigger] acts[k]) is Update && written_row(acts[k]).db_id
            == Some(id)
}

/// Reached wave and peak player count never decrease along the written rows.
pub open spec fn rows_monotone(acts: Seq<SessionAction>) -> bool {
    forall|i: int, j: int|
        0 <= i <= j < acts.len() ==> written_row(#[trigger] acts[i]).reached_wave <= written_row(
            #[trigger] acts[j],
        ).reached_wave && written_row(acts[i]).players_at_most <= written_row(acts[j]).players_at_most
}

proof fn lemma_continue_poll(s: GameSession, info: GameInfo, t: i64, id: u32)
    requires
        s.db_id == Some(id),
        info.current_players > 0,
        !abandons(s, info),
    ensures
        poll_with_store(Some(s), info, t, id) == (
            Some(continued_session(s, info, t)),
            SessionAction::Update(continued_session(s, info, t)),
        ),
{
}

proof fn lemma_fresh_poll(info: GameInfo, t: i64, id: u32)
    requires
        info.current_players > 0,
    ensures
        poll_with_store(None, info, t, id) == (
            Some(GameSession { db_id: Some(id), status: SessionStatus::InProgress, ..fresh_session(info, t) }),
            SessionAction::Insert(fresh_session(info, t)),
        ),
{
}

proof fn lemma_prepend_run(a: SessionAction, rest: Seq<SessionAction>, id: u32)
    requires
        updates_of(rest, 0, id),
        rows_monotone(rest),
        a is Insert || a is Update,
        rest.len() > 0 ==> written_row(a).reached_wave <= written_row(rest[0]).reached_wave
            && written_row(a).players_at_most <= written_row(rest[0]).players_at_most,
    ensures
        updates_of(seq![a] + rest, 1, id),
        rows_monotone(seq![a] + rest),
        (seq![a] + rest).len() == rest.len() + 1,
        (seq![a] + rest)[0] == a,
{
    let acts = seq![a] + rest;
    assert forall|k: int| 1 <= k < acts.len() implies (#[trigger] acts[k]) is Update
        && written_row(acts[k]).db_id == Some(id) by {
        assert(acts[k] == rest[k - 1]);
    }
    assert forall|i: int, j: int| 0 <= i <= j < acts.len() implies written_row(
        #[trigger] acts[i],
    ).reached_wave <= written_row(#[trigger] acts[j]).reached_wave && written_row(
        acts[i],
    ).players_at_most <= written_row(acts[j]).players_at_most by {
        if j > 0 {
            assert(acts[j] == rest[j - 1]);
            assert(written_row(rest[0]).reached_wave <= written_row(rest[j - 1]).reached_wave);
        }
        if i > 0 {
            assert(acts[i] == rest[i - 1]);
        }
    }
}

/// The largest of `start` and the current waves of polls `0..=k`.
pub open spec fn running_wave(start: u16, infos: Seq<GameInfo>, k: int) -> u16
    decreases k + 1,
{
    if k < 0 {
        start
    } else {
        max_u16(running_wave(start, infos, k - 1), infos[k].current_wave)
    }
}

/// The largest of `start` and the player counts of polls `0..=k`.
pub open spec fn running_players(start: u16, infos: Seq<GameInfo>, k: int) -> u16
    decreases k + 1,
{
    if k < 0 {
        start
    } else {
        max_u16(running_players(start, infos, k - 1), infos[k].current_players)
    }
}

/// Each written row holds the largest wave and player count seen so far,
/// counting from `wave0` and `players0`.
pub open spec fn rows_track_maxima(
    acts: Seq<SessionAction>,
    infos: Seq<GameInfo>,
    wave0: u16,
    players0: u16,
) -> bool {
    forall|k: int|
        0 <= k < acts.len() ==> written_row(#[trigger] acts[k]).reached_wave == running_wave(
            wave0,
            infos,
            k,
        ) && written_row(acts[k]).players_at_most == running_players(players0, infos, k)
}

proof fn lemma_running_drop(wave0: u16, players0: u16, infos: Seq<GameInfo>, k: int)
    requires
        0 <= k < infos.len(),
    ensures
        running_wave(wave0, infos, k) == running_wave(
            max_u16(wave0, infos[0].current_wave),
            infos.drop_first(),
            k - 1,
        ),
        running_players(players0, infos, k) == running_players(
            max_u16(players0, infos[0].current_players),
            infos.drop_first(),
            k - 1,
        ),
    decreases k,
{
    if k > 0 {
        lemma_running_drop(wave0, players0, infos, k - 1);
        assert(infos.drop_first()[k - 1] == infos[k]);
    } else {
        assert(running_wave(wave0, infos, -1) == wave0);
        assert(running_players(players0, infos, -1) == players0);
    }
}

proof fn lemma_held_run(s: GameSession, infos: Seq<GameInfo>, times: Seq<i64>, id: u32)
    requires
        infos.len() == times.len(),
        steady_polls(infos),
        s.db_id == Some(id),
        infos.len() > 0 ==> s.map_name@ == infos[0].map_name@ && s.boss == infos[0].boss
            && s.reached_wave <= infos[0].current_wave,
    ensures
        poll_run(Some(s), infos, times, id).len() == infos.len(),
        updates_of(poll_run(Some(s), infos, times, id), 0, id),
        rows_monotone(poll_run(Some(s), infos, times, id)),
        infos.len() > 0 ==> written_row(poll_run(Some(s), infos, times, id)[0]).reached_wave
            == infos[0].current_wave && written_row(
            poll_run(Some(s), infos, times, id)[0],
        ).players_at_most >= s.players_at_most,
        rows_track_maxima(
            poll_run(Some(s), infos, times, id),
            infos,
            s.reached_wave,
            s.players_at_most,
        ),
    decreases infos.len(),
{
    if infos.len() > 0 {
        lemma_steady_tail(infos);
        let c = continued_session(s, infos[0], times[0]);
        lemma_continue_poll(s, infos[0], times[0], id);
        let rest_infos = infos.drop_first();
        let rest_times = times.drop_first();
        lemma_held_run(c, rest_infos, rest_times, id);
        lemma_poll_run_unfold(Some(s), infos, times, id);
        let rest = poll_run(Some(c), rest_infos, rest_times, id);
        lemma_prepend_run(SessionAction::Update(c), rest, id);
        let acts = poll_run(Some(s), infos, times, id);
        assert forall|k: int| 0 <= k < acts.len() implies written_row(#[trigger] acts[k]).reached_wave
            == running_wave(s.reached_wave, infos, k) && written_row(acts[k]).players_at_most
            == running_players(s.players_at_most, infos, k) by {
            lemma_running_drop(s.reached_wave, s.players_at_most, infos, k);
            if k == 0 {
                assert(running_wave(c.reached_wave, rest_infos, -1) == c.reached_wave);
                assert(running_players(c.players_at_most, rest_infos, -1) == c.players_at_most);
            } else {
                assert(acts[k] == rest[k - 1]);
            }
        }
    } else {
        reveal(poll_run);
    }
}

/// Polls of one unchanged match (players present, same map and boss, wave
/// counter never going back) give exactly one insert, then only updates of the
/// row under the id that the store returned for it; each written row holds
/// the largest wave and player count polled so far, so neither decreases
/// from one written row to the next.
pub proof fn lemma_steady_match_single_insert(infos: Seq<GameInfo>, times: Seq<i64>, id: u32)
    requires
        infos.len() == times.len(),
        infos.len() >= 1,
        steady_polls(infos),
    ensures
        poll_run(None, infos, times, id).len() == infos.len(),
        poll_run(None, infos, times, id)[0] is Insert,
        written_row(poll_run(None, infos, times, id)[0]).db_id is None,
        updates_of(poll_run(None, infos, times, id), 1, id),
        rows_monotone(poll_run(None, infos, times, id)),
        rows_track_maxima(poll_run(None, infos, times, id), infos, 0, 0),
{
    lemma_steady_tail(infos);
    let f = fresh_session(infos[0], times[0]);
    let s = GameSession { db_id: Some(id), status: SessionStatus::InProgress, ..f };
    lemma_fresh_poll(infos[0], times[0], id);
    let rest_infos = infos.drop_first();
    let rest_times = times.drop_first();
    lemma_held_run(s, rest_infos, rest_times, id);
    lemma_poll_run_unfold(None, infos, times, id);
    let rest = poll_run(Some(s), rest_infos, rest_times, id);
    lemma_prepend_run(SessionAction::Insert(f), rest, id);
    let acts = poll_run(None, infos, times, id);
    assert forall|k: int| 0 <= k < acts.len() implies written_row(#[trigger] acts[k]).reached_wave
        == running_wave(0, infos, k) && written_row(acts[k]).players_at_most == running_players(
        0,
        infos,
        k,
    ) by {
        lemma_running_drop(0, 0, infos, k);
        if k == 0 {
            assert(running_wave(s.reached_wave, rest_infos, -1) == s.reached_wave);
            assert(running_players(s.players_at_most, rest_infos, -1) == s.players_at_most);
        } else {
            assert(acts[k] == rest[k - 1]);
        }
    }
}

/// A match dropped because the server emptied is never resumed: the next poll
/// with players, even of the same map, inserts a new row that carries no id,
/// so the store gives it a new one.
pub proof fn lemma_empty_server_starts_new_session(
    held: Option<GameSession>,
    empty: GameInfo,
    t0: i64,
    info: GameInfo,
    t1: i64,
)
    requires
        empty.current_players == 0,
        info.current_players > 0,
    ensures
        ({
            let (h1, a1) = session_step(held, empty, t0);
            let (h2, a2) = session_step(h1, info, t1);
            &&& a1 is Idle
            &&& h1 is None
            &&& a2 is Insert
            &&& written_row(a2).db_id is None
        }),
{
}

impl GameSession {
    /// A field-by-field copy.
    pub fn snapshot(&self) -> (r: GameSession)
        ensures
            r == *self,
    {
        GameSession {
            db_id: self.db_id,
            max_waves: self.max_waves,
            reached_wave: self.reached_wave,
            max_players: self.max_players,
            players_at_most: self.players_at_most,
            map_name: self.map_name.clone(),
            difficulty: self.difficulty,
            game_type: self.game_type.clone(),
            boss: self.boss,
            started_at: self.started_at,
            ended_at: self.ended_at,
            status: self.status,
        }
    }
}

/// Holds the one match currently believed to be running.
#[derive(Debug)]
pub struct GameSessionTracker {
    pub held: Option<GameSession>,
}

impl GameSessionTracker {
    pub fn new() -> (r: GameSessionTracker)
        ensures
            r.held is None,
    {
        GameSessionTracker { held: None }
    }

    /// Takes one poll of the map information at time `now` and decides whether
    /// the held match is dropped, continued (update) or replaced by a new one (insert).
    pub fn observe(&mut self, info: &GameInfo, now: i64) -> (a: SessionAction)
        ensures
            (final(self).held, a) == session_step(old(self).held, *info, now),
    {
        if info.current_players == 0 {
            self.held = None;
            return SessionAction::Idle;
        }
        let keep = match &self.held {
            Some(h) => !(!(h.map_name == info.map_name) || h.boss != info.boss || h.reached_wave
                > info.current_wave),
            None => false,
        };
        if !keep {
            let fresh = GameSession {
                db_id: None,
                max_waves: info.max_waves,
                reached_wave: info.current_wave,
                max_players: info.max_players,
                players_at_most: info.current_players,
                map_name: info.map_name.clone(),
                difficulty: info.difficulty,
                game_type: info.game_type.clone(),
                boss: info.boss,
                started_at: now,
                ended_at: None,
                status: SessionStatus::New,
            };
            self.held = Some(fresh.snapshot());
            return SessionAction::Insert(fresh);
        }
        let next = match &self.held {
            Some(h) => {
                if h.db_id.is_none() {
                    return SessionAction::MissingId;
                }
                GameSession {
                    db_id: h.db_id,
                    max_waves: h.max_waves,
                    reached_wave: if info.current_wave > h.reached_wave {
                        info.current_wave
                    } else {
                        h.reached_wave
                    },
                    max_players: h.max_players,
                    players_at_most: if info.current_players > h.players_at_most {
                        info.current_players
                    } else {
                        h.players_at_most
                    },
                    map_name: h.map_name.clone(),
                    difficulty: h.difficulty,
                    game_type: h.game_type.clone(),
                    boss: h.boss,
                    started_at: h.started_at,
                    ended_at: Some(now),
                    status: h.status,
                }
            },
            None => {
                return SessionAction::MissingId;
            },
        };
        self.held = Some(next.snapshot());
        SessionAction::Update(next)
    }

    /// Same as `observe`, at the current time of the system clock; `None`,
    /// with the held match untouched, when the clock cannot be read.
    pub fn observe_now(&mut self, info: &GameInfo) -> (a: Option<SessionAction>)
        ensures
            match a {
                Some(act) => exists|t: i64|
                    (final(self).held, act) == #[trigger] session_step(old(self).held, *info, t),
                None => final(self).held == old(self).held,
            },
    {
        match utc_now_millis() {
            Some(now) => Some(self.observe(info, now)),
            None => None,
        }
    }

    /// Records the id that the store gave the row of the last `Insert`; the
    /// held match is then in progress.
    pub fn assign_id(&mut self, id: u32)
        ensures
            final(self).held == with_assigned_id(old(self).held, id),
    {
        if let Some(h) = &self.held {
            if h.db_id.is_none() {
                let mut s = h.snapshot();
                s.db_id = Some(id);
                s.status = SessionStatus::InProgress;
                self.held = Some(s);
            }
        }
    }

    /// Forgets the held match without writing anything (the insert failed).
    pub fn abandon(&mut self)
        ensures
            final(self).held is None,
    {
        self.held = None;
    }
}

} // verus!
