use vstd::prelude::*;
use crate::models::PlayerInfo;

verus! {

/// A persisted unique player, keyed by steam id. `last_seen` is in
/// milliseconds since the Unix epoch.
#[derive(Debug)]
pub struct UniquePlayer {
    pub steam_id: u64,
    pub name: String,
    pub avg_ping: u32,
    pub attendance: u32,
    pub unique_net_id: String,
    pub last_seen: i64,
}

/// One (steam id, address) observation of the append-only address log.
#[derive(Clone, Copy, Debug, PartialEq, Eq, Structural)]
pub struct AddressObservation {
    pub steam_id: u64,
    pub ip: u32,
}

/// What one sighting of the identity roster asks of the store.
#[derive(Debug)]
pub struct IdentityPlan {
    /// Rows for sightings that have no stored row yet.
    pub inserts: Vec<UniquePlayer>,
    /// Refreshed rows for sightings that have one; empty unless `consistent`.
    pub updates: Vec<UniquePlayer>,
    /// The matched sightings are exactly as many as the fetched rows.
    pub consistent: bool,
}

/// The running average ping after one more sample.
pub open spec fn blend(stored: u32, sample: u32) -> u32 {
    if stored == 0 {
        sample
    } else {
        ((stored as int + sample as int) / 2) as u32
    }
}

/// Average of a stored ping and a fresh sample: the sample itself when nothing
/// was stored yet (zero), else the floor of their mean.
pub fn blend_ping(stored: u32, sample: u32) -> (r: u32)
    ensures
        r == blend(stored, sample),
        stored == 0 ==> r == sample,
        stored > 0 ==> r as int == (stored as int + sample as int) / 2,
        stored == sample ==> r == sample,
{
    if stored == 0 {
        sample
    } else {
        ((stored as u64 + sample as u64) / 2) as u32
    }
}

/// Index of the first row with `steam_id`, or -1.
pub open spec fn row_index(rows: Seq<UniquePlayer>, steam_id: u64) -> int
    decreases rows.len(),
{
    if rows.len() == 0 {
        -1
    } else {
        let r = row_index(rows.drop_last(), steam_id);
        if r >= 0 {
            r
        } else if rows.last().steam_id == steam_id {
            rows.len() - 1
        } else {
            -1
        }
    }
}

/// The row created for a first sighting at `now`.
pub open spec fn new_row(s: PlayerInfo, now: i64) -> UniquePlayer {
    UniquePlayer {
        steam_id: s.steam_id,
        name: s.name,
        avg_ping: s.ping,
        attendance: 0,
        unique_net_id: s.unique_net_id,
        last_seen: now,
    }
}

/// A stored row refreshed by a sighting at `now`; attendance is kept.
pub open spec fn updated_row(row: UniquePlayer, s: PlayerInfo, now: i64) -> UniquePlayer {
    UniquePlayer {
        steam_id: row.steam_id,
        name: s.name,
        avg_ping: blend(row.avg_ping, s.ping),
        attendance: row.attendance,
        unique_net_id: s.unique_net_id,
        last_seen: now,
    }
}

/// New rows for the sightings without a stored row, in sighting order.
pub open spec fn planned_inserts(sightings: Seq<PlayerInfo>, rows: Seq<UniquePlayer>, now: i64) -> Seq<
    UniquePlayer,
>
    decreases sightings.len(),
{
    if sightings.len() == 0 {
        Seq::empty()
    } else {
        let prev = planned_inserts(sightings.drop_last(), rows, now);
        if row_index(rows, sightings.last().steam_id) < 0 {
            prev.push(new_row(sightings.last(), now))
        } else {
            prev
        }
    }
}

/// Each sighting that has a stored row, paired with the row of its steam id
/// and refreshed, in sighting order.
pub open spec fn matched_updates(sightings: Seq<PlayerInfo>, rows: Seq<UniquePlayer>, now: i64) -> Seq<
    UniquePlayer,
>
    decreases sightings.len(),
{
    if sightings.len() == 0 {
        Seq::empty()
    } else {
        let prev = matched_updates(sightings.drop_last(), rows, now);
        let j = row_index(rows, sightings.last().steam_id);
        if j >= 0 {
            prev.push(updated_row(rows[j], sightings.last(), now))
        } else {
            prev
        }
    }
}

/// The plan for `sightings` against the rows fetched for their steam ids.
pub open spec fn identity_plan_holds(
    plan: IdentityPlan,
    sightings: Seq<PlayerInfo>,
    rows: Seq<UniquePlayer>,
    now: i64,
) -> bool {
    let upd = matched_updates(sightings, rows, now);
    &&& plan.inserts@ == planned_inserts(sightings, rows, now)
    &&& plan.consistent == (upd.len() == rows.len())
    &&& plan.updates@ == if plan.consistent {
        upd
    } else {
        Seq::empty()
    }
}

proof fn lemma_row_index_extends(rows: Seq<UniquePlayer>, steam_id: u64, m: int)
    requires
        0 <= m <= rows.len(),
        row_index(rows.subrange(0, m), steam_id) >= 0,
    ensures
        row_index(rows, steam_id) == row_index(rows.subrange(0, m), steam_id),
    decreases rows.len() - m,
{
    if m == rows.len() {
        assert(rows.subrange(0, m) =~= rows);
    } else {
        assert(rows.drop_last().subrange(0, m) =~= rows.subrange(0, m));
        lemma_row_index_extends(rows.drop_last(), steam_id, m);
    }
}

proof fn lemma_row_index_valid(rows: Seq<UniquePlayer>, steam_id: u64)
    ensures
        -1 <= row_index(rows, steam_id) < rows.len(),
        row_index(rows, steam_id) >= 0 ==> rows[row_index(rows, steam_id)].steam_id == steam_id,
        row_index(rows, steam_id) < 0 ==> forall|j: int|
            0 <= j < rows.len() ==> (#[trigger] rows[j]).steam_id != steam_id,
    decreases rows.len(),
{
    if rows.len() > 0 {
        lemma_row_index_valid(rows.drop_last(), steam_id);
        if row_index(rows, steam_id) < 0 {
            assert forall|j: int| 0 <= j < rows.len() implies (#[trigger] rows[j]).steam_id
                != steam_id by {
                if j < rows.len() - 1 {
                    assert(rows[j] == rows.drop_last()[j]);
                }
            }
        }
    }
}

fn find_row(rows: &Vec<UniquePlayer>, steam_id: u64) -> (r: Option<usize>)
    ensures
        match r {
            Some(j) => row_index(rows@, steam_id) == j as int,
            None => row_index(rows@, steam_id) == -1,
        },
{
    let mut j: usize = 0;
    while j < rows.len()
        invariant
            j <= rows.len(),
            row_index(rows@.subrange(0, j as int), steam_id) == -1,
        decreases rows.len() - j,
    {
        proof {
            assert(rows@.subrange(0, j + 1).drop_last() =~= rows@.subrange(0, j as int));
        }
        if rows[j].steam_id == steam_id {
            proof {
                lemma_row_index_extends(rows@, steam_id, j + 1);
            }
            return Some(j);
        }
        j = j + 1;
    }
    proof {
        assert(rows@.subrange(0, rows@.len() as int) =~= rows@);
    }
    None
}

/// Splits a sighting of the identity roster into inserts (steam ids without a
/// stored row) and updates (ping blended, name and network id overwritten,
/// attendance kept). `rows` are the stored rows fetched for the sighted steam
/// ids. The updates are only released when the matched sightings are exactly
/// as many as the fetched rows; otherwise none is applied this tick.
pub fn plan_identity_refresh(sightings: &Vec<PlayerInfo>, rows: &Vec<UniquePlayer>, now: i64) -> (r:
    IdentityPlan)
    ensures
        identity_plan_holds(r, sightings@, rows@, now),
{
    let mut inserts: Vec<UniquePlayer> = Vec::new();
    let mut updates: Vec<UniquePlayer> = Vec::new();
    let mut i: usize = 0;
    while i < sightings.len()
        invariant
            i <= sightings@.len(),
            inserts@ == planned_inserts(sightings@.subrange(0, i as int), rows@, now),
            updates@ == matched_updates(sightings@.subrange(0, i as int), rows@, now),
        decreases sightings@.len() - i,
    {
        let ghost pre = sightings@.subrange(0, i + 1);
        proof {
            assert(pre.drop_last() =~= sightings@.subrange(0, i as int));
            assert(pre.last() == sightings@[i as int]);
        }
        let s = &sightings[i];
        match find_row(rows, s.steam_id) {
            Some(j) => {
                proof {
                    lemma_row_index_valid(rows@, s.steam_id);
                }
                let row = &rows[j];
                updates.push(
                    UniquePlayer {
                        steam_id: row.steam_id,
                        name: s.name.clone(),
                        avg_ping: blend_ping(row.avg_ping, s.ping),
                        attendance: row.attendance,
                        unique_net_id: s.unique_net_id.clone(),
                        last_seen: now,
                    },
                );
            },
            None => {
                inserts.push(
                    UniquePlayer {
                        steam_id: s.steam_id,
                        name: s.name.clone(),
                        avg_ping: s.ping,
                        attendance: 0,
                        unique_net_id: s.unique_net_id.clone(),
                        last_seen: now,
                    },
                );
            },
        }
        i = i + 1;
    }
    proof {
        assert(sightings@.subrange(0, sightings@.len() as int) =~= sightings@);
    }
    let consistent = updates.len() == rows.len();
    if !consistent {
        updates = Vec::new();
    }
    IdentityPlan { inserts, updates, consistent }
}

/// Observations of the sightings that the log does not hold yet, each once,
/// in sighting order. A pair is already recorded only when a logged row has
/// both the same steam id and the same address.
pub open spec fn new_observations(sightings: Seq<PlayerInfo>, logged: Seq<AddressObservation>) -> Seq<
    AddressObservation,
>
    decreases sightings.len(),
{
    if sightings.len() == 0 {
        Seq::empty()
    } else {
        let prev = new_observations(sightings.drop_last(), logged);
        let o = AddressObservation { steam_id: sightings.last().steam_id, ip: sightings.last().ip };
        if logged.contains(o) || prev.contains(o) {
            prev
        } else {
            prev.push(o)
        }
    }
}

fn holds_observation(v: &Vec<AddressObservation>, o: AddressObservation) -> (r: bool)
    ensures
        r == v@.contains(o),
{
    let mut j: usize = 0;
    while j < v.len()
        invariant
            j <= v.len(),
            forall|k: int| 0 <= k < j ==> v@[k] != o,
        decreases v.len() - j,
    {
        if v[j] == o {
            return true;
        }
        j = j + 1;
    }
    false
}

/// The address observations to append for a sighting of the identity roster,
/// given the rows already logged for the sighted steam ids.
pub fn plan_address_log(sightings: &Vec<PlayerInfo>, logged: &Vec<AddressObservation>) -> (r: Vec<
    AddressObservation,
>)
    ensures
        r@ == new_observations(sightings@, logged@),
{
    let mut out: Vec<AddressObservation> = Vec::new();
    let mut i: usize = 0;
    while i < sightings.len()
        invariant
            i <= sightings@.len(),
            out@ == new_observations(sightings@.subrange(0, i as int), logged@),
        decreases sightings@.len() - i,
    {
        let ghost pre = sightings@.subrange(0, i + 1);
        proof {
            assert(pre.drop_last() =~= sightings@.subrange(0, i as int));
            assert(pre.last() == sightings@[i as int]);
        }
        let o = AddressObservation { steam_id: sightings[i].steam_id, ip: sightings[i].ip };
        if !holds_observation(logged, o) && !holds_observation(&out, o) {
            out.push(o);
        }
        i = i + 1;
    }
    proof {
        assert(sightings@.subrange(0, sightings@.len() as int) =~= sightings@);
    }
    out
}

/// The stored rows of the sighted steam ids once `plan` was carried out on
/// `rows`: refreshed rows and new ones, or the old rows and new ones when the
/// updates were held back.
pub open spec fn rows_after(plan: IdentityPlan, rows: Seq<UniquePlayer>) -> Seq<UniquePlayer> {
    if plan.consistent {
        plan.updates@ + plan.inserts@
    } else {
        rows + plan.inserts@
    }
}

pub open spec fn distinct_steam_ids(sightings: Seq<PlayerInfo>) -> bool {
    forall|i: int, j: int|
        0 <= i < sightings.len() && 0 <= j < sightings.len() && i != j ==> sightings[i].steam_id
            != sightings[j].steam_id
}

proof fn lemma_row_index_found(rows: Seq<UniquePlayer>, steam_id: u64, j: int)
    requires
        0 <= j < rows.len(),
        rows[j].steam_id == steam_id,
    ensures
        row_index(rows, steam_id) >= 0,
    decreases rows.len(),
{
    if j < rows.len() - 1 {
        lemma_row_index_found(rows.drop_last(), steam_id, j);
    }
}

proof fn lemma_plan_counts(sightings: Seq<PlayerInfo>, rows: Seq<UniquePlayer>, now: i64)
    ensures
        planned_inserts(sightings, rows, now).len() + matched_updates(sightings, rows, now).len()
            == sightings.len(),
    decreases sightings.len(),
{
    if sightings.len() > 0 {
        lemma_plan_counts(sightings.drop_last(), rows, now);
    }
}

proof fn lemma_inserts_members(sightings: Seq<PlayerInfo>, rows: Seq<UniquePlayer>, now: i64, m: int)
    requires
        0 <= m < planned_inserts(sightings, rows, now).len(),
    ensures
        exists|j: int|
            0 <= j < sightings.len() && planned_inserts(sightings, rows, now)[m] == new_row(
                #[trigger] sightings[j],
                now,
            ) && row_index(rows, sightings[j].steam_id) < 0,
    decreases sightings.len(),
{
    let init = sightings.drop_last();
    let prev = planned_inserts(init, rows, now);
    if m < prev.len() {
        lemma_inserts_members(init, rows, now, m);
        let j = choose|j: int|
            0 <= j < init.len() && prev[m] == new_row(#[trigger] init[j], now) && row_index(
                rows,
                init[j].steam_id,
            ) < 0;
        assert(init[j] == sightings[j]);
    } else {
        assert(sightings.last() == sightings[sightings.len() - 1]);
    }
}

proof fn lemma_inserts_contains(sightings: Seq<PlayerInfo>, rows: Seq<UniquePlayer>, now: i64, i: int)
    requires
        0 <= i < sightings.len(),
        row_index(rows, sightings[i].steam_id) < 0,
    ensures
        planned_inserts(sightings, rows, now).contains(new_row(sightings[i], now)),
    decreases sightings.len(),
{
    let init = sightings.drop_last();
    let prev = planned_inserts(init, rows, now);
    if i < sightings.len() - 1 {
        assert(init[i] == sightings[i]);
        lemma_inserts_contains(init, rows, now, i);
        let m = choose|m: int| 0 <= m < prev.len() && prev[m] == new_row(init[i], now);
        assert(planned_inserts(sightings, rows, now)[m] == prev[m]);
    } else {
        assert(sightings.last() == sightings[i]);
        assert(planned_inserts(sightings, rows, now)[prev.len() as int] == new_row(sightings[i], now));
    }
}

proof fn lemma_updates_members(sightings: Seq<PlayerInfo>, rows: Seq<UniquePlayer>, now: i64, m: int)
    requires
        0 <= m < matched_updates(sightings, rows, now).len(),
    ensures
        exists|j: int|
            0 <= j < sightings.len() && matched_updates(sightings, rows, now)[m].steam_id
                == (#[trigger] sightings[j]).steam_id && row_index(rows, sightings[j].steam_id) >= 0,
    decreases sightings.len(),
{
    let init = sightings.drop_last();
    let prev = matched_updates(init, rows, now);
    if m < prev.len() {
        lemma_updates_members(init, rows, now, m);
        let j = choose|j: int|
            0 <= j < init.len() && prev[m].steam_id == (#[trigger] init[j]).steam_id && row_index(
                rows,
                init[j].steam_id,
            ) >= 0;
        assert(init[j] == sightings[j]);
    } else {
        let last = sightings[sightings.len() - 1];
        assert(sightings.last() == last);
        lemma_row_index_valid(rows, last.steam_id);
    }
}

proof fn lemma_updates_contains(sightings: Seq<PlayerInfo>, rows: Seq<UniquePlayer>, now: i64, i: int)
    requires
        0 <= i < sightings.len(),
        row_index(rows, sightings[i].steam_id) >= 0,
    ensures
        exists|m: int|
            0 <= m < matched_updates(sightings, rows, now).len() && (#[trigger] matched_updates(
                sightings,
                rows,
                now,
            )[m]).steam_id == sightings[i].steam_id,
    decreases sightings.len(),
{
    let init = sightings.drop_last();
    let prev = matched_updates(init, rows, now);
    lemma_row_index_valid(rows, sightings[i].steam_id);
    if i < sightings.len() - 1 {
        assert(init[i] == sightings[i]);
        lemma_updates_contains(init, rows, now, i);
        let m = choose|m: int|
            0 <= m < prev.len() && (#[trigger] matched_updates(init, rows, now)[m]).steam_id
                == init[i].steam_id;
        assert(matched_updates(sightings, rows, now)[m] == prev[m]);
    } else {
        assert(sightings.last() == sightings[i]);
        assert(matched_updates(sightings, rows, now)[prev.len() as int].steam_id
            == sightings[i].steam_id);
    }
}

proof fn lemma_all_matched(sightings: Seq<PlayerInfo>, rows: Seq<UniquePlayer>, now: i64)
    requires
        forall|i: int| 0 <= i < sightings.len() ==> row_index(rows, (#[trigger] sightings[i]).steam_id) >= 0,
    ensures
        planned_inserts(sightings, rows, now).len() == 0,
        matched_updates(sightings, rows, now).len() == sightings.len(),
        forall|i: int|
            0 <= i < sightings.len() ==> #[trigger] matched_updates(sightings, rows, now)[i]
                == updated_row(rows[row_index(rows, sightings[i].steam_id)], sightings[i], now),
    decreases sightings.len(),
{
    if sightings.len() > 0 {
        let init = sightings.drop_last();
        assert forall|i: int| 0 <= i < init.len() implies row_index(rows, (#[trigger] init[i]).steam_id)
            >= 0 by {
            assert(init[i] == sightings[i]);
        }
        lemma_all_matched(init, rows, now);
        assert(sightings.last() == sightings[sightings.len() - 1]);
        assert forall|i: int| 0 <= i < sightings.len() implies #[trigger] matched_updates(
            sightings,
            rows,
            now,
        )[i] == updated_row(rows[row_index(rows, sightings[i].steam_id)], sightings[i], now) by {
            if i < sightings.len() - 1 {
                assert(init[i] == sightings[i]);
            }
        }
    }
}

/// Feeding the same sighting twice, the store holding what the first refresh
/// wrote and nothing else changing in between: the second refresh inserts
/// nothing. When the first refresh was applied in full, the second updates
/// every sighting, and the row of a player first stored by the first refresh
/// keeps its average ping (the blend of a ping with itself is that ping).
pub proof fn lemma_refresh_idempotent(
    sightings: Seq<PlayerInfo>,
    rows: Seq<UniquePlayer>,
    t1: i64,
    t2: i64,
    first: IdentityPlan,
    second: IdentityPlan,
)
    requires
        distinct_steam_ids(sightings),
        identity_plan_holds(first, sightings, rows, t1),
        identity_plan_holds(second, sightings, rows_after(first, rows), t2),
    ensures
        second.inserts@.len() == 0,
        first.consistent ==> second.consistent && second.updates@.len() == sightings.len(),
        first.consistent ==> forall|i: int|
            0 <= i < sightings.len() && row_index(rows, sightings[i].steam_id) < 0
                ==> (#[trigger] second.updates@[i]).avg_ping == sightings[i].ping,
{
    let ins = planned_inserts(sightings, rows, t1);
    let upd = matched_updates(sightings, rows, t1);
    let after = rows_after(first, rows);
    let front = if first.consistent { upd } else { rows };
    assert(after =~= front + ins);
    assert forall|i: int| 0 <= i < sightings.len() implies row_index(
        after,
        (#[trigger] sightings[i]).steam_id,
    ) >= 0 by {
        lemma_row_index_valid(rows, sightings[i].steam_id);
        if row_index(rows, sightings[i].steam_id) < 0 {
            lemma_inserts_contains(sightings, rows, t1, i);
            let m = choose|m: int| 0 <= m < ins.len() && ins[m] == new_row(sightings[i], t1);
            assert(after[front.len() + m] == ins[m]);
            lemma_row_index_found(after, sightings[i].steam_id, front.len() + m);
        } else if first.consistent {
            lemma_updates_contains(sightings, rows, t1, i);
            let m = choose|m: int|
                0 <= m < upd.len() && (#[trigger] matched_updates(sightings, rows, t1)[m]).steam_id
                    == sightings[i].steam_id;
            assert(after[m] == upd[m]);
            lemma_row_index_found(after, sightings[i].steam_id, m);
        } else {
            let r = row_index(rows, sightings[i].steam_id);
            assert(after[r] == rows[r]);
            lemma_row_index_found(after, sightings[i].steam_id, r);
        }
    }
    lemma_all_matched(sightings, after, t2);
    lemma_plan_counts(sightings, rows, t1);
    if first.consistent {
        assert forall|i: int|
            0 <= i < sightings.len() && row_index(rows, sightings[i].steam_id) < 0 implies (
            #[trigger] second.updates@[i]).avg_ping == sightings[i].ping by {
            let si = sightings[i];
            let r = row_index(after, si.steam_id);
            lemma_row_index_valid(after, si.steam_id);
            lemma_row_index_valid(rows, si.steam_id);
            if r < upd.len() {
                assert(after[r] == upd[r]);
                lemma_updates_members(sightings, rows, t1, r);
                let j = choose|j: int|
                    0 <= j < sightings.len() && upd[r].steam_id == (#[trigger] sightings[j]).steam_id
                        && row_index(rows, sightings[j].steam_id) >= 0;
                assert(j != i);
            } else {
                assert(after[r] == ins[r - upd.len()]);
                lemma_inserts_members(sightings, rows, t1, r - upd.len());
                let j = choose|j: int|
                    0 <= j < sightings.len() && ins[r - upd.len()] == new_row(
                        #[trigger] sightings[j],
                        t1,
                    ) && row_index(rows, sightings[j].steam_id) < 0;
                assert(j == i);
                assert(after[r].avg_ping == si.ping);
            }
            assert(second.updates@[i] == updated_row(after[r], si, t2));
        }
    }
}

/// Feeding a sighting whose steam ids all have stored rows that already hold
/// the sighting's ping as their average (the state the same sighting left
/// behind, whether it created or refreshed those rows) inserts nothing, and
/// an applied refresh keeps every such average (the blend of a ping with
/// itself is that ping).
pub proof fn lemma_refresh_keeps_settled_ping(
    sightings: Seq<PlayerInfo>,
    rows: Seq<UniquePlayer>,
    now: i64,
    plan: IdentityPlan,
)
    requires
        identity_plan_holds(plan, sightings, rows, now),
        forall|i: int|
            0 <= i < sightings.len() ==> row_index(rows, (#[trigger] sightings[i]).steam_id) >= 0
                && rows[row_index(rows, sightings[i].steam_id)].avg_ping == sightings[i].ping,
    ensures
        plan.inserts@.len() == 0,
        plan.consistent ==> plan.updates@.len() == sightings.len(),
        plan.consistent ==> forall|i: int|
            0 <= i < sightings.len() ==> (#[trigger] plan.updates@[i]).avg_ping == sightings[i].ping,
{
    lemma_all_matched(sightings, rows, now);
    if plan.consistent {
        assert forall|i: int| 0 <= i < sightings.len() implies (
        #[trigger] plan.updates@[i]).avg_ping == sightings[i].ping by {
            assert(plan.updates@[i] == updated_row(
                rows[row_index(rows, sightings[i].steam_id)],
                sightings[i],
                now,
            ));
        }
    }
}

} // verus!
