//! Reconciliation engine: a pure, last-write-wins classification of note
//! identifiers into the actions a synchronization pass must take.

use crate::table::assoc_index;
use crate::table::assoc_lookup;
use crate::table::assoc_upsert;
use crate::table::lemma_assoc_index;
use vstd::prelude::*;

verus! {

/// One required action for one note identifier, computed by a
/// reconciliation pass.
#[derive(Debug)]
pub enum SyncAction {
    /// The note exists on the filesystem only: insert it into the store.
    NewOnFilesystem(String),
    /// The note exists in the store only: write it back to the filesystem.
    NewInDatabase(String),
    /// Both sides know the note and the store's copy is strictly newer.
    UpdateFilesystem(String),
    /// Both sides know the note and the filesystem's copy is strictly newer.
    UpdateDatabase(String),
    /// Both sides carry the same timestamp: nothing to do.
    NoChange(String),
}

/// The kind of a `SyncAction`, without its identifier payload.
pub enum ActionKind {
    NewOnFilesystem,
    NewInDatabase,
    UpdateFilesystem,
    UpdateDatabase,
    NoChange,
}

pub open spec fn action_rep(a: SyncAction) -> (ActionKind, Seq<char>) {
    match a {
        SyncAction::NewOnFilesystem(u) => (ActionKind::NewOnFilesystem, u@),
        SyncAction::NewInDatabase(u) => (ActionKind::NewInDatabase, u@),
        SyncAction::UpdateFilesystem(u) => (ActionKind::UpdateFilesystem, u@),
        SyncAction::UpdateDatabase(u) => (ActionKind::UpdateDatabase, u@),
        SyncAction::NoChange(u) => (ActionKind::NoChange, u@),
    }
}

/// The kind and identifier of every action in a sequence.
pub open spec fn action_reps(s: Seq<SyncAction>) -> Seq<(ActionKind, Seq<char>)> {
    s.map_values(|a: SyncAction| action_rep(a))
}

impl PartialEq for SyncAction {
    fn eq(&self, other: &SyncAction) -> (r: bool) {
        match (self, other) {
            (SyncAction::NewOnFilesystem(a), SyncAction::NewOnFilesystem(b)) => *a == *b,
            (SyncAction::NewInDatabase(a), SyncAction::NewInDatabase(b)) => *a == *b,
            (SyncAction::UpdateFilesystem(a), SyncAction::UpdateFilesystem(b)) => *a == *b,
            (SyncAction::UpdateDatabase(a), SyncAction::UpdateDatabase(b)) => *a == *b,
            (SyncAction::NoChange(a), SyncAction::NoChange(b)) => *a == *b,
            _ => false,
        }
    }
}

impl vstd::std_specs::cmp::PartialEqSpecImpl for SyncAction {
    open spec fn obeys_eq_spec() -> bool {
        true
    }

    open spec fn eq_spec(&self, other: &SyncAction) -> bool {
        action_rep(*self) == action_rep(*other)
    }
}

/// The identifier-to-timestamp association one side of a synchronization
/// reports. Keys are unique; insertion order is kept.
pub struct TimeTable {
    entries: Vec<(String, i64)>,
}

/// The views of a sequence of identifiers.
pub open spec fn id_views(v: Seq<String>) -> Seq<Seq<char>> {
    Seq::new(v.len(), |i: int| v[i]@)
}

pub open spec fn table_contains(s: Seq<(Seq<char>, i64)>, k: Seq<char>) -> bool {
    assoc_index(s, k) >= 0
}

/// The timestamp stored under the given key, if any.
pub open spec fn table_lookup(s: Seq<(Seq<char>, i64)>, k: Seq<char>) -> Option<i64> {
    assoc_lookup(s, k)
}

/// The table after storing `v` under `k`: replaces the first entry with key
/// `k` in place, or appends a fresh entry.
pub open spec fn table_upsert(s: Seq<(Seq<char>, i64)>, k: Seq<char>, v: i64) -> Seq<
    (Seq<char>, i64),
> {
    assoc_upsert(s, k, v)
}

/// No two entries share a key.
pub open spec fn table_wf(s: Seq<(Seq<char>, i64)>) -> bool {
    forall|i: int, j: int| 0 <= i < j < s.len() ==> s[i].0 != s[j].0
}

/// Storing into a table with distinct keys keeps its keys distinct, so
/// every table built by `insert` alone satisfies `table_wf`.
pub proof fn lemma_upsert_preserves_wf(s: Seq<(Seq<char>, i64)>, k: Seq<char>, v: i64)
    requires
        table_wf(s),
    ensures
        table_wf(table_upsert(s, k, v)),
{
    lemma_assoc_index(s, k);
    let i = assoc_index(s, k);
    if i < 0 {
        assert forall|a: int, b: int|
            0 <= a < b < table_upsert(s, k, v).len() implies table_upsert(s, k, v)[a].0
            != table_upsert(s, k, v)[b].0 by {
            if b == s.len() {
                assert(s[a].0 != k);
            }
        }
    } else {
        assert forall|a: int, b: int|
            0 <= a < b < table_upsert(s, k, v).len() implies table_upsert(s, k, v)[a].0
            != table_upsert(s, k, v)[b].0 by {
            assert(s[i].0 == k);
        }
    }
}

impl View for TimeTable {
    type V = Seq<(Seq<char>, i64)>;

    closed spec fn view(&self) -> Seq<(Seq<char>, i64)> {
        Seq::new(self.entries@.len(), |i: int| (self.entries@[i].0@, self.entries@[i].1))
    }
}

impl TimeTable {
    /// An empty table.
    pub fn new() -> (r: TimeTable)
        ensures
            r@ == Seq::<(Seq<char>, i64)>::empty(),
    {
        let r = TimeTable { entries: Vec::new() };
        proof {
            assert(r@ =~= Seq::<(Seq<char>, i64)>::empty());
        }
        r
    }

    pub fn len(&self) -> (r: usize)
        ensures
            r == self@.len(),
    {
        self.entries.len()
    }

    /// Stores `time` under `id`, replacing any entry already keyed by it.
    pub fn insert(&mut self, id: String, time: i64)
        ensures
            final(self)@ == table_upsert(old(self)@, id@, time),
    {
        proof {
            lemma_assoc_index(self@, id@);
        }
        let n = self.entries.len();
        let mut i: usize = 0;
        while i < n
            invariant
                n == self.entries@.len(),
                0 <= i <= n,
                self@ == old(self)@,
                self.entries@ == old(self).entries@,
                forall|j: int| 0 <= j < i ==> self@[j].0 != id@,
            decreases n - i,
        {
            if self.entries[i].0 == id {
                proof {
                    assert(self@[i as int].0 == id@);
                    assert(assoc_index(self@, id@) == i as int) by {
                        lemma_assoc_index(self@, id@);
                    }
                }
                self.entries.remove(i);
                self.entries.insert(i, (id, time));
                proof {
                    assert(final(self)@ =~= table_upsert(old(self)@, id@, time));
                }
                return ;
            }
            i += 1;
        }
        proof {
            assert(assoc_index(self@, id@) < 0) by {
                lemma_assoc_index(self@, id@);
            }
        }
        self.entries.push((id, time));
        proof {
            assert(final(self)@ =~= table_upsert(old(self)@, id@, time));
        }
    }

    /// The timestamp stored under `id`, if any.
    pub fn get(&self, id: &String) -> (r: Option<i64>)
        ensures
            r == table_lookup(self@, id@),
    {
        let n = self.entries.len();
        let mut i: usize = 0;
        while i < n
            invariant
                n == self.entries@.len(),
                0 <= i <= n,
                forall|j: int| 0 <= j < i ==> self@[j].0 != id@,
            decreases n - i,
        {
            if self.entries[i].0 == *id {
                proof {
                    assert(self@[i as int].0 == id@);
                    assert(assoc_index(self@, id@) == i as int) by {
                        lemma_assoc_index(self@, id@);
                    }
                }
                return Some(self.entries[i].1);
            }
            i += 1;
        }
        proof {
            lemma_assoc_index(self@, id@);
        }
        None
    }

    /// Whether any entry is keyed by `id`.
    pub fn contains_key(&self, id: &String) -> (r: bool)
        ensures
            r == table_contains(self@, id@),
    {
        self.get(id).is_some()
    }
}

/// The kind of action owed to an identifier that is present on the
/// filesystem, per the last-write-wins rule: absent from the store means new;
/// otherwise the strictly greater timestamp wins and a tie means no change.
/// A filesystem identifier without a filesystem timestamp counts as time 0.
pub open spec fn fs_action_kind(
    u: Seq<char>,
    db: Seq<(Seq<char>, i64)>,
    fs: Seq<(Seq<char>, i64)>,
) -> ActionKind {
    match table_lookup(db, u) {
        Option::None => ActionKind::NewOnFilesystem,
        Option::Some(d) => {
            let f = match table_lookup(fs, u) {
                Option::Some(t) => t,
                Option::None => 0,
            };
            if f > d {
                ActionKind::UpdateDatabase
            } else if d > f {
                ActionKind::UpdateFilesystem
            } else {
                ActionKind::NoChange
            }
        },
    }
}

/// The actions owed to the filesystem identifiers, in their given order.
pub open spec fn fs_part(
    ids: Seq<Seq<char>>,
    db: Seq<(Seq<char>, i64)>,
    fs: Seq<(Seq<char>, i64)>,
) -> Seq<(ActionKind, Seq<char>)>
    decreases ids.len(),
{
    if ids.len() == 0 {
        Seq::empty()
    } else {
        fs_part(ids.drop_last(), db, fs).push((fs_action_kind(ids.last(), db, fs), ids.last()))
    }
}

/// One `NewInDatabase` action for each store entry whose identifier is not
/// on the filesystem, in store order.
pub open spec fn db_only_part(db: Seq<(Seq<char>, i64)>, fs_ids: Seq<Seq<char>>) -> Seq<
    (ActionKind, Seq<char>),
>
    decreases db.len(),
{
    if db.len() == 0 {
        Seq::empty()
    } else {
        let rest = db_only_part(db.drop_last(), fs_ids);
        if fs_ids.contains(db.last().0) {
            rest
        } else {
            rest.push((ActionKind::NewInDatabase, db.last().0))
        }
    }
}

/// The full classification: every filesystem identifier first, then every
/// store-only identifier.
pub open spec fn classify(
    fs_ids: Seq<Seq<char>>,
    db: Seq<(Seq<char>, i64)>,
    fs: Seq<(Seq<char>, i64)>,
) -> Seq<(ActionKind, Seq<char>)> {
    fs_part(fs_ids, db, fs) + db_only_part(db, fs_ids)
}

proof fn lemma_action_reps_push(s: Seq<SyncAction>, a: SyncAction)
    ensures
        action_reps(s.push(a)) == action_reps(s).push(action_rep(a)),
{
    assert(action_reps(s.push(a)) =~= action_reps(s).push(action_rep(a)));
}

fn contains_id(v: &Vec<String>, id: &String) -> (r: bool)
    ensures
        r == id_views(v@).contains(id@),
{
    let n = v.len();
    let mut i: usize = 0;
    while i < n
        invariant
            n == v@.len(),
            0 <= i <= n,
            forall|j: int| 0 <= j < i ==> id_views(v@)[j] != id@,
        decreases n - i,
    {
        if v[i] == *id {
            proof {
                assert(id_views(v@)[i as int] == id@);
            }
            return true;
        }
        i += 1;
    }
    false
}

pub struct SyncEngine;

impl SyncEngine {
    /// Classifies every identifier known to either side into exactly one
    /// action, per the last-write-wins rule of `fs_action_kind`:
    /// filesystem identifiers first (in order), then the store entries
    /// absent from the filesystem (in store order).
    pub fn categorize(fs_uuids: &Vec<String>, db_times: &TimeTable, fs_times: &TimeTable) -> (r:
        Vec<SyncAction>)
        ensures
            action_reps(r@) == classify(id_views(fs_uuids@), db_times@, fs_times@),
    {
        let ghost gdb = db_times@;
        let ghost gfs = fs_times@;
        let ghost gids = id_views(fs_uuids@);
        let mut actions: Vec<SyncAction> = Vec::new();

        let n = fs_uuids.len();
        let mut i: usize = 0;
        while i < n
            invariant
                n == fs_uuids@.len(),
                0 <= i <= n,
                gdb == db_times@,
                gfs == fs_times@,
                gids == id_views(fs_uuids@),
                action_reps(actions@) == fs_part(gids.take(i as int), gdb, gfs),
            decreases n - i,
        {
            let uuid = &fs_uuids[i];
            let act = match db_times.get(uuid) {
                Option::None => SyncAction::NewOnFilesystem(uuid.clone()),
                Option::Some(d) => {
                    let f: i64 = match fs_times.get(uuid) {
                        Option::Some(t) => t,
                        Option::None => 0,
                    };
                    if f > d {
                        SyncAction::UpdateDatabase(uuid.clone())
                    } else if d > f {
                        SyncAction::UpdateFilesystem(uuid.clone())
                    } else {
                        SyncAction::NoChange(uuid.clone())
                    }
                },
            };
            proof {
                let u = gids[i as int];
                assert(action_rep(act) == (fs_action_kind(u, gdb, gfs), u));
            }
            actions.push(act);
            proof {
                assert(gids.take(i + 1).drop_last() =~= gids.take(i as int));
                assert(gids.take(i + 1).last() == gids[i as int]);
                assert(action_reps(actions@) =~~= fs_part(gids.take(i + 1), gdb, gfs));
            }
            i += 1;
        }
        proof {
            assert(gids.take(n as int) =~= gids);
            assert(action_reps(actions@) =~~= fs_part(gids, gdb, gfs) + db_only_part(
                gdb.take(0),
                gids,
            ));
        }

        let m = db_times.entries.len();
        let mut j: usize = 0;
        while j < m
            invariant
                m == db_times.entries@.len(),
                m == gdb.len(),
                0 <= j <= m,
                gdb == db_times@,
                gids == id_views(fs_uuids@),
                action_reps(actions@) == fs_part(gids, gdb, gfs) + db_only_part(
                    gdb.take(j as int),
                    gids,
                ),
            decreases m - j,
        {
            let uuid = &db_times.entries[j].0;
            proof {
                assert(gdb[j as int].0 == uuid@);
            }
            let ghost prev_actions = actions@;
            let on_fs = contains_id(fs_uuids, uuid);
            if !on_fs {
                let act = SyncAction::NewInDatabase(uuid.clone());
                let ghost gact = act;
                actions.push(act);
                proof {
                    lemma_action_reps_push(prev_actions, gact);
                }
            }
            proof {
                let prev = gdb.take(j as int);
                let cur = gdb.take(j + 1);
                assert(cur.drop_last() =~= prev);
                assert(cur.last() == gdb[j as int]);
                if on_fs {
                    assert(db_only_part(cur, gids) == db_only_part(prev, gids));
                } else {
                    let rep = (ActionKind::NewInDatabase, gdb[j as int].0);
                    assert(db_only_part(cur, gids) == db_only_part(prev, gids).push(rep));
                    Seq::push_distributes_over_add(
                        fs_part(gids, gdb, gfs),
                        db_only_part(prev, gids),
                        rep,
                    );
                }
                assert(action_reps(actions@) == fs_part(gids, gdb, gfs) + db_only_part(
                    cur,
                    gids,
                ));
            }
            j += 1;
        }
        proof {
            assert(gdb.take(m as int) =~= gdb);
        }
        actions
    }
}

/// Number of classified actions that carry the identifier `u`.
pub open spec fn id_count(s: Seq<(ActionKind, Seq<char>)>, u: Seq<char>) -> nat
    decreases s.len(),
{
    if s.len() == 0 {
        0nat
    } else {
        id_count(s.drop_last(), u) + if s.last().1 == u {
            1nat
        } else {
            0nat
        }
    }
}

/// Number of times `u` occurs among `ids`.
pub open spec fn id_occurrences(ids: Seq<Seq<char>>, u: Seq<char>) -> nat
    decreases ids.len(),
{
    if ids.len() == 0 {
        0nat
    } else {
        id_occurrences(ids.drop_last(), u) + if ids.last() == u {
            1nat
        } else {
            0nat
        }
    }
}

/// Whether some entry of the table has the key `k`.
pub open spec fn has_key(s: Seq<(Seq<char>, i64)>, k: Seq<char>) -> bool {
    exists|i: int| 0 <= i < s.len() && s[i].0 == k
}

proof fn lemma_id_count_add(a: Seq<(ActionKind, Seq<char>)>, b: Seq<(ActionKind, Seq<char>)>, u: Seq<char>)
    ensures
        id_count(a + b, u) == id_count(a, u) + id_count(b, u),
    decreases b.len(),
{
    if b.len() == 0 {
        assert(a + b =~= a);
    } else {
        lemma_id_count_add(a, b.drop_last(), u);
        assert((a + b).drop_last() =~= a + b.drop_last());
        assert((a + b).last() == b.last());
    }
}

proof fn lemma_fs_part_index(ids: Seq<Seq<char>>, db: Seq<(Seq<char>, i64)>, fs: Seq<(Seq<char>, i64)>)
    ensures
        fs_part(ids, db, fs).len() == ids.len(),
        forall|k: int|
            0 <= k < ids.len() ==> fs_part(ids, db, fs)[k] == (
            fs_action_kind(ids[k], db, fs),
            ids[k],
            ),
    decreases ids.len(),
{
    if ids.len() > 0 {
        lemma_fs_part_index(ids.drop_last(), db, fs);
        assert forall|k: int| 0 <= k < ids.len() implies fs_part(ids, db, fs)[k] == (
            fs_action_kind(ids[k], db, fs),
            ids[k],
        ) by {
            if k < ids.len() - 1 {
                assert(ids.drop_last()[k] == ids[k]);
            }
        }
    }
}

proof fn lemma_fs_part_count(
    ids: Seq<Seq<char>>,
    db: Seq<(Seq<char>, i64)>,
    fs: Seq<(Seq<char>, i64)>,
    u: Seq<char>,
)
    ensures
        id_count(fs_part(ids, db, fs), u) == id_occurrences(ids, u),
    decreases ids.len(),
{
    if ids.len() > 0 {
        lemma_fs_part_count(ids.drop_last(), db, fs, u);
        assert(fs_part(ids, db, fs).drop_last() =~= fs_part(ids.drop_last(), db, fs));
    }
}

proof fn lemma_occurrences_distinct(ids: Seq<Seq<char>>, u: Seq<char>)
    requires
        forall|i: int, j: int| 0 <= i < j < ids.len() ==> ids[i] != ids[j],
    ensures
        id_occurrences(ids, u) == if ids.contains(u) {
            1nat
        } else {
            0nat
        },
    decreases ids.len(),
{
    if ids.len() == 0 {
        assert(!ids.contains(u));
    } else {
        let pre = ids.drop_last();
        assert(forall|i: int, j: int| 0 <= i < j < pre.len() ==> pre[i] != pre[j]);
        lemma_occurrences_distinct(pre, u);
        if ids.last() == u {
            assert(!pre.contains(u)) by {
                if pre.contains(u) {
                    let i = choose|i: int| 0 <= i < pre.len() && pre[i] == u;
                    assert(ids[i] == ids[ids.len() - 1]);
                }
            }
            assert(ids.contains(u)) by {
                assert(ids[ids.len() - 1] == u);
            }
        } else {
            assert(pre.contains(u) == ids.contains(u)) by {
                if pre.contains(u) {
                    let i = choose|i: int| 0 <= i < pre.len() && pre[i] == u;
                    assert(ids[i] == u);
                }
                if ids.contains(u) {
                    let i = choose|i: int| 0 <= i < ids.len() && ids[i] == u;
                    assert(pre[i] == u);
                }
            }
        }
    }
}

proof fn lemma_db_only_index(db: Seq<(Seq<char>, i64)>, fs_ids: Seq<Seq<char>>)
    ensures
        forall|k: int|
            0 <= k < db_only_part(db, fs_ids).len() ==> {
                &&& db_only_part(db, fs_ids)[k].0 == ActionKind::NewInDatabase
                &&& !fs_ids.contains(db_only_part(db, fs_ids)[k].1)
                &&& has_key(db, db_only_part(db, fs_ids)[k].1)
            },
    decreases db.len(),
{
    if db.len() > 0 {
        let pre = db.drop_last();
        lemma_db_only_index(pre, fs_ids);
        assert forall|k: int| 0 <= k < db_only_part(db, fs_ids).len() implies {
            &&& db_only_part(db, fs_ids)[k].0 == ActionKind::NewInDatabase
            &&& !fs_ids.contains(db_only_part(db, fs_ids)[k].1)
            &&& has_key(db, db_only_part(db, fs_ids)[k].1)
        } by {
            if k < db_only_part(pre, fs_ids).len() {
                assert(db_only_part(db, fs_ids)[k] == db_only_part(pre, fs_ids)[k]);
                let key = db_only_part(pre, fs_ids)[k].1;
                let i = choose|i: int| 0 <= i < pre.len() && pre[i].0 == key;
                assert(db[i].0 == key);
            } else {
                assert(db[db.len() - 1].0 == db.last().0);
            }
        }
    }
}

proof fn lemma_db_only_count(db: Seq<(Seq<char>, i64)>, fs_ids: Seq<Seq<char>>, u: Seq<char>)
    requires
        table_wf(db),
    ensures
        id_count(db_only_part(db, fs_ids), u) == if has_key(db, u) && !fs_ids.contains(u) {
            1nat
        } else {
            0nat
        },
    decreases db.len(),
{
    if db.len() == 0 {
        assert(!has_key(db, u));
    } else {
        let pre = db.drop_last();
        assert(forall|i: int, j: int| 0 <= i < j < pre.len() ==> pre[i].0 != pre[j].0);
        lemma_db_only_count(pre, fs_ids, u);
        let rest = db_only_part(pre, fs_ids);
        if !fs_ids.contains(db.last().0) {
            assert(db_only_part(db, fs_ids).drop_last() =~= rest);
        }
        if db.last().0 == u {
            assert(!has_key(pre, u)) by {
                if has_key(pre, u) {
                    let i = choose|i: int| 0 <= i < pre.len() && pre[i].0 == u;
                    assert(db[i].0 == db[db.len() - 1].0);
                }
            }
            assert(has_key(db, u)) by {
                assert(db[db.len() - 1].0 == u);
            }
        } else {
            assert(has_key(pre, u) == has_key(db, u)) by {
                if has_key(pre, u) {
                    let i = choose|i: int| 0 <= i < pre.len() && pre[i].0 == u;
                    assert(db[i].0 == u);
                }
                if has_key(db, u) {
                    let i = choose|i: int| 0 <= i < db.len() && db[i].0 == u;
                    assert(pre[i].0 == u);
                }
            }
        }
    }
}

/// Law: for any inputs with distinct filesystem identifiers and a
/// well-formed store table, every identifier appearing among the filesystem
/// identifiers or the store entries appears in exactly one classified
/// action, any other identifier appears in none, and the kind of the action
/// that carries it is exactly the one the last-write-wins rule owes it.
pub proof fn lemma_classification_partition(
    fs_ids: Seq<Seq<char>>,
    db: Seq<(Seq<char>, i64)>,
    fs: Seq<(Seq<char>, i64)>,
    u: Seq<char>,
)
    requires
        forall|i: int, j: int| 0 <= i < j < fs_ids.len() ==> fs_ids[i] != fs_ids[j],
        table_wf(db),
    ensures
        id_count(classify(fs_ids, db, fs), u) == if fs_ids.contains(u) || table_contains(db, u) {
            1nat
        } else {
            0nat
        },
        forall|k: int|
            0 <= k < classify(fs_ids, db, fs).len() && classify(fs_ids, db, fs)[k].1 == u
                ==> classify(fs_ids, db, fs)[k].0 == (if fs_ids.contains(u) {
                fs_action_kind(u, db, fs)
            } else {
                ActionKind::NewInDatabase
            }),
{
    let fp = fs_part(fs_ids, db, fs);
    let dp = db_only_part(db, fs_ids);
    lemma_id_count_add(fp, dp, u);
    lemma_fs_part_count(fs_ids, db, fs, u);
    lemma_occurrences_distinct(fs_ids, u);
    lemma_db_only_count(db, fs_ids, u);
    lemma_assoc_index(db, u);
    assert(table_contains(db, u) == has_key(db, u)) by {
        if table_contains(db, u) {
            assert(db[assoc_index(db, u)].0 == u);
        }
    }
    lemma_fs_part_index(fs_ids, db, fs);
    lemma_db_only_index(db, fs_ids);
    assert forall|k: int|
        0 <= k < classify(fs_ids, db, fs).len() && classify(fs_ids, db, fs)[k].1
            == u implies classify(fs_ids, db, fs)[k].0 == (if fs_ids.contains(u) {
        fs_action_kind(u, db, fs)
    } else {
        ActionKind::NewInDatabase
    }) by {
        if k < fp.len() {
            assert(classify(fs_ids, db, fs)[k] == fp[k]);
            assert(fs_ids[k] == u);
            assert(fs_ids.contains(u)) by {
                assert(fs_ids[k] == u);
            }
        } else {
            assert(classify(fs_ids, db, fs)[k] == dp[k - fp.len()]);
        }
    }
}

/// Law: an identifier present on both sides with equal timestamps is
/// classified exactly once, and always as `NoChange` — never as an update
/// in either direction.
pub proof fn lemma_tie_break_no_change(
    fs_ids: Seq<Seq<char>>,
    db: Seq<(Seq<char>, i64)>,
    fs: Seq<(Seq<char>, i64)>,
    u: Seq<char>,
)
    requires
        forall|i: int, j: int| 0 <= i < j < fs_ids.len() ==> fs_ids[i] != fs_ids[j],
        table_wf(db),
        fs_ids.contains(u),
        table_lookup(db, u) is Some,
        table_lookup(fs, u) == table_lookup(db, u),
    ensures
        fs_action_kind(u, db, fs) == ActionKind::NoChange,
        id_count(classify(fs_ids, db, fs), u) == 1,
        forall|k: int|
            0 <= k < classify(fs_ids, db, fs).len() && classify(fs_ids, db, fs)[k].1 == u
                ==> classify(fs_ids, db, fs)[k].0 == ActionKind::NoChange,
{
    lemma_classification_partition(fs_ids, db, fs, u);
}

} // verus!
