//! The local cache index: synced ids per account, the last synchronisation, and
//! the record files a save must write.

use vstd::prelude::*;
use crate::clock::{SyncTime, now};
use crate::model::{Email, EmailAccount, copy_strings, strings_view};
use crate::text::{contains_text, push_char};

verus! {

/// The ids already stored for one account, in the order they were stored.
#[derive(Clone, Debug)]
pub struct AccountIds {
    pub account: String,
    pub ids: Vec<String>,
}

/// The persisted cache index: when the last synchronisation happened and
/// which message ids each account has stored.
#[derive(Clone, Debug)]
pub struct AppState {
    pub last_sync: Option<SyncTime>,
    pub uid_map: Vec<AccountIds>,
}

/// The local cache: a base directory and the index of what lies under it.
#[derive(Clone, Debug)]
pub struct LocalStorage {
    pub base_path: String,
    pub app_state: AppState,
}

/// The ids of a batch of messages.
pub open spec fn ids_of(emails: Seq<Email>) -> Seq<Seq<char>> {
    emails.map_values(|e: Email| e.id@)
}

/// The ids of `batch` that are neither in `known` nor earlier in `batch`,
/// in batch order.
pub open spec fn fresh_ids(known: Seq<Seq<char>>, batch: Seq<Seq<char>>) -> Seq<Seq<char>>
    decreases batch.len(),
{
    if batch.len() == 0 {
        Seq::empty()
    } else {
        let prev = fresh_ids(known, batch.drop_last());
        if (known + prev).contains(batch.last()) {
            prev
        } else {
            prev.push(batch.last())
        }
    }
}

/// The positions in `batch` of the ids that `fresh_ids` keeps.
pub open spec fn fresh_positions(known: Seq<Seq<char>>, batch: Seq<Seq<char>>) -> Seq<int>
    decreases batch.len(),
{
    if batch.len() == 0 {
        Seq::empty()
    } else {
        let prev = fresh_positions(known, batch.drop_last());
        if (known + fresh_ids(known, batch.drop_last())).contains(batch.last()) {
            prev
        } else {
            prev.push(batch.len() - 1)
        }
    }
}

/// A directory name for an account address: `@` becomes `_at_` and `.`
/// becomes `_dot_`.
pub open spec fn sanitized(s: Seq<char>) -> Seq<char>
    decreases s.len(),
{
    if s.len() == 0 {
        Seq::empty()
    } else {
        let c = s.last();
        sanitized(s.drop_last()) + if c == '@' {
            "_at_"@
        } else if c == '.' {
            "_dot_"@
        } else {
            seq![c]
        }
    }
}

/// The name of the file that holds the record of message `id`.
pub open spec fn record_file_text(id: Seq<char>) -> Seq<char> {
    id + ".json"@
}

/// The message id that a file name stands for: the name less its `.json`
/// extension, when it has one and something before it.
pub open spec fn record_id_text(name: Seq<char>) -> Option<Seq<char>> {
    if name.len() > 5 && name.subrange(name.len() - 5, name.len() as int) == ".json"@ {
        Some(name.subrange(0, name.len() - 5))
    } else {
        None
    }
}

/// The name of the file that holds the record of message `id`.
pub fn record_file_name(id: &str) -> (r: String)
    ensures
        r@ == record_file_text(id@),
{
    String::from_str(id).concat(".json")
}

/// The message id of a record file, or `None` for another file.
pub fn record_id(name: &str) -> (r: Option<String>)
    ensures
        crate::text::opt_text(r) == record_id_text(name@),
{
    let n = name.unicode_len();
    if n <= 5 {
        return None;
    }
    let tail = name.substring_char(n - 5, n);
    if crate::text::text_equal(tail, ".json") {
        Some(String::from_str(name.substring_char(0, n - 5)))
    } else {
        None
    }
}

/// The directory name of an account address.
pub fn sanitize_address(address: &str) -> (r: String)
    ensures
        r@ == sanitized(address@),
{
    let n = address.unicode_len();
    let mut r = String::new();
    let mut i: usize = 0;
    while i < n
        invariant
            n == address@.len(),
            i <= n,
            r@ == sanitized(address@.subrange(0, i as int)),
        decreases n - i,
    {
        let c = address.get_char(i);
        assert(address@.subrange(0, i + 1).drop_last() =~= address@.subrange(0, i as int));
        if c == '@' {
            r.append("_at_");
        } else if c == '.' {
            r.append("_dot_");
        } else {
            push_char(&mut r, c);
            assert(r@ =~= sanitized(address@.subrange(0, i as int)) + seq![c]);
        }
        i = i + 1;
    }
    assert(address@.subrange(0, n as int) =~= address@);
    r
}

/// `dir` and `name` joined by a path separator.
pub open spec fn path_join(dir: Seq<char>, name: Seq<char>) -> Seq<char> {
    dir.push('/') + name
}

/// Joins a directory and a name with a path separator.
pub fn join_path(dir: &str, name: &str) -> (r: String)
    ensures
        r@ == path_join(dir@, name@),
{
    let mut r = String::from_str(dir);
    push_char(&mut r, '/');
    r.append(name);
    r
}

impl AppState {
    /// Each account appears once, and no account lists an id twice.
    pub open spec fn wf(&self) -> bool {
        &&& forall|i: int, j: int|
            0 <= i < j < self.uid_map@.len() ==> #[trigger] self.uid_map@[i].account@ != #[trigger] self.uid_map@[j].account@
        &&& forall|i: int| 0 <= i < self.uid_map@.len() ==> (#[trigger] strings_view(self.uid_map@[i].ids@)).no_duplicates()
    }

    /// The ids stored for account `account`; none for an unknown account.
    pub open spec fn synced(&self, account: Seq<char>) -> Seq<Seq<char>> {
        if exists|i: int| 0 <= i < self.uid_map@.len() && #[trigger] self.uid_map@[i].account@ == account {
            let i = choose|i: int| 0 <= i < self.uid_map@.len() && #[trigger] self.uid_map@[i].account@ == account;
            strings_view(self.uid_map@[i].ids@)
        } else {
            Seq::empty()
        }
    }

    /// A fresh index: never synchronised, nothing stored.
    pub fn new() -> (r: AppState)
        ensures
            r.wf(),
            r.last_sync is None,
            r.uid_map@.len() == 0,
            forall|a: Seq<char>| r.synced(a) == Seq::<Seq<char>>::empty(),
    {
        AppState { last_sync: None, uid_map: Vec::new() }
    }

    /// An index from stored parts: entries after the first for an account
    /// are dropped, and each account keeps each id once, at its first place.
    pub fn from_index(last_sync: Option<SyncTime>, entries: Vec<AccountIds>) -> (r: AppState)
        ensures
            r.wf(),
            r.last_sync == last_sync,
            forall|a: Seq<char>| #[trigger] r.synced(a) == match first_entry(entries@, a) {
                Some(e) => fresh_ids(Seq::empty(), strings_view(e.ids@)),
                None => Seq::empty(),
            },
    {
        let mut state = AppState::new();
        let mut i: usize = 0;
        while i < entries.len()
            invariant
                state.wf(),
                i <= entries@.len(),
                state.last_sync is None,
                forall|a: Seq<char>| #[trigger] state.synced(a) == match first_entry(entries@.subrange(0, i as int), a) {
                    Some(e) => fresh_ids(Seq::empty(), strings_view(e.ids@)),
                    None => Seq::empty(),
                },
                forall|j: int| 0 <= j < state.uid_map@.len() ==> first_entry(entries@.subrange(0, i as int), (#[trigger] state.uid_map@[j]).account@) is Some,
                forall|a: Seq<char>, j: int|
                    #![trigger first_entry(entries@.subrange(0, i as int), a), state.uid_map@[j]]
                    0 <= j < state.uid_map@.len() && first_entry(entries@.subrange(0, i as int), a) is None ==> state.uid_map@[j].account@ != a,
                forall|a: Seq<char>| #[trigger] first_entry(entries@.subrange(0, i as int), a) is Some ==> exists|j: int|
                    0 <= j < state.uid_map@.len() && #[trigger] state.uid_map@[j].account@ == a,
            decreases entries@.len() - i,
        {
            let entry = &entries[i];
            let ghost prefix = entries@.subrange(0, i as int);
            let ghost next = entries@.subrange(0, i + 1);
            assert(next.drop_last() =~= prefix);
            match state.position_of(entry.account.as_str()) {
                Some(k) => {
                    proof {
                        assert(first_entry(prefix, entry.account@) is Some);
                        assert forall|a: Seq<char>| first_entry(next, a) == first_entry(prefix, a) by {
                            if first_entry(prefix, a) is None && a == entry.account@ {
                            }
                        }
                    }
                },
                None => {
                    let ghost old_state = state;
                    let ids = dedup_ids(&entry.ids);
                    state.uid_map.push(AccountIds { account: entry.account.clone(), ids });
                    proof {
                        let n = state.uid_map@.len() - 1;
                        state.lemma_synced_at(n);
                        assert forall|a: Seq<char>| #[trigger] state.synced(a) == match first_entry(next, a) {
                            Some(e) => fresh_ids(Seq::empty(), strings_view(e.ids@)),
                            None => Seq::empty(),
                        } by {
                            if a != entry.account@ {
                                if exists|j: int| 0 <= j < state.uid_map@.len() && #[trigger] state.uid_map@[j].account@ == a {
                                    let j = choose|j: int| 0 <= j < state.uid_map@.len() && #[trigger] state.uid_map@[j].account@ == a;
                                    state.lemma_synced_at(j);
                                    assert(old_state.uid_map@[j] == state.uid_map@[j]);
                                    old_state.lemma_synced_at(j);
                                } else {
                                    assert forall|j: int| 0 <= j < old_state.uid_map@.len() implies #[trigger] old_state.uid_map@[j].account@ != a by {
                                        assert(old_state.uid_map@[j] == state.uid_map@[j]);
                                    }
                                }
                            } else {
                                assert(first_entry(prefix, a) is None);
                            }
                        }
                        assert forall|a: Seq<char>| #[trigger] first_entry(next, a) is Some implies exists|j: int|
                            0 <= j < state.uid_map@.len() && #[trigger] state.uid_map@[j].account@ == a by {
                            if a == entry.account@ {
                                assert(state.uid_map@[n].account@ == a);
                            } else {
                                assert(first_entry(prefix, a) is Some);
                                let j = choose|j: int| 0 <= j < old_state.uid_map@.len() && #[trigger] old_state.uid_map@[j].account@ == a;
                                assert(state.uid_map@[j] == old_state.uid_map@[j]);
                            }
                        }
                        assert forall|j: int| 0 <= j < state.uid_map@.len() implies first_entry(next, (#[trigger] state.uid_map@[j]).account@) is Some by {
                            if j < n {
                                assert(old_state.uid_map@[j] == state.uid_map@[j]);
                            }
                        }
                        assert forall|a: Seq<char>, j: int|
                            #![trigger first_entry(next, a), state.uid_map@[j]]
                            0 <= j < state.uid_map@.len() && first_entry(next, a) is None implies state.uid_map@[j].account@ != a by {
                            if j < n {
                                assert(old_state.uid_map@[j] == state.uid_map@[j]);
                            }
                        }
                    }
                },
            }
            i = i + 1;
        }
        assert(entries@.subrange(0, entries@.len() as int) =~= entries@);
        let ghost before = state;
        state.last_sync = last_sync;
        assert forall|a: Seq<char>| #[trigger] state.synced(a) == match first_entry(entries@, a) {
            Some(e) => fresh_ids(Seq::empty(), strings_view(e.ids@)),
            None => Seq::empty(),
        } by {
            assert(state.uid_map@ == before.uid_map@);
            assert(before.synced(a) == state.synced(a));
        }
        state
    }

    /// The position of account `account` in the map, if it is there.
    fn position_of(&self, account: &str) -> (r: Option<usize>)
        requires
            self.wf(),
        ensures
            match r {
                Some(i) => i < self.uid_map@.len() && self.uid_map@[i as int].account@ == account@,
                None => forall|i: int| 0 <= i < self.uid_map@.len() ==> #[trigger] self.uid_map@[i].account@ != account@,
            },
    {
        let mut i: usize = 0;
        while i < self.uid_map.len()
            invariant
                i <= self.uid_map@.len(),
                forall|k: int| 0 <= k < i ==> #[trigger] self.uid_map@[k].account@ != account@,
            decreases self.uid_map@.len() - i,
        {
            if crate::text::text_equal(self.uid_map[i].account.as_str(), account) {
                return Some(i);
            }
            i = i + 1;
        }
        None
    }

    /// The ids stored for an account, in the order they were stored.
    pub fn synced_ids(&self, account: &str) -> (r: Vec<String>)
        requires
            self.wf(),
        ensures
            strings_view(r@) == self.synced(account@),
    {
        match self.position_of(account) {
            Some(i) => {
                proof {
                    let j = choose|j: int| 0 <= j < self.uid_map@.len() && #[trigger] self.uid_map@[j].account@ == account@;
                    if j != i {
                        assert(self.uid_map@[j].account@ == self.uid_map@[i as int].account@);
                    }
                }
                copy_strings(&self.uid_map[i].ids)
            },
            None => {
                let r: Vec<String> = Vec::new();
                assert(strings_view(r@) =~= Seq::<Seq<char>>::empty());
                r
            },
        }
    }

    /// Records a saved batch: appends to the account's ids those of `emails`
    /// that it does not hold yet (each once), sets the last synchronisation
    /// to `now`, and returns the positions in `emails` of the messages whose
    /// records must be written.
    pub fn record_batch(&mut self, account: &str, emails: &Vec<Email>, now: SyncTime) -> (r: Vec<usize>)
        requires
            old(self).wf(),
        ensures
            final(self).wf(),
            final(self).last_sync == Some(now),
            final(self).synced(account@) == old(self).synced(account@) + fresh_ids(
                old(self).synced(account@),
                ids_of(emails@),
            ),
            forall|a: Seq<char>| a != account@ ==> final(self).synced(a) == old(self).synced(a),
            r@.len() == fresh_positions(old(self).synced(account@), ids_of(emails@)).len(),
            forall|k: int| 0 <= k < r@.len() ==> #[trigger] r@[k] as int == fresh_positions(old(self).synced(account@), ids_of(emails@))[k],
    {
        let ghost known = self.synced(account@);
        let pos = match self.position_of(account) {
            Some(i) => {
                proof {
                    self.lemma_synced_at(i as int);
                }
                i
            },
            None => {
                self.uid_map.push(AccountIds { account: String::from_str(account), ids: Vec::new() });
                assert(strings_view(self.uid_map@[self.uid_map@.len() - 1].ids@) =~= Seq::<Seq<char>>::empty());
                self.uid_map.len() - 1
            },
        };
        assert(strings_view(self.uid_map@[pos as int].ids@) =~= known + fresh_ids(known, ids_of(emails@.subrange(0, 0))));
        let ghost base_map = self.uid_map@;
        let mut picks: Vec<usize> = Vec::new();
        let mut i: usize = 0;
        while i < emails.len()
            invariant
                self.wf(),
                i <= emails@.len(),
                pos < self.uid_map@.len(),
                self.uid_map@.len() == base_map.len(),
                self.uid_map@[pos as int].account@ == account@,
                forall|k: int| 0 <= k < base_map.len() && k != pos ==> self.uid_map@[k] == base_map[k],
                forall|k: int| 0 <= k < base_map.len() ==> (#[trigger] self.uid_map@[k]).account@ == base_map[k].account@,
                strings_view(self.uid_map@[pos as int].ids@) == known + fresh_ids(known, ids_of(emails@.subrange(0, i as int))),
                picks@.len() == fresh_positions(known, ids_of(emails@.subrange(0, i as int))).len(),
                forall|k: int| 0 <= k < picks@.len() ==> #[trigger] picks@[k] as int == fresh_positions(known, ids_of(emails@.subrange(0, i as int)))[k],
            decreases emails@.len() - i,
        {
            let ghost batch = ids_of(emails@.subrange(0, i as int));
            let ghost next = ids_of(emails@.subrange(0, i + 1));
            assert(next =~= batch.push(emails@[i as int].id@));
            assert(next.drop_last() =~= batch);
            let id = &emails[i].id;
            if !contains_text(&self.uid_map[pos].ids, id.as_str()) {
                let ghost before = self.uid_map@[pos as int].ids@;
                let ghost before_picks = picks@;
                self.uid_map[pos].ids.push(id.clone());
                picks.push(i);
                assert(strings_view(self.uid_map@[pos as int].ids@) =~= strings_view(before).push(id@));
                assert forall|a: int, b: int| 0 <= a < b < strings_view(self.uid_map@[pos as int].ids@).len() implies
                    strings_view(self.uid_map@[pos as int].ids@)[a] != strings_view(self.uid_map@[pos as int].ids@)[b] by {
                    if b == before.len() {
                        assert(strings_view(before)[a] == strings_view(self.uid_map@[pos as int].ids@)[a]);
                    } else {
                        assert(strings_view(before)[a] != strings_view(before)[b]);
                    }
                }
            }
            i = i + 1;
        }
        assert(emails@.subrange(0, emails@.len() as int) =~= emails@);
        self.last_sync = Some(now);
        proof {
            self.lemma_synced_at(pos as int);
            assert forall|a: Seq<char>| a != account@ implies self.synced(a) == old(self).synced(a) by {
                if exists|k: int| 0 <= k < self.uid_map@.len() && #[trigger] self.uid_map@[k].account@ == a {
                    let k = choose|k: int| 0 <= k < self.uid_map@.len() && #[trigger] self.uid_map@[k].account@ == a;
                    self.lemma_synced_at(k);
                    assert(k != pos);
                    if k < old(self).uid_map@.len() {
                        assert(old(self).uid_map@[k] == base_map[k]);
                        old(self).lemma_synced_at(k);
                    } else {
                        assert(base_map[k].account@ == account@);
                    }
                } else {
                    assert forall|k: int| 0 <= k < old(self).uid_map@.len() implies #[trigger] old(self).uid_map@[k].account@ != a by {
                        assert(self.uid_map@[k].account@ == base_map[k].account@);
                        assert(base_map[k] == old(self).uid_map@[k]);
                    }
                }
            }
        }
        picks
    }

    /// Under `wf`, the ids of an account are those of its one entry.
    proof fn lemma_synced_at(&self, j: int)
        requires
            self.wf(),
            0 <= j < self.uid_map@.len(),
        ensures
            self.synced(self.uid_map@[j].account@) == strings_view(self.uid_map@[j].ids@),
    {
        let a = self.uid_map@[j].account@;
        let i = choose|i: int| 0 <= i < self.uid_map@.len() && #[trigger] self.uid_map@[i].account@ == a;
        if i < j {
            assert(self.uid_map@[i].account@ != self.uid_map@[j].account@);
        } else if i > j {
            assert(self.uid_map@[j].account@ != self.uid_map@[i].account@);
        }
    }
}

/// Every id of `batch` is held by `known` or taken into the fresh ids.
proof fn lemma_batch_covered(known: Seq<Seq<char>>, batch: Seq<Seq<char>>)
    ensures
        forall|k: int| 0 <= k < batch.len() ==> (known + fresh_ids(known, batch)).contains(#[trigger] batch[k]),
    decreases batch.len(),
{
    if batch.len() > 0 {
        let init = batch.drop_last();
        let prev = fresh_ids(known, init);
        lemma_batch_covered(known, init);
        let all = known + fresh_ids(known, batch);
        assert forall|k: int| 0 <= k < batch.len() implies all.contains(#[trigger] batch[k]) by {
            if k < batch.len() - 1 {
                assert(init[k] == batch[k]);
                assert((known + prev).contains(init[k]));
                let m = choose|m: int| 0 <= m < (known + prev).len() && #[trigger] (known + prev)[m] == init[k];
                assert(all[m] == batch[k]);
            } else if !(known + prev).contains(batch.last()) {
                assert(all[all.len() - 1] == batch.last());
            } else {
                assert(all == known + prev);
            }
        }
    }
}

/// Nothing of a batch that `known` already holds is fresh.
proof fn lemma_nothing_fresh(known: Seq<Seq<char>>, batch: Seq<Seq<char>>)
    requires
        forall|k: int| 0 <= k < batch.len() ==> known.contains(#[trigger] batch[k]),
    ensures
        fresh_ids(known, batch) == Seq::<Seq<char>>::empty(),
        fresh_positions(known, batch) == Seq::<int>::empty(),
    decreases batch.len(),
{
    if batch.len() > 0 {
        let init = batch.drop_last();
        assert forall|k: int| 0 <= k < init.len() implies known.contains(#[trigger] init[k]) by {
            assert(init[k] == batch[k]);
        }
        lemma_nothing_fresh(known, init);
        assert(known + Seq::<Seq<char>>::empty() =~= known);
        assert(known.contains(batch[batch.len() - 1]));
    }
}

/// Saving the same batch twice: the second save finds no message to write
/// and leaves the account's stored ids as the first left them.
pub proof fn lemma_record_batch_idempotent(known: Seq<Seq<char>>, emails: Seq<Email>)
    ensures
        fresh_ids(known + fresh_ids(known, ids_of(emails)), ids_of(emails)) == Seq::<Seq<char>>::empty(),
        fresh_positions(known + fresh_ids(known, ids_of(emails)), ids_of(emails)) == Seq::<int>::empty(),
{
    lemma_batch_covered(known, ids_of(emails));
    lemma_nothing_fresh(known + fresh_ids(known, ids_of(emails)), ids_of(emails));
}

/// A batch with distinct ids saved into an account that holds nothing yet
/// is taken whole: every id is stored in batch order and every message's
/// record is written. With the idempotence law and an empty batch (which
/// stores nothing and only moves the last synchronisation), this is the
/// first and the second round of a sync into an empty cache.
pub proof fn lemma_empty_cache_takes_batch(emails: Seq<Email>)
    requires
        ids_of(emails).no_duplicates(),
    ensures
        fresh_ids(Seq::empty(), ids_of(emails)) == ids_of(emails),
        fresh_positions(Seq::empty(), ids_of(emails)).len() == emails.len(),
        forall|k: int| 0 <= k < emails.len() ==> #[trigger] fresh_positions(Seq::empty(), ids_of(emails))[k] == k,
        fresh_ids(ids_of(emails), Seq::<Seq<char>>::empty()) == Seq::<Seq<char>>::empty(),
{
    lemma_distinct_batch_fresh(ids_of(emails));
}

proof fn lemma_distinct_batch_fresh(batch: Seq<Seq<char>>)
    requires
        batch.no_duplicates(),
    ensures
        fresh_ids(Seq::empty(), batch) == batch,
        fresh_positions(Seq::empty(), batch).len() == batch.len(),
        forall|k: int| 0 <= k < batch.len() ==> #[trigger] fresh_positions(Seq::empty(), batch)[k] == k,
    decreases batch.len(),
{
    if batch.len() > 0 {
        let init = batch.drop_last();
        assert(init.no_duplicates()) by {
            assert forall|i: int, j: int| 0 <= i < init.len() && 0 <= j < init.len() && i != j implies init[i] != init[j] by {
                assert(init[i] == batch[i] && init[j] == batch[j]);
            }
        }
        lemma_distinct_batch_fresh(init);
        assert(Seq::<Seq<char>>::empty() + init =~= init);
        if init.contains(batch.last()) {
            let i = choose|i: int| 0 <= i < init.len() && init[i] == batch.last();
            assert(batch[i] == batch[batch.len() - 1]);
        }
        assert(init.push(batch.last()) =~= batch);
    }
}

/// The writes that a save calls for: the folder to create, and for each
/// message to store its position in the batch and the path of its record.
pub struct SavePlan {
    pub folder: String,
    pub writes: Vec<RecordWrite>,
}

/// One record file to write.
pub struct RecordWrite {
    pub index: usize,
    pub path: String,
}

impl LocalStorage {
    /// A store rooted at `base_path` with the index read from it.
    pub fn new(base_path: String, app_state: AppState) -> (r: LocalStorage)
        ensures
            r.base_path == base_path,
            r.app_state == app_state,
    {
        LocalStorage { base_path, app_state }
    }

    /// The cache is consistent: its index is well formed.
    pub open spec fn wf(&self) -> bool {
        self.app_state.wf()
    }

    /// The directory of an account: the base directory joined with the
    /// account address made safe for a file name.
    pub open spec fn account_dir(&self, account: &EmailAccount) -> Seq<char> {
        path_join(self.base_path@, sanitized(account.address@))
    }

    /// The directory of a folder: the account's directory joined with the
    /// folder name.
    pub open spec fn folder_dir(&self, account: &EmailAccount, folder: Seq<char>) -> Seq<char> {
        path_join(self.account_dir(account), folder)
    }

    /// The directory of an account's messages.
    pub fn get_account_path(&self, account: &EmailAccount) -> (r: String)
        ensures
            r@ == self.account_dir(account),
    {
        let safe = sanitize_address(account.address.as_str());
        join_path(self.base_path.as_str(), safe.as_str())
    }

    /// The directory of one folder of an account.
    pub fn get_folder_path(&self, account: &EmailAccount, folder: &str) -> (r: String)
        ensures
            r@ == self.folder_dir(account, folder@),
    {
        let dir = self.get_account_path(account);
        join_path(dir.as_str(), folder)
    }

    /// When the last synchronisation happened, if ever.
    pub fn get_last_sync(&self) -> (r: Option<SyncTime>)
        ensures
            r == self.app_state.last_sync,
    {
        self.app_state.last_sync
    }

    /// The ids already stored for an account.
    pub fn get_synced_ids(&self, account: &EmailAccount) -> (r: Vec<String>)
        requires
            self.wf(),
        ensures
            strings_view(r@) == self.app_state.synced(account.address@),
    {
        self.app_state.synced_ids(account.address.as_str())
    }

    /// Saves a batch into the index and says which records to write: each
    /// message whose id the account does not hold yet (each id once) gets
    /// the record `<folder dir>/<id>.json`; the ids are appended to the
    /// account's list and the last synchronisation is set to `now`.
    pub fn save_emails_at(&mut self, account: &EmailAccount, folder: &str, emails: &Vec<Email>, now: SyncTime) -> (r: SavePlan)
        requires
            old(self).wf(),
        ensures
            final(self).wf(),
            final(self).base_path == old(self).base_path,
            final(self).app_state.last_sync == Some(now),
            final(self).app_state.synced(account.address@) == old(self).app_state.synced(account.address@)
                + fresh_ids(old(self).app_state.synced(account.address@), ids_of(emails@)),
            forall|a: Seq<char>| a != account.address@ ==> final(self).app_state.synced(a) == old(self).app_state.synced(a),
            r.folder@ == old(self).folder_dir(account, folder@),
            r.writes@.len() == fresh_positions(old(self).app_state.synced(account.address@), ids_of(emails@)).len(),
            forall|k: int| 0 <= k < r.writes@.len() ==> {
                let p = fresh_positions(old(self).app_state.synced(account.address@), ids_of(emails@))[k];
                &&& (#[trigger] r.writes@[k]).index as int == p
                &&& r.writes@[k].path@ == path_join(r.folder@, record_file_text(emails@[p].id@))
            },
    {
        let folder_path = self.get_folder_path(account, folder);
        let picks = self.app_state.record_batch(account.address.as_str(), emails, now);
        let ghost positions = fresh_positions(old(self).app_state.synced(account.address@), ids_of(emails@));
        proof {
            lemma_positions_in_range(old(self).app_state.synced(account.address@), ids_of(emails@));
        }
        let mut writes: Vec<RecordWrite> = Vec::new();
        let mut k: usize = 0;
        while k < picks.len()
            invariant
                k <= picks@.len(),
                writes@.len() == k,
                positions == fresh_positions(old(self).app_state.synced(account.address@), ids_of(emails@)),
                positions.len() == picks@.len(),
                forall|j: int| 0 <= j < picks@.len() ==> #[trigger] picks@[j] as int == positions[j],
                forall|j: int| 0 <= j < positions.len() ==> 0 <= #[trigger] positions[j] < emails@.len(),
                forall|j: int| 0 <= j < k ==> {
                    &&& (#[trigger] writes@[j]).index as int == positions[j]
                    &&& writes@[j].path@ == path_join(folder_path@, record_file_text(emails@[positions[j]].id@))
                },
            decreases picks@.len() - k,
        {
            let p = picks[k];
            assert(positions[k as int] == p as int);
            let name = record_file_name(emails[p].id.as_str());
            let path = join_path(folder_path.as_str(), name.as_str());
            writes.push(RecordWrite { index: p, path });
            k = k + 1;
        }
        SavePlan { folder: folder_path, writes }
    }
}

impl LocalStorage {
    /// Saves a batch as `save_emails_at` does, at the current time.
    pub fn save_emails(&mut self, account: &EmailAccount, folder: &str, emails: &Vec<Email>) -> (r: SavePlan)
        requires
            old(self).wf(),
        ensures
            final(self).wf(),
            final(self).base_path == old(self).base_path,
            final(self).app_state.last_sync is Some,
            final(self).app_state.synced(account.address@) == old(self).app_state.synced(account.address@)
                + fresh_ids(old(self).app_state.synced(account.address@), ids_of(emails@)),
            forall|a: Seq<char>| a != account.address@ ==> final(self).app_state.synced(a) == old(self).app_state.synced(a),
            r.folder@ == old(self).folder_dir(account, folder@),
            r.writes@.len() == fresh_positions(old(self).app_state.synced(account.address@), ids_of(emails@)).len(),
            forall|k: int| 0 <= k < r.writes@.len() ==> {
                let p = fresh_positions(old(self).app_state.synced(account.address@), ids_of(emails@))[k];
                &&& (#[trigger] r.writes@[k]).index as int == p
                &&& r.writes@[k].path@ == path_join(r.folder@, record_file_text(emails@[p].id@))
            },
    {
        let t = now();
        self.save_emails_at(account, folder, emails, t)
    }
}

/// Each fresh position lies inside the batch.
proof fn lemma_positions_in_range(known: Seq<Seq<char>>, batch: Seq<Seq<char>>)
    ensures
        forall|j: int| 0 <= j < fresh_positions(known, batch).len() ==> 0 <= #[trigger] fresh_positions(known, batch)[j] < batch.len(),
    decreases batch.len(),
{
    if batch.len() > 0 {
        let init = batch.drop_last();
        lemma_positions_in_range(known, init);
        let prev = fresh_positions(known, init);
        assert forall|j: int| 0 <= j < fresh_positions(known, batch).len() implies 0 <= #[trigger] fresh_positions(
            known,
            batch,
        )[j] < batch.len() by {
            if j < prev.len() {
                assert(fresh_positions(known, batch)[j] == prev[j]);
            }
        }
    }
}

/// The first entry for account `a`.
pub open spec fn first_entry(entries: Seq<AccountIds>, a: Seq<char>) -> Option<AccountIds>
    decreases entries.len(),
{
    if entries.len() == 0 {
        None
    } else {
        match first_entry(entries.drop_last(), a) {
            Some(e) => Some(e),
            None => if entries.last().account@ == a {
                Some(entries.last())
            } else {
                None
            },
        }
    }
}

/// Each id once, at its first place.
pub fn dedup_ids(ids: &Vec<String>) -> (r: Vec<String>)
    ensures
        strings_view(r@) == fresh_ids(Seq::empty(), strings_view(ids@)),
        strings_view(r@).no_duplicates(),
{
    let mut r: Vec<String> = Vec::new();
    let mut i: usize = 0;
    while i < ids.len()
        invariant
            i <= ids@.len(),
            strings_view(r@) == fresh_ids(Seq::empty(), strings_view(ids@.subrange(0, i as int))),
            strings_view(r@).no_duplicates(),
        decreases ids@.len() - i,
    {
        let ghost before = r@;
        let ghost batch = strings_view(ids@.subrange(0, i as int));
        assert(strings_view(ids@.subrange(0, i + 1)) =~= batch.push(ids@[i as int]@));
        assert(strings_view(ids@.subrange(0, i + 1)).drop_last() =~= batch);
        assert(Seq::<Seq<char>>::empty() + strings_view(before) =~= strings_view(before));
        if !contains_text(&r, ids[i].as_str()) {
            r.push(ids[i].clone());
            assert(strings_view(r@) =~= strings_view(before).push(ids@[i as int]@));
        }
        i = i + 1;
    }
    assert(ids@.subrange(0, ids@.len() as int) =~= ids@);
    r
}

} // verus!
