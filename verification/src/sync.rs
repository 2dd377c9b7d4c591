//! Sync state: the small key-value record that remembers how far the
//! storage channel was read.

use crate::model::{index_of, lemma_index_of, lemma_index_of_found};
use crate::text::{
    chars_of, i64_chars, int_text, lemma_parse_int_text, parse_i64_chars, parse_i64_text,
    string_of,
};
use vstd::prelude::*;

verus! {

/// The key of the watermark: the highest message id read so far.
pub const LAST_MESSAGE_KEY: &'static str = "storage_last_message_id";

/// The key under which the time of the last full read is kept.
pub const SYNC_DONE_KEY: &'static str = "storage_sync_done";

/// The key under which the time of the last reconciliation is kept.
pub const RECONCILE_DONE_KEY: &'static str = "storage_reconcile_done";

/// Keys with their values; a key is looked up from the front.
pub struct SyncState {
    pub entries: Vec<(String, String)>,
}

/// The view of the sync state: the keys and, at the same offsets, their values.
pub struct SyncView {
    pub keys: Seq<Seq<char>>,
    pub values: Seq<Seq<char>>,
}

impl View for SyncState {
    type V = SyncView;

    open spec fn view(&self) -> SyncView {
        SyncView {
            keys: Seq::new(self.entries@.len(), |i: int| self.entries@[i].0@),
            values: Seq::new(self.entries@.len(), |i: int| self.entries@[i].1@),
        }
    }
}

impl SyncView {
    /// The value kept under `key`, if any.
    pub open spec fn get(self, key: Seq<char>) -> Option<Seq<char>> {
        let i = index_of(self.keys, key);
        if i < self.keys.len() {
            Some(self.values[i])
        } else {
            None
        }
    }

    /// The watermark: the number kept under its key, 0 when there is none
    /// or it is no number.
    pub open spec fn watermark(self) -> i64 {
        match self.get(LAST_MESSAGE_KEY@) {
            Some(t) => match parse_i64_text(t) {
                Some(n) => n,
                None => 0,
            },
            None => 0,
        }
    }
}

impl SyncState {
    /// A sync state that keeps nothing.
    pub fn new() -> (r: SyncState)
        ensures
            forall|k: Seq<char>| r@.get(k) is None,
    {
        SyncState { entries: Vec::new() }
    }
}

/// The value kept under `key`, if any.
pub fn get_sync(state: &SyncState, key: &str) -> (r: Option<String>)
    ensures
        match r {
            Some(v) => state@.get(key@) == Some(v@),
            None => state@.get(key@) is None,
        },
{
    let wanted = String::from_str(key);
    let mut i: usize = 0;
    while i < state.entries.len()
        invariant
            i <= state.entries.len(),
            wanted@ == key@,
            forall|k: int| 0 <= k < i ==> state@.keys[k] != key@,
        decreases state.entries.len() - i,
    {
        if state.entries[i].0 == wanted {
            proof {
                lemma_index_of(state@.keys, key@, i as int);
            }
            return Some(state.entries[i].1.clone());
        }
        i += 1;
    }
    proof {
        lemma_index_of(state@.keys, key@, i as int);
    }
    None
}

/// Keeps `value` under `key`, in place of what was kept there.
pub fn set_sync(state: &mut SyncState, key: &str, value: &str)
    ensures
        forall|k: Seq<char>|
            #[trigger] final(state)@.get(k) == if k == key@ {
                Some(value@)
            } else {
                old(state)@.get(k)
            },
{
    let ghost before = state@;
    let wanted = String::from_str(key);
    let mut i: usize = 0;
    while i < state.entries.len()
        invariant
            i <= state.entries.len(),
            wanted@ == key@,
            state@ == before,
            before == old(state)@,
            forall|k: int| 0 <= k < i ==> state@.keys[k] != key@,
        decreases state.entries.len() - i,
    {
        if state.entries[i].0 == wanted {
            state.entries.set(i, (String::from_str(key), String::from_str(value)));
            proof {
                let after = state@;
                assert(after.keys =~= before.keys);
                assert(after.values =~= before.values.update(i as int, value@));
                lemma_index_of(before.keys, key@, i as int);
                assert forall|k: Seq<char>| #[trigger]
                    after.get(k) == if k == key@ {
                        Some(value@)
                    } else {
                        before.get(k)
                    } by {
                    lemma_index_of_found(before.keys, k);
                    lemma_index_of_found(after.keys, k);
                    if k == key@ {
                        assert(index_of(after.keys, k) == i);
                        assert(after.values[i as int] == value@);
                    } else {
                        let p = index_of(before.keys, k);
                        if p < before.keys.len() {
                            assert(p != i);
                            assert(after.values[p] == before.values[p]);
                        }
                    }
                }
            }
            return ;
        }
        i += 1;
    }
    state.entries.push((String::from_str(key), String::from_str(value)));
    proof {
        let after = state@;
        let n = before.keys.len() as int;
        assert(after.keys =~= before.keys.push(key@));
        assert(after.values =~= before.values.push(value@));
        lemma_index_of(before.keys, key@, n);
        lemma_index_of(after.keys, key@, n);
        assert forall|k: Seq<char>| #[trigger]
            after.get(k) == if k == key@ {
                Some(value@)
            } else {
                before.get(k)
            } by {
            if k != key@ {
                lemma_index_of_found(before.keys, k);
                let p = index_of(before.keys, k);
                if p < n {
                    lemma_index_of(after.keys, k, p);
                } else {
                    lemma_index_of(after.keys, k, n + 1);
                }
            }
        }
    }
}

/// The watermark that the state holds.
pub fn read_watermark(state: &SyncState) -> (r: i64)
    ensures
        r == state@.watermark(),
{
    match get_sync(state, LAST_MESSAGE_KEY) {
        Some(text) => match parse_i64_chars(&chars_of(text.as_str())) {
            Some(n) => n,
            None => 0,
        },
        None => 0,
    }
}

/// The watermark after message `max_id` was read: it only moves forward.
pub open spec fn advanced(current: i64, max_id: i64) -> i64 {
    if max_id > 0 && max_id > current {
        max_id
    } else {
        current
    }
}

/// Moves the watermark to `max_id` if that lies ahead of it. No other key
/// changes.
pub fn advance_watermark(state: &mut SyncState, max_id: i64)
    ensures
        final(state)@.watermark() == advanced(old(state)@.watermark(), max_id),
        final(state)@.watermark() >= old(state)@.watermark(),
        forall|k: Seq<char>|
            k != LAST_MESSAGE_KEY@ ==> #[trigger] final(state)@.get(k) == old(state)@.get(k),
{
    if max_id > 0 {
        let current = read_watermark(state);
        if max_id > current {
            let text = string_of(&i64_chars(max_id));
            proof {
                lemma_parse_int_text(max_id);
            }
            set_sync(state, LAST_MESSAGE_KEY, text.as_str());
            assert(final(state)@.get(LAST_MESSAGE_KEY@) == Some(int_text(max_id as int)));
        }
    }
}

} // verus!
