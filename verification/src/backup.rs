//! Full reads of the storage channel: the first import into an index, the
//! incremental import of what came after the watermark, and the rebuilding
//! of an index from nothing.

use crate::error::CoreError;
use crate::index::Index;
use crate::model::{first_index, lemma_first_index, lemma_keeps_trans, lemma_put_keeps, IndexView};
use crate::indexer::IndexOutcome;
use crate::scan::{lemma_tally_bounds, scan_messages, scanned, tallies, tally, ScanCounts};
use crate::sync::{read_watermark, set_sync, SyncState, LAST_MESSAGE_KEY, SYNC_DONE_KEY};
use crate::telegram::{ChatId, HistoryMessage, MessageId, TelegramService};
use crate::text::{append_str, chars_of, i64_chars, int_text, lemma_parse_int_text, string_of};
use vstd::prelude::*;

verus! {

/// The tag that marks a backup of the index in the backup channel.
pub const BACKUP_TAG: &'static str = "#ocltg #backup #v1";

/// The key under which the id of the storage chat is kept.
pub const STORAGE_CHAT_KEY: &'static str = "storage_chat_id";

/// What a full read did.
#[derive(Debug, Clone, Copy, PartialEq, Eq)]
pub struct RebuildStats {
    /// How many messages were read into the index.
    pub processed: usize,
    pub dirs: usize,
    pub files: usize,
    pub imported: usize,
    /// How many messages could not be indexed.
    pub failed: usize,
}

impl Default for RebuildStats {
    fn default() -> (r: Self)
        ensures
            r == (RebuildStats { processed: 0, dirs: 0, files: 0, imported: 0, failed: 0 }),
    {
        RebuildStats { processed: 0, dirs: 0, files: 0, imported: 0, failed: 0 }
    }
}

/// The caption of a backup made at time `ts` by version `app_version`.
pub open spec fn backup_caption(ts: Seq<char>, app_version: Seq<char>) -> Seq<char> {
    BACKUP_TAG@ + " ts="@ + ts + " app="@ + app_version
}

/// The caption under which a backup of the index is published.
pub fn build_backup_caption(app_version: &str, ts: &str) -> (r: String)
    ensures
        r@ == backup_caption(ts@, app_version@),
{
    let mut out = chars_of(BACKUP_TAG);
    append_str(&mut out, " ts=");
    append_str(&mut out, ts);
    append_str(&mut out, " app=");
    append_str(&mut out, app_version);
    string_of(&out)
}

/// Whether a page of the history leads further back: it names a next page,
/// and that page lies before the one just read.
pub open spec fn leads_on(from_message_id: i64, next_from_message_id: i64) -> bool {
    next_from_message_id > 0 && (from_message_id == 0 || next_from_message_id < from_message_id)
}

/// Whether the history goes on after a page.
pub fn page_leads_on(from_message_id: MessageId, next_from_message_id: MessageId) -> (r: bool)
    ensures
        r == leads_on(from_message_id, next_from_message_id),
{
    next_from_message_id > 0 && (from_message_id == 0 || next_from_message_id < from_message_id)
}

/// Whether a message was read before: its id does not lie beyond the
/// watermark. Without a watermark nothing was read before.
pub open spec fn read_before(last_seen: i64) -> spec_fn(HistoryMessage) -> bool {
    |m: HistoryMessage| last_seen > 0 && m.id <= last_seen
}

/// The messages of a page that come before the first one that was read
/// before.
pub open spec fn fresh_part(page: Seq<HistoryMessage>, last_seen: i64) -> Seq<HistoryMessage> {
    page.take(first_index(page, read_before(last_seen)))
}

/// Takes the messages of a page up to the first one that was read before.
pub fn fresh_messages(page: &Vec<HistoryMessage>, last_seen: MessageId) -> (r: Vec<HistoryMessage>)
    ensures
        r@ == fresh_part(page@, last_seen),
        r@.len() <= page@.len(),
        forall|k: int|
            0 <= k < r@.len() ==> (#[trigger] r@[k]) == page@[k] && !(last_seen > 0 && r@[k].id
                <= last_seen),
{
    let ghost p = read_before(last_seen);
    let mut out: Vec<HistoryMessage> = Vec::new();
    let mut i: usize = 0;
    assert(page@.take(0) =~= Seq::empty());
    while i < page.len()
        invariant
            i <= page.len(),
            p == read_before(last_seen),
            forall|k: int| 0 <= k < i ==> !p(page@[k]),
            out@ == page@.take(i as int),
        decreases page.len() - i,
    {
        if last_seen > 0 && page[i].id <= last_seen {
            proof {
                assert(p(page@[i as int]));
                lemma_first_index(page@, p, i as int);
            }
            return out;
        }
        assert(!p(page@[i as int]));
        out.push(page[i].clone());
        assert(out@ =~= page@.take(i + 1));
        i += 1;
    }
    proof {
        lemma_first_index(page@, p, i as int);
    }
    out
}

/// What reading one page of the history came to.
#[derive(Debug, Clone, Copy, PartialEq, Eq)]
pub struct PageRead {
    /// How many messages of the page were read into the index.
    pub read: usize,
    /// What they were.
    pub counts: ScanCounts,
    /// The first of them, which is the newest.
    pub newest: Option<MessageId>,
    /// Whether the whole page was read, so that the history may go on.
    pub whole: bool,
}

/// Reads one page of the history into the index: the messages before the
/// first one that was read before, in order.
pub fn read_page<T: TelegramService>(
    index: &mut Index,
    tg: &mut T,
    storage_chat_id: ChatId,
    page: &Vec<HistoryMessage>,
    last_seen: MessageId,
    unassigned_cache: &mut Option<(String, String)>,
    now: i64,
) -> (r: PageRead)
    ensures
        old(index)@.wf() ==> final(index)@.wf(),
        old(index)@.keeps(final(index)@),
        exists|outs: Seq<IndexOutcome>| #[trigger]
            scanned(
                old(index)@,
                final(index)@,
                storage_chat_id,
                fresh_part(page@, last_seen),
                outs,
            ) && tallies(r.counts, outs),
        r.read == fresh_part(page@, last_seen).len(),
        r.read <= page@.len(),
        r.whole == (r.read == page@.len()),
        r.newest == if r.read > 0 {
            Some(page@[0].id)
        } else {
            None
        },
        r.newest matches Some(latest) ==> last_seen <= 0 || latest > last_seen,
        r.read == 0 ==> final(index)@ == old(index)@ && *final(tg) == *old(tg),
        r.counts.dir_seen + r.counts.failed <= r.read,
        r.counts.file_seen + r.counts.failed <= r.read,
        r.counts.imported <= r.counts.file_seen,
{
    let fresh = fresh_messages(page, last_seen);
    let newest = if fresh.len() > 0 {
        assert(fresh@[0] == page@[0]);
        assert(!(last_seen > 0 && fresh@[0].id <= last_seen));
        Some(fresh[0].id)
    } else {
        None
    };
    let outcomes = scan_messages(index, tg, storage_chat_id, &fresh, unassigned_cache, now);
    let counts = tally(&outcomes);
    proof {
        lemma_tally_bounds(fresh@, outcomes@);
        assert(scanned(old(index)@, index@, storage_chat_id, fresh@, outcomes@) && tallies(
            counts,
            outcomes@,
        ));
    }
    PageRead { read: fresh.len(), counts, newest, whole: fresh.len() == page.len() }
}

/// The counts of a full read after the messages of one more page.
fn add_page(stats: RebuildStats, read: usize, counts: ScanCounts) -> (r: RebuildStats)
    requires
        stats.processed + read <= usize::MAX,
        stats.dirs + stats.failed <= stats.processed,
        stats.files + stats.failed <= stats.processed,
        counts.dir_seen + counts.failed <= read,
        counts.file_seen + counts.failed <= read,
        stats.imported <= stats.files,
        counts.imported <= counts.file_seen,
    ensures
        r == (RebuildStats {
            processed: (stats.processed + read) as usize,
            dirs: (stats.dirs + counts.dir_seen) as usize,
            files: (stats.files + counts.file_seen) as usize,
            imported: (stats.imported + counts.imported) as usize,
            failed: (stats.failed + counts.failed) as usize,
        }),
{
    RebuildStats {
        processed: stats.processed + read,
        dirs: stats.dirs + counts.dir_seen,
        files: stats.files + counts.file_seen,
        imported: stats.imported + counts.imported,
        failed: stats.failed + counts.failed,
    }
}

/// Writes down a full read in the sync state: the newest message that was
/// read becomes the watermark, if any was read, and the time of the read is
/// kept. Nothing else changes.
pub fn settle_sync(sync: &mut SyncState, newest: Option<MessageId>, now_text: &str)
    ensures
        final(sync)@.get(LAST_MESSAGE_KEY@) == match newest {
            Some(latest) => Some(int_text(latest as int)),
            None => old(sync)@.get(LAST_MESSAGE_KEY@),
        },
        final(sync)@.watermark() == match newest {
            Some(latest) => latest,
            None => old(sync)@.watermark(),
        },
        final(sync)@.get(SYNC_DONE_KEY@) == Some(now_text@),
        forall|k: Seq<char>|
            k != LAST_MESSAGE_KEY@ && k != SYNC_DONE_KEY@ ==> #[trigger] final(sync)@.get(k) == old(
                sync,
            )@.get(k),
{
    match newest {
        Some(latest) => {
            proof {
                lemma_parse_int_text(latest);
            }
            set_sync(sync, LAST_MESSAGE_KEY, string_of(&i64_chars(latest)).as_str());
        },
        None => {},
    }
    let ghost moved = sync@;
    set_sync(sync, SYNC_DONE_KEY, now_text);
    proof {
        reveal_strlit("storage_last_message_id");
        reveal_strlit("storage_sync_done");
        assert(LAST_MESSAGE_KEY@.len() != SYNC_DONE_KEY@.len());
        assert(sync@.get(LAST_MESSAGE_KEY@) == moved.get(LAST_MESSAGE_KEY@));
    }
}

/// Reads the storage chat from its newest message back to the watermark
/// and indexes every message on the way. A message that cannot be indexed
/// is counted and the read goes on. Afterwards the watermark is the newest
/// message read, and the time of the read is kept.
///
/// Whatever the transport answers: no entry is removed; when the history
/// cannot be read the sync state is unchanged. What reading a page that
/// came back does to the index is stated by `read_page`, and what is
/// written down at the end by `settle_sync`.
pub fn sync_storage<T: TelegramService>(
    index: &mut Index,
    sync: &mut SyncState,
    tg: &mut T,
    storage_chat_id: ChatId,
    now: i64,
    now_text: &str,
) -> (r: Result<RebuildStats, CoreError>)
    ensures
        old(index)@.wf() ==> final(index)@.wf(),
        old(index)@.keeps(final(index)@),
        match r {
            Ok(stats) => {
                &&& stats.dirs + stats.failed <= stats.processed
                &&& stats.files + stats.failed <= stats.processed
                &&& stats.imported <= stats.files
                &&& stats.processed == 0 ==> final(index)@ == old(index)@ && final(sync)@.get(
                    LAST_MESSAGE_KEY@,
                ) == old(sync)@.get(LAST_MESSAGE_KEY@)
                &&& stats.processed == 0 ==> final(sync)@.watermark() == old(sync)@.watermark()
                &&& stats.processed > 0 && old(sync)@.watermark() > 0 ==> final(sync)@.watermark()
                    > old(sync)@.watermark()
                &&& final(sync)@.get(SYNC_DONE_KEY@) == Some(now_text@)
                &&& forall|k: Seq<char>|
                    k != LAST_MESSAGE_KEY@ && k != SYNC_DONE_KEY@ ==> #[trigger] final(sync)@.get(k)
                        == old(sync)@.get(k)
            },
            Err(e) => e is Transport && final(sync)@ == old(sync)@,
        },
{
    let ghost before = index@;
    proof {
        lemma_put_keeps(before, arbitrary(), arbitrary());
    }
    let last_seen = read_watermark(sync);
    let mut stats = RebuildStats { processed: 0, dirs: 0, files: 0, imported: 0, failed: 0 };
    let mut newest_seen: Option<MessageId> = None;
    let mut unassigned_dir: Option<(String, String)> = None;
    let mut from_message_id: MessageId = 0;
    let mut first_page = true;
    loop
        invariant
            before == old(index)@,
            before.wf() ==> index@.wf(),
            before.keeps(index@),
            sync@ == old(sync)@,
            stats.dirs + stats.failed <= stats.processed,
            stats.files + stats.failed <= stats.processed,
            stats.imported <= stats.files,
            stats.processed == 0 ==> index@ == before && newest_seen is None,
            stats.processed > 0 ==> newest_seen is Some,
            last_seen == old(sync)@.watermark(),
            newest_seen matches Some(latest) ==> last_seen <= 0 || latest > last_seen,
            first_page == (from_message_id == 0),
            from_message_id >= 0,
        decreases
                if first_page {
                    i64::MAX as int + 1
                } else {
                    from_message_id as int
                },
    {
        let batch = match tg.chat_history(storage_chat_id, from_message_id, 100) {
            Ok(b) => b,
            Err(e) => {
                return Err(CoreError::Transport(e.message()));
            },
        };
        if batch.messages.len() == 0 {
            break ;
        }
        if batch.messages.len() > usize::MAX - stats.processed {
            break ;
        }
        let ghost prev = index@;
        let page = read_page(
            index,
            tg,
            storage_chat_id,
            &batch.messages,
            last_seen,
            &mut unassigned_dir,
            now,
        );
        proof {
            lemma_keeps_trans(before, prev, index@);
        }
        if newest_seen.is_none() {
            newest_seen = page.newest;
        }
        stats = add_page(stats, page.read, page.counts);
        if !page.whole || !page_leads_on(from_message_id, batch.next_from_message_id) {
            break ;
        }
        from_message_id = batch.next_from_message_id;
        first_page = false;
    }
    settle_sync(sync, newest_seen, now_text);
    Ok(stats)
}

/// Builds an index from nothing by reading the whole storage chat.
pub fn rebuild_storage<T: TelegramService>(
    tg: &mut T,
    storage_chat_id: ChatId,
    now: i64,
    now_text: &str,
) -> (r: Result<(Index, SyncState, RebuildStats), CoreError>)
    ensures
        match r {
            Ok((index, sync, stats)) => {
                &&& index@.wf()
                &&& stats.dirs + stats.failed <= stats.processed
                &&& stats.files + stats.failed <= stats.processed
                &&& stats.processed == 0 ==> index@ == IndexView::empty()
                &&& sync@.get(SYNC_DONE_KEY@) == Some(now_text@)
                &&& sync@.get(STORAGE_CHAT_KEY@) == Some(int_text(storage_chat_id as int))
            },
            Err(e) => e is Transport,
        },
{
    let mut index = Index::new();
    let mut sync = SyncState::new();
    set_sync(&mut sync, STORAGE_CHAT_KEY, string_of(&i64_chars(storage_chat_id)).as_str());
    let ghost seeded = sync@;
    match sync_storage(&mut index, &mut sync, tg, storage_chat_id, now, now_text) {
        Ok(stats) => {
            proof {
                reveal_strlit("storage_chat_id");
                reveal_strlit("storage_last_message_id");
                reveal_strlit("storage_sync_done");
                assert(STORAGE_CHAT_KEY@.len() != SYNC_DONE_KEY@.len());
                assert(STORAGE_CHAT_KEY@.len() != LAST_MESSAGE_KEY@.len());
            }
            Ok((index, sync, stats))
        },
        Err(e) => Err(e),
    }
}

} // verus!
