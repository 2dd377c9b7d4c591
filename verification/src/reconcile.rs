//! Reconciler: reads a window of the most recent messages, finds the
//! entries that the window does not confirm, and moves the watermark.

use crate::error::CoreError;
use crate::index::Index;
use crate::indexer::{IndexOutcome, MessageKind};
use crate::marking::{
    dirs_to_clear, dirs_to_mark, files_to_clear, files_to_mark, id_set, mark_broken_dirs,
    mark_broken_files, marked_dirs, marked_files,
};
use crate::model::{lemma_keeps_trans, lemma_put_keeps, IndexView};
use crate::scan::{
    count_kind, lemma_tally_bounds, scan_messages, scanned, tallies, tally, ScanCounts,
};
use crate::sync::{
    advance_watermark, advanced, set_sync, SyncState, SyncView, LAST_MESSAGE_KEY,
    RECONCILE_DONE_KEY,
};
use crate::telegram::{ChatId, HistoryMessage, MessageId, TelegramService};
use vstd::prelude::*;

verus! {

/// What a reconciliation did.
#[derive(Debug, Clone, Copy, PartialEq, Eq)]
pub struct ReconcileOutcome {
    /// How many messages were read.
    pub scanned: usize,
    /// How many of them are records of directories.
    pub dir_seen: usize,
    /// How many of them are, or have become, records of files.
    pub file_seen: usize,
    pub imported: usize,
    /// How many could not be indexed.
    pub failed: usize,
    pub marked_dirs: usize,
    pub marked_files: usize,
    pub cleared_dirs: usize,
    pub cleared_files: usize,
    /// The lowest message id of the window, 0 when nothing was read.
    pub min_message_id: i64,
    /// The highest message id of the window, 0 when nothing was read.
    pub max_message_id: i64,
}

/// The least of the ids, 0 when there is none.
pub open spec fn min_of(ids: Seq<i64>) -> i64
    decreases ids.len(),
{
    if ids.len() == 0 {
        0
    } else if ids.len() == 1 {
        ids[0]
    } else if ids.last() < min_of(ids.drop_last()) {
        ids.last()
    } else {
        min_of(ids.drop_last())
    }
}

/// The greatest of the ids, 0 when there is none.
pub open spec fn max_of(ids: Seq<i64>) -> i64
    decreases ids.len(),
{
    if ids.len() == 0 {
        0
    } else if ids.len() == 1 {
        ids[0]
    } else if ids.last() > max_of(ids.drop_last()) {
        ids.last()
    } else {
        max_of(ids.drop_last())
    }
}

/// The ids of the messages.
pub open spec fn message_ids(msgs: Seq<HistoryMessage>) -> Seq<i64> {
    Seq::new(msgs.len(), |i: int| msgs[i].id)
}

/// The least and the greatest id of the messages.
pub fn id_range(messages: &Vec<HistoryMessage>) -> (r: (i64, i64))
    ensures
        r.0 == min_of(message_ids(messages@)),
        r.1 == max_of(message_ids(messages@)),
{
    if messages.len() == 0 {
        return (0, 0);
    }
    let mut lo: i64 = messages[0].id;
    let mut hi: i64 = messages[0].id;
    let mut i: usize = 1;
    assert(message_ids(messages@).take(1).len() == 1);
    while i < messages.len()
        invariant
            1 <= i <= messages.len(),
            lo == min_of(message_ids(messages@).take(i as int)),
            hi == max_of(message_ids(messages@).take(i as int)),
        decreases messages.len() - i,
    {
        proof {
            let part = message_ids(messages@).take(i + 1);
            assert(part.drop_last() =~= message_ids(messages@).take(i as int));
            assert(part.last() == messages@[i as int].id);
        }
        let id = messages[i].id;
        if id < lo {
            lo = id;
        }
        if id > hi {
            hi = id;
        }
        i += 1;
    }
    assert(message_ids(messages@).take(i as int) =~= message_ids(messages@));
    (lo, hi)
}

/// What closing a window did: how many entries were newly flagged and how
/// many cleared.
#[derive(Debug, Clone, Copy, PartialEq, Eq)]
pub struct WindowStats {
    pub marked_dirs: usize,
    pub cleared_dirs: usize,
    pub marked_files: usize,
    pub cleared_files: usize,
}

/// Closes a window that was read: of the entries whose message id is not
/// below `min_id`, those whose message was not seen are flagged, and those
/// whose message was seen are cleared. A window without a positive lowest
/// id flags and clears nothing. The watermark moves to `max_id` if that lies
/// ahead, and the time of the reconciliation is kept. No entry is removed.
pub fn close_window(
    index: &mut Index,
    sync: &mut SyncState,
    storage_chat_id: ChatId,
    min_id: MessageId,
    max_id: MessageId,
    seen_dirs: &Vec<MessageId>,
    seen_files: &Vec<MessageId>,
    now_text: &str,
) -> (r: WindowStats)
    ensures
        old(index)@.wf() ==> final(index)@.wf(),
        old(index)@.keeps(final(index)@),
        if min_id > 0 {
            &&& final(index)@.dirs == marked_dirs(old(index)@.dirs, min_id, id_set(seen_dirs@))
            &&& final(index)@.files == marked_files(
                old(index)@.files,
                storage_chat_id,
                min_id,
                id_set(seen_files@),
            )
            &&& r.marked_dirs == dirs_to_mark(old(index)@.dirs, min_id, id_set(seen_dirs@))
            &&& r.cleared_dirs == dirs_to_clear(old(index)@.dirs, min_id, id_set(seen_dirs@))
            &&& r.marked_files == files_to_mark(
                old(index)@.files,
                storage_chat_id,
                min_id,
                id_set(seen_files@),
            )
            &&& r.cleared_files == files_to_clear(
                old(index)@.files,
                storage_chat_id,
                min_id,
                id_set(seen_files@),
            )
        } else {
            final(index)@ == old(index)@ && r == (WindowStats {
                marked_dirs: 0,
                cleared_dirs: 0,
                marked_files: 0,
                cleared_files: 0,
            })
        },
        final(sync)@.watermark() == advanced(old(sync)@.watermark(), max_id),
        final(sync)@.watermark() >= old(sync)@.watermark(),
        final(sync)@.get(RECONCILE_DONE_KEY@) == Some(now_text@),
        forall|k: Seq<char>|
            k != LAST_MESSAGE_KEY@ && k != RECONCILE_DONE_KEY@ ==> #[trigger] final(sync)@.get(k)
                == old(sync)@.get(k),
{
    let ghost before = index@;
    let mut stats = WindowStats {
        marked_dirs: 0,
        cleared_dirs: 0,
        marked_files: 0,
        cleared_files: 0,
    };
    if min_id > 0 {
        let (marked, cleared) = mark_broken_dirs(index, min_id, seen_dirs);
        stats.marked_dirs = marked;
        stats.cleared_dirs = cleared;
        let ghost mid = index@;
        let (marked, cleared) = mark_broken_files(index, storage_chat_id, min_id, seen_files);
        stats.marked_files = marked;
        stats.cleared_files = cleared;
        proof {
            lemma_keeps_trans(before, mid, index@);
        }
    } else {
        proof {
            lemma_put_keeps(before, arbitrary(), arbitrary());
        }
    }
    advance_watermark(sync, max_id);
    let ghost moved = sync@;
    set_sync(sync, RECONCILE_DONE_KEY, now_text);
    proof {
        reveal_strlit("storage_last_message_id");
        reveal_strlit("storage_reconcile_done");
        assert(LAST_MESSAGE_KEY@.len() != RECONCILE_DONE_KEY@.len());
        assert(sync@.get(LAST_MESSAGE_KEY@) == moved.get(LAST_MESSAGE_KEY@));
    }
    stats
}

// ---------------------------------------------------------------------------
// The messages that a window confirms
// ---------------------------------------------------------------------------
/// The ids of the messages whose indexing gave a directory record, in
/// order.
pub open spec fn seen_dir_ids(msgs: Seq<HistoryMessage>, outs: Seq<IndexOutcome>) -> Seq<i64>
    decreases msgs.len(),
{
    if msgs.len() == 0 {
        Seq::empty()
    } else if msgs.len() <= outs.len() && outs[msgs.len() - 1].dir {
        seen_dir_ids(msgs.drop_last(), outs).push(msgs.last().id)
    } else {
        seen_dir_ids(msgs.drop_last(), outs)
    }
}

/// The ids of the messages whose indexing gave a file record or an import,
/// in order.
pub open spec fn seen_file_ids(msgs: Seq<HistoryMessage>, outs: Seq<IndexOutcome>) -> Seq<i64>
    decreases msgs.len(),
{
    if msgs.len() == 0 {
        Seq::empty()
    } else if msgs.len() <= outs.len() && outs[msgs.len() - 1].file {
        seen_file_ids(msgs.drop_last(), outs).push(msgs.last().id)
    } else {
        seen_file_ids(msgs.drop_last(), outs)
    }
}

/// Collects the messages that confirm a directory and those that confirm a
/// file: those whose indexing gave a directory record, and those whose
/// indexing gave a file record or an import.
pub fn seen_ids(messages: &Vec<HistoryMessage>, outcomes: &Vec<IndexOutcome>) -> (r: (
    Vec<MessageId>,
    Vec<MessageId>,
))
    ensures
        r.0@ == seen_dir_ids(messages@, outcomes@),
        r.1@ == seen_file_ids(messages@, outcomes@),
{
    let mut seen_dirs: Vec<MessageId> = Vec::new();
    let mut seen_files: Vec<MessageId> = Vec::new();
    let mut i: usize = 0;
    assert(messages@.take(0) =~= Seq::empty());
    while i < messages.len()
        invariant
            i <= messages.len(),
            seen_dirs@ == seen_dir_ids(messages@.take(i as int), outcomes@),
            seen_files@ == seen_file_ids(messages@.take(i as int), outcomes@),
        decreases messages.len() - i,
    {
        proof {
            assert(messages@.take(i + 1).drop_last() =~= messages@.take(i as int));
            assert(messages@.take(i + 1).last() == messages@[i as int]);
        }
        if i < outcomes.len() {
            if outcomes[i].dir {
                seen_dirs.push(messages[i].id);
            }
            if outcomes[i].file {
                seen_files.push(messages[i].id);
            }
        }
        i += 1;
    }
    assert(messages@.take(i as int) =~= messages@);
    (seen_dirs, seen_files)
}

// ---------------------------------------------------------------------------
// Closing a window
// ---------------------------------------------------------------------------
/// Whether `after` is the index `mid` with the window of the messages
/// closed on it, and `out` says what was counted: the entries that the
/// window speaks of are flagged exactly when no message confirms them. A
/// window without a positive lowest id flags and clears nothing.
pub open spec fn window_closed(
    mid: IndexView,
    after: IndexView,
    chat_id: i64,
    msgs: Seq<HistoryMessage>,
    outs: Seq<IndexOutcome>,
    out: ReconcileOutcome,
) -> bool {
    let min = out.min_message_id;
    let seen_dirs = id_set(seen_dir_ids(msgs, outs));
    let seen_files = id_set(seen_file_ids(msgs, outs));
    &&& out.scanned == msgs.len()
    &&& out.min_message_id == min_of(message_ids(msgs))
    &&& out.max_message_id == max_of(message_ids(msgs))
    &&& tallies(counts_of(out), outs)
    &&& if min > 0 {
        &&& after.dirs == marked_dirs(mid.dirs, min, seen_dirs)
        &&& after.files == marked_files(mid.files, chat_id, min, seen_files)
        &&& out.marked_dirs == dirs_to_mark(mid.dirs, min, seen_dirs)
        &&& out.cleared_dirs == dirs_to_clear(mid.dirs, min, seen_dirs)
        &&& out.marked_files == files_to_mark(mid.files, chat_id, min, seen_files)
        &&& out.cleared_files == files_to_clear(mid.files, chat_id, min, seen_files)
    } else {
        &&& after == mid
        &&& out.marked_dirs == 0
        &&& out.cleared_dirs == 0
        &&& out.marked_files == 0
        &&& out.cleared_files == 0
    }
}

/// The counts of a scan as an outcome gives them.
pub open spec fn counts_of(out: ReconcileOutcome) -> ScanCounts {
    ScanCounts {
        dir_seen: out.dir_seen,
        file_seen: out.file_seen,
        imported: out.imported,
        failed: out.failed,
    }
}

/// What a reconciliation writes into the sync state: the watermark moves to
/// the highest id of the window if that lies ahead, the time of the
/// reconciliation is kept, and nothing else changes.
pub open spec fn sync_closed(before: SyncView, after: SyncView, max_id: i64, now_text: Seq<char>) -> bool {
    &&& after.watermark() == advanced(before.watermark(), max_id)
    &&& after.watermark() >= before.watermark()
    &&& after.get(RECONCILE_DONE_KEY@) == Some(now_text)
    &&& forall|k: Seq<char>|
        k != LAST_MESSAGE_KEY@ && k != RECONCILE_DONE_KEY@ ==> #[trigger] after.get(k) == before.get(
            k,
        )
}

/// Closes the window of the messages on the index that they were read
/// into, given what each of them came to, and gives the outcome of the
/// reconciliation.
pub fn close_scan(
    index: &mut Index,
    sync: &mut SyncState,
    storage_chat_id: ChatId,
    messages: &Vec<HistoryMessage>,
    outcomes: &Vec<IndexOutcome>,
    now_text: &str,
) -> (out: ReconcileOutcome)
    ensures
        old(index)@.wf() ==> final(index)@.wf(),
        old(index)@.keeps(final(index)@),
        window_closed(old(index)@, final(index)@, storage_chat_id, messages@, outcomes@, out),
        sync_closed(old(sync)@, final(sync)@, out.max_message_id, now_text@),
{
    let (min_id, max_id) = id_range(messages);
    let (seen_dirs, seen_files) = seen_ids(messages, outcomes);
    let counts = tally(outcomes);
    let stats = close_window(
        index,
        sync,
        storage_chat_id,
        min_id,
        max_id,
        &seen_dirs,
        &seen_files,
        now_text,
    );
    ReconcileOutcome {
        scanned: messages.len(),
        dir_seen: counts.dir_seen,
        file_seen: counts.file_seen,
        imported: counts.imported,
        failed: counts.failed,
        marked_dirs: stats.marked_dirs,
        marked_files: stats.marked_files,
        cleared_dirs: stats.cleared_dirs,
        cleared_files: stats.cleared_files,
        min_message_id: min_id,
        max_message_id: max_id,
    }
}

/// The outcome of a reconciliation that read nothing.
pub open spec fn nothing_read() -> ReconcileOutcome {
    ReconcileOutcome {
        scanned: 0,
        dir_seen: 0,
        file_seen: 0,
        imported: 0,
        failed: 0,
        marked_dirs: 0,
        marked_files: 0,
        cleared_dirs: 0,
        cleared_files: 0,
        min_message_id: 0,
        max_message_id: 0,
    }
}

/// Whether `after` and `out` are what reconciling `before` with the
/// messages gives, when indexing them came to the outcomes `outs`: the
/// messages are read into the index, which gives some index `mid` of which
/// `scanned` holds, and their window is closed on `mid`. Without messages
/// nothing happens.
pub open spec fn reconciled(
    before: IndexView,
    after: IndexView,
    chat_id: i64,
    msgs: Seq<HistoryMessage>,
    outs: Seq<IndexOutcome>,
    out: ReconcileOutcome,
) -> bool {
    if msgs.len() == 0 {
        after == before && out == nothing_read()
    } else {
        exists|mid: IndexView| #[trigger]
            scanned(before, mid, chat_id, msgs, outs) && window_closed(
                mid,
                after,
                chat_id,
                msgs,
                outs,
                out,
            )
    }
}

/// Reconciles the index with the messages of a window that was read.
///
/// Each message is indexed; a message that cannot be indexed is counted and
/// the scan goes on. The messages whose indexing gave a directory record
/// confirm a directory, and those whose indexing gave a file record or an
/// import confirm a file. Then the window is closed: the entries that the
/// window speaks of are flagged or cleared, and the watermark moves
/// forward. Without messages neither the index nor the sync state changes.
pub fn reconcile_messages<T: TelegramService>(
    index: &mut Index,
    sync: &mut SyncState,
    tg: &mut T,
    storage_chat_id: ChatId,
    messages: &Vec<HistoryMessage>,
    now: i64,
    now_text: &str,
) -> (out: ReconcileOutcome)
    ensures
        old(index)@.wf() ==> final(index)@.wf(),
        old(index)@.keeps(final(index)@),
        exists|outs: Seq<IndexOutcome>| #[trigger]
            reconciled(old(index)@, final(index)@, storage_chat_id, messages@, outs, out),
        if messages@.len() == 0 {
            final(sync)@ == old(sync)@
        } else {
            sync_closed(old(sync)@, final(sync)@, out.max_message_id, now_text@)
        },
        final(sync)@.watermark() >= old(sync)@.watermark(),
        out.scanned == messages@.len(),
        out.dir_seen + out.failed <= out.scanned,
        out.file_seen + out.failed <= out.scanned,
        out.imported <= out.file_seen,
        count_kind(messages@, MessageKind::Attachment) == 0 ==> *final(tg) == *old(tg),
{
    let ghost before = index@;
    proof {
        lemma_put_keeps(before, arbitrary(), arbitrary());
    }
    if messages.len() == 0 {
        let out = ReconcileOutcome {
            scanned: 0,
            dir_seen: 0,
            file_seen: 0,
            imported: 0,
            failed: 0,
            marked_dirs: 0,
            marked_files: 0,
            cleared_dirs: 0,
            cleared_files: 0,
            min_message_id: 0,
            max_message_id: 0,
        };
        assert(reconciled(before, index@, storage_chat_id, messages@, Seq::empty(), out));
        return out;
    }
    let mut unassigned_dir: Option<(String, String)> = None;
    let outcomes = scan_messages(index, tg, storage_chat_id, messages, &mut unassigned_dir, now);
    let ghost mid = index@;
    let out = close_scan(index, sync, storage_chat_id, messages, &outcomes, now_text);
    proof {
        lemma_keeps_trans(before, mid, index@);
        lemma_tally_bounds(messages@, outcomes@);
        assert(scanned(before, mid, storage_chat_id, messages@, outcomes@));
        assert(reconciled(before, index@, storage_chat_id, messages@, outcomes@, out));
    }
    out
}

/// How many messages to ask for at once: what is still wanted, but no more
/// than a hundred.
pub fn page_limit(remaining: i64) -> (r: i32)
    ensures
        r == if remaining >= 100 {
            100
        } else if remaining <= 0 {
            0
        } else {
            remaining as int
        },
{
    if remaining >= 100 {
        100
    } else if remaining <= 0 {
        0
    } else {
        remaining as i32
    }
}

/// How many messages of a page are taken: all of them, or as many as are
/// still wanted.
pub open spec fn taken(page_len: int, remaining: int) -> int {
    if remaining <= 0 {
        0
    } else if page_len <= remaining {
        page_len
    } else {
        remaining
    }
}

/// Takes the first messages of a page, as many as are still wanted, and
/// returns how many are wanted after that.
pub fn take_page(out: &mut Vec<HistoryMessage>, page: &Vec<HistoryMessage>, remaining: i64) -> (r:
    i64)
    ensures
        final(out)@ == old(out)@ + page@.take(taken(page@.len() as int, remaining as int)),
        r == remaining - taken(page@.len() as int, remaining as int),
{
    let mut left = remaining;
    let mut i: usize = 0;
    assert(page@.take(0) =~= Seq::empty());
    assert(out@ + Seq::<HistoryMessage>::empty() =~= out@);
    while i < page.len() && left > 0
        invariant
            i <= page.len(),
            left + i == remaining,
            i == taken(i as int, remaining as int),
            out@ == old(out)@ + page@.take(i as int),
        decreases page.len() - i,
    {
        out.push(page[i].clone());
        assert(out@ =~= old(out)@ + page@.take(i + 1));
        left -= 1;
        i += 1;
    }
    left
}

/// Reads up to `limit` of the most recent messages of the chat, at least
/// one, page by page.
pub fn fetch_recent_messages<T: TelegramService>(tg: &mut T, chat_id: ChatId, limit: i64) -> (r:
    Result<Vec<HistoryMessage>, CoreError>)
    ensures
        match r {
            Ok(v) => v@.len() <= if limit > 1 {
                limit
            } else {
                1
            },
            Err(e) => e is Transport,
        },
{
    let mut out: Vec<HistoryMessage> = Vec::new();
    let mut from_message_id: MessageId = 0;
    let wanted: i64 = if limit > 1 {
        limit
    } else {
        1
    };
    let mut remaining: i64 = wanted;
    while remaining > 0
        invariant
            0 <= remaining <= wanted,
            out@.len() + remaining == wanted,
        decreases remaining,
    {
        let batch = match tg.chat_history(chat_id, from_message_id, page_limit(remaining)) {
            Ok(b) => b,
            Err(e) => {
                return Err(CoreError::Transport(e.message()));
            },
        };
        if batch.messages.len() == 0 {
            break ;
        }
        remaining = take_page(&mut out, &batch.messages, remaining);
        if remaining <= 0 {
            break ;
        }
        if batch.next_from_message_id == 0 || batch.next_from_message_id == from_message_id {
            break ;
        }
        from_message_id = batch.next_from_message_id;
    }
    Ok(out)
}

/// Reconciles the index with the most recent messages of the storage chat:
/// up to `limit` of them are read, at least one, and reconciled as
/// `reconcile_messages` says.
///
/// Whatever the transport answers: no entry is removed; when the messages
/// cannot be read, or none is there, neither the index nor the sync state
/// changes; the watermark never moves back.
pub fn reconcile_recent<T: TelegramService>(
    index: &mut Index,
    sync: &mut SyncState,
    tg: &mut T,
    storage_chat_id: ChatId,
    limit: i64,
    now: i64,
    now_text: &str,
) -> (r: Result<ReconcileOutcome, CoreError>)
    ensures
        old(index)@.wf() ==> final(index)@.wf(),
        old(index)@.keeps(final(index)@),
        final(sync)@.watermark() >= old(sync)@.watermark(),
        match r {
            Ok(out) => {
                &&& out.scanned <= if limit > 1 {
                    limit
                } else {
                    1
                }
                &&& out.dir_seen + out.failed <= out.scanned
                &&& out.file_seen + out.failed <= out.scanned
                &&& out.imported <= out.file_seen
                &&& exists|msgs: Seq<HistoryMessage>, outs: Seq<IndexOutcome>| #[trigger]
                    reconciled(old(index)@, final(index)@, storage_chat_id, msgs, outs, out)
                        && msgs.len() == out.scanned
                &&& if out.scanned == 0 {
                    final(index)@ == old(index)@ && final(sync)@ == old(sync)@ && out
                        == nothing_read()
                } else {
                    sync_closed(old(sync)@, final(sync)@, out.max_message_id, now_text@)
                }
            },
            Err(e) => e is Transport && final(index)@ == old(index)@ && final(sync)@ == old(sync)@,
        },
{
    let messages = match fetch_recent_messages(tg, storage_chat_id, limit) {
        Ok(m) => m,
        Err(e) => {
            proof {
                lemma_put_keeps(index@, arbitrary(), arbitrary());
            }
            return Err(e);
        },
    };
    let out = reconcile_messages(index, sync, tg, storage_chat_id, &messages, now, now_text);
    proof {
        let outs = choose|outs: Seq<IndexOutcome>| #[trigger]
            reconciled(old(index)@, index@, storage_chat_id, messages@, outs, out);
        assert(reconciled(old(index)@, index@, storage_chat_id, messages@, outs, out)
            && messages@.len() == out.scanned);
    }
    Ok(out)
}

} // verus!
