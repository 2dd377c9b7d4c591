//! What a reconciliation leaves behind, stated entry by entry: which
//! entries a closed window flags, which it leaves alone, and that closing
//! the same window again changes nothing.

use crate::indexer::{kind_of, IndexOutcome};
use crate::marking::{
    dir_in_window, file_in_window, id_set, law_dirs_marking, law_files_marking, marked_dir,
    marked_file,
};
use crate::model::{DirView, FileView, IndexView};
use crate::reconcile::{seen_dir_ids, seen_file_ids, window_closed, ReconcileOutcome};
use crate::records::{records_settled, settled_dir, settled_file};
use crate::scan::{backs, dir_recorded, file_recorded, fits, outcomes_fit, scanned};
use crate::telegram::HistoryMessage;
use vstd::prelude::*;

verus! {

/// Whether the message at `j` is the record of a directory and has the id
/// `m`.
pub open spec fn dir_record_at(msgs: Seq<HistoryMessage>, j: int, m: i64) -> bool {
    0 <= j < msgs.len() && msgs[j].id == m && kind_of(msgs[j]) is Directory
}

/// Whether the message at `j` has the id `m` and is the record of a file,
/// or a foreign attachment that was imported when it was read.
pub open spec fn file_seen_at(
    msgs: Seq<HistoryMessage>,
    outs: Seq<IndexOutcome>,
    j: int,
    m: i64,
) -> bool {
    0 <= j < msgs.len() && j < outs.len() && msgs[j].id == m && (kind_of(msgs[j]) is File || (
    kind_of(msgs[j]) is Attachment && outs[j].imported))
}

/// Whether the first outcomes are those of the messages.
pub open spec fn fit_so_far(msgs: Seq<HistoryMessage>, outs: Seq<IndexOutcome>) -> bool {
    msgs.len() <= outs.len() && forall|j: int| 0 <= j < msgs.len() ==> fits(msgs[j], #[trigger] outs[j])
}

pub proof fn lemma_push_contains(s: Seq<i64>, x: i64, m: i64)
    ensures
        s.push(x).contains(m) <==> (s.contains(m) || x == m),
{
    if s.contains(m) {
        let i = choose|i: int| 0 <= i < s.len() && s[i] == m;
        assert(s.push(x)[i] == m);
    }
    if x == m {
        assert(s.push(x)[s.len() as int] == m);
    }
    if s.push(x).contains(m) {
        let i = choose|i: int| 0 <= i < s.push(x).len() && s.push(x)[i] == m;
        if i < s.len() {
            assert(s[i] == m);
        }
    }
}

/// The messages that confirm a directory are the directory records of the
/// window.
pub proof fn lemma_seen_dirs(msgs: Seq<HistoryMessage>, outs: Seq<IndexOutcome>, m: i64)
    requires
        fit_so_far(msgs, outs),
    ensures
        seen_dir_ids(msgs, outs).contains(m) <==> exists|j: int| #[trigger] dir_record_at(msgs, j, m),
    decreases msgs.len(),
{
    if msgs.len() > 0 {
        let rest = msgs.drop_last();
        assert forall|j: int| 0 <= j < rest.len() implies fits(rest[j], #[trigger] outs[j]) by {
            assert(rest[j] == msgs[j]);
        }
        lemma_seen_dirs(rest, outs, m);
        assert(fits(msgs[msgs.len() - 1], outs[msgs.len() - 1]));
        if outs[msgs.len() - 1].dir {
            lemma_push_contains(seen_dir_ids(rest, outs), msgs.last().id, m);
        }
        if seen_dir_ids(msgs, outs).contains(m) {
            if seen_dir_ids(rest, outs).contains(m) {
                let j = choose|j: int| #[trigger] dir_record_at(rest, j, m);
                assert(dir_record_at(msgs, j, m));
            } else {
                assert(dir_record_at(msgs, msgs.len() - 1, m));
            }
        }
        if exists|j: int| #[trigger] dir_record_at(msgs, j, m) {
            let j = choose|j: int| #[trigger] dir_record_at(msgs, j, m);
            if j < msgs.len() - 1 {
                assert(dir_record_at(rest, j, m));
            }
        }
    } else {
        assert forall|j: int| !#[trigger] dir_record_at(msgs, j, m) by {}
    }
}

/// The messages that confirm a file are the file records of the window and
/// the foreign attachments that were imported when the window was read.
pub proof fn lemma_seen_files(msgs: Seq<HistoryMessage>, outs: Seq<IndexOutcome>, m: i64)
    requires
        fit_so_far(msgs, outs),
    ensures
        seen_file_ids(msgs, outs).contains(m) <==> exists|j: int| #[trigger]
            file_seen_at(msgs, outs, j, m),
    decreases msgs.len(),
{
    if msgs.len() > 0 {
        let rest = msgs.drop_last();
        assert forall|j: int| 0 <= j < rest.len() implies fits(rest[j], #[trigger] outs[j]) by {
            assert(rest[j] == msgs[j]);
        }
        lemma_seen_files(rest, outs, m);
        assert(fits(msgs[msgs.len() - 1], outs[msgs.len() - 1]));
        if outs[msgs.len() - 1].file {
            lemma_push_contains(seen_file_ids(rest, outs), msgs.last().id, m);
        }
        if seen_file_ids(msgs, outs).contains(m) {
            if seen_file_ids(rest, outs).contains(m) {
                let j = choose|j: int| #[trigger] file_seen_at(rest, outs, j, m);
                assert(file_seen_at(msgs, outs, j, m));
            } else {
                assert(file_seen_at(msgs, outs, msgs.len() - 1, m));
            }
        }
        if exists|j: int| #[trigger] file_seen_at(msgs, outs, j, m) {
            let j = choose|j: int| #[trigger] file_seen_at(msgs, outs, j, m);
            if j < msgs.len() - 1 {
                assert(file_seen_at(rest, outs, j, m));
            }
        }
    } else {
        assert forall|j: int| !#[trigger] file_seen_at(msgs, outs, j, m) by {}
    }
}

/// After a window was closed, a directory that the window speaks of is
/// flagged exactly when its message is no record of a directory in the
/// window. Nothing else of the directory changes.
pub proof fn law_window_dirs(
    mid: IndexView,
    after: IndexView,
    chat_id: i64,
    msgs: Seq<HistoryMessage>,
    outs: Seq<IndexOutcome>,
    out: ReconcileOutcome,
    k: int,
)
    requires
        outcomes_fit(msgs, outs),
        window_closed(mid, after, chat_id, msgs, outs, out),
        out.min_message_id > 0,
        0 <= k < mid.dirs.len(),
        dir_in_window(mid.dirs[k], out.min_message_id),
    ensures
        after.dirs[k] == (DirView { is_broken: after.dirs[k].is_broken, ..mid.dirs[k] }),
        !after.dirs[k].is_broken <==> exists|j: int| #[trigger]
            dir_record_at(msgs, j, mid.dirs[k].tg_msg_id->0),
{
    lemma_seen_dirs(msgs, outs, mid.dirs[k].tg_msg_id->0);
}

/// After a window was closed, a file that the window speaks of is flagged
/// exactly when its message is neither the record of a file in the window
/// nor a foreign attachment that was imported when the window was read.
/// Nothing else of the file changes.
pub proof fn law_window_files(
    mid: IndexView,
    after: IndexView,
    chat_id: i64,
    msgs: Seq<HistoryMessage>,
    outs: Seq<IndexOutcome>,
    out: ReconcileOutcome,
    k: int,
)
    requires
        outcomes_fit(msgs, outs),
        window_closed(mid, after, chat_id, msgs, outs, out),
        out.min_message_id > 0,
        0 <= k < mid.files.len(),
        file_in_window(mid.files[k], chat_id, out.min_message_id),
    ensures
        after.files[k] == (FileView { is_broken: after.files[k].is_broken, ..mid.files[k] }),
        !after.files[k].is_broken <==> exists|j: int| #[trigger]
            file_seen_at(msgs, outs, j, mid.files[k].tg_msg_id),
{
    lemma_seen_files(msgs, outs, mid.files[k].tg_msg_id);
}

/// A file of which the window holds no record is left by a reconciliation
/// as it was, but for its flag. If the window speaks of it and no message
/// of the window with the id of its message is the record of a file, the
/// file is flagged: so when its message was deleted, and so when its
/// message is there without a record, the caption stripped or never
/// written. If the window does not speak of it, the flag stays as it was
/// too.
pub proof fn law_unrecorded_file(
    before: IndexView,
    mid: IndexView,
    after: IndexView,
    chat_id: i64,
    msgs: Seq<HistoryMessage>,
    outs: Seq<IndexOutcome>,
    out: ReconcileOutcome,
    k: int,
)
    requires
        scanned(before, mid, chat_id, msgs, outs),
        window_closed(mid, after, chat_id, msgs, outs, out),
        out.min_message_id > 0,
        0 <= k < before.files.len(),
        !file_recorded(msgs, before.files[k].id),
    ensures
        after.files[k] == (FileView { is_broken: after.files[k].is_broken, ..before.files[k] }),
        file_in_window(before.files[k], chat_id, out.min_message_id) && (forall|j: int|
            0 <= j < msgs.len() && (#[trigger] msgs[j]).id == before.files[k].tg_msg_id ==> !(
            kind_of(msgs[j]) is File)) ==> after.files[k].is_broken,
        !file_in_window(before.files[k], chat_id, out.min_message_id) ==> after.files[k]
            == before.files[k],
{
    let m = before.files[k].tg_msg_id;
    assert(before.file_ids().len() <= mid.file_ids().len());
    assert(mid.files[k] == before.files[k]);
    lemma_seen_files(msgs, outs, m);
    if file_in_window(before.files[k], chat_id, out.min_message_id) && (forall|j: int|
        0 <= j < msgs.len() && (#[trigger] msgs[j]).id == m ==> !(kind_of(msgs[j]) is File)) {
        assert forall|j: int| !#[trigger] file_seen_at(msgs, outs, j, m) by {
            if 0 <= j < msgs.len() && msgs[j].id == m && kind_of(msgs[j]) is Attachment {
                assert(backs(before.files[k], chat_id, msgs[j]));
            }
        }
    }
}

/// What a reconciliation makes of an entry that was there: the records of
/// the window are applied to it, and then the window decides on its flag.
/// So the flag of an entry of which the window does not speak changes only
/// where a directory record clears it.
pub proof fn law_entries_that_were_there(
    before: IndexView,
    mid: IndexView,
    after: IndexView,
    chat_id: i64,
    msgs: Seq<HistoryMessage>,
    outs: Seq<IndexOutcome>,
    out: ReconcileOutcome,
)
    requires
        before.wf(),
        scanned(before, mid, chat_id, msgs, outs),
        window_closed(mid, after, chat_id, msgs, outs, out),
    ensures
        before.dirs.len() <= after.dirs.len(),
        before.files.len() <= after.files.len(),
        forall|k: int|
            0 <= k < before.dirs.len() ==> #[trigger] after.dirs[k] == if out.min_message_id > 0 {
                marked_dir(
                    settled_dir(before.dirs[k], msgs),
                    out.min_message_id,
                    id_set(seen_dir_ids(msgs, outs)),
                )
            } else {
                settled_dir(before.dirs[k], msgs)
            },
        forall|k: int|
            0 <= k < before.files.len() ==> #[trigger] after.files[k] == if out.min_message_id > 0 {
                marked_file(
                    settled_file(before.files[k], chat_id, msgs),
                    chat_id,
                    out.min_message_id,
                    id_set(seen_file_ids(msgs, outs)),
                )
            } else {
                settled_file(before.files[k], chat_id, msgs)
            },
{
    assert(records_settled(before, mid, chat_id, msgs));
    assert forall|k: int| 0 <= k < before.dirs.len() implies #[trigger] after.dirs[k] == if out.min_message_id
        > 0 {
        marked_dir(
            settled_dir(before.dirs[k], msgs),
            out.min_message_id,
            id_set(seen_dir_ids(msgs, outs)),
        )
    } else {
        settled_dir(before.dirs[k], msgs)
    } by {
        assert(mid.dirs[k] == settled_dir(before.dirs[k], msgs));
    }
    assert forall|k: int| 0 <= k < before.files.len() implies #[trigger] after.files[k] == if out.min_message_id
        > 0 {
        marked_file(
            settled_file(before.files[k], chat_id, msgs),
            chat_id,
            out.min_message_id,
            id_set(seen_file_ids(msgs, outs)),
        )
    } else {
        settled_file(before.files[k], chat_id, msgs)
    } by {
        assert(mid.files[k] == settled_file(before.files[k], chat_id, msgs));
    }
}

/// The same for a directory of which the window holds no record.
pub proof fn law_unrecorded_dir(
    before: IndexView,
    mid: IndexView,
    after: IndexView,
    chat_id: i64,
    msgs: Seq<HistoryMessage>,
    outs: Seq<IndexOutcome>,
    out: ReconcileOutcome,
    k: int,
)
    requires
        scanned(before, mid, chat_id, msgs, outs),
        window_closed(mid, after, chat_id, msgs, outs, out),
        out.min_message_id > 0,
        0 <= k < before.dirs.len(),
        !dir_recorded(msgs, before.dirs[k].id),
    ensures
        after.dirs[k] == (DirView { is_broken: after.dirs[k].is_broken, ..before.dirs[k] }),
        !dir_in_window(before.dirs[k], out.min_message_id) ==> after.dirs[k] == before.dirs[k],
{
    assert(before.dir_ids().len() <= mid.dir_ids().len());
    assert(mid.dirs[k] == before.dirs[k]);
}

/// Closing a window flips no flag that closing the same window before has
/// left: the index stays as it is and no flag is counted.
pub proof fn law_closing_again(
    mid: IndexView,
    once: IndexView,
    twice: IndexView,
    chat_id: i64,
    msgs: Seq<HistoryMessage>,
    outs: Seq<IndexOutcome>,
    first: ReconcileOutcome,
    second: ReconcileOutcome,
)
    requires
        window_closed(mid, once, chat_id, msgs, outs, first),
        window_closed(once, twice, chat_id, msgs, outs, second),
    ensures
        twice == once,
        second.marked_dirs == 0,
        second.cleared_dirs == 0,
        second.marked_files == 0,
        second.cleared_files == 0,
{
    let min = first.min_message_id;
    if min > 0 {
        law_dirs_marking(mid.dirs, min, id_set(seen_dir_ids(msgs, outs)));
        law_files_marking(mid.files, chat_id, min, id_set(seen_file_ids(msgs, outs)));
        assert(twice.dirs == once.dirs);
        assert(twice.files == once.files);
    }
}

} // verus!
