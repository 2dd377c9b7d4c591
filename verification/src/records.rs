//! What the records among a run of messages make of the index, row by
//! row: the last record of an entry decides what its row says. From this
//! it follows that every record of a window is applied whatever became of
//! the other messages, and that a second reconciliation with the same
//! window flips no flag.

use crate::indexer::{classify, dir_row, file_row, record_parent, size_of, MessageClass};
use crate::model::{
    lemma_index_of, lemma_index_of_found, lemma_placeholder, lemma_put_dir_wf, lemma_put_file_wf,
    lemma_put_keeps, DirView, FileView, IndexView,
};
use crate::indexer::{kind_of, IndexOutcome, MessageKind};
use crate::marking::{id_set, law_dirs_marking, law_files_marking, marked_dir, marked_file};
use crate::reconcile::{
    message_ids, min_of, reconciled, seen_dir_ids, seen_file_ids, window_closed,
    ReconcileOutcome,
};
use crate::scan::{
    count_kind, dir_recorded, file_recorded, fits, read_one, record_applied, records_applied,
    records_dir, records_file, scanned,
};
use crate::files::record_in;
use crate::window_laws::{
    dir_record_at, file_seen_at, lemma_seen_dirs, lemma_seen_files,
};
use crate::telegram::HistoryMessage;
use crate::text::is_blank;
use vstd::prelude::*;

verus! {

/// The row that a directory record stands for.
pub open spec fn dir_row_of(msg: HistoryMessage) -> DirView {
    dir_row(classify(msg)->Directory_0, msg.id, msg.date)
}

/// The row that a file record makes of the row that the index has.
pub open spec fn file_row_on(known: FileView, chat_id: i64, msg: HistoryMessage) -> FileView {
    file_row(Some(known), classify(msg)->File_0, chat_id, msg.id, msg.date, size_of(msg))
}

/// Whether the index has the entries that reading the message asks for:
/// the entry that the message is the record of, and its directory.
pub open spec fn needs_met(v: IndexView, msg: HistoryMessage) -> bool {
    match classify(msg) {
        MessageClass::Directory(m) => v.has_dir(m.dir_id) && (record_parent(m.parent_id) matches Some(
            p,
        ) ==> v.has_dir(p)),
        MessageClass::File(m) => v.has_file(m.file_id) && (is_blank(m.dir_id) || v.has_dir(
            m.dir_id,
        )),
        _ => true,
    }
}

proof fn lemma_has_after_push(ids: Seq<Seq<char>>, x: Seq<char>, d: Seq<char>)
    requires
        index_of_lt(ids, d),
    ensures
        index_of_lt(ids.push(x), d),
{
    lemma_index_of_found(ids, d);
    let p = crate::model::index_of(ids, d);
    assert forall|k: int| 0 <= k < p implies ids.push(x)[k] != d by {
        assert(ids.push(x)[k] == ids[k]);
    }
    assert(ids.push(x)[p] == d);
    lemma_index_of(ids.push(x), d, p);
}

/// Whether `d` stands among the ids.
pub open spec fn index_of_lt(ids: Seq<Seq<char>>, d: Seq<char>) -> bool {
    crate::model::index_of(ids, d) < ids.len()
}

/// What putting a directory row does, row by row.
proof fn lemma_put_dir_rows(v: IndexView, row: DirView)
    requires
        v.wf(),
    ensures
        ({
            let w = v.put_dir(row);
            &&& w.wf()
            &&& v.keeps(w)
            &&& w.files == v.files
            &&& v.dirs.len() <= w.dirs.len() <= v.dirs.len() + 1
            &&& v.has_dir(row.id) ==> w.dirs.len() == v.dirs.len()
            &&& forall|k: int|
                0 <= k < v.dirs.len() ==> #[trigger] w.dirs[k] == if v.dirs[k].id == row.id {
                    row
                } else {
                    v.dirs[k]
                }
            &&& !v.has_dir(row.id) ==> w.dirs.len() == v.dirs.len() + 1 && w.dirs[v.dirs.len() as int]
                == row
            &&& w.has_dir(row.id)
            &&& forall|d: Seq<char>| v.has_dir(d) ==> #[trigger] w.has_dir(d)
            &&& forall|f: Seq<char>| v.has_file(f) == #[trigger] w.has_file(f)
        }),
{
    let w = v.put_dir(row);
    let ids = v.dir_ids();
    lemma_put_dir_wf(v, row);
    lemma_put_keeps(v, row, arbitrary());
    lemma_index_of_found(ids, row.id);
    let p = v.dir_pos(row.id);
    assert(w.file_ids() =~= v.file_ids());
    if v.has_dir(row.id) {
        assert(w.dir_ids() =~= ids);
        assert forall|k: int| 0 <= k < v.dirs.len() implies #[trigger] w.dirs[k] == if v.dirs[k].id
            == row.id {
            row
        } else {
            v.dirs[k]
        } by {
            if v.dirs[k].id == row.id {
                assert(ids[k] == ids[p]);
                if k < p {
                    assert(ids[k] != ids[p]);
                }
                if p < k {
                    assert(ids[p] != ids[k]);
                }
            } else {
                assert(ids[p] == row.id);
            }
        }
    } else {
        assert(w.dir_ids() =~= ids.push(row.id));
        assert forall|k: int| 0 <= k < v.dirs.len() implies v.dirs[k].id != row.id by {
            assert(ids[k] != row.id);
        }
        lemma_index_of(w.dir_ids(), row.id, ids.len() as int);
        assert forall|d: Seq<char>| v.has_dir(d) implies #[trigger] w.has_dir(d) by {
            lemma_has_after_push(ids, row.id, d);
        }
    }
}

/// What putting a file row does, row by row.
proof fn lemma_put_file_rows(v: IndexView, row: FileView)
    requires
        v.wf(),
    ensures
        ({
            let w = v.put_file(row);
            &&& w.wf()
            &&& v.keeps(w)
            &&& w.dirs == v.dirs
            &&& v.files.len() <= w.files.len() <= v.files.len() + 1
            &&& v.has_file(row.id) ==> w.files.len() == v.files.len()
            &&& forall|k: int|
                0 <= k < v.files.len() ==> #[trigger] w.files[k] == if v.files[k].id == row.id {
                    row
                } else {
                    v.files[k]
                }
            &&& !v.has_file(row.id) ==> w.files.len() == v.files.len() + 1
                && w.files[v.files.len() as int] == row
            &&& v.has_file(row.id) ==> v.files[v.file_pos(row.id)].id == row.id
            &&& w.has_file(row.id)
            &&& forall|f: Seq<char>| v.has_file(f) ==> #[trigger] w.has_file(f)
            &&& forall|d: Seq<char>| v.has_dir(d) == #[trigger] w.has_dir(d)
        }),
{
    let w = v.put_file(row);
    let ids = v.file_ids();
    lemma_put_file_wf(v, row);
    lemma_put_keeps(v, arbitrary(), row);
    lemma_index_of_found(ids, row.id);
    let p = v.file_pos(row.id);
    assert(w.dir_ids() =~= v.dir_ids());
    if v.has_file(row.id) {
        assert(w.file_ids() =~= ids);
        assert forall|k: int| 0 <= k < v.files.len() implies #[trigger] w.files[k] == if v.files[k].id
            == row.id {
            row
        } else {
            v.files[k]
        } by {
            if v.files[k].id == row.id {
                assert(ids[k] == ids[p]);
                if k < p {
                    assert(ids[k] != ids[p]);
                }
                if p < k {
                    assert(ids[p] != ids[k]);
                }
            } else {
                assert(ids[p] == row.id);
            }
        }
    } else {
        assert(w.file_ids() =~= ids.push(row.id));
        assert forall|k: int| 0 <= k < v.files.len() implies v.files[k].id != row.id by {
            assert(ids[k] != row.id);
        }
        lemma_index_of(w.file_ids(), row.id, ids.len() as int);
        assert forall|f: Seq<char>| v.has_file(f) implies #[trigger] w.has_file(f) by {
            lemma_has_after_push(ids, row.id, f);
        }
    }
}

/// What reading a directory record does, row by row.
pub proof fn lemma_dir_step(prev: IndexView, chat_id: i64, msg: HistoryMessage)
    requires
        prev.wf(),
        classify(msg) is Directory,
    ensures
        ({
            let cur = record_applied(prev, chat_id, msg);
            let row = dir_row_of(msg);
            &&& cur.wf()
            &&& prev.keeps(cur)
            &&& cur.files == prev.files
            &&& prev.dirs.len() <= cur.dirs.len()
            &&& forall|k: int|
                0 <= k < prev.dirs.len() ==> #[trigger] cur.dirs[k] == if prev.dirs[k].id == row.id {
                    row
                } else {
                    prev.dirs[k]
                }
            &&& forall|k: int|
                prev.dirs.len() <= k < cur.dirs.len() ==> #[trigger] cur.dirs[k] == row || (
                cur.dirs[k].tg_msg_id is None && !prev.has_dir(cur.dirs[k].id) && cur.dirs[k].id
                    != row.id && !cur.dirs[k].is_broken)
            &&& needs_met(cur, msg)
            &&& needs_met(prev, msg) ==> cur.dirs.len() == prev.dirs.len()
            &&& forall|d: Seq<char>| prev.has_dir(d) ==> #[trigger] cur.has_dir(d)
            &&& forall|f: Seq<char>| prev.has_file(f) == #[trigger] cur.has_file(f)
        }),
{
    let m = classify(msg)->Directory_0;
    let row = dir_row_of(msg);
    match record_parent(m.parent_id) {
        Some(p) => {
            lemma_placeholder(prev, p, msg.date);
            let with_parent = prev.ensure_placeholder(p, msg.date);
            if !prev.has_dir(p) {
                lemma_put_dir_rows(prev, crate::model::placeholder_dir(p, msg.date));
            } else {
                lemma_put_keeps(prev, arbitrary(), arbitrary());
            }
            lemma_put_dir_rows(with_parent, row);
        },
        None => {
            lemma_put_dir_rows(prev, row);
        },
    }
}

/// What reading a file record does, row by row.
pub proof fn lemma_file_step(prev: IndexView, chat_id: i64, msg: HistoryMessage)
    requires
        prev.wf(),
        classify(msg) is File,
    ensures
        ({
            let cur = record_applied(prev, chat_id, msg);
            let id = classify(msg)->File_0.file_id;
            &&& cur.wf()
            &&& prev.keeps(cur)
            &&& prev.dirs.len() <= cur.dirs.len()
            &&& forall|k: int| 0 <= k < prev.dirs.len() ==> #[trigger] cur.dirs[k] == prev.dirs[k]
            &&& forall|k: int|
                prev.dirs.len() <= k < cur.dirs.len() ==> (#[trigger] cur.dirs[k]).tg_msg_id is None
                    && !prev.has_dir(cur.dirs[k].id) && !cur.dirs[k].is_broken
            &&& prev.files.len() <= cur.files.len()
            &&& forall|k: int|
                0 <= k < prev.files.len() ==> #[trigger] cur.files[k] == if prev.files[k].id == id {
                    file_row_on(prev.files[k], chat_id, msg)
                } else {
                    prev.files[k]
                }
            &&& forall|k: int|
                prev.files.len() <= k < cur.files.len() ==> #[trigger] cur.files[k] == file_row_on(
                    cur.files[k],
                    chat_id,
                    msg,
                ) && cur.files[k].id == id
            &&& needs_met(cur, msg)
            &&& needs_met(prev, msg) ==> cur.dirs.len() == prev.dirs.len() && cur.files.len()
                == prev.files.len()
            &&& forall|d: Seq<char>| prev.has_dir(d) ==> #[trigger] cur.has_dir(d)
            &&& forall|f: Seq<char>| prev.has_file(f) ==> #[trigger] cur.has_file(f)
        }),
{
    let m = classify(msg)->File_0;
    lemma_placeholder(prev, m.dir_id, msg.date);
    let with_dir = prev.ensure_placeholder(m.dir_id, msg.date);
    if !(is_blank(m.dir_id) || prev.has_dir(m.dir_id)) {
        lemma_put_dir_rows(prev, crate::model::placeholder_dir(m.dir_id, msg.date));
    } else {
        lemma_put_keeps(prev, arbitrary(), arbitrary());
    }
    let known = if with_dir.has_file(m.file_id) {
        Some(with_dir.file(m.file_id))
    } else {
        None
    };
    let row = file_row(known, m, chat_id, msg.id, msg.date, size_of(msg));
    lemma_put_file_rows(with_dir, row);
    lemma_index_of_found(with_dir.file_ids(), m.file_id);
    let cur = record_applied(prev, chat_id, msg);
    assert(cur == with_dir.put_file(row));
    assert forall|k: int| 0 <= k < prev.files.len() implies #[trigger] cur.files[k] == if prev.files[k].id
        == m.file_id {
        file_row_on(prev.files[k], chat_id, msg)
    } else {
        prev.files[k]
    } by {
        if prev.files[k].id == m.file_id {
            let p = with_dir.file_pos(m.file_id);
            assert(with_dir.file_ids()[k] == with_dir.file_ids()[p]);
            if k < p {
                assert(with_dir.file_ids()[k] != with_dir.file_ids()[p]);
            }
            if p < k {
                assert(with_dir.file_ids()[p] != with_dir.file_ids()[k]);
            }
            assert(known == Some(prev.files[k]));
        }
    }
}

// ---------------------------------------------------------------------------
// What the records make of a row
// ---------------------------------------------------------------------------
/// The directory row after the records were read: the last record of the
/// directory decides, and without one the row stays.
pub open spec fn settled_dir(row: DirView, msgs: Seq<HistoryMessage>) -> DirView
    decreases msgs.len(),
{
    if msgs.len() == 0 {
        row
    } else if records_dir(msgs.last(), row.id) {
        dir_row_of(msgs.last())
    } else {
        settled_dir(row, msgs.drop_last())
    }
}

/// The file row after the records were read: each record of the file
/// overwrites what the row says, but for its date and its flag.
pub open spec fn settled_file(row: FileView, chat_id: i64, msgs: Seq<HistoryMessage>) -> FileView
    decreases msgs.len(),
{
    if msgs.len() == 0 {
        row
    } else if records_file(msgs.last(), row.id) {
        file_row_on(settled_file(row, chat_id, msgs.drop_last()), chat_id, msgs.last())
    } else {
        settled_file(row, chat_id, msgs.drop_last())
    }
}

/// A row of which there is no record stays; a row of which there is one
/// is the row of a record, with the message of that record.
pub proof fn lemma_settled_dir(row: DirView, msgs: Seq<HistoryMessage>)
    ensures
        settled_dir(row, msgs).id == row.id,
        !dir_recorded(msgs, row.id) ==> settled_dir(row, msgs) == row,
        dir_recorded(msgs, row.id) ==> exists|j: int|
            0 <= j < msgs.len() && #[trigger] records_dir(msgs[j], row.id) && settled_dir(row, msgs)
                == dir_row_of(msgs[j]),
    decreases msgs.len(),
{
    if msgs.len() > 0 {
        let rest = msgs.drop_last();
        lemma_settled_dir(row, rest);
        if records_dir(msgs.last(), row.id) {
            assert(records_dir(msgs[msgs.len() - 1], row.id));
        } else {
            if dir_recorded(msgs, row.id) {
                let j = choose|j: int| 0 <= j < msgs.len() && #[trigger] records_dir(msgs[j], row.id);
                assert(rest[j] == msgs[j]);
                assert(records_dir(rest[j], row.id));
                let i = choose|i: int|
                    0 <= i < rest.len() && #[trigger] records_dir(rest[i], row.id) && settled_dir(
                        row,
                        rest,
                    ) == dir_row_of(rest[i]);
                assert(rest[i] == msgs[i]);
                assert(records_dir(msgs[i], row.id));
            } else {
                assert forall|j: int| 0 <= j < rest.len() implies !#[trigger] records_dir(
                    rest[j],
                    row.id,
                ) by {
                    assert(rest[j] == msgs[j]);
                }
            }
        }
    }
}

/// The records of a file leave its id, its date and its flag, and the flag
/// plays no part in what they make of the rest.
pub proof fn lemma_settled_file(row: FileView, chat_id: i64, msgs: Seq<HistoryMessage>, flag: bool)
    ensures
        settled_file(row, chat_id, msgs).id == row.id,
        settled_file(row, chat_id, msgs).created_at == row.created_at,
        settled_file(row, chat_id, msgs).is_broken == row.is_broken,
        settled_file(FileView { is_broken: flag, ..row }, chat_id, msgs) == (FileView {
            is_broken: flag,
            ..settled_file(row, chat_id, msgs)
        }),
    decreases msgs.len(),
{
    if msgs.len() > 0 {
        lemma_settled_file(row, chat_id, msgs.drop_last(), flag);
    }
}

proof fn lemma_needs_kept(prev: IndexView, cur: IndexView, msg: HistoryMessage)
    requires
        needs_met(prev, msg),
        forall|d: Seq<char>| prev.has_dir(d) ==> #[trigger] cur.has_dir(d),
        forall|f: Seq<char>| prev.has_file(f) ==> #[trigger] cur.has_file(f),
    ensures
        needs_met(cur, msg),
{
}

proof fn lemma_unknown_is_unrecorded(v: IndexView, msgs: Seq<HistoryMessage>, d: Seq<char>)
    requires
        forall|j: int| 0 <= j < msgs.len() ==> needs_met(v, #[trigger] msgs[j]),
        !v.has_dir(d),
    ensures
        !dir_recorded(msgs, d),
{
    assert forall|j: int| 0 <= j < msgs.len() implies !#[trigger] records_dir(msgs[j], d) by {
        assert(needs_met(v, msgs[j]));
    }
}

/// Reading the records into an index that has all that they ask for adds
/// no row, and makes of every row what the records make of it.
pub proof fn lemma_read_again(w: IndexView, chat_id: i64, msgs: Seq<HistoryMessage>)
    requires
        w.wf(),
        forall|j: int| 0 <= j < msgs.len() ==> needs_met(w, #[trigger] msgs[j]),
    ensures
        ({
            let r = records_applied(w, chat_id, msgs);
            &&& r.wf()
            &&& r.dirs.len() == w.dirs.len()
            &&& r.files.len() == w.files.len()
            &&& forall|k: int|
                0 <= k < w.dirs.len() ==> #[trigger] r.dirs[k] == settled_dir(w.dirs[k], msgs)
            &&& forall|k: int|
                0 <= k < w.files.len() ==> #[trigger] r.files[k] == settled_file(
                    w.files[k],
                    chat_id,
                    msgs,
                )
            &&& forall|d: Seq<char>| w.has_dir(d) ==> #[trigger] r.has_dir(d)
            &&& forall|f: Seq<char>| w.has_file(f) ==> #[trigger] r.has_file(f)
        }),
    decreases msgs.len(),
{
    if msgs.len() > 0 {
        let rest = msgs.drop_last();
        let msg = msgs.last();
        assert forall|j: int| 0 <= j < rest.len() implies needs_met(w, #[trigger] rest[j]) by {
            assert(rest[j] == msgs[j]);
        }
        lemma_read_again(w, chat_id, rest);
        let prev = records_applied(w, chat_id, rest);
        let cur = records_applied(w, chat_id, msgs);
        assert(cur == record_applied(prev, chat_id, msg));
        assert(needs_met(w, msgs[msgs.len() - 1]));
        lemma_needs_kept(w, prev, msg);
        match classify(msg) {
            MessageClass::Directory(_) => {
                lemma_dir_step(prev, chat_id, msg);
            },
            MessageClass::File(_) => {
                lemma_file_step(prev, chat_id, msg);
            },
            _ => {},
        }
        assert forall|k: int| 0 <= k < w.dirs.len() implies #[trigger] cur.dirs[k] == settled_dir(
            w.dirs[k],
            msgs,
        ) by {
            lemma_settled_dir(w.dirs[k], rest);
        }
        assert forall|k: int| 0 <= k < w.files.len() implies #[trigger] cur.files[k] == settled_file(
            w.files[k],
            chat_id,
            msgs,
        ) by {
            lemma_settled_file(w.files[k], chat_id, rest, false);
        }
    }
}

// ---------------------------------------------------------------------------
// Reading a window with foreign attachments in it
// ---------------------------------------------------------------------------
/// What holds of the index `r` after the messages were read into the index
/// `before`, whatever became of the foreign attachments among them: every
/// record was applied. The index has what the messages ask for; every row
/// is what the records make of it; and a row that stood in `before` is
/// what the records make of the row as it was.
pub open spec fn records_settled(
    before: IndexView,
    r: IndexView,
    chat_id: i64,
    msgs: Seq<HistoryMessage>,
) -> bool {
    &&& r.wf()
    &&& forall|j: int| 0 <= j < msgs.len() ==> needs_met(r, #[trigger] msgs[j])
    &&& forall|k: int| 0 <= k < r.dirs.len() ==> settled_dir(#[trigger] r.dirs[k], msgs) == r.dirs[k]
    &&& forall|k: int|
        0 <= k < r.files.len() ==> settled_file(#[trigger] r.files[k], chat_id, msgs) == r.files[k]
    &&& before.dirs.len() <= r.dirs.len()
    &&& before.files.len() <= r.files.len()
    &&& forall|k: int|
        0 <= k < before.dirs.len() ==> #[trigger] r.dirs[k] == settled_dir(before.dirs[k], msgs)
    &&& forall|k: int|
        0 <= k < before.files.len() ==> #[trigger] r.files[k] == settled_file(
            before.files[k],
            chat_id,
            msgs,
        )
}

proof fn lemma_unknown_file_is_unrecorded(v: IndexView, msgs: Seq<HistoryMessage>, f: Seq<char>)
    requires
        forall|j: int| 0 <= j < msgs.len() ==> needs_met(v, #[trigger] msgs[j]),
        !v.has_file(f),
    ensures
        !file_recorded(msgs, f),
{
    assert forall|j: int| 0 <= j < msgs.len() implies !#[trigger] records_file(msgs[j], f) by {
        assert(needs_met(v, msgs[j]));
    }
}

/// A file of which there is no record stays as it is.
pub proof fn lemma_unrecorded_file_stays(row: FileView, chat_id: i64, msgs: Seq<HistoryMessage>)
    requires
        !file_recorded(msgs, row.id),
    ensures
        settled_file(row, chat_id, msgs) == row,
    decreases msgs.len(),
{
    if msgs.len() > 0 {
        let rest = msgs.drop_last();
        assert(!records_file(msgs[msgs.len() - 1], row.id));
        assert forall|j: int| 0 <= j < rest.len() implies !#[trigger] records_file(rest[j], row.id) by {
            assert(rest[j] == msgs[j]);
        }
        lemma_unrecorded_file_stays(row, chat_id, rest);
    }
}

/// An id that stands behind the ids that were there is none of them.
proof fn lemma_fresh_id(old_ids: Seq<Seq<char>>, ids: Seq<Seq<char>>, k: int)
    requires
        crate::model::distinct(ids),
        crate::model::is_prefix_ids(old_ids, ids),
        old_ids.len() <= k < ids.len(),
    ensures
        !index_of_lt(old_ids, ids[k]),
{
    lemma_index_of_found(old_ids, ids[k]);
    let p = crate::model::index_of(old_ids, ids[k]);
    if p < old_ids.len() {
        assert(ids[p] == old_ids[p]);
        assert(ids[p] != ids[k]);
    }
}

/// What stood among the ids stands among the ids that begin with them.
proof fn lemma_has_after_more(old_ids: Seq<Seq<char>>, ids: Seq<Seq<char>>, d: Seq<char>)
    requires
        crate::model::is_prefix_ids(old_ids, ids),
        index_of_lt(old_ids, d),
    ensures
        index_of_lt(ids, d),
{
    lemma_index_of_found(old_ids, d);
    let p = crate::model::index_of(old_ids, d);
    assert forall|k: int| 0 <= k < p implies ids[k] != d by {
        assert(ids[k] == old_ids[k]);
    }
    assert(ids[p] == old_ids[p]);
    lemma_index_of(ids, d, p);
}

/// Reading one more message keeps the records applied.
pub proof fn lemma_settle_one(
    before: IndexView,
    prev: IndexView,
    cur: IndexView,
    chat_id: i64,
    rest: Seq<HistoryMessage>,
    msg: HistoryMessage,
)
    requires
        records_settled(before, prev, chat_id, rest),
        cur.wf(),
        prev.keeps(cur),
        read_one(prev, cur, chat_id, msg),
    ensures
        records_settled(before, cur, chat_id, rest.push(msg)),
{
    let msgs = rest.push(msg);
    assert(msgs.drop_last() =~= rest);
    assert(msgs.last() == msg);
    match classify(msg) {
        MessageClass::Directory(_) => {
            lemma_dir_step(prev, chat_id, msg);
        },
        MessageClass::File(_) => {
            lemma_file_step(prev, chat_id, msg);
        },
        _ => {},
    }
    assert forall|d: Seq<char>| prev.has_dir(d) implies #[trigger] cur.has_dir(d) by {
        lemma_has_after_more(prev.dir_ids(), cur.dir_ids(), d);
    }
    assert forall|f: Seq<char>| prev.has_file(f) implies #[trigger] cur.has_file(f) by {
        lemma_has_after_more(prev.file_ids(), cur.file_ids(), f);
    }
    assert forall|j: int| 0 <= j < msgs.len() implies needs_met(cur, #[trigger] msgs[j]) by {
        if j < rest.len() {
            assert(rest[j] == msgs[j]);
            assert(needs_met(prev, rest[j]));
            lemma_needs_kept(prev, cur, msgs[j]);
        }
    }
    assert forall|k: int| 0 <= k < cur.dirs.len() implies settled_dir(#[trigger] cur.dirs[k], msgs)
        == cur.dirs[k] by {
        let row = cur.dirs[k];
        if classify(msg) is Directory && row == dir_row_of(msg) {
        } else if k < prev.dirs.len() {
            if classify(msg) is Attachment {
                assert(cur.dirs.take(prev.dirs.len() as int)[k] == cur.dirs[k]);
            }
            assert(row == prev.dirs[k]);
            assert(!records_dir(msg, row.id));
        } else {
            if classify(msg) is Attachment {
                assert(cur.dir_ids()[k] == row.id);
                lemma_fresh_id(prev.dir_ids(), cur.dir_ids(), k);
            }
            assert(!prev.has_dir(row.id));
            lemma_unknown_is_unrecorded(prev, rest, row.id);
            lemma_settled_dir(row, rest);
            assert(!records_dir(msg, row.id));
        }
    }
    assert forall|k: int| 0 <= k < cur.files.len() implies settled_file(
        #[trigger] cur.files[k],
        chat_id,
        msgs,
    ) == cur.files[k] by {
        let row = cur.files[k];
        if classify(msg) is File {
            let id = classify(msg)->File_0.file_id;
            lemma_settled_file(row, chat_id, rest, false);
            if k < prev.files.len() {
                if prev.files[k].id == id {
                    assert(row == file_row_on(prev.files[k], chat_id, msg));
                } else {
                    assert(row == prev.files[k]);
                }
            } else {
                assert(row == file_row_on(row, chat_id, msg));
            }
        } else if k < prev.files.len() {
            if classify(msg) is Attachment && cur.files != prev.files {
                assert(cur.files.drop_last()[k] == cur.files[k]);
            }
            assert(row == prev.files[k]);
        } else {
            assert(cur.file_ids()[k] == row.id);
            lemma_fresh_id(prev.file_ids(), cur.file_ids(), k);
            assert(!prev.has_file(row.id));
            lemma_unknown_file_is_unrecorded(prev, rest, row.id);
            lemma_unrecorded_file_stays(row, chat_id, rest);
        }
    }
    assert forall|k: int| 0 <= k < before.dirs.len() implies #[trigger] cur.dirs[k] == settled_dir(
        before.dirs[k],
        msgs,
    ) by {
        lemma_settled_dir(before.dirs[k], rest);
        if classify(msg) is Attachment {
            assert(cur.dirs.take(prev.dirs.len() as int)[k] == cur.dirs[k]);
        }
    }
    assert forall|k: int| 0 <= k < before.files.len() implies #[trigger] cur.files[k]
        == settled_file(before.files[k], chat_id, msgs) by {
        lemma_settled_file(before.files[k], chat_id, rest, false);
        if classify(msg) is Attachment && cur.files != prev.files {
            assert(cur.files.drop_last()[k] == cur.files[k]);
        }
    }
}

/// A file row of which there is a record says what a record of it says.
pub proof fn lemma_settled_file_recorded(row: FileView, chat_id: i64, msgs: Seq<HistoryMessage>)
    requires
        file_recorded(msgs, row.id),
    ensures
        exists|j: int|
            0 <= j < msgs.len() && #[trigger] records_file(msgs[j], row.id) && settled_file(
                row,
                chat_id,
                msgs,
            ) == file_row_on(row, chat_id, msgs[j]),
    decreases msgs.len(),
{
    let rest = msgs.drop_last();
    lemma_settled_file(row, chat_id, rest, false);
    if records_file(msgs.last(), row.id) {
        assert(records_file(msgs[msgs.len() - 1], row.id));
        assert(settled_file(row, chat_id, msgs) == file_row_on(row, chat_id, msgs[msgs.len() - 1]));
    } else {
        let j = choose|j: int| 0 <= j < msgs.len() && #[trigger] records_file(msgs[j], row.id);
        assert(rest[j] == msgs[j]);
        assert(records_file(rest[j], row.id));
        lemma_settled_file_recorded(row, chat_id, rest);
        let i = choose|i: int|
            0 <= i < rest.len() && #[trigger] records_file(rest[i], row.id) && settled_file(
                row,
                chat_id,
                rest,
            ) == file_row_on(row, chat_id, rest[i]);
        assert(rest[i] == msgs[i]);
        assert(records_file(msgs[i], row.id));
    }
}

/// Every record of a run of messages is applied, whatever became of the
/// other messages: the index has the entry of the record afterwards, and
/// the row of the entry says what a record of it in the run says. A
/// directory row is the row of such a record; a file row keeps its date and
/// its flag and takes the rest from such a record.
pub proof fn law_records_are_applied(
    before: IndexView,
    after: IndexView,
    chat_id: i64,
    msgs: Seq<HistoryMessage>,
    outs: Seq<IndexOutcome>,
    j: int,
)
    requires
        before.wf(),
        scanned(before, after, chat_id, msgs, outs),
        0 <= j < msgs.len(),
    ensures
        classify(msgs[j]) matches MessageClass::Directory(m) ==> after.has_dir(m.dir_id) && exists|
            i: int,
        |
            0 <= i < msgs.len() && #[trigger] records_dir(msgs[i], m.dir_id) && after.dir(m.dir_id)
                == dir_row_of(msgs[i]),
        classify(msgs[j]) matches MessageClass::File(m) ==> after.has_file(m.file_id) && exists|
            i: int,
        |
            0 <= i < msgs.len() && #[trigger] records_file(msgs[i], m.file_id) && after.file(
                m.file_id,
            ) == file_row_on(after.file(m.file_id), chat_id, msgs[i]),
{
    assert(records_settled(before, after, chat_id, msgs));
    assert(needs_met(after, msgs[j]));
    match classify(msgs[j]) {
        MessageClass::Directory(m) => {
            lemma_index_of_found(after.dir_ids(), m.dir_id);
            let row = after.dir(m.dir_id);
            assert(row == after.dirs[after.dir_pos(m.dir_id)]);
            assert(after.dir_ids()[after.dir_pos(m.dir_id)] == row.id);
            assert(records_dir(msgs[j], row.id));
            lemma_settled_dir(row, msgs);
        },
        MessageClass::File(m) => {
            lemma_index_of_found(after.file_ids(), m.file_id);
            let row = after.file(m.file_id);
            assert(row == after.files[after.file_pos(m.file_id)]);
            assert(after.file_ids()[after.file_pos(m.file_id)] == row.id);
            assert(records_file(msgs[j], row.id));
            lemma_settled_file_recorded(row, chat_id, msgs);
        },
        _ => {},
    }
}

// ---------------------------------------------------------------------------
// The second run
// ---------------------------------------------------------------------------
proof fn lemma_min_is_least(ids: Seq<i64>, j: int)
    requires
        0 <= j < ids.len(),
    ensures
        min_of(ids) <= ids[j],
    decreases ids.len(),
{
    if ids.len() > 1 && j < ids.len() - 1 {
        lemma_min_is_least(ids.drop_last(), j);
    }
}

proof fn lemma_no_attachment(msgs: Seq<HistoryMessage>, j: int)
    requires
        count_kind(msgs, MessageKind::Attachment) == 0,
        0 <= j < msgs.len(),
    ensures
        !(kind_of(msgs[j]) is Attachment),
    decreases msgs.len(),
{
    if j < msgs.len() - 1 {
        lemma_no_attachment(msgs.drop_last(), j);
    }
}

/// Whether the records of the window say of every entry of the index what
/// the index says of it: the index has what the messages ask for, and
/// reading the records makes of every row the row itself.
pub open spec fn says_the_same(w: IndexView, chat_id: i64, msgs: Seq<HistoryMessage>) -> bool {
    &&& forall|j: int| 0 <= j < msgs.len() ==> needs_met(w, #[trigger] msgs[j])
    &&& forall|k: int| 0 <= k < w.dirs.len() ==> settled_dir(#[trigger] w.dirs[k], msgs) == w.dirs[k]
    &&& forall|k: int|
        0 <= k < w.files.len() ==> settled_file(#[trigger] w.files[k], chat_id, msgs) == w.files[k]
}

/// Whether two windows begin at the same message and confirm the same
/// messages.
pub open spec fn confirm_the_same(
    msgs1: Seq<HistoryMessage>,
    outs1: Seq<IndexOutcome>,
    msgs2: Seq<HistoryMessage>,
    outs2: Seq<IndexOutcome>,
) -> bool {
    &&& min_of(message_ids(msgs1)) == min_of(message_ids(msgs2))
    &&& forall|m: i64|
        #[trigger] seen_dir_ids(msgs1, outs1).contains(m) == seen_dir_ids(msgs2, outs2).contains(m)
    &&& forall|m: i64|
        #[trigger] seen_file_ids(msgs1, outs1).contains(m) == seen_file_ids(msgs2, outs2).contains(
            m,
        )
}

/// A run that follows a run flips nothing, when its window holds no
/// foreign attachment, says of every entry what the first run left, and
/// confirms the messages that the window of the first run confirmed. This
/// is so when nothing changed between the runs, and also when the first
/// run imported the attachments of its window and gave each the caption
/// that says what its entry says.
pub proof fn law_run_after_run(
    mid: IndexView,
    once: IndexView,
    twice: IndexView,
    chat_id: i64,
    first_msgs: Seq<HistoryMessage>,
    first_outs: Seq<IndexOutcome>,
    first: ReconcileOutcome,
    msgs: Seq<HistoryMessage>,
    outs: Seq<IndexOutcome>,
    second: ReconcileOutcome,
)
    requires
        once.wf(),
        window_closed(mid, once, chat_id, first_msgs, first_outs, first),
        count_kind(msgs, MessageKind::Attachment) == 0,
        says_the_same(once, chat_id, msgs),
        confirm_the_same(first_msgs, first_outs, msgs, outs),
        reconciled(once, twice, chat_id, msgs, outs, second),
    ensures
        twice == once,
        second.marked_dirs == 0,
        second.cleared_dirs == 0,
        second.marked_files == 0,
        second.cleared_files == 0,
{
    if msgs.len() > 0 {
        let m2 = choose|m2: IndexView| #[trigger]
            scanned(once, m2, chat_id, msgs, outs) && window_closed(
                m2,
                twice,
                chat_id,
                msgs,
                outs,
                second,
            );
        assert(m2 == records_applied(once, chat_id, msgs));
        lemma_read_again(once, chat_id, msgs);
        assert(m2.dirs =~= once.dirs);
        assert(m2.files =~= once.files);
        assert(m2 == once);
        let min = second.min_message_id;
        assert(min == first.min_message_id);
        if min > 0 {
            let seen_d = id_set(seen_dir_ids(first_msgs, first_outs));
            let seen_f = id_set(seen_file_ids(first_msgs, first_outs));
            assert(id_set(seen_dir_ids(msgs, outs)) =~= seen_d);
            assert(id_set(seen_file_ids(msgs, outs)) =~= seen_f);
            law_dirs_marking(mid.dirs, min, seen_d);
            law_files_marking(mid.files, chat_id, min, seen_f);
            assert(twice.dirs == once.dirs);
            assert(twice.files == once.files);
        }
    }
}

/// What a run leaves behind says the same as its window: the index is
/// well formed, has what the messages of the window ask for, and every row
/// is what the records of the window make of it.
pub proof fn lemma_run_says_the_same(
    v: IndexView,
    m1: IndexView,
    once: IndexView,
    chat_id: i64,
    msgs: Seq<HistoryMessage>,
    outs: Seq<IndexOutcome>,
    first: ReconcileOutcome,
)
    requires
        v.wf(),
        scanned(v, m1, chat_id, msgs, outs),
        window_closed(m1, once, chat_id, msgs, outs, first),
    ensures
        once.wf(),
        once.dir_ids() == m1.dir_ids(),
        once.file_ids() == m1.file_ids(),
        says_the_same(once, chat_id, msgs),
{
    assert(records_settled(v, m1, chat_id, msgs));
    let min = first.min_message_id;
    let seen_d = id_set(seen_dir_ids(msgs, outs));
    let seen_f = id_set(seen_file_ids(msgs, outs));
    assert(once.dirs.len() == m1.dirs.len());
    assert(once.files.len() == m1.files.len());
    assert forall|k: int| 0 <= k < m1.dirs.len() implies #[trigger] once.dirs[k] == marked_dir(
        m1.dirs[k],
        min,
        seen_d,
    ) || once.dirs[k] == m1.dirs[k] by {}
    assert forall|k: int| 0 <= k < m1.files.len() implies #[trigger] once.files[k] == marked_file(
        m1.files[k],
        chat_id,
        min,
        seen_f,
    ) || once.files[k] == m1.files[k] by {}
    assert(once.dir_ids() =~= m1.dir_ids());
    assert(once.file_ids() =~= m1.file_ids());
    assert forall|j: int| 0 <= j < msgs.len() implies needs_met(once, #[trigger] msgs[j]) by {
        assert(needs_met(m1, msgs[j]));
    }
    // a row of which the window holds a record is confirmed by it
    assert forall|k: int| 0 <= k < once.dirs.len() implies settled_dir(
        #[trigger] once.dirs[k],
        msgs,
    ) == once.dirs[k] by {
        let row = m1.dirs[k];
        lemma_settled_dir(row, msgs);
        lemma_settled_dir(once.dirs[k], msgs);
        if dir_recorded(msgs, row.id) {
            let j = choose|j: int|
                0 <= j < msgs.len() && #[trigger] records_dir(msgs[j], row.id) && settled_dir(
                    row,
                    msgs,
                ) == dir_row_of(msgs[j]);
            assert(settled_dir(row, msgs) == row);
            assert(row.tg_msg_id == Some(msgs[j].id));
            if min > 0 {
                assert(message_ids(msgs)[j] == msgs[j].id);
                lemma_min_is_least(message_ids(msgs), j);
                assert(dir_record_at(msgs, j, msgs[j].id));
                lemma_seen_dirs(msgs, outs, msgs[j].id);
            }
            assert(once.dirs[k] == row);
        }
    }
    assert forall|k: int| 0 <= k < once.files.len() implies settled_file(
        #[trigger] once.files[k],
        chat_id,
        msgs,
    ) == once.files[k] by {
        lemma_settled_file(m1.files[k], chat_id, msgs, once.files[k].is_broken);
        assert(once.files[k] == (FileView { is_broken: once.files[k].is_broken, ..m1.files[k] }));
    }
}

/// A second reconciliation with the same window flips nothing. When a
/// window holds records and no foreign attachment, reading it asks nothing
/// of the channel, so that a second run reads the same messages; it then
/// leaves the index exactly as the first run left it, and counts no flag.
pub proof fn law_second_run(
    v: IndexView,
    once: IndexView,
    twice: IndexView,
    chat_id: i64,
    msgs: Seq<HistoryMessage>,
    first_outs: Seq<IndexOutcome>,
    outs: Seq<IndexOutcome>,
    first: ReconcileOutcome,
    second: ReconcileOutcome,
)
    requires
        v.wf(),
        count_kind(msgs, MessageKind::Attachment) == 0,
        reconciled(v, once, chat_id, msgs, first_outs, first),
        reconciled(once, twice, chat_id, msgs, outs, second),
    ensures
        twice == once,
        second.marked_dirs == 0,
        second.cleared_dirs == 0,
        second.marked_files == 0,
        second.cleared_files == 0,
{
    if msgs.len() > 0 {
        let m1 = choose|mid: IndexView| #[trigger]
            scanned(v, mid, chat_id, msgs, first_outs) && window_closed(
                mid,
                once,
                chat_id,
                msgs,
                first_outs,
                first,
            );
        let m2 = choose|mid: IndexView| #[trigger]
            scanned(once, mid, chat_id, msgs, outs) && window_closed(
                mid,
                twice,
                chat_id,
                msgs,
                outs,
                second,
            );
        // without attachments the outcomes are those of the records
        assert forall|j: int| 0 <= j < msgs.len() implies #[trigger] first_outs[j] == outs[j] by {
            lemma_no_attachment(msgs, j);
            assert(fits(msgs[j], first_outs[j]));
            assert(fits(msgs[j], outs[j]));
        }
        assert(first_outs =~= outs);
        lemma_run_says_the_same(v, m1, once, chat_id, msgs, first_outs, first);
        law_run_after_run(m1, once, twice, chat_id, msgs, first_outs, first, msgs, outs, second);
    }
}

// ---------------------------------------------------------------------------
// The second run after imports
// ---------------------------------------------------------------------------
/// Whether the message is the record of the file as the row has it, on the
/// message that backs the row.
pub open spec fn restates(row: FileView, chat_id: i64, msg: HistoryMessage) -> bool {
    &&& classify(msg) == MessageClass::File(record_in(row, row.dir_id))
    &&& size_of(msg) == row.size
    &&& row.tg_chat_id == chat_id
    &&& row.tg_msg_id == msg.id
}

/// Whether `msgs` is the window `first_msgs` as a run leaves it that
/// imported every foreign attachment of the window and gave each the
/// caption that is the record of its file: the other messages are as they
/// were; every attachment was imported, has its id still, and restates a
/// file of the index whose directory the index has and of which the first
/// window held no record.
pub open spec fn captioned(
    once: IndexView,
    chat_id: i64,
    first_msgs: Seq<HistoryMessage>,
    first_outs: Seq<IndexOutcome>,
    msgs: Seq<HistoryMessage>,
) -> bool {
    &&& msgs.len() == first_msgs.len()
    &&& forall|j: int|
        0 <= j < msgs.len() && !(kind_of(first_msgs[j]) is Attachment) ==> #[trigger] msgs[j]
            == first_msgs[j]
    &&& forall|j: int|
        0 <= j < msgs.len() && kind_of(first_msgs[j]) is Attachment ==> (#[trigger] msgs[j]).id
            == first_msgs[j].id && first_outs[j].imported && exists|k: int|
            0 <= k < once.files.len() && #[trigger] restates(once.files[k], chat_id, msgs[j]) && (
            is_blank(once.files[k].dir_id) || once.has_dir(once.files[k].dir_id)) && !file_recorded(
                first_msgs,
                once.files[k].id,
            )
}

proof fn lemma_same_dir_records(row: DirView, msgs1: Seq<HistoryMessage>, msgs2: Seq<HistoryMessage>)
    requires
        msgs1.len() == msgs2.len(),
        forall|j: int|
            0 <= j < msgs1.len() && (records_dir(msgs1[j], row.id) || records_dir(msgs2[j], row.id))
                ==> #[trigger] msgs1[j] == msgs2[j],
    ensures
        settled_dir(row, msgs1) == settled_dir(row, msgs2),
    decreases msgs1.len(),
{
    if msgs1.len() > 0 {
        let n = msgs1.len() - 1;
        assert(records_dir(msgs1[n], row.id) || records_dir(msgs2[n], row.id) ==> msgs1[n]
            == msgs2[n]);
        assert forall|j: int|
            0 <= j < n && (records_dir(msgs1.drop_last()[j], row.id) || records_dir(
                msgs2.drop_last()[j],
                row.id,
            )) implies #[trigger] msgs1.drop_last()[j] == msgs2.drop_last()[j] by {
            assert(msgs1[j] == msgs2[j]);
        }
        lemma_same_dir_records(row, msgs1.drop_last(), msgs2.drop_last());
    }
}

proof fn lemma_same_file_records(
    row: FileView,
    chat_id: i64,
    msgs1: Seq<HistoryMessage>,
    msgs2: Seq<HistoryMessage>,
)
    requires
        msgs1.len() == msgs2.len(),
        forall|j: int|
            0 <= j < msgs1.len() && (records_file(msgs1[j], row.id) || records_file(
                msgs2[j],
                row.id,
            )) ==> #[trigger] msgs1[j] == msgs2[j],
    ensures
        settled_file(row, chat_id, msgs1) == settled_file(row, chat_id, msgs2),
    decreases msgs1.len(),
{
    if msgs1.len() > 0 {
        let n = msgs1.len() - 1;
        assert(records_file(msgs1[n], row.id) || records_file(msgs2[n], row.id) ==> msgs1[n]
            == msgs2[n]);
        assert forall|j: int|
            0 <= j < n && (records_file(msgs1.drop_last()[j], row.id) || records_file(
                msgs2.drop_last()[j],
                row.id,
            )) implies #[trigger] msgs1.drop_last()[j] == msgs2.drop_last()[j] by {
            assert(msgs1[j] == msgs2[j]);
        }
        lemma_same_file_records(row, chat_id, msgs1.drop_last(), msgs2.drop_last());
    }
}

/// A row that every record of it restates stays as it is.
proof fn lemma_restated_file(row: FileView, chat_id: i64, msgs: Seq<HistoryMessage>)
    requires
        forall|j: int|
            0 <= j < msgs.len() && #[trigger] records_file(msgs[j], row.id) ==> file_row_on(
                row,
                chat_id,
                msgs[j],
            ) == row,
    ensures
        settled_file(row, chat_id, msgs) == row,
    decreases msgs.len(),
{
    if msgs.len() > 0 {
        let rest = msgs.drop_last();
        assert forall|j: int| 0 <= j < rest.len() && #[trigger] records_file(rest[j], row.id) implies file_row_on(
            row,
            chat_id,
            rest[j],
        ) == row by {
            assert(rest[j] == msgs[j]);
            assert(records_file(msgs[j], row.id));
        }
        lemma_restated_file(row, chat_id, rest);
        if records_file(msgs.last(), row.id) {
            assert(records_file(msgs[msgs.len() - 1], row.id));
        }
    }
}

/// A second run flips nothing after a run that imported every foreign
/// attachment of its window into a directory of the index and gave each
/// the caption that is the record of its file, when the second run reads
/// the window as the first left it.
///
/// Not so after an import that made a directory, or one whose caption
/// could not be written: the message of the new directory, and the
/// attachment without a record, are confirmed by no message of the first
/// window, and the next run flips what it finds.
pub proof fn law_second_run_after_imports(
    v: IndexView,
    once: IndexView,
    twice: IndexView,
    chat_id: i64,
    first_msgs: Seq<HistoryMessage>,
    first_outs: Seq<IndexOutcome>,
    first: ReconcileOutcome,
    msgs: Seq<HistoryMessage>,
    outs: Seq<IndexOutcome>,
    second: ReconcileOutcome,
)
    requires
        v.wf(),
        reconciled(v, once, chat_id, first_msgs, first_outs, first),
        captioned(once, chat_id, first_msgs, first_outs, msgs),
        reconciled(once, twice, chat_id, msgs, outs, second),
    ensures
        twice == once,
        second.marked_dirs == 0,
        second.cleared_dirs == 0,
        second.marked_files == 0,
        second.cleared_files == 0,
{
    if msgs.len() > 0 {
        let m1 = choose|mid: IndexView| #[trigger]
            scanned(v, mid, chat_id, first_msgs, first_outs) && window_closed(
                mid,
                once,
                chat_id,
                first_msgs,
                first_outs,
                first,
            );
        let m2 = choose|mid: IndexView| #[trigger]
            scanned(once, mid, chat_id, msgs, outs) && window_closed(
                mid,
                twice,
                chat_id,
                msgs,
                outs,
                second,
            );
        lemma_run_says_the_same(v, m1, once, chat_id, first_msgs, first_outs, first);
        // the window as it was left holds no foreign attachment
        assert forall|j: int| 0 <= j < msgs.len() implies !(kind_of(#[trigger] msgs[j])
            is Attachment) by {
            if kind_of(first_msgs[j]) is Attachment {
                let k = choose|k: int|
                    0 <= k < once.files.len() && #[trigger] restates(once.files[k], chat_id, msgs[j]);
            }
        }
        lemma_none_is_attachment(msgs);
        // it begins at the same message
        assert(message_ids(msgs) =~= message_ids(first_msgs)) by {
            assert forall|j: int| 0 <= j < msgs.len() implies msgs[j].id == first_msgs[j].id by {}
        }
        // and confirms the same messages
        assert forall|m: i64| #[trigger]
            seen_dir_ids(first_msgs, first_outs).contains(m) == seen_dir_ids(msgs, outs).contains(
                m,
            ) by {
            lemma_seen_dirs(first_msgs, first_outs, m);
            lemma_seen_dirs(msgs, outs, m);
            if exists|j: int| #[trigger] dir_record_at(first_msgs, j, m) {
                let j = choose|j: int| #[trigger] dir_record_at(first_msgs, j, m);
                assert(msgs[j] == first_msgs[j]);
                assert(dir_record_at(msgs, j, m));
            }
            if exists|j: int| #[trigger] dir_record_at(msgs, j, m) {
                let j = choose|j: int| #[trigger] dir_record_at(msgs, j, m);
                if kind_of(first_msgs[j]) is Attachment {
                    let k = choose|k: int|
                        0 <= k < once.files.len() && #[trigger] restates(
                            once.files[k],
                            chat_id,
                            msgs[j],
                        );
                }
                assert(msgs[j] == first_msgs[j]);
                assert(dir_record_at(first_msgs, j, m));
            }
        }
        assert forall|m: i64| #[trigger]
            seen_file_ids(first_msgs, first_outs).contains(m) == seen_file_ids(
                msgs,
                outs,
            ).contains(m) by {
            lemma_seen_files(first_msgs, first_outs, m);
            lemma_seen_files(msgs, outs, m);
            if exists|j: int| #[trigger] file_seen_at(first_msgs, first_outs, j, m) {
                let j = choose|j: int| #[trigger] file_seen_at(first_msgs, first_outs, j, m);
                if kind_of(first_msgs[j]) is Attachment {
                    let k = choose|k: int|
                        0 <= k < once.files.len() && #[trigger] restates(
                            once.files[k],
                            chat_id,
                            msgs[j],
                        );
                } else {
                    assert(msgs[j] == first_msgs[j]);
                }
                assert(file_seen_at(msgs, outs, j, m));
            }
            if exists|j: int| #[trigger] file_seen_at(msgs, outs, j, m) {
                let j = choose|j: int| #[trigger] file_seen_at(msgs, outs, j, m);
                if !(kind_of(first_msgs[j]) is Attachment) {
                    assert(msgs[j] == first_msgs[j]);
                }
                assert(file_seen_at(first_msgs, first_outs, j, m));
            }
        }
        // it asks for nothing that the index lacks
        assert forall|j: int| 0 <= j < msgs.len() implies needs_met(once, #[trigger] msgs[j]) by {
            if kind_of(first_msgs[j]) is Attachment {
                let k = choose|k: int|
                    0 <= k < once.files.len() && #[trigger] restates(once.files[k], chat_id, msgs[j])
                        && (is_blank(once.files[k].dir_id) || once.has_dir(once.files[k].dir_id));
                assert(once.file_ids()[k] == once.files[k].id);
                lemma_stands_among(once.file_ids(), k);
            } else {
                assert(msgs[j] == first_msgs[j]);
                assert(needs_met(once, first_msgs[j]));
            }
        }
        // and its records make of every row the row itself
        assert forall|k: int| 0 <= k < once.dirs.len() implies settled_dir(
            #[trigger] once.dirs[k],
            msgs,
        ) == once.dirs[k] by {
            let row = once.dirs[k];
            assert forall|j: int|
                0 <= j < msgs.len() && (records_dir(first_msgs[j], row.id) || records_dir(
                    msgs[j],
                    row.id,
                )) implies #[trigger] first_msgs[j] == msgs[j] by {
                if kind_of(first_msgs[j]) is Attachment {
                    let k2 = choose|k2: int|
                        0 <= k2 < once.files.len() && #[trigger] restates(
                            once.files[k2],
                            chat_id,
                            msgs[j],
                        );
                } else {
                    assert(msgs[j] == first_msgs[j]);
                }
            }
            lemma_same_dir_records(row, first_msgs, msgs);
        }
        assert forall|k: int| 0 <= k < once.files.len() implies settled_file(
            #[trigger] once.files[k],
            chat_id,
            msgs,
        ) == once.files[k] by {
            let row = once.files[k];
            if file_recorded(first_msgs, row.id) {
                assert forall|j: int|
                    0 <= j < msgs.len() && (records_file(first_msgs[j], row.id) || records_file(
                        msgs[j],
                        row.id,
                    )) implies #[trigger] first_msgs[j] == msgs[j] by {
                    if kind_of(first_msgs[j]) is Attachment {
                        let k2 = choose|k2: int|
                            0 <= k2 < once.files.len() && #[trigger] restates(
                                once.files[k2],
                                chat_id,
                                msgs[j],
                            ) && !file_recorded(first_msgs, once.files[k2].id);
                    } else {
                        assert(msgs[j] == first_msgs[j]);
                    }
                }
                lemma_same_file_records(row, chat_id, first_msgs, msgs);
            } else {
                assert forall|j: int|
                    0 <= j < msgs.len() && #[trigger] records_file(msgs[j], row.id) implies file_row_on(
                        row,
                        chat_id,
                        msgs[j],
                    ) == row by {
                    if kind_of(first_msgs[j]) is Attachment {
                        let k2 = choose|k2: int|
                            0 <= k2 < once.files.len() && #[trigger] restates(
                                once.files[k2],
                                chat_id,
                                msgs[j],
                            );
                        assert(once.file_ids()[k2] == once.file_ids()[k]);
                        if k2 < k {
                            assert(once.file_ids()[k2] != once.file_ids()[k]);
                        }
                        if k < k2 {
                            assert(once.file_ids()[k] != once.file_ids()[k2]);
                        }
                    } else {
                        assert(msgs[j] == first_msgs[j]);
                        assert(records_file(first_msgs[j], row.id));
                    }
                }
                lemma_restated_file(row, chat_id, msgs);
            }
        }
        law_run_after_run(m1, once, twice, chat_id, first_msgs, first_outs, first, msgs, outs, second);
    }
}

proof fn lemma_none_is_attachment(msgs: Seq<HistoryMessage>)
    requires
        forall|j: int| 0 <= j < msgs.len() ==> !(kind_of(#[trigger] msgs[j]) is Attachment),
    ensures
        count_kind(msgs, MessageKind::Attachment) == 0,
    decreases msgs.len(),
{
    if msgs.len() > 0 {
        assert(!(kind_of(msgs[msgs.len() - 1]) is Attachment));
        assert forall|j: int| 0 <= j < msgs.drop_last().len() implies !(kind_of(
            #[trigger] msgs.drop_last()[j],
        ) is Attachment) by {
            assert(msgs.drop_last()[j] == msgs[j]);
        }
        lemma_none_is_attachment(msgs.drop_last());
    }
}

proof fn lemma_stands_among(ids: Seq<Seq<char>>, k: int)
    requires
        0 <= k < ids.len(),
    ensures
        index_of_lt(ids, ids[k]),
{
    lemma_index_of_found(ids, ids[k]);
}

} // verus!
