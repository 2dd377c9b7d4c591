//! Reading a run of messages into the index, one after the other, and
//! what can be said of the index afterwards from the messages alone.

use crate::index::Index;
use crate::indexer::{
    classify, dir_row, index_storage_message, kind_of, record_parent, size_of, upsert_dir_view,
    upsert_file_view, IndexOutcome, MessageClass, MessageKind,
};
use crate::model::{
    count_where, lemma_index_of_found, lemma_keeps_trans, lemma_placeholder, lemma_put_keeps,
    FileView, IndexView,
};
use crate::records::{lemma_settle_one, records_settled};
use crate::telegram::{ChatId, HistoryMessage, TelegramService};
use vstd::prelude::*;

verus! {

/// How many of the messages are of the kind.
pub open spec fn count_kind(msgs: Seq<HistoryMessage>, kind: MessageKind) -> nat
    decreases msgs.len(),
{
    if msgs.len() == 0 {
        0
    } else {
        count_kind(msgs.drop_last(), kind) + if kind_of(msgs.last()) == kind {
            1nat
        } else {
            0nat
        }
    }
}

/// Whether the message is the record of file `file_id`.
pub open spec fn records_file(msg: HistoryMessage, file_id: Seq<char>) -> bool {
    classify(msg) matches MessageClass::File(m) && m.file_id == file_id
}

/// Whether the message is the record of directory `dir_id`.
pub open spec fn records_dir(msg: HistoryMessage, dir_id: Seq<char>) -> bool {
    classify(msg) matches MessageClass::Directory(m) && m.dir_id == dir_id
}

/// Whether one of the messages is the record of file `file_id`.
pub open spec fn file_recorded(msgs: Seq<HistoryMessage>, file_id: Seq<char>) -> bool {
    exists|j: int| 0 <= j < msgs.len() && #[trigger] records_file(msgs[j], file_id)
}

/// Whether one of the messages is the record of directory `dir_id`.
pub open spec fn dir_recorded(msgs: Seq<HistoryMessage>, dir_id: Seq<char>) -> bool {
    exists|j: int| 0 <= j < msgs.len() && #[trigger] records_dir(msgs[j], dir_id)
}

/// The index after a message was read that is no foreign attachment: a
/// record is inserted or overwritten, anything else is passed over.
pub open spec fn record_applied(v: IndexView, chat_id: i64, msg: HistoryMessage) -> IndexView {
    match classify(msg) {
        MessageClass::Directory(m) => upsert_dir_view(v, m, msg.id, msg.date),
        MessageClass::File(m) => upsert_file_view(v, m, chat_id, msg.id, msg.date, size_of(msg)),
        _ => v,
    }
}

/// The index after the records among the messages were read, in order.
pub open spec fn records_applied(v: IndexView, chat_id: i64, msgs: Seq<HistoryMessage>) -> IndexView
    decreases msgs.len(),
{
    if msgs.len() == 0 {
        v
    } else {
        record_applied(records_applied(v, chat_id, msgs.drop_last()), chat_id, msgs.last())
    }
}

/// What reading one message may do to the index.
pub open spec fn read_one(prev: IndexView, cur: IndexView, chat_id: i64, msg: HistoryMessage) -> bool {
    match classify(msg) {
        MessageClass::Attachment => {
            &&& prev.dirs.len() <= cur.dirs.len() <= prev.dirs.len() + 1
            &&& cur.dirs.take(prev.dirs.len() as int) == prev.dirs
            &&& cur.files == prev.files || (cur.files.len() == prev.files.len() + 1
                && cur.files.drop_last() == prev.files)
        },
        _ => cur == record_applied(prev, chat_id, msg),
    }
}

/// The entries that stood in `before` and of which no message is the
/// record stand in `after` as they were.
pub open spec fn unrecorded_kept(before: IndexView, after: IndexView, msgs: Seq<HistoryMessage>) -> bool {
    &&& before.keeps(after)
    &&& forall|k: int|
        0 <= k < before.files.len() && !file_recorded(msgs, before.files[k].id)
            ==> #[trigger] after.files[k] == before.files[k]
    &&& forall|k: int|
        0 <= k < before.dirs.len() && !dir_recorded(msgs, before.dirs[k].id)
            ==> #[trigger] after.dirs[k] == before.dirs[k]
}

/// How the messages of a run were counted.
#[derive(Debug, Clone, Copy, PartialEq, Eq)]
pub struct ScanCounts {
    /// How many are records of directories.
    pub dir_seen: usize,
    /// How many are, or have become, records of files.
    pub file_seen: usize,
    /// How many foreign attachments were taken into the index.
    pub imported: usize,
    /// How many could not be indexed.
    pub failed: usize,
}

/// What indexing a message came to when it could not be indexed.
pub open spec fn failed_outcome() -> IndexOutcome {
    IndexOutcome { dir: false, file: false, imported: false, skipped: false, failed: true }
}

/// Whether indexing the message can have the outcome: a record is always
/// read as what it is, a message of no kind is passed over, and a foreign
/// attachment is imported, passed over, or fails.
pub open spec fn fits(msg: HistoryMessage, out: IndexOutcome) -> bool {
    match kind_of(msg) {
        MessageKind::Directory => out == (IndexOutcome {
            dir: true,
            file: false,
            imported: false,
            skipped: false,
            failed: false,
        }),
        MessageKind::File => out == (IndexOutcome {
            dir: false,
            file: true,
            imported: false,
            skipped: false,
            failed: false,
        }),
        MessageKind::Other => out == (IndexOutcome {
            dir: false,
            file: false,
            imported: false,
            skipped: true,
            failed: false,
        }),
        MessageKind::Attachment => out == (IndexOutcome {
            dir: false,
            file: true,
            imported: true,
            skipped: false,
            failed: false,
        }) || out == (IndexOutcome {
            dir: false,
            file: false,
            imported: false,
            skipped: true,
            failed: false,
        }) || out == failed_outcome(),
    }
}

/// Whether the outcomes are those of the messages, one for each.
pub open spec fn outcomes_fit(msgs: Seq<HistoryMessage>, outs: Seq<IndexOutcome>) -> bool {
    outs.len() == msgs.len() && forall|j: int| 0 <= j < msgs.len() ==> fits(msgs[j], #[trigger] outs[j])
}

/// How many outcomes there are of each sort.
pub struct Tally {
    pub dirs: nat,
    pub files: nat,
    pub imported: nat,
    pub failed: nat,
}

/// One more, where it counts.
pub open spec fn plus(n: nat, counts: bool) -> nat {
    if counts {
        n + 1
    } else {
        n
    }
}

/// The outcomes, counted.
pub open spec fn tally_of(outs: Seq<IndexOutcome>) -> Tally
    decreases outs.len(),
{
    if outs.len() == 0 {
        Tally { dirs: 0, files: 0, imported: 0, failed: 0 }
    } else {
        let rest = tally_of(outs.drop_last());
        let last = outs.last();
        Tally {
            dirs: plus(rest.dirs, last.dir),
            files: plus(rest.files, last.file),
            imported: plus(rest.imported, last.imported),
            failed: plus(rest.failed, last.failed),
        }
    }
}

/// Whether the counts are those of the outcomes.
pub open spec fn tallies(counts: ScanCounts, outs: Seq<IndexOutcome>) -> bool {
    &&& counts.dir_seen == tally_of(outs).dirs
    &&& counts.file_seen == tally_of(outs).files
    &&& counts.imported == tally_of(outs).imported
    &&& counts.failed == tally_of(outs).failed
}

/// No sort of outcome is counted more often than there are outcomes, and
/// of outcomes that fit their messages none is counted twice.
pub proof fn lemma_tally_bounds(msgs: Seq<HistoryMessage>, outs: Seq<IndexOutcome>)
    ensures
        tally_of(outs).dirs <= outs.len(),
        tally_of(outs).files <= outs.len(),
        tally_of(outs).imported <= outs.len(),
        tally_of(outs).failed <= outs.len(),
        outcomes_fit(msgs, outs) ==> tally_of(outs).dirs + tally_of(outs).failed <= outs.len()
            && tally_of(outs).files + tally_of(outs).failed <= outs.len() && tally_of(
            outs,
        ).imported <= tally_of(outs).files,
    decreases outs.len(),
{
    if outs.len() > 0 {
        lemma_tally_bounds(msgs.drop_last(), outs.drop_last());
        if outcomes_fit(msgs, outs) {
            assert(fits(msgs[msgs.len() - 1], outs[outs.len() - 1]));
            assert forall|j: int| 0 <= j < msgs.drop_last().len() implies fits(
                msgs.drop_last()[j],
                #[trigger] outs.drop_last()[j],
            ) by {
                assert(fits(msgs[j], outs[j]));
            }
        }
    }
}

/// Counts the outcomes.
pub fn tally(outcomes: &Vec<IndexOutcome>) -> (r: ScanCounts)
    ensures
        tallies(r, outcomes@),
{
    let mut counts = ScanCounts { dir_seen: 0, file_seen: 0, imported: 0, failed: 0 };
    let mut i: usize = 0;
    assert(outcomes@.take(0) =~= Seq::empty());
    while i < outcomes.len()
        invariant
            i <= outcomes.len(),
            tallies(counts, outcomes@.take(i as int)),
        decreases outcomes.len() - i,
    {
        proof {
            assert(outcomes@.take(i + 1).drop_last() =~= outcomes@.take(i as int));
            assert(outcomes@.take(i + 1).last() == outcomes@[i as int]);
            lemma_tally_bounds(Seq::empty(), outcomes@.take(i as int));
        }
        if outcomes[i].dir {
            counts.dir_seen += 1;
        }
        if outcomes[i].file {
            counts.file_seen += 1;
        }
        if outcomes[i].imported {
            counts.imported += 1;
        }
        if outcomes[i].failed {
            counts.failed += 1;
        }
        i += 1;
    }
    assert(outcomes@.take(i as int) =~= outcomes@);
    counts
}

/// Whether the message backs the file.
pub open spec fn backs(row: FileView, chat_id: i64, msg: HistoryMessage) -> bool {
    row.tg_chat_id == chat_id && row.tg_msg_id == msg.id
}

/// A foreign attachment is not imported when its message backs a file that
/// was there and of which no message is the record.
pub open spec fn backed_not_imported(
    before: IndexView,
    chat_id: i64,
    msgs: Seq<HistoryMessage>,
    outs: Seq<IndexOutcome>,
) -> bool {
    forall|j: int, k: int|
        0 <= j < msgs.len() && j < outs.len() && 0 <= k < before.files.len() && kind_of(msgs[j])
            is Attachment && #[trigger] backs(before.files[k], chat_id, msgs[j]) && !file_recorded(
            msgs,
            before.files[k].id,
        ) ==> !outs[j].imported
}

/// What holds of the index after a run of messages was read, and of the
/// outcomes. There is one outcome for each message, and it fits the
/// message: every record is read as what it is, whatever became of the
/// other messages, and only a foreign attachment can be imported or fail.
/// An entry of which no message is the record is untouched, and an entry
/// that was there is what the records make of it (`records_settled`). A
/// run without foreign attachments leaves exactly the index that its
/// records give.
pub open spec fn scanned(
    before: IndexView,
    after: IndexView,
    chat_id: i64,
    msgs: Seq<HistoryMessage>,
    outs: Seq<IndexOutcome>,
) -> bool {
    &&& unrecorded_kept(before, after, msgs)
    &&& before.wf() ==> records_settled(before, after, chat_id, msgs)
    &&& outcomes_fit(msgs, outs)
    &&& backed_not_imported(before, chat_id, msgs, outs)
    &&& count_kind(msgs, MessageKind::Attachment) == 0 ==> after == records_applied(
        before,
        chat_id,
        msgs,
    )
}

proof fn lemma_take_step(msgs: Seq<HistoryMessage>, i: int, kind: MessageKind, v: IndexView, chat_id: i64)
    requires
        0 <= i < msgs.len(),
    ensures
        count_kind(msgs.take(i + 1), kind) == count_kind(msgs.take(i), kind) + if kind_of(msgs[i])
            == kind {
            1nat
        } else {
            0nat
        },
        records_applied(v, chat_id, msgs.take(i + 1)) == record_applied(
            records_applied(v, chat_id, msgs.take(i)),
            chat_id,
            msgs[i],
        ),
        count_kind(msgs.take(i), kind) <= i,
    decreases i,
{
    assert(msgs.take(i + 1).drop_last() =~= msgs.take(i));
    assert(msgs.take(i + 1).last() == msgs[i]);
    if i > 0 {
        lemma_take_step(msgs, i - 1, kind, v, chat_id);
    }
}

/// A directory record touches the row of its directory and no other row
/// that was there.
proof fn lemma_dir_record_frame(v: IndexView, msg: HistoryMessage, chat_id: i64)
    requires
        classify(msg) is Directory,
    ensures
        record_applied(v, chat_id, msg).files == v.files,
        v.dirs.len() <= record_applied(v, chat_id, msg).dirs.len(),
        forall|k: int|
            0 <= k < v.dirs.len() && !records_dir(msg, v.dirs[k].id) ==> #[trigger] record_applied(
                v,
                chat_id,
                msg,
            ).dirs[k] == v.dirs[k],
{
    let m = classify(msg)->Directory_0;
    let with_parent = match record_parent(m.parent_id) {
        Some(p) => v.ensure_placeholder(p, msg.date),
        None => v,
    };
    match record_parent(m.parent_id) {
        Some(p) => {
            lemma_placeholder(v, p, msg.date);
        },
        None => {},
    }
    let row = dir_row(m, msg.id, msg.date);
    lemma_index_of_found(with_parent.dir_ids(), row.id);
}

/// A file record touches the row of its file and no other row that was
/// there.
proof fn lemma_file_record_frame(v: IndexView, msg: HistoryMessage, chat_id: i64)
    requires
        classify(msg) is File,
    ensures
        v.dirs.len() <= record_applied(v, chat_id, msg).dirs.len(),
        forall|k: int|
            0 <= k < v.dirs.len() ==> #[trigger] record_applied(v, chat_id, msg).dirs[k]
                == v.dirs[k],
        v.files.len() <= record_applied(v, chat_id, msg).files.len(),
        forall|k: int|
            0 <= k < v.files.len() && !records_file(msg, v.files[k].id)
                ==> #[trigger] record_applied(v, chat_id, msg).files[k] == v.files[k],
{
    let m = classify(msg)->File_0;
    let with_dir = v.ensure_placeholder(m.dir_id, msg.date);
    lemma_placeholder(v, m.dir_id, msg.date);
    lemma_index_of_found(with_dir.file_ids(), m.file_id);
}

/// Reading one more message keeps what the messages so far left untouched,
/// but for the entry that the message is the record of.
proof fn lemma_read_step(
    before: IndexView,
    prev: IndexView,
    cur: IndexView,
    chat_id: i64,
    msgs: Seq<HistoryMessage>,
    i: int,
)
    requires
        0 <= i < msgs.len(),
        unrecorded_kept(before, prev, msgs.take(i)),
        prev.keeps(cur),
        read_one(prev, cur, chat_id, msgs[i]),
    ensures
        unrecorded_kept(before, cur, msgs.take(i + 1)),
{
    let msg = msgs[i];
    let part = msgs.take(i);
    let more = msgs.take(i + 1);
    lemma_keeps_trans(before, prev, cur);
    match classify(msg) {
        MessageClass::Directory(_) => {
            lemma_dir_record_frame(prev, msg, chat_id);
        },
        MessageClass::File(_) => {
            lemma_file_record_frame(prev, msg, chat_id);
        },
        _ => {},
    }
    assert forall|k: int|
        0 <= k < before.files.len() && !file_recorded(more, before.files[k].id) implies #[trigger] cur.files[k]
        == before.files[k] by {
        let id = before.files[k].id;
        assert(before.file_ids()[k] == prev.file_ids()[k]);
        assert(prev.files[k].id == id);
        if file_recorded(part, id) {
            let j = choose|j: int| 0 <= j < part.len() && #[trigger] records_file(part[j], id);
            assert(more[j] == part[j]);
            assert(records_file(more[j], id));
        }
        if records_file(msg, id) {
            assert(more[i] == msg);
            assert(records_file(more[i], id));
        }
        assert(prev.files[k] == before.files[k]);
        if classify(msg) is Attachment {
            if cur.files != prev.files {
                assert(cur.files.drop_last()[k] == cur.files[k]);
            }
        }
        assert(cur.files[k] == prev.files[k]);
    }
    assert forall|k: int|
        0 <= k < before.dirs.len() && !dir_recorded(more, before.dirs[k].id) implies #[trigger] cur.dirs[k]
        == before.dirs[k] by {
        let id = before.dirs[k].id;
        assert(before.dir_ids()[k] == prev.dir_ids()[k]);
        assert(prev.dirs[k].id == id);
        if dir_recorded(part, id) {
            let j = choose|j: int| 0 <= j < part.len() && #[trigger] records_dir(part[j], id);
            assert(more[j] == part[j]);
            assert(records_dir(more[j], id));
        }
        if records_dir(msg, id) {
            assert(more[i] == msg);
            assert(records_dir(more[i], id));
        }
        assert(prev.dirs[k] == before.dirs[k]);
        if classify(msg) is Attachment {
            assert(cur.dirs.take(prev.dirs.len() as int)[k] == cur.dirs[k]);
        }
        assert(cur.dirs[k] == prev.dirs[k]);
    }
}

proof fn lemma_counted<T>(s: Seq<T>, p: spec_fn(T) -> bool, k: int)
    requires
        0 <= k < s.len(),
        p(s[k]),
    ensures
        count_where(s, p) > 0,
    decreases s.len(),
{
    if k < s.len() - 1 {
        assert(s.drop_last()[k] == s[k]);
        lemma_counted(s.drop_last(), p, k);
    }
}

/// An attachment that is read next is not imported when its message backs
/// a file that was there and of which no message so far is the record.
proof fn lemma_backed_step(
    before: IndexView,
    prev: IndexView,
    chat_id: i64,
    msgs: Seq<HistoryMessage>,
    so_far: Seq<IndexOutcome>,
    outcome: IndexOutcome,
    i: int,
)
    requires
        0 <= i < msgs.len(),
        so_far.len() == i,
        unrecorded_kept(before, prev, msgs.take(i)),
        backed_not_imported(before, chat_id, msgs.take(i), so_far),
        kind_of(msgs[i]) is Attachment && prev.files_at(chat_id, msgs[i].id) > 0 ==> !outcome.imported,
    ensures
        backed_not_imported(before, chat_id, msgs.take(i + 1), so_far.push(outcome)),
{
    let part = msgs.take(i);
    let more = msgs.take(i + 1);
    let outs = so_far.push(outcome);
    assert forall|j: int, k: int|
        0 <= j < more.len() && j < outs.len() && 0 <= k < before.files.len() && kind_of(more[j])
            is Attachment && #[trigger] backs(before.files[k], chat_id, more[j]) && !file_recorded(
            more,
            before.files[k].id,
        ) implies !outs[j].imported by {
        let id = before.files[k].id;
        if file_recorded(part, id) {
            let x = choose|x: int| 0 <= x < part.len() && #[trigger] records_file(part[x], id);
            assert(more[x] == part[x]);
            assert(records_file(more[x], id));
        }
        if j < i {
            assert(more[j] == part[j]);
            assert(backs(before.files[k], chat_id, part[j]));
            assert(outs[j] == so_far[j]);
        } else {
            assert(more[j] == msgs[i]);
            assert(prev.files[k] == before.files[k]);
            lemma_counted(
                prev.files,
                |f: FileView| f.tg_chat_id == chat_id && f.tg_msg_id == msgs[i].id,
                k,
            );
        }
    }
}

/// Reads the messages into the index, one after the other, and gives what
/// each came to. A message that cannot be indexed has an outcome that says
/// so, and the read goes on. Only a foreign attachment asks anything of
/// the transport. `unassigned_cache` remembers, from one attachment to the
/// next, the directory for files without a folder.
pub fn scan_messages<T: TelegramService>(
    index: &mut Index,
    tg: &mut T,
    storage_chat_id: ChatId,
    messages: &Vec<HistoryMessage>,
    unassigned_cache: &mut Option<(String, String)>,
    now: i64,
) -> (outcomes: Vec<IndexOutcome>)
    ensures
        old(index)@.wf() ==> final(index)@.wf(),
        scanned(old(index)@, final(index)@, storage_chat_id, messages@, outcomes@),
        count_kind(messages@, MessageKind::Attachment) == 0 ==> *final(tg) == *old(tg),
{
    let ghost before = index@;
    proof {
        lemma_put_keeps(before, arbitrary(), arbitrary());
    }
    let mut outcomes: Vec<IndexOutcome> = Vec::new();
    let mut i: usize = 0;
    while i < messages.len()
        invariant
            i <= messages.len(),
            before == old(index)@,
            before.wf() ==> index@.wf(),
            scanned(before, index@, storage_chat_id, messages@.take(i as int), outcomes@),
            count_kind(messages@.take(i as int), MessageKind::Attachment) == 0 ==> *tg == *old(tg),
        decreases messages.len() - i,
    {
        let ghost prev = index@;
        let ghost msg = messages@[i as int];
        let ghost so_far = outcomes@;
        proof {
            lemma_take_step(messages@, i as int, MessageKind::Attachment, before, storage_chat_id);
        }
        let outcome = match index_storage_message(
            index,
            tg,
            storage_chat_id,
            &messages[i],
            unassigned_cache,
            now,
        ) {
            Ok(outcome) => outcome,
            Err(_) => IndexOutcome {
                dir: false,
                file: false,
                imported: false,
                skipped: false,
                failed: true,
            },
        };
        outcomes.push(outcome);
        proof {
            assert(fits(msg, outcome));
            assert forall|j: int| 0 <= j < i + 1 implies fits(
                messages@.take(i + 1)[j],
                #[trigger] outcomes@[j],
            ) by {
                if j < i {
                    assert(outcomes@[j] == so_far[j]);
                    assert(messages@.take(i as int)[j] == messages@.take(i + 1)[j]);
                }
            }
            assert(read_one(prev, index@, storage_chat_id, msg));
            lemma_backed_step(
                before,
                prev,
                storage_chat_id,
                messages@,
                so_far,
                outcome,
                i as int,
            );
            assert(outcomes@ =~= so_far.push(outcome));
            lemma_read_step(before, prev, index@, storage_chat_id, messages@, i as int);
            assert(messages@.take(i + 1) =~= messages@.take(i as int).push(msg));
            if before.wf() {
                lemma_settle_one(
                    before,
                    prev,
                    index@,
                    storage_chat_id,
                    messages@.take(i as int),
                    msg,
                );
            }
        }
        i += 1;
    }
    assert(messages@.take(i as int) =~= messages@);
    outcomes
}

} // verus!
