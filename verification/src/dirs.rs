//! Directory mutator: create, rename, move, delete and repair of directory
//! entries, each with the message that represents the directory.

use crate::error::{CoreError, DirOp};
use crate::fsmeta::{
    dir_message, make_dir_message, parse_dir_message, parse_dir_text, DirMeta, DirMetaView,
};
use crate::ids::{is_ulid_text, new_id};
use crate::index::Index;
use crate::marking::id_set;
use crate::model::{
    clone_opt_string, lemma_index_of_found, lemma_put_dir_known, lemma_put_dir_new, normal_parent,
    opt_text, DirView, DirectoryEntry, IndexView, DIR_ID_TAKEN, ROOT_ID,
};
use crate::telegram::{
    tg_error_text, ChatId, HistoryMessage, MessageId, SearchMessagesResult, TelegramService,
    TgError, UploadedMessage,
};
use crate::text::{
    append_str, chars_eq, chars_of, is_blank, str_eq, string_of, trim, trim_chars,
};
use crate::tree::{check_move_dir, move_dir_fault, normalize_parent_id};
use vstd::prelude::*;

verus! {

/// Refuses an operation on the root, which is no entry of the index.
pub fn guard_root(dir_id: &str, op: DirOp) -> (r: Result<(), CoreError>)
    ensures
        r == if dir_id@ == ROOT_ID@ {
            Err::<(), CoreError>(CoreError::RootDirectory(op))
        } else {
            Ok::<(), CoreError>(())
        },
{
    if str_eq(dir_id, ROOT_ID) {
        Err(CoreError::RootDirectory(op))
    } else {
        Ok(())
    }
}

/// The record of a directory with the given parent and name.
pub open spec fn record_of(
    dir_id: Seq<char>,
    parent: Option<Seq<char>>,
    name: Seq<char>,
) -> DirMetaView {
    DirMetaView {
        dir_id,
        parent_id: match parent {
            Some(p) => p,
            None => ROOT_ID@,
        },
        name,
    }
}

/// The message body for a directory with the given parent and name; a
/// directory at the top names `ROOT` as its parent.
pub fn dir_body(dir_id: &str, parent: &Option<String>, name: &str) -> (r: String)
    ensures
        r@ == dir_message(record_of(dir_id@, opt_text(*parent), name@)),
{
    let parent_tag = match parent {
        Some(p) => p.clone(),
        None => String::from_str(ROOT_ID),
    };
    make_dir_message(
        &DirMeta {
            dir_id: String::from_str(dir_id),
            parent_id: parent_tag,
            name: String::from_str(name),
        },
    )
}

/// What a publication came to: the message that was published, or the
/// failure of the transport in its own words.
pub fn published_message(sent: Result<UploadedMessage, TgError>) -> (r: Result<
    MessageId,
    CoreError,
>)
    ensures
        match sent {
            Ok(uploaded) => r == Ok::<MessageId, CoreError>(uploaded.message_id),
            Err(e) => r matches Err(CoreError::Transport(text)) && text@ == tg_error_text(e),
        },
{
    match sent {
        Ok(uploaded) => Ok(uploaded.message_id),
        Err(e) => Err(CoreError::Transport(e.message())),
    }
}

/// What is left to do once a directory had to be published anew: the
/// message that now represents it, and the stale message to delete.
pub struct Republished {
    pub message: Result<MessageId, CoreError>,
    pub stale: Option<MessageId>,
}

/// What a publication in place of the message `current` came to. Where it
/// succeeded the new message represents the directory and `current`, if
/// there was one, is stale; where it failed nothing is stale and the
/// failure is that of the transport.
pub fn settle_republication(current: Option<MessageId>, sent: Result<UploadedMessage, TgError>) -> (r:
    Republished)
    ensures
        match sent {
            Ok(uploaded) => r.message == Ok::<MessageId, CoreError>(uploaded.message_id)
                && r.stale == current,
            Err(e) => (r.message matches Err(CoreError::Transport(text)) && text@
                == tg_error_text(e)) && r.stale is None,
        },
{
    let message = published_message(sent);
    let stale = if message.is_ok() {
        current
    } else {
        None
    };
    Republished { message, stale }
}

/// A step on the way to a message that says what a directory is.
#[derive(Debug, Clone, Copy, PartialEq, Eq)]
pub enum DirMessageStep {
    /// The message of the directory is to be edited.
    Edit(MessageId),
    /// A new message is to be published.
    Publish,
    /// The message says what the directory is; nothing is published.
    Done(MessageId),
}

/// The step that brings the message of a directory up to date, given the
/// message that it has and what the edit of that message came to, if it
/// was tried. A directory without a message is published. A directory
/// with a message has that message edited first; an edit that succeeded
/// ends the matter on the old message, and one that failed is followed by
/// a publication.
pub fn dir_message_step(current: Option<MessageId>, edited: Option<Result<(), TgError>>) -> (r:
    DirMessageStep)
    ensures
        r == match current {
            None => DirMessageStep::Publish,
            Some(msg_id) => match edited {
                None => DirMessageStep::Edit(msg_id),
                Some(Ok(())) => DirMessageStep::Done(msg_id),
                Some(Err(_)) => DirMessageStep::Publish,
            },
        },
{
    match current {
        None => DirMessageStep::Publish,
        Some(msg_id) => match edited {
            None => DirMessageStep::Edit(msg_id),
            Some(Ok(())) => DirMessageStep::Done(msg_id),
            Some(Err(_)) => DirMessageStep::Publish,
        },
    }
}

/// Makes sure that a message says what the directory is: the message of the
/// directory is edited; if that fails, or there is none, a new one is
/// published, and the stale one deleted as far as the transport allows.
/// Returns the message that now represents the directory.
///
/// Which step follows which answer is stated by `dir_message_step`, and
/// what a publication comes to by `settle_republication`.
fn ensure_dir_message<T: TelegramService>(
    tg: &mut T,
    chat_id: ChatId,
    dir: &DirectoryEntry,
    parent: &Option<String>,
    name: &str,
) -> (r: Result<MessageId, CoreError>)
    ensures
        r matches Err(e) ==> e is Transport,
{
    let body = dir_body(dir.id.as_str(), parent, name);
    let step = match dir_message_step(dir.tg_msg_id, None) {
        DirMessageStep::Edit(msg_id) => dir_message_step(
            dir.tg_msg_id,
            Some(tg.edit_message_text(chat_id, msg_id, body.clone())),
        ),
        step => step,
    };
    match step {
        DirMessageStep::Done(msg_id) => Ok(msg_id),
        _ => {
            let settled = settle_republication(dir.tg_msg_id, tg.send_dir_message(chat_id, body));
            match settled.stale {
                Some(stale) => {
                    let _ = tg.delete_messages(chat_id, vec![stale], true);
                },
                None => {},
            }
            settled.message
        },
    }
}

/// The row of a directory just created, before and after its message was
/// published.
pub open spec fn created_dir(
    id: Seq<char>,
    parent: Option<Seq<char>>,
    name: Seq<char>,
    msg_id: Option<i64>,
    now: i64,
) -> DirView {
    DirView {
        id,
        parent_id: normal_parent(parent),
        name,
        tg_msg_id: msg_id,
        updated_at: now,
        is_broken: false,
    }
}

/// Gives a directory that was added without a message the message that
/// was published for it; a failed publication leaves the row as it is.
pub fn settle_created(index: &mut Index, id: &str, sent: Result<UploadedMessage, TgError>) -> (r:
    Result<(), CoreError>)
    ensures
        old(index)@.wf() ==> final(index)@.wf(),
        match sent {
            Ok(uploaded) => if old(index)@.has_dir(id@) {
                r is Ok && final(index)@ == old(index)@.put_dir(
                    DirView { tg_msg_id: Some(uploaded.message_id), ..old(index)@.dir(id@) },
                )
            } else {
                r == Err::<(), CoreError>(CoreError::DirNotFound) && final(index)@ == old(index)@
            },
            Err(e) => final(index)@ == old(index)@ && (r matches Err(CoreError::Transport(text))
                && text@ == tg_error_text(e)),
        },
{
    let message = match published_message(sent) {
        Ok(m) => m,
        Err(e) => {
            return Err(e);
        },
    };
    let mut row = match index.get_dir(id) {
        Some(d) => d,
        None => {
            return Err(CoreError::DirNotFound);
        },
    };
    row.tg_msg_id = Some(message);
    proof {
        lemma_index_of_found(index@.dir_ids(), id@);
        lemma_put_dir_known(index@, row@);
    }
    index.put_dir(row);
    Ok(())
}

/// Creates a directory under the id `id`: its row is added without a
/// message, the message is published, and the row is given the message.
///
/// An id that is taken is refused by the store before anything is
/// published. When publishing fails the row stays, without a message;
/// renaming the directory publishes it again.
pub fn create_dir_with_id<T: TelegramService>(
    index: &mut Index,
    tg: &mut T,
    chat_id: ChatId,
    id: String,
    parent_id: Option<String>,
    name: String,
    now: i64,
) -> (r: Result<String, CoreError>)
    ensures
        old(index)@.wf() ==> final(index)@.wf(),
        final(index)@.files == old(index)@.files,
        if old(index)@.has_dir(id@) {
            &&& r matches Err(CoreError::Store(text)) && text@ == DIR_ID_TAKEN@
            &&& final(index)@ == old(index)@
            &&& *final(tg) == *old(tg)
        } else {
            match r {
                Ok(made) => {
                    &&& made@ == id@
                    &&& final(index)@.dir(id@).tg_msg_id is Some
                    &&& final(index)@.dirs == old(index)@.dirs.push(
                        created_dir(
                            id@,
                            opt_text(parent_id),
                            name@,
                            Some(final(index)@.dir(id@).tg_msg_id->0),
                            now,
                        ),
                    )
                },
                Err(e) => e is Transport && final(index)@.dirs == old(index)@.dirs.push(
                    created_dir(id@, opt_text(parent_id), name@, None, now),
                ),
            }
        },
{
    let ghost before = index@;
    let parent = normalize_parent_id(parent_id);
    let row = DirectoryEntry {
        id: id.clone(),
        parent_id: clone_opt_string(&parent),
        name: name.clone(),
        tg_msg_id: None,
        updated_at: now,
        is_broken: false,
    };
    let ghost pending = row@;
    match index.insert_dir(row) {
        Ok(()) => {},
        Err(e) => {
            return Err(e);
        },
    }
    proof {
        lemma_put_dir_new(before, pending);
        lemma_index_of_found(index@.dir_ids(), id@);
    }
    let body = dir_body(id.as_str(), &parent, name.as_str());
    let sent = tg.send_dir_message(chat_id, body);
    proof {
        let message = if sent is Ok {
            Some(sent->Ok_0.message_id)
        } else {
            None
        };
        let published = DirView { tg_msg_id: message, ..pending };
        lemma_put_dir_known(index@, published);
        assert(before.dirs.push(pending).update(before.dirs.len() as int, published)
            =~= before.dirs.push(published));
    }
    match settle_created(index, id.as_str(), sent) {
        Ok(()) => Ok(id),
        Err(e) => Err(e),
    }
}

/// Creates a directory under a fresh id and returns the id.
///
/// The store refuses an id that is taken, and nothing is published then.
/// When publishing fails the row stays, without a message; renaming the
/// directory publishes it again.
pub fn create_dir<T: TelegramService>(
    index: &mut Index,
    tg: &mut T,
    chat_id: ChatId,
    parent_id: Option<String>,
    name: String,
    now: i64,
) -> (r: Result<String, CoreError>)
    ensures
        old(index)@.wf() ==> final(index)@.wf(),
        final(index)@.files == old(index)@.files,
        match r {
            Ok(id) => {
                &&& is_ulid_text(id@)
                &&& !old(index)@.has_dir(id@)
                &&& final(index)@.dir(id@).tg_msg_id is Some
                &&& final(index)@.dirs == old(index)@.dirs.push(
                    created_dir(
                        id@,
                        opt_text(parent_id),
                        name@,
                        Some(final(index)@.dir(id@).tg_msg_id->0),
                        now,
                    ),
                )
            },
            Err(CoreError::Store(text)) => {
                &&& text@ == DIR_ID_TAKEN@
                &&& final(index)@ == old(index)@
                &&& *final(tg) == *old(tg)
            },
            Err(e) => {
                let row = final(index)@.dirs.last();
                &&& e is Transport
                &&& final(index)@.dirs.len() == old(index)@.dirs.len() + 1
                &&& final(index)@.dirs.drop_last() == old(index)@.dirs
                &&& row == created_dir(row.id, opt_text(parent_id), name@, None, now)
                &&& !old(index)@.has_dir(row.id)
            },
        },
{
    let ghost before = index@;
    let id = new_id();
    let r = create_dir_with_id(index, tg, chat_id, id, parent_id, name, now);
    proof {
        if r is Err && !(r->Err_0 is Store) {
            assert(index@.dirs.drop_last() =~= before.dirs);
        }
    }
    r
}

/// Writes down what bringing the message of a directory up to date came
/// to. `row` is the directory as it is to be; with a message at hand the
/// row is put, backed by that message, dated `now` and with its flag
/// cleared. Without one nothing changes and the failure is passed on.
pub fn settle_dir_message(
    index: &mut Index,
    row: DirectoryEntry,
    message: Result<MessageId, CoreError>,
    now: i64,
) -> (r: Result<(), CoreError>)
    ensures
        old(index)@.wf() ==> final(index)@.wf(),
        match message {
            Ok(msg_id) => r is Ok && final(index)@ == old(index)@.put_dir(
                DirView { tg_msg_id: Some(msg_id), updated_at: now, is_broken: false, ..row@ },
            ),
            Err(e) => r == Err::<(), CoreError>(e) && final(index)@ == old(index)@,
        },
{
    let msg_id = match message {
        Ok(m) => m,
        Err(e) => {
            return Err(e);
        },
    };
    let mut row = row;
    row.tg_msg_id = Some(msg_id);
    row.updated_at = now;
    row.is_broken = false;
    index.put_dir(row);
    Ok(())
}

/// Renames a directory. The root is refused. The name is trimmed; an empty
/// name is refused.
/// Nothing is done when the name is unchanged and the directory has a
/// message.
pub fn rename_dir<T: TelegramService>(
    index: &mut Index,
    tg: &mut T,
    chat_id: ChatId,
    dir_id: &str,
    name: String,
    now: i64,
) -> (r: Result<(), CoreError>)
    ensures
        old(index)@.wf() ==> final(index)@.wf(),
        if dir_id@ == ROOT_ID@ {
            r == Err::<(), CoreError>(CoreError::RootDirectory(DirOp::Rename)) && final(index)@
                == old(index)@ && *final(tg) == *old(tg)
        } else if is_blank(name@) {
            r == Err::<(), CoreError>(CoreError::EmptyDirName) && final(index)@ == old(index)@
                && *final(tg) == *old(tg)
        } else if !old(index)@.has_dir(dir_id@) {
            r == Err::<(), CoreError>(CoreError::DirNotFound) && final(index)@ == old(index)@
                && *final(tg) == *old(tg)
        } else if old(index)@.dir(dir_id@).name == trim(name@) && old(index)@.dir(
            dir_id@,
        ).tg_msg_id is Some {
            r is Ok && final(index)@ == old(index)@ && *final(tg) == *old(tg)
        } else {
            match r {
                Ok(()) => final(index)@ == old(index)@.put_dir(
                    DirView {
                        name: trim(name@),
                        tg_msg_id: Some(final(index)@.dir(dir_id@).tg_msg_id->0),
                        updated_at: now,
                        is_broken: false,
                        ..old(index)@.dir(dir_id@)
                    },
                ) && final(index)@.dir(dir_id@).tg_msg_id is Some,
                Err(e) => e is Transport && final(index)@ == old(index)@,
            }
        },
{
    match guard_root(dir_id, DirOp::Rename) {
        Ok(()) => {},
        Err(e) => {
            return Err(e);
        },
    }
    let trimmed = trim_chars(&chars_of(name.as_str()));
    if trimmed.len() == 0 {
        return Err(CoreError::EmptyDirName);
    }
    let dir = match index.get_dir(dir_id) {
        Some(d) => d,
        None => {
            return Err(CoreError::DirNotFound);
        },
    };
    if chars_eq(&chars_of(dir.name.as_str()), &trimmed) && dir.tg_msg_id.is_some() {
        return Ok(());
    }
    let new_name = string_of(&trimmed);
    let parent = normalize_parent_id(clone_opt_string(&dir.parent_id));
    let message = ensure_dir_message(tg, chat_id, &dir, &parent, new_name.as_str());
    let mut row = dir;
    row.name = new_name;
    proof {
        lemma_index_of_found(index@.dir_ids(), dir_id@);
        if message is Ok {
            lemma_put_dir_known(
                index@,
                DirView {
                    tg_msg_id: Some(message->Ok_0),
                    updated_at: now,
                    is_broken: false,
                    ..row@
                },
            );
        }
    }
    settle_dir_message(index, row, message, now)
}

/// Moves a directory under another parent, or to the top. The root is
/// refused. A move under the
/// directory itself or under one of its descendants is refused, and so is a
/// parent that does not exist. Nothing is done when the parent is unchanged
/// and the directory has a message.
pub fn move_dir<T: TelegramService>(
    index: &mut Index,
    tg: &mut T,
    chat_id: ChatId,
    dir_id: &str,
    parent_id: Option<String>,
    now: i64,
) -> (r: Result<(), CoreError>)
    ensures
        old(index)@.wf() ==> final(index)@.wf(),
        match move_dir_fault(old(index)@, dir_id@, opt_text(parent_id)) {
            Some(e) => r == Err::<(), CoreError>(e) && final(index)@ == old(index)@ && *final(tg)
                == *old(tg),
            None => if normal_parent(old(index)@.dir(dir_id@).parent_id) == normal_parent(
                opt_text(parent_id),
            ) && old(index)@.dir(dir_id@).tg_msg_id is Some {
                r is Ok && final(index)@ == old(index)@ && *final(tg) == *old(tg)
            } else {
                match r {
                    Ok(()) => final(index)@ == old(index)@.put_dir(
                        DirView {
                            parent_id: normal_parent(opt_text(parent_id)),
                            tg_msg_id: Some(final(index)@.dir(dir_id@).tg_msg_id->0),
                            updated_at: now,
                            is_broken: false,
                            ..old(index)@.dir(dir_id@)
                        },
                    ) && final(index)@.dir(dir_id@).tg_msg_id is Some,
                    Err(e) => e is Transport && final(index)@ == old(index)@,
                }
            },
        },
{
    match check_move_dir(index, dir_id, &parent_id) {
        Ok(()) => {},
        Err(e) => {
            return Err(e);
        },
    }
    let dir = match index.get_dir(dir_id) {
        Some(d) => d,
        None => {
            return Err(CoreError::DirNotFound);
        },
    };
    let parent = normalize_parent_id(parent_id);
    let current = normalize_parent_id(clone_opt_string(&dir.parent_id));
    let same_parent = match (&current, &parent) {
        (Some(a), Some(b)) => str_eq(a.as_str(), b.as_str()),
        (None, None) => true,
        _ => false,
    };
    if same_parent && dir.tg_msg_id.is_some() {
        return Ok(());
    }
    let message = ensure_dir_message(tg, chat_id, &dir, &parent, dir.name.as_str());
    let mut row = dir;
    row.parent_id = parent;
    proof {
        lemma_index_of_found(index@.dir_ids(), dir_id@);
        if message is Ok {
            lemma_put_dir_known(
                index@,
                DirView {
                    tg_msg_id: Some(message->Ok_0),
                    updated_at: now,
                    is_broken: false,
                    ..row@
                },
            );
        }
    }
    settle_dir_message(index, row, message, now)
}

/// Publishes the message of a directory again, as it is in the index, and
/// clears its flag. The root is refused.
pub fn repair_dir<T: TelegramService>(
    index: &mut Index,
    tg: &mut T,
    chat_id: ChatId,
    dir_id: &str,
    now: i64,
) -> (r: Result<(), CoreError>)
    ensures
        old(index)@.wf() ==> final(index)@.wf(),
        if dir_id@ == ROOT_ID@ {
            r == Err::<(), CoreError>(CoreError::RootDirectory(DirOp::Repair)) && final(index)@
                == old(index)@ && *final(tg) == *old(tg)
        } else if !old(index)@.has_dir(dir_id@) {
            r == Err::<(), CoreError>(CoreError::DirNotFound) && final(index)@ == old(index)@
                && *final(tg) == *old(tg)
        } else {
            match r {
                Ok(()) => final(index)@ == old(index)@.put_dir(
                    DirView {
                        tg_msg_id: Some(final(index)@.dir(dir_id@).tg_msg_id->0),
                        updated_at: now,
                        is_broken: false,
                        ..old(index)@.dir(dir_id@)
                    },
                ) && final(index)@.dir(dir_id@).tg_msg_id is Some,
                Err(e) => e is Transport && final(index)@ == old(index)@,
            }
        },
{
    match guard_root(dir_id, DirOp::Repair) {
        Ok(()) => {},
        Err(e) => {
            return Err(e);
        },
    }
    let dir = match index.get_dir(dir_id) {
        Some(d) => d,
        None => {
            return Err(CoreError::DirNotFound);
        },
    };
    let parent = normalize_parent_id(clone_opt_string(&dir.parent_id));
    let message = ensure_dir_message(tg, chat_id, &dir, &parent, dir.name.as_str());
    proof {
        lemma_index_of_found(index@.dir_ids(), dir_id@);
        if message is Ok {
            lemma_put_dir_known(
                index@,
                DirView {
                    tg_msg_id: Some(message->Ok_0),
                    updated_at: now,
                    is_broken: false,
                    ..dir@
                },
            );
        }
    }
    settle_dir_message(index, dir, message, now)
}

// ---------------------------------------------------------------------------
// Delete
// ---------------------------------------------------------------------------
/// Whether the text of a message is the record of directory `dir_id`.
pub open spec fn names_dir(msg: HistoryMessage, dir_id: Seq<char>) -> bool {
    match msg.text {
        Some(t) => match parse_dir_text(t@) {
            Ok(m) => m.dir_id == dir_id,
            Err(_) => false,
        },
        None => false,
    }
}

/// The ids of the messages that are records of the directory, in order.
pub open spec fn dir_message_ids(msgs: Seq<HistoryMessage>, dir_id: Seq<char>) -> Seq<i64>
    decreases msgs.len(),
{
    if msgs.len() == 0 {
        Seq::empty()
    } else if names_dir(msgs.last(), dir_id) {
        dir_message_ids(msgs.drop_last(), dir_id).push(msgs.last().id)
    } else {
        dir_message_ids(msgs.drop_last(), dir_id)
    }
}

/// Appends the ids of the messages of a page that are records of the
/// directory.
pub fn collect_dir_messages(messages: &Vec<HistoryMessage>, dir_id: &str, out: &mut Vec<MessageId>)
    ensures
        final(out)@ == old(out)@ + dir_message_ids(messages@, dir_id@),
{
    let mut i: usize = 0;
    assert(messages@.take(0) =~= Seq::empty());
    assert(out@ + Seq::<i64>::empty() =~= out@);
    while i < messages.len()
        invariant
            i <= messages.len(),
            out@ == old(out)@ + dir_message_ids(messages@.take(i as int), dir_id@),
        decreases messages.len() - i,
    {
        proof {
            let part = messages@.take(i + 1);
            assert(part.drop_last() =~= messages@.take(i as int));
            assert(part.last() == messages@[i as int]);
        }
        let hit = match &messages[i].text {
            Some(text) => match parse_dir_message(text.as_str()) {
                Ok(meta) => str_eq(meta.dir_id.as_str(), dir_id),
                Err(_) => false,
            },
            None => false,
        };
        if hit {
            out.push(messages[i].id);
            assert(out@ =~= old(out)@ + dir_message_ids(messages@.take(i as int), dir_id@).push(
                messages@[i as int].id,
            ));
        }
        i += 1;
    }
    assert(messages@.take(i as int) =~= messages@);
}

/// The query that finds the messages of a directory.
fn dir_query(dir_id: &str) -> (r: String)
    ensures
        r@ == "d="@ + dir_id@,
{
    let mut q = chars_of("d=");
    append_str(&mut q, dir_id);
    string_of(&q)
}

/// Takes from the answer to a search the messages that are records of the
/// directory, and gives the place to search on from, if the search goes
/// on. A search that failed gives nothing and ends; so does a page that
/// names no next one.
pub fn dir_search_step(
    answer: &Result<SearchMessagesResult, TgError>,
    dir_id: &str,
    out: &mut Vec<MessageId>,
) -> (next: Option<MessageId>)
    ensures
        match answer {
            Ok(page) => final(out)@ == old(out)@ + dir_message_ids(page.messages@, dir_id@) && next
                == if page.next_from_message_id == 0 {
                None
            } else {
                Some(page.next_from_message_id)
            },
            Err(_) => final(out)@ == old(out)@ && next is None,
        },
{
    match answer {
        Ok(page) => {
            collect_dir_messages(&page.messages, dir_id, out);
            if page.next_from_message_id == 0 {
                None
            } else {
                Some(page.next_from_message_id)
            }
        },
        Err(_) => None,
    }
}

/// Searches the chat, at most eight pages deep, for the messages that are
/// records of the directory. What each answer adds, and whether the search
/// goes on, is stated by `dir_search_step`.
fn find_dir_messages<T: TelegramService>(tg: &mut T, chat_id: ChatId, dir_id: &str) -> Vec<
    MessageId,
> {
    let query = dir_query(dir_id);
    let mut out: Vec<MessageId> = Vec::new();
    let mut from_message_id: MessageId = 0;
    let mut page: u32 = 0;
    while page < 8
        invariant
            page <= 8,
        decreases 8 - page,
    {
        let answer = tg.search_chat_messages(chat_id, query.clone(), from_message_id, 100);
        match dir_search_step(&answer, dir_id, &mut out) {
            Some(next) => {
                from_message_id = next;
            },
            None => {
                return out;
            },
        }
        page += 1;
    }
    out
}

/// Each element is less than the next.
pub open spec fn strictly_increasing(s: Seq<i64>) -> bool {
    forall|i: int, j: int| 0 <= i < j < s.len() ==> s[i] < s[j]
}

/// Puts `m` into its place in a sorted vector that holds nothing twice.
fn insert_id(sorted: &mut Vec<MessageId>, m: MessageId)
    requires
        strictly_increasing(old(sorted)@),
    ensures
        strictly_increasing(final(sorted)@),
        id_set(final(sorted)@) == id_set(old(sorted)@).insert(m),
{
    let mut i: usize = 0;
    while i < sorted.len() && sorted[i] < m
        invariant
            i <= sorted.len(),
            sorted@ == old(sorted)@,
            forall|k: int| 0 <= k < i ==> sorted@[k] < m,
        decreases sorted.len() - i,
    {
        i += 1;
    }
    if i < sorted.len() && sorted[i] == m {
        assert(sorted@.contains(m));
        assert(id_set(sorted@) =~= id_set(sorted@).insert(m));
        return ;
    }
    let ghost before = sorted@;
    sorted.insert(i, m);
    proof {
        let after = sorted@;
        assert(after == before.insert(i as int, m));
        assert forall|a: int, b: int| 0 <= a < b < after.len() implies after[a] < after[b] by {
            if a < i && b > i {
                assert(after[a] == before[a] && after[b] == before[b - 1]);
            } else if a > i {
                assert(after[a] == before[a - 1] && after[b] == before[b - 1]);
            } else if b < i {
                assert(after[a] == before[a] && after[b] == before[b]);
            }
        }
        assert forall|x: i64| id_set(after).contains(x) == id_set(before).insert(m).contains(
            x,
        ) by {
            if after.contains(x) {
                let k = choose|k: int| 0 <= k < after.len() && after[k] == x;
                if k < i {
                    assert(before[k] == x);
                } else if k > i {
                    assert(before[k - 1] == x);
                }
            }
            if before.contains(x) {
                let k = choose|k: int| 0 <= k < before.len() && before[k] == x;
                if k < i {
                    assert(after[k] == x);
                } else {
                    assert(after[k + 1] == x);
                }
            }
            if x == m {
                assert(after[i as int] == m);
            }
        }
        assert(id_set(after) =~= id_set(before).insert(m));
    }
}

/// The messages to delete with a directory: its own and those found by
/// search, in increasing order, each once.
pub fn messages_to_delete(own: Option<MessageId>, found: &Vec<MessageId>) -> (r: Vec<MessageId>)
    ensures
        strictly_increasing(r@),
        id_set(r@) == match own {
            Some(m) => id_set(found@).insert(m),
            None => id_set(found@),
        },
{
    let mut out: Vec<MessageId> = Vec::new();
    let mut i: usize = 0;
    assert(id_set(out@) =~= id_set(found@.take(0)));
    while i < found.len()
        invariant
            i <= found.len(),
            strictly_increasing(out@),
            id_set(out@) == id_set(found@.take(i as int)),
        decreases found.len() - i,
    {
        insert_id(&mut out, found[i]);
        proof {
            let part = found@.take(i + 1);
            assert forall|x: i64| id_set(part).contains(x) == id_set(found@.take(i as int)).insert(
                found@[i as int],
            ).contains(x) by {
                if part.contains(x) {
                    let k = choose|k: int| 0 <= k < part.len() && part[k] == x;
                    if k < i {
                        assert(found@.take(i as int)[k] == x);
                    }
                }
                if found@.take(i as int).contains(x) {
                    let k = choose|k: int|
                        0 <= k < found@.take(i as int).len() && found@.take(i as int)[k] == x;
                    assert(part[k] == x);
                }
                if x == found@[i as int] {
                    assert(part[i as int] == x);
                }
            }
            assert(id_set(part) =~= id_set(found@.take(i as int)).insert(found@[i as int]));
        }
        i += 1;
    }
    assert(found@.take(i as int) =~= found@);
    match own {
        Some(m) => {
            insert_id(&mut out, m);
        },
        None => {},
    }
    out
}

/// Why a directory cannot be deleted, if it cannot. The root is no
/// directory to delete.
pub open spec fn delete_dir_fault(v: IndexView, dir_id: Seq<char>) -> Option<CoreError> {
    if dir_id == ROOT_ID@ {
        Some(CoreError::RootDirectory(DirOp::Delete))
    } else if !v.has_dir(dir_id) {
        Some(CoreError::DirNotFound)
    } else if v.child_dir_count(dir_id) > 0 || v.file_count(dir_id) > 0 {
        Some(
            CoreError::DirNotEmpty {
                files: v.file_count(dir_id) as usize,
                dirs: v.child_dir_count(dir_id) as usize,
            },
        )
    } else {
        None
    }
}

/// Deletes an empty directory. The root is refused. A directory with files
/// or subdirectories is
/// refused, with their numbers. The messages of the directory are deleted as
/// far as the transport allows; the row is removed in any case.
pub fn delete_dir<T: TelegramService>(
    index: &mut Index,
    tg: &mut T,
    chat_id: ChatId,
    dir_id: &str,
) -> (r: Result<(), CoreError>)
    ensures
        old(index)@.wf() ==> final(index)@.wf(),
        match delete_dir_fault(old(index)@, dir_id@) {
            Some(e) => r == Err::<(), CoreError>(e) && final(index)@ == old(index)@ && *final(tg)
                == *old(tg),
            None => r is Ok && final(index)@ == old(index)@.remove_dir(dir_id@),
        },
{
    match guard_root(dir_id, DirOp::Delete) {
        Ok(()) => {},
        Err(e) => {
            return Err(e);
        },
    }
    let dir = match index.get_dir(dir_id) {
        Some(d) => d,
        None => {
            return Err(CoreError::DirNotFound);
        },
    };
    let child_count = index.child_dir_count(dir_id);
    let file_count = index.file_count(dir_id);
    if child_count > 0 || file_count > 0 {
        return Err(CoreError::DirNotEmpty { files: file_count, dirs: child_count });
    }
    let found = find_dir_messages(tg, chat_id, dir_id);
    let message_ids = messages_to_delete(dir.tg_msg_id, &found);
    if message_ids.len() > 0 {
        let _ = tg.delete_messages(chat_id, message_ids, true);
    }
    index.remove_dir(dir_id);
    Ok(())
}

} // verus!
