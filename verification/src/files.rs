//! File mutator: upload, move, delete and repair of file entries, each as a
//! sequence of transport calls with fallbacks.

use crate::cache::{
    cache_name, find_local_download, preferred_target_path, resolve_target_path, resolved,
    target_name, CacheEntry,
};
use crate::digest::{fingerprint, hash_short_of_bytes};
use crate::error::{
    chain_failure, failure_text, law_failure_text_names_every_reason, texts, CoreError,
};
use crate::fsmeta::{parse_file_caption, parse_file_text, FileMeta, FileMetaView};
use crate::ids::{is_ulid_text, new_id};
use crate::index::Index;
use crate::model::{
    first_index, lemma_first_index, lemma_move_after_relocate, lemma_put_file_known,
    lemma_put_file_new, FileEntry, FileView, IndexView,
};
use crate::tags::{hashtag_of, make_file_caption_with_tag, tagged_caption};
use crate::telegram::{
    tg_error_text, ChatId, HistoryMessage, MessageId, SearchMessagesResult, TelegramService,
    TgError, UploadedMessage,
};
use crate::text::{
    append_i64, append_str, chars_of, contains_text, int_text, starts_with, str_eq, string_of,
};
use vstd::prelude::*;

verus! {

/// What a repair came to.
#[derive(Debug, Clone, Copy, PartialEq, Eq)]
pub enum RepairFileResult {
    /// The entry is backed by a message again.
    Repaired,
    /// Nothing could be repaired in place and no local copy is at hand.
    NeedFile,
}

/// A file of the index as a listing shows it, with what the cache holds.
#[derive(Debug)]
pub struct FileItem {
    pub id: String,
    pub dir_id: String,
    pub name: String,
    pub size: i64,
    pub local_size: Option<i64>,
    pub is_downloaded: bool,
    pub hash: String,
    pub tg_chat_id: i64,
    pub tg_msg_id: i64,
    pub created_at: i64,
    pub is_broken: bool,
}

/// A local file offered for upload, as the caller found it on disk.
pub struct LocalFile {
    pub path: String,
    /// Whether the path names a regular file.
    pub is_file: bool,
    /// The last component of the path, where it is valid text.
    pub file_name: Option<String>,
    /// The length that the file system reports, 0 when it reports none.
    pub size: i64,
    pub content: Vec<u8>,
}

/// A local copy offered to repair an entry from.
pub struct LocalSource {
    pub path: String,
    pub is_file: bool,
}

/// The link to a message of a channel.
pub open spec fn message_link_text(internal: int, message_id: int) -> Seq<char> {
    "https://t.me/c/"@ + int_text(internal) + "/"@ + int_text(message_id)
}

/// The number by which links name the channel `chat_id`.
pub open spec fn channel_number(chat_id: int) -> int {
    -chat_id - 1_000_000_000_000
}

/// The public link to a message. Only channels have links: their chat ids
/// lie below `-1_000_000_000_000`.
pub fn build_message_link(chat_id: i64, message_id: i64) -> (r: Result<String, CoreError>)
    ensures
        chat_id >= 0 ==> r == Err::<String, CoreError>(CoreError::NotAChannel),
        chat_id < 0 && channel_number(chat_id as int) <= 0 ==> r == Err::<String, CoreError>(
            CoreError::LinkUnavailable,
        ),
        chat_id < 0 && channel_number(chat_id as int) > 0 ==> r is Ok && r->Ok_0@
            == message_link_text(channel_number(chat_id as int), message_id as int),
{
    if chat_id >= 0 {
        return Err(CoreError::NotAChannel);
    }
    if chat_id >= -1_000_000_000_000 {
        return Err(CoreError::LinkUnavailable);
    }
    let internal: i64 = -(chat_id + 1_000_000_000_000);
    let mut out = chars_of("https://t.me/c/");
    append_i64(&mut out, internal);
    append_str(&mut out, "/");
    append_i64(&mut out, message_id);
    Ok(string_of(&out))
}

// ---------------------------------------------------------------------------
// Finding the message of a file again
// ---------------------------------------------------------------------------
/// Whether the caption of a message is the record of file `file_id`.
pub open spec fn names_file(msg: HistoryMessage, file_id: Seq<char>) -> bool {
    match msg.caption {
        Some(c) => match parse_file_text(c@) {
            Ok(m) => m.file_id == file_id,
            Err(_) => false,
        },
        None => false,
    }
}

/// The test that a message is the record of file `file_id`.
pub open spec fn naming(file_id: Seq<char>) -> spec_fn(HistoryMessage) -> bool {
    |m: HistoryMessage| names_file(m, file_id)
}

/// The id of the first message of a page that is the record of the file,
/// if there is one.
pub open spec fn picked(messages: Seq<HistoryMessage>, file_id: Seq<char>) -> Option<i64> {
    let i = first_index(messages, naming(file_id));
    if i < messages.len() {
        Some(messages[i].id)
    } else {
        None
    }
}

/// The first message of a page that is the record of the file, if any.
pub fn pick_file_message(messages: &Vec<HistoryMessage>, file_id: &str) -> (r: Option<MessageId>)
    ensures
        r == picked(messages@, file_id@),
{
    let ghost p = naming(file_id@);
    let mut i: usize = 0;
    while i < messages.len()
        invariant
            i <= messages.len(),
            p == naming(file_id@),
            forall|k: int| 0 <= k < i ==> !p(messages@[k]),
        decreases messages.len() - i,
    {
        let hit = match &messages[i].caption {
            Some(caption) => match parse_file_caption(caption.as_str()) {
                Ok(meta) => str_eq(meta.file_id.as_str(), file_id),
                Err(_) => false,
            },
            None => false,
        };
        if hit {
            proof {
                assert(p(messages@[i as int]));
                lemma_first_index(messages@, p, i as int);
            }
            return Some(messages[i].id);
        }
        assert(!p(messages@[i as int]));
        i += 1;
    }
    proof {
        lemma_first_index(messages@, p, i as int);
    }
    None
}

/// The query that finds the messages of a file.
fn file_query(file_id: &str) -> (r: String)
    ensures
        r@ == "f="@ + file_id@,
{
    let mut q = chars_of("f=");
    append_str(&mut q, file_id);
    string_of(&q)
}

/// What the answer to a search for the record of a file comes to.
#[derive(Debug, Clone, Copy, PartialEq, Eq)]
pub enum SearchStep {
    /// The record is on this message.
    Found(MessageId),
    /// The search ends without the record.
    Stop,
    /// The search goes on from this message.
    Next(MessageId),
}

/// Decides on the answer to a search for the record of a file: the first
/// message of the page that is the record ends the search; a search that
/// failed, or a page without the record that names no next page, ends it
/// without; else the search goes on from where the page says.
pub fn file_search_step(answer: &Result<SearchMessagesResult, TgError>, file_id: &str) -> (r:
    SearchStep)
    ensures
        r == match answer {
            Ok(page) => match picked(page.messages@, file_id@) {
                Some(id) => SearchStep::Found(id),
                None => if page.next_from_message_id == 0 {
                    SearchStep::Stop
                } else {
                    SearchStep::Next(page.next_from_message_id)
                },
            },
            Err(_) => SearchStep::Stop,
        },
{
    match answer {
        Ok(page) => match pick_file_message(&page.messages, file_id) {
            Some(id) => SearchStep::Found(id),
            None => {
                if page.next_from_message_id == 0 {
                    SearchStep::Stop
                } else {
                    SearchStep::Next(page.next_from_message_id)
                }
            },
        },
        Err(_) => SearchStep::Stop,
    }
}

/// Searches one chat, at most eight pages deep, for the record of the file.
/// What each answer comes to is stated by `file_search_step`.
fn search_file_in_chat<T: TelegramService>(tg: &mut T, chat_id: ChatId, file_id: &str) -> (r:
    Option<MessageId>) {
    let query = file_query(file_id);
    let mut from_message_id: MessageId = 0;
    let mut page: u32 = 0;
    while page < 8
        invariant
            page <= 8,
        decreases 8 - page,
    {
        let answer = tg.search_chat_messages(chat_id, query.clone(), from_message_id, 100);
        match file_search_step(&answer, file_id) {
            SearchStep::Found(id) => {
                return Some(id);
            },
            SearchStep::Stop => {
                return None;
            },
            SearchStep::Next(next) => {
                from_message_id = next;
            },
        }
        page += 1;
    }
    None
}

/// Where the search for the record of a file stands.
#[derive(Debug, Clone, Copy, PartialEq, Eq)]
pub enum SearchTurn {
    /// The record is on this message of this chat.
    Found(ChatId, MessageId),
    /// This chat is to be searched next.
    Search(ChatId),
    /// The record is in neither chat.
    NotFound,
}

/// Where the search for the record of a file turns, given the chat that
/// the entry names and the storage chat, and what the searches made so far
/// came to. The chat of the entry is searched first; a message found there
/// ends the search. Else the storage chat is searched, if it is another;
/// what is found there ends the search, with the message or without.
pub fn settle_search(
    msg_chat_id: ChatId,
    storage_chat_id: ChatId,
    in_entry_chat: Option<Option<MessageId>>,
    in_storage_chat: Option<Option<MessageId>>,
) -> (r: SearchTurn)
    ensures
        r == match in_entry_chat {
            None => SearchTurn::Search(msg_chat_id),
            Some(Some(id)) => SearchTurn::Found(msg_chat_id, id),
            Some(None) => if storage_chat_id == msg_chat_id {
                SearchTurn::NotFound
            } else {
                match in_storage_chat {
                    None => SearchTurn::Search(storage_chat_id),
                    Some(Some(id)) => SearchTurn::Found(storage_chat_id, id),
                    Some(None) => SearchTurn::NotFound,
                }
            },
        },
{
    match in_entry_chat {
        None => SearchTurn::Search(msg_chat_id),
        Some(Some(id)) => SearchTurn::Found(msg_chat_id, id),
        Some(None) => {
            if storage_chat_id == msg_chat_id {
                SearchTurn::NotFound
            } else {
                match in_storage_chat {
                    None => SearchTurn::Search(storage_chat_id),
                    Some(Some(id)) => SearchTurn::Found(storage_chat_id, id),
                    Some(None) => SearchTurn::NotFound,
                }
            }
        },
    }
}

/// Looks for the message that carries the record of the file: first in the
/// chat that the entry names, then in the storage chat. Which chat is
/// searched and what is returned for what was found is stated by
/// `settle_search`.
pub fn find_file_message<T: TelegramService>(
    tg: &mut T,
    msg_chat_id: ChatId,
    storage_chat_id: ChatId,
    file_id: &str,
) -> (r: Option<(ChatId, MessageId)>)
    ensures
        r matches Some((chat, _)) ==> chat == msg_chat_id || chat == storage_chat_id,
{
    let first = search_file_in_chat(tg, msg_chat_id, file_id);
    match settle_search(msg_chat_id, storage_chat_id, Some(first), None) {
        SearchTurn::Found(chat_id, id) => Some((chat_id, id)),
        SearchTurn::NotFound => None,
        SearchTurn::Search(chat_id) => {
            let second = search_file_in_chat(tg, chat_id, file_id);
            match settle_search(msg_chat_id, storage_chat_id, Some(first), Some(second)) {
                SearchTurn::Found(chat_id, id) => Some((chat_id, id)),
                _ => None,
            }
        },
    }
}

// ---------------------------------------------------------------------------
// Captions and reasons
// ---------------------------------------------------------------------------
/// The record of a file of the index as it lies, or would lie, in
/// directory `dir_id`.
pub open spec fn record_in(file: FileView, dir_id: Seq<char>) -> FileMetaView {
    FileMetaView { dir_id, file_id: file.id, name: file.name, hash_short: file.hash }
}

/// The name of directory `dir_id`, if the index has the directory.
pub open spec fn dir_name_in(v: IndexView, dir_id: Seq<char>) -> Option<Seq<char>> {
    if v.has_dir(dir_id) {
        Some(v.dir(dir_id).name)
    } else {
        None
    }
}

/// The caption that the message of a file must carry when the file lies in
/// directory `dir_id`: its record, and the hashtag of the directory.
pub fn caption_for(index: &Index, file: &FileEntry, dir_id: &str) -> (r: String)
    ensures
        r@ == tagged_caption(
            record_in(file@, dir_id@),
            hashtag_of(dir_name_in(index@, dir_id@)),
        ),
{
    let dir_name = index.dir_name(dir_id);
    let meta = FileMeta {
        dir_id: String::from_str(dir_id),
        file_id: file.id.clone(),
        name: file.name.clone(),
        hash_short: file.hash.clone(),
    };
    match &dir_name {
        Some(n) => make_file_caption_with_tag(&meta, Some(n.as_str())),
        None => make_file_caption_with_tag(&meta, None),
    }
}

/// A failure reason: what was tried, and the transport's own words.
pub fn reason(label: &str, e: &TgError) -> (r: String)
    ensures
        r@ == label@ + tg_error_text(*e),
{
    let mut out = chars_of(label);
    append_str(&mut out, e.message().as_str());
    string_of(&out)
}

/// The first copy that a duplication made, if it made one.
pub fn first_copied_id(ids: &Vec<Option<MessageId>>) -> (r: Option<MessageId>)
    ensures
        r == if ids@.len() > 0 {
            ids@[0]
        } else {
            None
        },
{
    if ids.len() > 0 {
        ids[0]
    } else {
        None
    }
}

// ---------------------------------------------------------------------------
// Move
// ---------------------------------------------------------------------------
/// Why a file cannot be moved at all, if it cannot.
pub open spec fn move_file_fault(v: IndexView, file_id: Seq<char>, new_dir_id: Seq<char>) -> Option<
    CoreError,
> {
    if !v.has_dir(new_dir_id) {
        Some(CoreError::DirNotFound)
    } else if !v.has_file(file_id) {
        Some(CoreError::FileNotFound)
    } else {
        None
    }
}

/// Moves a file into another directory. The caption of its message must
/// say so, and four ways are tried in turn to make it: editing the caption
/// in place; finding the message again and editing that; sending the
/// content again under the new caption; duplicating the message and editing
/// the duplicate. The first that succeeds ends the move.
///
/// Whatever the transport answers: a request that cannot be met changes
/// nothing; success leaves the file in the new directory, backed by the
/// message that now carries the caption, with its flag cleared; failure
/// leaves the file in its directory, at most with a corrected backing
/// message, and the error names every step that failed.
pub fn move_file<T: TelegramService>(
    index: &mut Index,
    tg: &mut T,
    storage_chat_id: ChatId,
    file_id: &str,
    new_dir_id: &str,
) -> (r: Result<(), CoreError>)
    ensures
        old(index)@.wf() ==> final(index)@.wf(),
        match move_file_fault(old(index)@, file_id@, new_dir_id@) {
            Some(e) => r == Err::<(), CoreError>(e) && final(index)@ == old(index)@ && *final(tg)
                == *old(tg),
            None => if old(index)@.file(file_id@).dir_id == new_dir_id@ {
                r is Ok && final(index)@ == old(index)@ && *final(tg) == *old(tg)
            } else {
                match r {
                    Ok(()) => final(index)@ == old(index)@.move_file(
                        file_id@,
                        new_dir_id@,
                        final(index)@.file(file_id@).tg_chat_id,
                        final(index)@.file(file_id@).tg_msg_id,
                    ),
                    Err(e) => e is Exhausted && (final(index)@ == old(index)@ || final(index)@
                        == old(index)@.relocate_file(
                        file_id@,
                        final(index)@.file(file_id@).tg_chat_id,
                        final(index)@.file(file_id@).tg_msg_id,
                    )),
                }
            },
        },
{
    let ghost before = index@;
    if !index.dir_exists(new_dir_id) {
        return Err(CoreError::DirNotFound);
    }
    let file = match index.get_file(file_id) {
        Some(f) => f,
        None => {
            return Err(CoreError::FileNotFound);
        },
    };
    if str_eq(file.dir_id.as_str(), new_dir_id) {
        return Ok(());
    }
    let caption = caption_for(index, &file, new_dir_id);
    let run = run_move(tg, storage_chat_id, file_id, caption, file.tg_chat_id, file.tg_msg_id);
    proof {
        match run.end {
            MoveEnd::Moved(c, m) => {
                lemma_move_after_relocate(before, file_id@, 0, 0, new_dir_id@, c, m);
            },
            _ => {
                match run.relocated {
                    Some((c, m)) => {
                        lemma_move_after_relocate(before, file_id@, 0, 0, new_dir_id@, c, m);
                    },
                    None => {},
                }
            },
        }
    }
    settle_move(index, file_id, new_dir_id, &run)
}

/// How the ways to move a file ended.
#[derive(Debug, Clone, Copy, PartialEq, Eq)]
pub enum MoveEnd {
    /// The caption is on this message now.
    Moved(ChatId, MessageId),
    /// The message could not be duplicated.
    CopyFailed,
    /// The duplication gave no message.
    NoCopy,
    /// The duplicate could not be given the caption.
    CopyNotCaptioned,
}

/// What the transport answered in the course of a move.
#[derive(Debug)]
pub struct MoveRun {
    /// Where the message of the file was found again, if elsewhere than the
    /// entry said.
    pub relocated: Option<(ChatId, MessageId)>,
    /// The reason of every step that failed, in the order of the steps.
    pub reasons: Vec<String>,
    pub end: MoveEnd,
}

/// What is said first of a move that ended without success.
pub open spec fn move_headline(end: MoveEnd) -> Seq<char> {
    match end {
        MoveEnd::CopyFailed => "Не удалось скопировать файл для обновления подписи."@,
        MoveEnd::NoCopy => "TDLib не вернул id скопированного сообщения."@,
        MoveEnd::CopyNotCaptioned => "Не удалось обновить подпись файла после копирования."@,
        MoveEnd::Moved(_, _) => Seq::empty(),
    }
}

/// What is said last of a move that ended without success.
pub open spec fn move_hint(end: MoveEnd) -> Seq<char> {
    match end {
        MoveEnd::NoCopy => " Возможно, в канале включена защита контента."@,
        _ => Seq::empty(),
    }
}

/// The index after the ways to move a file were tried: on success the file
/// lies in the new directory, backed by the message that carries the
/// caption; else it stays where it is, with its backing message corrected
/// if the message was found elsewhere.
pub open spec fn move_settled(
    v: IndexView,
    file_id: Seq<char>,
    new_dir_id: Seq<char>,
    relocated: Option<(ChatId, MessageId)>,
    end: MoveEnd,
) -> IndexView {
    match end {
        MoveEnd::Moved(chat_id, msg_id) => v.move_file(file_id, new_dir_id, chat_id, msg_id),
        _ => match relocated {
            Some((chat_id, msg_id)) => v.relocate_file(file_id, chat_id, msg_id),
            None => v,
        },
    }
}

/// Writes down in the index what the ways to move a file came to, and
/// gives the result of the move. When no way succeeded the error says what
/// failed last, and names the reason of every step that failed.
pub fn settle_move(index: &mut Index, file_id: &str, new_dir_id: &str, run: &MoveRun) -> (r: Result<
    (),
    CoreError,
>)
    ensures
        old(index)@.wf() ==> final(index)@.wf(),
        final(index)@ == move_settled(
            old(index)@,
            file_id@,
            new_dir_id@,
            run.relocated,
            run.end,
        ),
        match run.end {
            MoveEnd::Moved(_, _) => r is Ok,
            end => r matches Err(CoreError::Exhausted(text)) && text@ == failure_text(
                move_headline(end),
                texts(run.reasons@),
                move_hint(end),
            ) && forall|k: int|
                0 <= k < run.reasons@.len() ==> contains_text(text@, (#[trigger] run.reasons@[k])@),
        },
{
    match run.end {
        MoveEnd::Moved(chat_id, msg_id) => {
            index.move_file(file_id, new_dir_id, chat_id, msg_id);
            return Ok(());
        },
        _ => {},
    }
    match run.relocated {
        Some((chat_id, msg_id)) => {
            index.relocate_file(file_id, chat_id, msg_id);
        },
        None => {},
    }
    let e = match run.end {
        MoveEnd::CopyFailed => chain_failure(
            "Не удалось скопировать файл для обновления подписи.",
            &run.reasons,
            "",
        ),
        MoveEnd::NoCopy => chain_failure(
            "TDLib не вернул id скопированного сообщения.",
            &run.reasons,
            " Возможно, в канале включена защита контента.",
        ),
        _ => chain_failure(
            "Не удалось обновить подпись файла после копирования.",
            &run.reasons,
            "",
        ),
    };
    proof {
        reveal_strlit("");
        assert(""@ =~= Seq::<char>::empty());
        assert forall|k: int| 0 <= k < run.reasons@.len() implies contains_text(
            failure_text(move_headline(run.end), texts(run.reasons@), move_hint(run.end)),
            (#[trigger] run.reasons@[k])@,
        ) by {
            law_failure_text_names_every_reason(
                move_headline(run.end),
                texts(run.reasons@),
                move_hint(run.end),
                k,
            );
            assert(texts(run.reasons@)[k] == run.reasons@[k]@);
        }
    }
    Err(e)
}

/// What the reason of a failed caption edit begins with.
pub open spec fn edit_label() -> Seq<char> {
    "Ошибка редактирования подписи: "@
}

/// What the reason of a failed resend begins with.
pub open spec fn resend_label() -> Seq<char> {
    "Ошибка переотправки: "@
}

/// What the reason of a failed duplication begins with.
pub open spec fn copy_label() -> Seq<char> {
    "Ошибка копирования: "@
}

/// The steps that have failed when duplication is tried, by the labels of
/// their reasons: the edit in place, the edit of the message found again
/// if it was found, and the resend.
pub open spec fn first_steps(found_again: bool) -> Seq<Seq<char>> {
    if found_again {
        seq![edit_label(), edit_label(), resend_label()]
    } else {
        seq![edit_label(), resend_label()]
    }
}

/// The steps that have failed when a move ends without success.
pub open spec fn failed_steps(end: MoveEnd, found_again: bool) -> Seq<Seq<char>> {
    match end {
        MoveEnd::CopyFailed => first_steps(found_again).push(copy_label()),
        MoveEnd::CopyNotCaptioned => first_steps(found_again).push(edit_label()),
        _ => first_steps(found_again),
    }
}

/// Whether the reasons are those of the given steps: one for each, each
/// beginning with the label of its step.
pub open spec fn carries(reasons: Seq<Seq<char>>, labels: Seq<Seq<char>>) -> bool {
    reasons.len() == labels.len() && forall|i: int|
        0 <= i < reasons.len() ==> starts_with(#[trigger] reasons[i], labels[i])
}

/// Whether the reasons of a run are those of the steps that failed, in the
/// order of the steps: a move that succeeded has failed in some first
/// steps only, and a move that did not has failed in all of them and in the
/// duplication as its end says.
pub open spec fn follows_steps(reasons: Seq<Seq<char>>, end: MoveEnd, found_again: bool) -> bool {
    match end {
        MoveEnd::Moved(_, _) => reasons.len() <= first_steps(found_again).len() && carries(
            reasons,
            first_steps(found_again).take(reasons.len() as int),
        ),
        _ => carries(reasons, failed_steps(end, found_again)),
    }
}

proof fn lemma_carries_push(
    reasons: Seq<Seq<char>>,
    labels: Seq<Seq<char>>,
    label: Seq<char>,
    words: Seq<char>,
)
    requires
        carries(reasons, labels),
    ensures
        carries(reasons.push(label + words), labels.push(label)),
{
    let r = reasons.push(label + words);
    let l = labels.push(label);
    assert forall|i: int| 0 <= i < r.len() implies starts_with(#[trigger] r[i], l[i]) by {
        if i < reasons.len() {
            assert(r[i] == reasons[i] && l[i] == labels[i]);
        } else {
            assert((label + words).subrange(0, label.len() as int) =~= label);
        }
    }
}

/// Tries the ways to put the caption on the message of a file, in turn,
/// until one succeeds or none is left, and reports what was answered.
///
/// Whatever the transport answers, the report tells the steps: a run
/// without a reason has edited the message of the entry in place; the
/// reasons are those of the steps that failed, in their order; a message
/// found again is reported only where it is another than that of the entry,
/// and lies in the chat of the entry or in the storage chat; and where the
/// edit of the message found again is the first step to succeed, the
/// caption is on that message.
fn run_move<T: TelegramService>(
    tg: &mut T,
    storage_chat_id: ChatId,
    file_id: &str,
    caption: String,
    entry_chat_id: ChatId,
    entry_msg_id: MessageId,
) -> (run: MoveRun)
    ensures
        !(run.end is Moved) ==> run.reasons@.len() >= 2,
        follows_steps(texts(run.reasons@), run.end, false) || follows_steps(
            texts(run.reasons@),
            run.end,
            true,
        ),
        run.reasons@.len() == 0 ==> run.end == MoveEnd::Moved(entry_chat_id, entry_msg_id)
            && run.relocated is None,
        run.relocated matches Some((chat_id, msg_id)) ==> (chat_id != entry_chat_id || msg_id
            != entry_msg_id) && (chat_id == entry_chat_id || chat_id == storage_chat_id),
        run.relocated matches Some((chat_id, msg_id)) ==> run.reasons@.len() >= 1 && (
        run.reasons@.len() == 1 ==> run.end == MoveEnd::Moved(chat_id, msg_id)),
{
    let mut msg_chat_id: ChatId = entry_chat_id;
    let mut msg_id: MessageId = entry_msg_id;
    let mut reasons: Vec<String> = Vec::new();
    let mut relocated: Option<(ChatId, MessageId)> = None;
    let ghost mut labels: Seq<Seq<char>> = Seq::empty();
    let ghost mut found_again = false;
    assert(texts(reasons@) =~= Seq::<Seq<char>>::empty());
    assert(first_steps(false).take(0) =~= Seq::<Seq<char>>::empty());

    // in place
    match tg.edit_message_caption(msg_chat_id, msg_id, caption.clone()) {
        Ok(()) => {
            return MoveRun { relocated, reasons, end: MoveEnd::Moved(msg_chat_id, msg_id) };
        },
        Err(e) => {
            let ghost before = texts(reasons@);
            let words = reason("Ошибка редактирования подписи: ", &e);
            reasons.push(words);
            proof {
                assert(texts(reasons@) =~= before.push(edit_label() + tg_error_text(e)));
                lemma_carries_push(before, labels, edit_label(), tg_error_text(e));
                labels = labels.push(edit_label());
            }
        },
    }
    assert(labels =~= seq![edit_label()]);

    // on the message found again
    match find_file_message(tg, msg_chat_id, storage_chat_id, file_id) {
        Some((found_chat_id, found_msg_id)) => {
            if found_chat_id != msg_chat_id || found_msg_id != msg_id {
                msg_chat_id = found_chat_id;
                msg_id = found_msg_id;
                relocated = Some((msg_chat_id, msg_id));
            }
            match tg.edit_message_caption(msg_chat_id, msg_id, caption.clone()) {
                Ok(()) => {
                    assert(first_steps(true).take(1) =~= seq![edit_label()]);
                    return MoveRun { relocated, reasons, end: MoveEnd::Moved(msg_chat_id, msg_id) };
                },
                Err(e) => {
                    let ghost before = texts(reasons@);
                    let words = reason("Ошибка редактирования подписи: ", &e);
                    reasons.push(words);
                    proof {
                        assert(texts(reasons@) =~= before.push(edit_label() + tg_error_text(e)));
                        lemma_carries_push(before, labels, edit_label(), tg_error_text(e));
                        labels = labels.push(edit_label());
                        found_again = true;
                    }
                },
            }
        },
        None => {},
    }
    assert(labels =~= first_steps(found_again).take(labels.len() as int));
    assert(labels.len() + 1 == first_steps(found_again).len());

    // sent again
    match tg.send_file_from_message(msg_chat_id, msg_id, caption.clone()) {
        Ok(uploaded) => {
            let _ = tg.delete_messages(msg_chat_id, vec![msg_id], true);
            return MoveRun {
                relocated,
                reasons,
                end: MoveEnd::Moved(uploaded.chat_id, uploaded.message_id),
            };
        },
        Err(e) => {
            let ghost before = texts(reasons@);
            let words = reason("Ошибка переотправки: ", &e);
            reasons.push(words);
            proof {
                assert(texts(reasons@) =~= before.push(resend_label() + tg_error_text(e)));
                lemma_carries_push(before, labels, resend_label(), tg_error_text(e));
                labels = labels.push(resend_label());
            }
        },
    }
    assert(labels =~= first_steps(found_again));
    assert(first_steps(found_again).take(labels.len() as int) =~= first_steps(found_again));

    // duplicated
    let ids = match tg.copy_messages(msg_chat_id, msg_chat_id, vec![msg_id]) {
        Ok(v) => v,
        Err(e) => {
            let ghost before = texts(reasons@);
            let words = reason("Ошибка копирования: ", &e);
            reasons.push(words);
            proof {
                assert(texts(reasons@) =~= before.push(copy_label() + tg_error_text(e)));
                lemma_carries_push(before, labels, copy_label(), tg_error_text(e));
            }
            return MoveRun { relocated, reasons, end: MoveEnd::CopyFailed };
        },
    };
    let new_msg_id = match first_copied_id(&ids) {
        Some(id) => id,
        None => {
            return MoveRun { relocated, reasons, end: MoveEnd::NoCopy };
        },
    };
    match tg.edit_message_caption(msg_chat_id, new_msg_id, caption) {
        Ok(()) => {},
        Err(e) => {
            let _ = tg.delete_messages(msg_chat_id, vec![new_msg_id], true);
            let ghost before = texts(reasons@);
            let words = reason("Ошибка редактирования подписи: ", &e);
            reasons.push(words);
            proof {
                assert(texts(reasons@) =~= before.push(edit_label() + tg_error_text(e)));
                lemma_carries_push(before, labels, edit_label(), tg_error_text(e));
            }
            return MoveRun { relocated, reasons, end: MoveEnd::CopyNotCaptioned };
        },
    }
    let _ = tg.delete_messages(msg_chat_id, vec![msg_id], true);
    MoveRun { relocated, reasons, end: MoveEnd::Moved(msg_chat_id, new_msg_id) }
}

// ---------------------------------------------------------------------------
// Repair
// ---------------------------------------------------------------------------
/// What is left of a repair once the edits of the caption were tried.
#[derive(Debug)]
pub enum RepairStep {
    /// The repair ended, with this result.
    Done(Result<RepairFileResult, CoreError>),
    /// The local copy is to be published.
    Publish,
}

/// Writes down what the edits of a repair came to. `edited` says that the
/// caption was edited on the message of the entry; `found` is the message
/// that was found again and given the caption.
///
/// An edit in place leaves the entry on its message; a message found again
/// becomes the message of the entry; either clears the flag and ends the
/// repair. Otherwise nothing changes: without a local copy the result is
/// `NeedFile`, a copy that is no regular file is refused, and a regular
/// file is to be published.
pub fn settle_repair(
    index: &mut Index,
    file_id: &str,
    edited: bool,
    found: Option<(ChatId, MessageId)>,
    source: Option<&LocalSource>,
) -> (r: RepairStep)
    ensures
        old(index)@.wf() ==> final(index)@.wf(),
        if !old(index)@.has_file(file_id@) {
            r == RepairStep::Done(Err(CoreError::FileNotFound)) && final(index)@ == old(index)@
        } else if edited {
            r == RepairStep::Done(Ok(RepairFileResult::Repaired)) && final(index)@ == old(
                index,
            )@.relocate_file(
                file_id@,
                old(index)@.file(file_id@).tg_chat_id,
                old(index)@.file(file_id@).tg_msg_id,
            )
        } else {
            match found {
                Some((chat_id, msg_id)) => r == RepairStep::Done(Ok(RepairFileResult::Repaired))
                    && final(index)@ == old(index)@.relocate_file(file_id@, chat_id, msg_id),
                None => final(index)@ == old(index)@ && r == (match source {
                    None => RepairStep::Done(Ok(RepairFileResult::NeedFile)),
                    Some(local) => if local.is_file {
                        RepairStep::Publish
                    } else {
                        RepairStep::Done(Err(CoreError::SourceNotFound))
                    },
                }),
            }
        },
{
    let file = match index.get_file(file_id) {
        Some(f) => f,
        None => {
            return RepairStep::Done(Err(CoreError::FileNotFound));
        },
    };
    if edited {
        index.relocate_file(file_id, file.tg_chat_id, file.tg_msg_id);
        return RepairStep::Done(Ok(RepairFileResult::Repaired));
    }
    match found {
        Some((chat_id, msg_id)) => {
            index.relocate_file(file_id, chat_id, msg_id);
            return RepairStep::Done(Ok(RepairFileResult::Repaired));
        },
        None => {},
    }
    match source {
        None => RepairStep::Done(Ok(RepairFileResult::NeedFile)),
        Some(local) => {
            if local.is_file {
                RepairStep::Publish
            } else {
                RepairStep::Done(Err(CoreError::SourceNotFound))
            }
        },
    }
}

/// Writes down what publishing the local copy of a file came to: the
/// message that was published becomes the message of the entry and the flag
/// is cleared; a failed publication changes nothing.
pub fn settle_resend(index: &mut Index, file_id: &str, sent: Result<UploadedMessage, TgError>) -> (r:
    Result<RepairFileResult, CoreError>)
    ensures
        old(index)@.wf() ==> final(index)@.wf(),
        match sent {
            Ok(uploaded) => if old(index)@.has_file(file_id@) {
                r == Ok::<RepairFileResult, CoreError>(RepairFileResult::Repaired) && final(index)@
                    == old(index)@.relocate_file(file_id@, uploaded.chat_id, uploaded.message_id)
            } else {
                r == Err::<RepairFileResult, CoreError>(CoreError::FileNotFound) && final(index)@
                    == old(index)@
            },
            Err(e) => final(index)@ == old(index)@ && (r matches Err(CoreError::Transport(text))
                && text@ == tg_error_text(e)),
        },
{
    match sent {
        Ok(uploaded) => {
            if index.get_file(file_id).is_none() {
                return Err(CoreError::FileNotFound);
            }
            index.relocate_file(file_id, uploaded.chat_id, uploaded.message_id);
            Ok(RepairFileResult::Repaired)
        },
        Err(e) => Err(CoreError::Transport(e.message())),
    }
}

/// Makes the entry of a file backed by a message again: by editing the
/// caption of its message, else of the message found again, else by
/// publishing the local copy afresh. Without a local copy the result is
/// `NeedFile`, which is no error.
///
/// What the index and the result are for each answer of the transport is
/// stated by `settle_repair` and `settle_resend`.
pub fn repair_file<T: TelegramService>(
    index: &mut Index,
    tg: &mut T,
    storage_chat_id: ChatId,
    file_id: &str,
    source: Option<&LocalSource>,
) -> (r: Result<RepairFileResult, CoreError>)
    ensures
        old(index)@.wf() ==> final(index)@.wf(),
        !old(index)@.has_file(file_id@) ==> r == Err::<RepairFileResult, CoreError>(
            CoreError::FileNotFound,
        ) && *final(tg) == *old(tg),
        old(index)@.has_file(file_id@) && source is None ==> r is Ok,
        match r {
            Ok(RepairFileResult::Repaired) => final(index)@ == old(index)@.relocate_file(
                file_id@,
                final(index)@.file(file_id@).tg_chat_id,
                final(index)@.file(file_id@).tg_msg_id,
            ),
            Ok(RepairFileResult::NeedFile) => source is None && final(index)@ == old(index)@,
            Err(e) => final(index)@ == old(index)@ && (e is FileNotFound ==> !old(
                index,
            )@.has_file(file_id@)) && (e is SourceNotFound ==> source is Some && !source->0.is_file)
                && (e is FileNotFound || e is SourceNotFound || e is Transport),
        },
{
    let ghost before = index@;
    let file = match index.get_file(file_id) {
        Some(f) => f,
        None => {
            return Err(CoreError::FileNotFound);
        },
    };
    let caption = caption_for(index, &file, file.dir_id.as_str());
    let edited = tg.edit_message_caption(file.tg_chat_id, file.tg_msg_id, caption.clone()).is_ok();
    let found = if edited {
        None
    } else {
        match find_file_message(tg, file.tg_chat_id, storage_chat_id, file_id) {
            Some((chat_id, msg_id)) => {
                if tg.edit_message_caption(chat_id, msg_id, caption.clone()).is_ok() {
                    Some((chat_id, msg_id))
                } else {
                    None
                }
            },
            None => None,
        }
    };
    proof {
        lemma_move_after_relocate(before, file_id@, 0, 0, file_id@, file.tg_chat_id, file.tg_msg_id);
        match found {
            Some((c, m)) => {
                lemma_move_after_relocate(before, file_id@, 0, 0, file_id@, c, m);
            },
            None => {},
        }
    }
    match settle_repair(index, file_id, edited, found, source) {
        RepairStep::Done(r) => r,
        RepairStep::Publish => match source {
            Some(local) => {
                let sent = tg.send_file(storage_chat_id, local.path.clone(), caption);
                proof {
                    if sent is Ok {
                        lemma_move_after_relocate(
                            before,
                            file_id@,
                            0,
                            0,
                            file_id@,
                            sent->Ok_0.chat_id,
                            sent->Ok_0.message_id,
                        );
                    }
                }
                settle_resend(index, file_id, sent)
            },
            None => Ok(RepairFileResult::NeedFile),
        },
    }
}

// ---------------------------------------------------------------------------
// Download
// ---------------------------------------------------------------------------
/// What to do to have a local copy of a file.
#[derive(Debug, PartialEq, Eq)]
pub enum DownloadPlan {
    /// The cache entry at this offset is the copy.
    UseCached(usize),
    /// Fetch the file and write it under this name.
    Fetch(String),
    /// Remove the cache entry at this offset, then fetch the file and write
    /// it under the name of that entry.
    Replace(usize),
}

/// The plan for a download. Without overwriting, a cached copy is used as
/// it is, and a fetched file gets a name that is free. With overwriting,
/// the file is fetched in any case and takes the place of the cached copy,
/// or else the name that the cache prefers.
pub open spec fn download_plan(
    entries: Seq<CacheEntry>,
    file: FileView,
    overwrite: bool,
) -> DownloadPlanView {
    match resolved(entries, file.name, file.size) {
        Some(i) => if overwrite {
            DownloadPlanView::Replace(i)
        } else {
            DownloadPlanView::UseCached(i)
        },
        None => if overwrite {
            DownloadPlanView::Fetch(cache_name(file.name))
        } else {
            DownloadPlanView::Fetch(target_name(entries, file.name, file.size))
        },
    }
}

/// The view of a download plan.
pub enum DownloadPlanView {
    UseCached(int),
    Fetch(Seq<char>),
    Replace(int),
}

impl View for DownloadPlan {
    type V = DownloadPlanView;

    open spec fn view(&self) -> DownloadPlanView {
        match self {
            DownloadPlan::UseCached(i) => DownloadPlanView::UseCached(*i as int),
            DownloadPlan::Fetch(name) => DownloadPlanView::Fetch(name@),
            DownloadPlan::Replace(i) => DownloadPlanView::Replace(*i as int),
        }
    }
}

/// Finds the cached copy of a file of the index among the entries of the
/// cache directory of its directory.
pub fn find_local_download_path(index: &Index, file_id: &str, entries: &Vec<CacheEntry>) -> (r:
    Result<Option<usize>, CoreError>)
    ensures
        match r {
            Ok(found) => index@.has_file(file_id@) && (match found {
                Some(i) => Some(i as int),
                None => None,
            }) == resolved(entries@, index@.file(file_id@).name, index@.file(file_id@).size)
                && (found matches Some(i) ==> i < entries@.len()),
            Err(e) => e is FileNotFound && !index@.has_file(file_id@),
        },
{
    match index.get_file(file_id) {
        Some(f) => Ok(find_local_download(entries, f.name.as_str(), f.size)),
        None => Err(CoreError::FileNotFound),
    }
}

/// Plans the download of a file, given the entries of its cache directory.
pub fn plan_download(
    index: &Index,
    file_id: &str,
    entries: &Vec<CacheEntry>,
    overwrite: bool,
) -> (r: Result<DownloadPlan, CoreError>)
    ensures
        match r {
            Ok(plan) => index@.has_file(file_id@) && plan@ == download_plan(
                entries@,
                index@.file(file_id@),
                overwrite,
            ),
            Err(e) => e is FileNotFound && !index@.has_file(file_id@),
        },
        r matches Ok(DownloadPlan::UseCached(i)) ==> i < entries@.len(),
        r matches Ok(DownloadPlan::Replace(i)) ==> i < entries@.len(),
{
    let file = match index.get_file(file_id) {
        Some(f) => f,
        None => {
            return Err(CoreError::FileNotFound);
        },
    };
    match find_local_download(entries, file.name.as_str(), file.size) {
        Some(i) => {
            if overwrite {
                Ok(DownloadPlan::Replace(i))
            } else {
                Ok(DownloadPlan::UseCached(i))
            }
        },
        None => {
            if overwrite {
                Ok(DownloadPlan::Fetch(preferred_target_path(file.name.as_str())))
            } else {
                Ok(DownloadPlan::Fetch(resolve_target_path(entries, file.name.as_str(), file.size)))
            }
        },
    }
}

/// What the transport gave, or its failure in its own words.
pub fn transport_result<V>(answer: Result<V, TgError>) -> (r: Result<V, CoreError>)
    ensures
        match answer {
            Ok(v) => r == Ok::<V, CoreError>(v),
            Err(e) => r matches Err(CoreError::Transport(text)) && text@ == tg_error_text(e),
        },
{
    match answer {
        Ok(v) => Ok(v),
        Err(e) => Err(CoreError::Transport(e.message())),
    }
}

/// Writes down where the message of a file was found again, and gives the
/// message to go on with: the one that was found, which becomes the message
/// of the entry if it is another than the entry named; the one of the entry
/// where none was found. An entry that does not exist gives nothing.
pub fn settle_found(index: &mut Index, file_id: &str, found: Option<(ChatId, MessageId)>) -> (r:
    Option<(ChatId, MessageId)>)
    ensures
        old(index)@.wf() ==> final(index)@.wf(),
        if !old(index)@.has_file(file_id@) {
            r is None && final(index)@ == old(index)@
        } else {
            match found {
                Some((chat_id, msg_id)) => r == Some((chat_id, msg_id)) && final(index)@ == (if chat_id
                    != old(index)@.file(file_id@).tg_chat_id || msg_id != old(index)@.file(
                    file_id@,
                ).tg_msg_id {
                    old(index)@.relocate_file(file_id@, chat_id, msg_id)
                } else {
                    old(index)@
                }),
                None => r == Some(
                    (old(index)@.file(file_id@).tg_chat_id, old(index)@.file(file_id@).tg_msg_id),
                ) && final(index)@ == old(index)@,
            }
        },
{
    let file = match index.get_file(file_id) {
        Some(f) => f,
        None => {
            return None;
        },
    };
    match found {
        Some((chat_id, msg_id)) => {
            if chat_id != file.tg_chat_id || msg_id != file.tg_msg_id {
                index.relocate_file(file_id, chat_id, msg_id);
            }
            Some((chat_id, msg_id))
        },
        None => Some((file.tg_chat_id, file.tg_msg_id)),
    }
}

/// Fetches the file of an entry to `target`. When the message of the entry
/// gives nothing the message is looked for again, the entry is corrected if
/// it was found elsewhere, and the fetch is tried once more. Returns where
/// the file lies; the caller reads the size there and records it with
/// `Index::resize_file`.
///
/// How the entry is corrected is stated by `settle_found`, and what the
/// second fetch comes to by `transport_result`.
pub fn download_file<T: TelegramService>(
    index: &mut Index,
    tg: &mut T,
    storage_chat_id: ChatId,
    file_id: &str,
    target: &str,
) -> (r: Result<String, CoreError>)
    ensures
        old(index)@.wf() ==> final(index)@.wf(),
        !old(index)@.has_file(file_id@) ==> (r matches Err(CoreError::FileNotFound)) && *final(tg)
            == *old(tg),
        final(index)@ == old(index)@ || final(index)@ == old(index)@.relocate_file(
            file_id@,
            final(index)@.file(file_id@).tg_chat_id,
            final(index)@.file(file_id@).tg_msg_id,
        ),
        r matches Err(e) ==> (e is FileNotFound && !old(index)@.has_file(file_id@))
            || e is Transport,
{
    let ghost before = index@;
    let file = match index.get_file(file_id) {
        Some(f) => f,
        None => {
            return Err(CoreError::FileNotFound);
        },
    };
    match tg.download_message_file(file.tg_chat_id, file.tg_msg_id, String::from_str(target)) {
        Ok(path) => {
            return Ok(path);
        },
        Err(_) => {},
    }
    let found = find_file_message(tg, file.tg_chat_id, storage_chat_id, file_id);
    proof {
        match found {
            Some((c, m)) => {
                lemma_move_after_relocate(before, file_id@, 0, 0, file_id@, c, m);
            },
            None => {},
        }
    }
    let (msg_chat_id, msg_id) = match settle_found(index, file_id, found) {
        Some(at) => at,
        None => {
            return Err(CoreError::FileNotFound);
        },
    };
    transport_result(tg.download_message_file(msg_chat_id, msg_id, String::from_str(target)))
}

// ---------------------------------------------------------------------------
// Share
// ---------------------------------------------------------------------------
/// Forwards the message of a file to another chat. When that fails the
/// message is looked for again, the entry is corrected if it was found
/// elsewhere, and the forward is tried once more.
///
/// How the entry is corrected is stated by `settle_found`, and what the
/// second forward comes to by `transport_result`.
pub fn share_file_to_chat<T: TelegramService>(
    index: &mut Index,
    tg: &mut T,
    storage_chat_id: ChatId,
    file_id: &str,
    chat_id: ChatId,
) -> (r: Result<(), CoreError>)
    ensures
        old(index)@.wf() ==> final(index)@.wf(),
        !old(index)@.has_file(file_id@) ==> r == Err::<(), CoreError>(CoreError::FileNotFound)
            && *final(tg) == *old(tg),
        final(index)@ == old(index)@ || final(index)@ == old(index)@.relocate_file(
            file_id@,
            final(index)@.file(file_id@).tg_chat_id,
            final(index)@.file(file_id@).tg_msg_id,
        ),
        r matches Err(e) ==> (e is FileNotFound && !old(index)@.has_file(file_id@))
            || e is Transport,
{
    let ghost before = index@;
    let file = match index.get_file(file_id) {
        Some(f) => f,
        None => {
            return Err(CoreError::FileNotFound);
        },
    };
    if tg.forward_message(file.tg_chat_id, chat_id, file.tg_msg_id).is_ok() {
        return Ok(());
    }
    let found = find_file_message(tg, file.tg_chat_id, storage_chat_id, file_id);
    proof {
        match found {
            Some((c, m)) => {
                lemma_move_after_relocate(before, file_id@, 0, 0, file_id@, c, m);
            },
            None => {},
        }
    }
    let (from_chat_id, msg_id) = match settle_found(index, file_id, found) {
        Some(at) => at,
        None => {
            return Err(CoreError::FileNotFound);
        },
    };
    match transport_result(tg.forward_message(from_chat_id, chat_id, msg_id)) {
        Ok(_) => Ok(()),
        Err(e) => Err(e),
    }
}

// ---------------------------------------------------------------------------
// Upload
// ---------------------------------------------------------------------------
/// The name under which a local file is stored.
pub open spec fn upload_name(source: LocalFile) -> Seq<char> {
    match source.file_name {
        Some(n) => n@,
        None => "file"@,
    }
}

/// The row that an upload adds, but for its id and its backing message.
pub open spec fn uploaded_row(
    source: LocalFile,
    id: Seq<char>,
    dir_id: Seq<char>,
    chat_id: i64,
    msg_id: i64,
    now: i64,
) -> FileView {
    FileView {
        id,
        dir_id,
        name: upload_name(source),
        size: source.size,
        hash: fingerprint(source.content@),
        tg_chat_id: chat_id,
        tg_msg_id: msg_id,
        created_at: now,
        is_broken: false,
    }
}

/// Writes down what the publication of a local file under the id `id` came
/// to. A published file gets its entry, backed by the message that was
/// published; the entry that the id had, if any, is replaced and keeps its
/// time of creation. A failed publication changes nothing and gives the
/// failure of the transport in its own words.
pub fn settle_upload(
    index: &mut Index,
    dir_id: &str,
    source: &LocalFile,
    id: String,
    sent: Result<UploadedMessage, TgError>,
    now: i64,
) -> (r: Result<String, CoreError>)
    ensures
        old(index)@.wf() ==> final(index)@.wf(),
        match sent {
            Ok(uploaded) => (r matches Ok(made) && made@ == id@) && final(index)@ == old(
                index,
            )@.put_file(
                uploaded_row(
                    *source,
                    id@,
                    dir_id@,
                    uploaded.chat_id,
                    uploaded.message_id,
                    if old(index)@.has_file(id@) {
                        old(index)@.file(id@).created_at
                    } else {
                        now
                    },
                ),
            ),
            Err(e) => final(index)@ == old(index)@ && (r matches Err(CoreError::Transport(text))
                && text@ == tg_error_text(e)),
        },
{
    let uploaded = match sent {
        Ok(u) => u,
        Err(e) => {
            return Err(CoreError::Transport(e.message()));
        },
    };
    let created_at = match index.get_file(id.as_str()) {
        Some(known) => known.created_at,
        None => now,
    };
    let row = FileEntry {
        id: id.clone(),
        dir_id: String::from_str(dir_id),
        name: stored_name(source),
        size: source.size,
        hash: hash_short_of_bytes(source.content.as_slice()),
        tg_chat_id: uploaded.chat_id,
        tg_msg_id: uploaded.message_id,
        created_at,
        is_broken: false,
    };
    proof {
        if index@.has_file(id@) {
            lemma_put_file_known(index@, row@);
        } else {
            lemma_put_file_new(index@, row@);
        }
    }
    index.put_file(row);
    Ok(id)
}

/// The name under which a local file is stored: the last component of its
/// path, or `file` where that is no valid text.
pub fn stored_name(source: &LocalFile) -> (r: String)
    ensures
        r@ == upload_name(*source),
{
    match &source.file_name {
        Some(n) => n.clone(),
        None => String::from_str("file"),
    }
}

/// Publishes a local file into a directory and puts its entry. Returns the
/// id of the entry, which is new.
///
/// A directory that does not exist or a source that is no regular file is
/// refused before anything is sent, and for nothing else; a failed
/// publication changes nothing. What the entry is for each answer of the
/// transport is stated by `settle_upload`.
pub fn upload_file<T: TelegramService>(
    index: &mut Index,
    tg: &mut T,
    chat_id: ChatId,
    dir_id: &str,
    source: &LocalFile,
    now: i64,
) -> (r: Result<String, CoreError>)
    ensures
        old(index)@.wf() ==> final(index)@.wf(),
        !old(index)@.has_dir(dir_id@) ==> r == Err::<String, CoreError>(CoreError::DirNotFound)
            && *final(tg) == *old(tg),
        old(index)@.has_dir(dir_id@) && !source.is_file ==> r == Err::<String, CoreError>(
            CoreError::SourceNotFound,
        ) && *final(tg) == *old(tg),
        match r {
            Ok(id) => is_ulid_text(id@) && final(index)@ == old(index)@.put_file(
                uploaded_row(
                    *source,
                    id@,
                    dir_id@,
                    final(index)@.file(id@).tg_chat_id,
                    final(index)@.file(id@).tg_msg_id,
                    if old(index)@.has_file(id@) {
                        old(index)@.file(id@).created_at
                    } else {
                        now
                    },
                ),
            ),
            Err(e) => {
                &&& final(index)@ == old(index)@
                &&& e is DirNotFound || e is SourceNotFound || e is Transport
                &&& e is DirNotFound ==> !old(index)@.has_dir(dir_id@)
                &&& e is SourceNotFound ==> old(index)@.has_dir(dir_id@) && !source.is_file
            },
        },
{
    if !index.dir_exists(dir_id) {
        return Err(CoreError::DirNotFound);
    }
    if !source.is_file {
        return Err(CoreError::SourceNotFound);
    }
    let id = new_id();
    let dir_name = index.dir_name(dir_id);
    let meta = FileMeta {
        dir_id: String::from_str(dir_id),
        file_id: id.clone(),
        name: stored_name(source),
        hash_short: hash_short_of_bytes(source.content.as_slice()),
    };
    let caption = match &dir_name {
        Some(n) => make_file_caption_with_tag(&meta, Some(n.as_str())),
        None => make_file_caption_with_tag(&meta, None),
    };
    let sent = tg.send_file(chat_id, source.path.clone(), caption);
    proof {
        if sent is Ok {
            let row = uploaded_row(
                *source,
                id@,
                dir_id@,
                sent->Ok_0.chat_id,
                sent->Ok_0.message_id,
                if index@.has_file(id@) {
                    index@.file(id@).created_at
                } else {
                    now
                },
            );
            if index@.has_file(id@) {
                lemma_put_file_known(index@, row);
            } else {
                lemma_put_file_new(index@, row);
            }
        }
    }
    settle_upload(index, dir_id, source, id, sent, now)
}

// ---------------------------------------------------------------------------
// Delete
// ---------------------------------------------------------------------------
/// Deletes a file: its message if the transport allows, and its entry in
/// any case. Returns the entry that was removed, so that the caller can
/// clear the cache of it.
pub fn delete_file<T: TelegramService>(index: &mut Index, tg: &mut T, file_id: &str) -> (r: Result<
    FileEntry,
    CoreError,
>)
    ensures
        old(index)@.wf() ==> final(index)@.wf(),
        match r {
            Ok(row) => old(index)@.has_file(file_id@) && row@ == old(index)@.file(file_id@)
                && final(index)@ == old(index)@.remove_file(file_id@),
            Err(e) => e is FileNotFound && !old(index)@.has_file(file_id@) && final(index)@ == old(
                index,
            )@ && *final(tg) == *old(tg),
        },
{
    let row = match index.get_file(file_id) {
        Some(f) => f,
        None => {
            return Err(CoreError::FileNotFound);
        },
    };
    let _ = tg.delete_messages(row.tg_chat_id, vec![row.tg_msg_id], true);
    index.remove_file(file_id);
    Ok(row)
}

/// The index without the files of the given ids.
pub open spec fn without_files(v: IndexView, ids: Seq<Seq<char>>) -> IndexView
    decreases ids.len(),
{
    if ids.len() == 0 {
        v
    } else {
        without_files(v, ids.drop_last()).remove_file(ids.last())
    }
}

/// The texts of a slice of strings.
pub open spec fn id_texts(ids: Seq<String>) -> Seq<Seq<char>> {
    Seq::new(ids.len(), |i: int| ids[i]@)
}

/// The files that the index has for the ids, in the order of the ids.
pub open spec fn files_named(v: IndexView, ids: Seq<Seq<char>>) -> Seq<FileView>
    decreases ids.len(),
{
    if ids.len() == 0 {
        Seq::empty()
    } else if v.has_file(ids.last()) {
        files_named(v, ids.drop_last()).push(v.file(ids.last()))
    } else {
        files_named(v, ids.drop_last())
    }
}

/// The views of the rows.
pub open spec fn row_views(rows: Seq<FileEntry>) -> Seq<FileView> {
    Seq::new(rows.len(), |i: int| rows[i]@)
}

/// The groups as pairs of a chat and its messages.
pub open spec fn group_views(groups: Seq<(ChatId, Vec<MessageId>)>) -> Seq<(i64, Seq<i64>)> {
    Seq::new(groups.len(), |i: int| (groups[i].0, groups[i].1@))
}

/// Whether a group is that of the given chat.
pub open spec fn of_chat(chat_id: i64) -> spec_fn((i64, Seq<i64>)) -> bool {
    |g: (i64, Seq<i64>)| g.0 == chat_id
}

/// The groups with one more message: it joins the messages of the first
/// group of its chat, or opens a group of its own behind the others.
pub open spec fn with_message(groups: Seq<(i64, Seq<i64>)>, chat_id: i64, msg_id: i64) -> Seq<
    (i64, Seq<i64>),
> {
    let i = first_index(groups, of_chat(chat_id));
    if i < groups.len() {
        groups.update(i, (chat_id, groups[i].1.push(msg_id)))
    } else {
        groups.push((chat_id, seq![msg_id]))
    }
}

/// Adds the message to the group of its chat, opening one if need be.
fn group_message(groups: &mut Vec<(ChatId, Vec<MessageId>)>, chat_id: ChatId, msg_id: MessageId)
    ensures
        group_views(final(groups)@) == with_message(group_views(old(groups)@), chat_id, msg_id),
{
    let ghost before = group_views(groups@);
    let ghost mine = of_chat(chat_id);
    let mut i: usize = 0;
    while i < groups.len()
        invariant
            i <= groups.len(),
            groups@ == old(groups)@,
            before == group_views(old(groups)@),
            mine == of_chat(chat_id),
            forall|k: int| 0 <= k < i ==> !mine(before[k]),
        decreases groups.len() - i,
    {
        if groups[i].0 == chat_id {
            let mut ids: Vec<MessageId> = Vec::new();
            let mut k: usize = 0;
            while k < groups[i].1.len()
                invariant
                    i < groups.len(),
                    k <= groups@[i as int].1.len(),
                    groups@ == old(groups)@,
                    ids@ == groups@[i as int].1@.take(k as int),
                decreases groups@[i as int].1.len() - k,
            {
                ids.push(groups[i].1[k]);
                assert(ids@ =~= groups@[i as int].1@.take(k + 1));
                k += 1;
            }
            assert(groups@[i as int].1@.take(k as int) =~= groups@[i as int].1@);
            ids.push(msg_id);
            proof {
                assert(mine(before[i as int]));
                lemma_first_index(before, mine, i as int);
            }
            groups.set(i, (chat_id, ids));
            assert(group_views(groups@) =~= before.update(
                i as int,
                (chat_id, before[i as int].1.push(msg_id)),
            ));
            return ;
        }
        assert(!mine(before[i as int]));
        i += 1;
    }
    proof {
        lemma_first_index(before, mine, i as int);
    }
    let single: Vec<MessageId> = vec![msg_id];
    assert(single@ =~= seq![msg_id]);
    groups.push((chat_id, single));
    assert(group_views(groups@) =~= before.push((chat_id, seq![msg_id])));
}

/// Deletes several files. Ids that the index does not know are passed over.
/// The messages are deleted chat by chat, as far as the transport allows;
/// the entries are removed in any case. Returns the entries that were
/// removed, in the order of the ids.
pub fn delete_files<T: TelegramService>(
    index: &mut Index,
    tg: &mut T,
    file_ids: &Vec<String>,
) -> (r: Vec<FileEntry>)
    ensures
        final(index)@ == without_files(old(index)@, id_texts(file_ids@)),
        old(index)@.wf() ==> final(index)@.wf(),
        row_views(r@) == files_named(old(index)@, id_texts(file_ids@)),
{
    let ghost before = index@;
    let mut rows: Vec<FileEntry> = Vec::new();
    let mut groups: Vec<(ChatId, Vec<MessageId>)> = Vec::new();
    let mut i: usize = 0;
    assert(id_texts(file_ids@).take(0) =~= Seq::empty());
    assert(row_views(rows@) =~= Seq::empty());
    while i < file_ids.len()
        invariant
            i <= file_ids.len(),
            index@ == before,
            row_views(rows@) == files_named(before, id_texts(file_ids@).take(i as int)),
        decreases file_ids.len() - i,
    {
        proof {
            let part = id_texts(file_ids@).take(i + 1);
            assert(part.drop_last() =~= id_texts(file_ids@).take(i as int));
            assert(part.last() == file_ids@[i as int]@);
        }
        match index.get_file(file_ids[i].as_str()) {
            Some(row) => {
                group_message(&mut groups, row.tg_chat_id, row.tg_msg_id);
                let ghost seen = row_views(rows@);
                let ghost view = row@;
                rows.push(row);
                assert(row_views(rows@) =~= seen.push(view));
            },
            None => {},
        }
        i += 1;
    }
    assert(id_texts(file_ids@).take(i as int) =~= id_texts(file_ids@));
    let mut g: usize = 0;
    while g < groups.len()
        invariant
            g <= groups.len(),
            index@ == before,
        decreases groups.len() - g,
    {
        let mut ids: Vec<MessageId> = Vec::new();
        let mut k: usize = 0;
        while k < groups[g].1.len()
            invariant
                g < groups.len(),
                k <= groups@[g as int].1.len(),
            decreases groups@[g as int].1.len() - k,
        {
            ids.push(groups[g].1[k]);
            k += 1;
        }
        let _ = tg.delete_messages(groups[g].0, ids, true);
        g += 1;
    }
    let mut j: usize = 0;
    assert(id_texts(file_ids@).take(0) =~= Seq::empty());
    while j < file_ids.len()
        invariant
            j <= file_ids.len(),
            index@ == without_files(before, id_texts(file_ids@).take(j as int)),
            before.wf() ==> index@.wf(),
        decreases file_ids.len() - j,
    {
        proof {
            let part = id_texts(file_ids@).take(j + 1);
            assert(part.drop_last() =~= id_texts(file_ids@).take(j as int));
            assert(part.last() == file_ids@[j as int]@);
        }
        index.remove_file(file_ids[j].as_str());
        j += 1;
    }
    assert(id_texts(file_ids@).take(j as int) =~= id_texts(file_ids@));
    rows
}

} // verus!
