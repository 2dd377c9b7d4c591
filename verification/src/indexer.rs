//! Indexer: what one message of the storage channel is, and what it does to
//! the index.

use crate::digest::{hash_short_from_seed, text_fingerprint};
use crate::dirs::{create_dir, created_dir};
use crate::error::CoreError;
use crate::fsmeta::{
    parse_dir_message, parse_dir_text, parse_file_caption, parse_file_text, DirMeta, DirMetaView,
    FileMeta, FileMetaView,
};
use crate::ids::{is_ulid_text, new_id};
use crate::index::Index;
use crate::model::{
    lemma_index_of, lemma_index_of_found, lemma_keeps_trans, lemma_placeholder, lemma_put_dir_known,
    lemma_put_dir_new, lemma_put_dir_wf, lemma_put_file_wf, lemma_put_keeps,
    opt_text,
    placeholder_dir, DirView, DirectoryEntry, FileEntry, FileView, IndexView, ROOT_ID,
    UNASSIGNED_DIR_NAME,
};
use crate::tags::{
    extract_folder_tags, folder_tags, make_file_caption_with_tag, normalize_tag_name,
    string_views, tag_name,
};
use crate::telegram::{
    tg_error_text, ChatId, HistoryMessage, MessageId, TelegramService, TgError,
};
use crate::text::{
    append_i64, append_str, chars_eq_ignore_ascii_case, chars_of,
    eq_ignore_ascii_case, int_text, is_blank, str_eq, str_is_blank, string_of,
};
use vstd::prelude::*;

verus! {

/// What indexing one message came to.
#[derive(Debug, Clone, Copy, PartialEq, Eq)]
pub struct IndexOutcome {
    /// The message is the record of a directory.
    pub dir: bool,
    /// The message is, or has become, the record of a file.
    pub file: bool,
    /// A foreign attachment was taken into the index.
    pub imported: bool,
    /// The message was passed over.
    pub skipped: bool,
    /// Indexing the message failed.
    pub failed: bool,
}

impl Default for IndexOutcome {
    fn default() -> (r: Self)
        ensures
            r == (IndexOutcome {
                dir: false,
                file: false,
                imported: false,
                skipped: false,
                failed: false,
            }),
    {
        IndexOutcome { dir: false, file: false, imported: false, skipped: false, failed: false }
    }
}

// ---------------------------------------------------------------------------
// Records of the engine itself
// ---------------------------------------------------------------------------
/// The parent that a directory record names: none for `ROOT` or a blank.
pub open spec fn record_parent(parent: Seq<char>) -> Option<Seq<char>> {
    if parent == ROOT_ID@ || is_blank(parent) {
        None
    } else {
        Some(parent)
    }
}

/// The row that a directory record stands for.
pub open spec fn dir_row(m: DirMetaView, msg_id: i64, date: i64) -> DirView {
    DirView {
        id: m.dir_id,
        parent_id: record_parent(m.parent_id),
        name: m.name,
        tg_msg_id: Some(msg_id),
        updated_at: date,
        is_broken: false,
    }
}

/// The index after a directory record was read: a placeholder stands for a
/// parent not known yet, and the row of the directory is inserted or
/// overwritten, with its flag cleared.
pub open spec fn upsert_dir_view(
    v: IndexView,
    m: DirMetaView,
    msg_id: i64,
    date: i64,
) -> IndexView {
    let with_parent = match record_parent(m.parent_id) {
        Some(p) => v.ensure_placeholder(p, date),
        None => v,
    };
    with_parent.put_dir(dir_row(m, msg_id, date))
}

/// The row that a file record stands for, given the row that the index has
/// for the file, if any. An existing row keeps its date and its flag.
pub open spec fn file_row(
    known: Option<FileView>,
    m: FileMetaView,
    chat_id: i64,
    msg_id: i64,
    date: i64,
    size: i64,
) -> FileView {
    FileView {
        id: m.file_id,
        dir_id: m.dir_id,
        name: m.name,
        size,
        hash: m.hash_short,
        tg_chat_id: chat_id,
        tg_msg_id: msg_id,
        created_at: match known {
            Some(f) => f.created_at,
            None => date,
        },
        is_broken: match known {
            Some(f) => f.is_broken,
            None => false,
        },
    }
}

/// The index after a file record was read: a placeholder stands for a
/// directory not known yet, and the row of the file is inserted or
/// overwritten.
pub open spec fn upsert_file_view(
    v: IndexView,
    m: FileMetaView,
    chat_id: i64,
    msg_id: i64,
    date: i64,
    size: i64,
) -> IndexView {
    let with_dir = v.ensure_placeholder(m.dir_id, date);
    let known = if with_dir.has_file(m.file_id) {
        Some(with_dir.file(m.file_id))
    } else {
        None
    };
    with_dir.put_file(file_row(known, m, chat_id, msg_id, date, size))
}

/// Reads a directory record into the index.
pub fn upsert_dir(index: &mut Index, meta: &DirMeta, msg_id: i64, date: i64)
    ensures
        final(index)@ == upsert_dir_view(old(index)@, meta@, msg_id, date),
        old(index)@.wf() ==> final(index)@.wf(),
        old(index)@.keeps(final(index)@),
{
    let ghost before = index@;
    let parent: Option<String> = if str_eq(meta.parent_id.as_str(), ROOT_ID) || str_is_blank(
        meta.parent_id.as_str(),
    ) {
        None
    } else {
        Some(meta.parent_id.clone())
    };
    match &parent {
        Some(p) => {
            index.ensure_dir_placeholder(p.as_str(), date);
            proof {
                lemma_placeholder(before, p@, date);
                lemma_put_keeps(before, placeholder_dir(p@, date), arbitrary());
            }
        },
        None => {},
    }
    proof {
        lemma_put_keeps(before, arbitrary(), arbitrary());
    }
    let ghost mid = index@;
    let row = DirectoryEntry {
        id: meta.dir_id.clone(),
        parent_id: parent,
        name: meta.name.clone(),
        tg_msg_id: Some(msg_id),
        updated_at: date,
        is_broken: false,
    };
    proof {
        lemma_put_keeps(mid, row@, arbitrary());
        lemma_keeps_trans(before, mid, mid.put_dir(row@));
    }
    index.put_dir(row);
}

/// Reads a file record into the index.
pub fn upsert_file(
    index: &mut Index,
    meta: &FileMeta,
    chat_id: i64,
    msg_id: i64,
    date: i64,
    size: i64,
)
    ensures
        final(index)@ == upsert_file_view(old(index)@, meta@, chat_id, msg_id, date, size),
        old(index)@.wf() ==> final(index)@.wf(),
        old(index)@.keeps(final(index)@),
{
    let ghost before = index@;
    index.ensure_dir_placeholder(meta.dir_id.as_str(), date);
    proof {
        lemma_placeholder(before, meta.dir_id@, date);
        lemma_put_keeps(before, placeholder_dir(meta.dir_id@, date), arbitrary());
    }
    let ghost mid = index@;
    let (created_at, is_broken) = match index.get_file(meta.file_id.as_str()) {
        Some(f) => (f.created_at, f.is_broken),
        None => (date, false),
    };
    let row = FileEntry {
        id: meta.file_id.clone(),
        dir_id: meta.dir_id.clone(),
        name: meta.name.clone(),
        size,
        hash: meta.hash_short.clone(),
        tg_chat_id: chat_id,
        tg_msg_id: msg_id,
        created_at,
        is_broken,
    };
    proof {
        lemma_put_keeps(mid, arbitrary(), row@);
        lemma_keeps_trans(before, mid, mid.put_file(row@));
    }
    index.put_file(row);
}

/// A file record that names a directory not known yet adds exactly one
/// placeholder row for it. A directory record of that id, read later,
/// overwrites the name and the parent of that row where it stands: the
/// index still has one row of that id, and no two rows share an id.
pub proof fn law_placeholder_resolution(
    v: IndexView,
    f: FileMetaView,
    chat_id: i64,
    msg_id: i64,
    date: i64,
    size: i64,
    d: DirMetaView,
    dir_msg_id: i64,
    dir_date: i64,
)
    requires
        v.wf(),
        !v.has_dir(f.dir_id),
        !is_blank(f.dir_id),
        d.dir_id == f.dir_id,
    ensures
        ({
            let v1 = upsert_file_view(v, f, chat_id, msg_id, date, size);
            let v2 = upsert_dir_view(v1, d, dir_msg_id, dir_date);
            &&& v1.dirs == v.dirs.push(placeholder_dir(f.dir_id, date))
            &&& v1.wf()
            &&& v2.wf()
            &&& v2.has_dir(f.dir_id)
            &&& v2.dir_pos(f.dir_id) == v.dirs.len()
            &&& v2.dir(f.dir_id) == dir_row(d, dir_msg_id, dir_date)
            &&& v2.dirs.len() <= v1.dirs.len() + 1
            &&& v2.files == v1.files
        }),
{
    let id = f.dir_id;
    let with_dir = v.ensure_placeholder(id, date);
    lemma_placeholder(v, id, date);
    lemma_put_dir_new(v, placeholder_dir(id, date));
    let known = if with_dir.has_file(f.file_id) {
        Some(with_dir.file(f.file_id))
    } else {
        None
    };
    let row = file_row(known, f, chat_id, msg_id, date, size);
    lemma_put_file_wf(with_dir, row);
    let v1 = with_dir.put_file(row);
    assert(v1.dirs == with_dir.dirs);
    assert(v1.dir_ids() =~= with_dir.dir_ids());
    let with_parent = match record_parent(d.parent_id) {
        Some(p) => v1.ensure_placeholder(p, dir_date),
        None => v1,
    };
    match record_parent(d.parent_id) {
        Some(p) => {
            lemma_placeholder(v1, p, dir_date);
            assert(v1.has_dir(id));
            assert(with_parent.has_dir(id));
        },
        None => {},
    }
    lemma_put_dir_known(with_parent, dir_row(d, dir_msg_id, dir_date));
    lemma_put_dir_wf(with_parent, dir_row(d, dir_msg_id, dir_date));
}

// ---------------------------------------------------------------------------
// What a message is
// ---------------------------------------------------------------------------
/// What a message of the storage channel is.
pub enum MessageClass {
    /// The record of a directory.
    Directory(DirMetaView),
    /// The record of a file.
    File(FileMetaView),
    /// A file without a record.
    Attachment,
    /// Nothing that the index holds.
    Other,
}

/// Whether a message carries a file: it reports a size, or a name that is
/// not blank.
pub open spec fn has_attachment(msg: HistoryMessage) -> bool {
    msg.file_size is Some || (msg.file_name is Some && !is_blank(msg.file_name->0@))
}

/// What a message is: the record of a directory if its text reads as one,
/// else the record of a file if its caption reads as one, else a foreign
/// attachment if it carries a file.
pub open spec fn classify(msg: HistoryMessage) -> MessageClass {
    if msg.text is Some && parse_dir_text(msg.text->0@) is Ok {
        MessageClass::Directory(parse_dir_text(msg.text->0@)->Ok_0)
    } else if msg.caption is Some && parse_file_text(msg.caption->0@) is Ok {
        MessageClass::File(parse_file_text(msg.caption->0@)->Ok_0)
    } else if has_attachment(msg) {
        MessageClass::Attachment
    } else {
        MessageClass::Other
    }
}

/// The kinds of messages, without what a record says.
#[derive(Debug, Clone, Copy, PartialEq, Eq)]
pub enum MessageKind {
    Directory,
    File,
    Attachment,
    Other,
}

/// The kind of a message.
pub open spec fn kind_of(msg: HistoryMessage) -> MessageKind {
    match classify(msg) {
        MessageClass::Directory(_) => MessageKind::Directory,
        MessageClass::File(_) => MessageKind::File,
        MessageClass::Attachment => MessageKind::Attachment,
        MessageClass::Other => MessageKind::Other,
    }
}

/// Tells what kind of message this is.
pub fn message_kind(msg: &HistoryMessage) -> (r: MessageKind)
    ensures
        r == kind_of(*msg),
{
    match &msg.text {
        Some(text) => {
            if parse_dir_message(text.as_str()).is_ok() {
                return MessageKind::Directory;
            }
        },
        None => {},
    }
    match &msg.caption {
        Some(caption) => {
            if parse_file_caption(caption.as_str()).is_ok() {
                return MessageKind::File;
            }
        },
        None => {},
    }
    let named = match &msg.file_name {
        Some(n) => !str_is_blank(n.as_str()),
        None => false,
    };
    if msg.file_size.is_some() || named {
        MessageKind::Attachment
    } else {
        MessageKind::Other
    }
}

/// The size that a message reports for its file, 0 when it reports none.
pub open spec fn size_of(msg: HistoryMessage) -> i64 {
    match msg.file_size {
        Some(s) => s,
        None => 0,
    }
}

// ---------------------------------------------------------------------------
// Import of foreign attachments
// ---------------------------------------------------------------------------
/// Whether directory `a` is chosen before directory `b` among directories
/// of one name: a top-level directory first, then the one changed last.
pub open spec fn preferred_over(a: DirView, b: DirView) -> bool {
    (a.parent_id is None && b.parent_id is Some) || ((a.parent_id is None) == (b.parent_id is None)
        && a.updated_at > b.updated_at)
}

/// Where the directory stands that is chosen for a name, letter case of
/// ASCII apart. Among equals the first stands.
pub open spec fn best_named(dirs: Seq<DirView>, name: Seq<char>) -> Option<int>
    decreases dirs.len(),
{
    if dirs.len() == 0 {
        None
    } else {
        let before = best_named(dirs.drop_last(), name);
        if !eq_ignore_ascii_case(dirs.last().name, name) {
            before
        } else {
            match before {
                None => Some(dirs.len() - 1),
                Some(i) => if preferred_over(dirs.last(), dirs[i]) {
                    Some(dirs.len() - 1)
                } else {
                    Some(i)
                },
            }
        }
    }
}

/// The id and the name of the directory chosen for a name, if any has it.
pub fn find_dir_by_name(index: &Index, name: &str) -> (r: Option<(String, String)>)
    ensures
        match r {
            Some((id, found)) => best_named(index@.dirs, name@) matches Some(i) && 0 <= i
                < index@.dirs.len() && id@ == index@.dirs[i].id && found@ == index@.dirs[i].name,
            None => best_named(index@.dirs, name@) is None,
        },
{
    let wanted = chars_of(name);
    let mut best: Option<usize> = None;
    let mut i: usize = 0;
    assert(index@.dirs.take(0) =~= Seq::empty());
    while i < index.dirs.len()
        invariant
            i <= index.dirs.len(),
            wanted@ == name@,
            match best {
                Some(b) => b < i && best_named(index@.dirs.take(i as int), name@) == Some(b as int),
                None => best_named(index@.dirs.take(i as int), name@) is None,
            },
        decreases index.dirs.len() - i,
    {
        proof {
            let part = index@.dirs.take(i + 1);
            assert(part.drop_last() =~= index@.dirs.take(i as int));
            assert(part.last() == index.dirs@[i as int]@);
            match best {
                Some(b) => {
                    assert(part[b as int] == index.dirs@[b as int]@);
                },
                None => {},
            }
        }
        if chars_eq_ignore_ascii_case(&chars_of(index.dirs[i].name.as_str()), &wanted) {
            match best {
                None => {
                    best = Some(i);
                },
                Some(b) => {
                    let a_top = index.dirs[i].parent_id.is_none();
                    let b_top = index.dirs[b].parent_id.is_none();
                    if (a_top && !b_top) || (a_top == b_top && index.dirs[i].updated_at
                        > index.dirs[b].updated_at) {
                        best = Some(i);
                    }
                },
            }
        }
        i += 1;
    }
    assert(index@.dirs.take(i as int) =~= index@.dirs);
    match best {
        Some(b) => Some((index.dirs[b].id.clone(), index.dirs[b].name.clone())),
        None => None,
    }
}

/// Where an imported file goes.
pub enum ImportTarget {
    /// Into the directory of this id and name.
    Existing(String, String),
    /// Into a new directory of this name.
    Create(String),
    /// Into the directory for files without a folder.
    Unassigned,
}

/// The view of an import target.
pub enum ImportTargetView {
    Existing(Seq<char>, Seq<char>),
    Create(Seq<char>),
    Unassigned,
}

impl View for ImportTarget {
    type V = ImportTargetView;

    open spec fn view(&self) -> ImportTargetView {
        match self {
            ImportTarget::Existing(id, name) => ImportTargetView::Existing(id@, name@),
            ImportTarget::Create(name) => ImportTargetView::Create(name@),
            ImportTarget::Unassigned => ImportTargetView::Unassigned,
        }
    }
}

/// The target that the tags of a caption give, read in order: the first tag
/// whose folder name a directory has decides for that directory; if none
/// has, the first tag that gives a folder name at all asks for a new
/// directory of that name; without such a tag the file is unassigned.
pub open spec fn import_target(
    v: IndexView,
    tags: Seq<Seq<char>>,
    preferred: Option<Seq<char>>,
) -> ImportTargetView
    decreases tags.len(),
{
    if tags.len() == 0 {
        match preferred {
            Some(n) => ImportTargetView::Create(n),
            None => ImportTargetView::Unassigned,
        }
    } else {
        match tag_name(tags[0]) {
            None => import_target(v, tags.skip(1), preferred),
            Some(n) => match best_named(v.dirs, n) {
                Some(i) => ImportTargetView::Existing(v.dirs[i].id, v.dirs[i].name),
                None => import_target(
                    v,
                    tags.skip(1),
                    if preferred is Some {
                        preferred
                    } else {
                        Some(n)
                    },
                ),
            },
        }
    }
}

/// Chooses the directory for a foreign attachment by the tags of its
/// caption.
pub fn pick_import_target(index: &Index, caption: &str) -> (r: ImportTarget)
    ensures
        r@ == import_target(index@, folder_tags(caption@), None),
        r matches ImportTarget::Existing(id, _) ==> index@.has_dir(id@),
{
    let tags = extract_folder_tags(caption);
    let mut preferred: Option<String> = None;
    let mut i: usize = 0;
    assert(string_views(tags@).skip(0) =~= string_views(tags@));
    while i < tags.len()
        invariant
            i <= tags.len(),
            import_target(index@, string_views(tags@).skip(i as int), opt_text(preferred))
                == import_target(index@, folder_tags(caption@), None),
        decreases tags.len() - i,
    {
        proof {
            let rest = string_views(tags@).skip(i as int);
            assert(rest[0] == tags@[i as int]@);
            assert(rest.skip(1) =~= string_views(tags@).skip(i + 1));
        }
        match normalize_tag_name(tags[i].as_str()) {
            Some(name) => {
                match find_dir_by_name(index, name.as_str()) {
                    Some((id, found)) => {
                        proof {
                            let k = best_named(index@.dirs, name@)->0;
                            assert(index@.dir_ids()[k] == id@);
                            lemma_index_of_found(index@.dir_ids(), id@);
                        }
                        return ImportTarget::Existing(id, found);
                    },
                    None => {
                        if preferred.is_none() {
                            preferred = Some(name);
                        }
                    },
                }
            },
            None => {},
        }
        i += 1;
    }
    match preferred {
        Some(n) => ImportTarget::Create(n),
        None => ImportTarget::Unassigned,
    }
}

/// Whether `after` is `before` with one directory more: a directory at the
/// top, of the given id and name, new and published.
pub open spec fn dir_added(
    before: IndexView,
    after: IndexView,
    id: Seq<char>,
    name: Seq<char>,
    now: i64,
) -> bool {
    &&& !before.has_dir(id)
    &&& after.dirs.len() == before.dirs.len() + 1
    &&& after.dirs.drop_last() == before.dirs
    &&& after.dirs.last().tg_msg_id is Some
    &&& after.dirs.last() == created_dir(id, None, name, after.dirs.last().tg_msg_id, now)
}

/// A new directory is asked for only under a name that no directory has.
proof fn lemma_create_is_unknown(v: IndexView, tags: Seq<Seq<char>>, preferred: Option<Seq<char>>)
    requires
        preferred matches Some(p) ==> best_named(v.dirs, p) is None,
    ensures
        import_target(v, tags, preferred) matches ImportTargetView::Create(n) ==> best_named(
            v.dirs,
            n,
        ) is None,
    decreases tags.len(),
{
    if tags.len() > 0 {
        match tag_name(tags[0]) {
            None => {
                lemma_create_is_unknown(v, tags.skip(1), preferred);
            },
            Some(n) => {
                if best_named(v.dirs, n) is None {
                    lemma_create_is_unknown(
                        v,
                        tags.skip(1),
                        if preferred is Some {
                            preferred
                        } else {
                            Some(n)
                        },
                    );
                }
            },
        }
    }
}

/// The directory of the given name: the one chosen among those that have
/// the name, or a new top-level directory.
fn ensure_dir_by_name<T: TelegramService>(
    index: &mut Index,
    tg: &mut T,
    storage_chat_id: ChatId,
    name: &str,
    now: i64,
) -> (r: Result<(String, String), CoreError>)
    ensures
        old(index)@.wf() ==> final(index)@.wf(),
        final(index)@.files == old(index)@.files,
        old(index)@.dirs.len() <= final(index)@.dirs.len() <= old(index)@.dirs.len() + 1,
        final(index)@.dirs.take(old(index)@.dirs.len() as int) == old(index)@.dirs,
        r matches Ok((id, _)) ==> final(index)@.has_dir(id@),
        r matches Err(e) ==> e is Transport || e is Store,
        match best_named(old(index)@.dirs, name@) {
            Some(i) => final(index)@ == old(index)@ && (r matches Ok((id, found)) && id@ == old(
                index,
            )@.dirs[i].id && found@ == old(index)@.dirs[i].name),
            None => r matches Ok((id, made)) ==> made@ == name@ && dir_added(
                old(index)@,
                final(index)@,
                id@,
                name@,
                now,
            ),
        },
{
    let ghost before = index@;
    match find_dir_by_name(index, name) {
        Some((id, found)) => {
            proof {
                let k = best_named(index@.dirs, name@)->0;
                assert(index@.dir_ids()[k] == id@);
                lemma_index_of_found(index@.dir_ids(), id@);
                assert(index@.dirs.take(index@.dirs.len() as int) =~= index@.dirs);
            }
            return Ok((id, found));
        },
        None => {},
    }
    match create_dir(index, tg, storage_chat_id, None, String::from_str(name), now) {
        Ok(id) => {
            proof {
                assert(index@.dirs.take(before.dirs.len() as int) =~= before.dirs);
                assert(index@.dir_ids() =~= before.dir_ids().push(id@));
                lemma_index_of_found(before.dir_ids(), id@);
                lemma_index_of(index@.dir_ids(), id@, before.dirs.len() as int);
            }
            Ok((id, String::from_str(name)))
        },
        Err(e) => {
            proof {
                if e is Store {
                    assert(index@.dirs.take(before.dirs.len() as int) =~= before.dirs);
                } else {
                    assert(index@.dirs.take(before.dirs.len() as int) =~= index@.dirs.drop_last());
                }
            }
            Err(e)
        },
    }
}

/// The words of two attempts that failed, one after the other.
pub fn both_failures(first: &TgError, second: &TgError) -> (r: String)
    ensures
        r@ == tg_error_text(*first) + "; "@ + tg_error_text(*second),
{
    let mut out = chars_of(first.message().as_str());
    append_str(&mut out, "; ");
    append_str(&mut out, second.message().as_str());
    string_of(&out)
}

/// Tries twice, with a pause between, to put the caption on the message.
/// On failure returns the words of both attempts.
fn edit_caption_with_retry<T: TelegramService>(
    tg: &mut T,
    chat_id: ChatId,
    message_id: MessageId,
    caption: &str,
) -> Result<(), String> {
    match tg.edit_message_caption(chat_id, message_id, String::from_str(caption)) {
        Ok(()) => Ok(()),
        Err(first) => {
            tg.pause(600);
            match tg.edit_message_caption(chat_id, message_id, String::from_str(caption)) {
                Ok(()) => Ok(()),
                Err(second) => Err(both_failures(&first, &second)),
            }
        },
    }
}

/// The pause, in milliseconds, after the attempt of the given number to see
/// a message.
pub open spec fn exists_delay(attempt: int) -> u64 {
    if attempt == 0 {
        150
    } else if attempt == 1 {
        500
    } else if attempt == 2 {
        1000
    } else {
        1500
    }
}

fn delay_after(attempt: u32) -> (r: u64)
    ensures
        r == exists_delay(attempt as int),
{
    if attempt == 0 {
        150
    } else if attempt == 1 {
        500
    } else if attempt == 2 {
        1000
    } else {
        1500
    }
}

/// Whether an answer confirms that the message exists: only a plain yes
/// does, a failure of the transport does not.
pub fn confirms(answer: &Result<bool, TgError>) -> (r: bool)
    ensures
        r == (answer matches Ok(true)),
{
    match answer {
        Ok(seen) => *seen,
        Err(_) => false,
    }
}

/// Asks up to four times, with growing pauses, whether the message exists.
/// A message that was never confirmed counts as gone.
fn message_exists_with_retry<T: TelegramService>(
    tg: &mut T,
    chat_id: ChatId,
    message_id: MessageId,
) -> bool {
    let mut attempt: u32 = 0;
    while attempt < 4
        invariant
            attempt <= 4,
        decreases 4 - attempt,
    {
        if confirms(&tg.message_exists(chat_id, message_id)) {
            return true;
        }
        tg.pause(delay_after(attempt));
        attempt += 1;
    }
    false
}

/// The caption of a message, empty when it has none.
pub open spec fn caption_of(msg: HistoryMessage) -> Seq<char> {
    match msg.caption {
        Some(c) => c@,
        None => Seq::empty(),
    }
}

/// The directory that is remembered for files without a folder, as texts.
pub open spec fn remembered(cache: Option<(String, String)>) -> Option<(Seq<char>, Seq<char>)> {
    match cache {
        Some((id, name)) => Some((id@, name@)),
        None => None,
    }
}

/// The id of the directory that is remembered.
pub open spec fn kept_id(cache: Option<(Seq<char>, Seq<char>)>) -> Seq<char> {
    match cache {
        Some((id, _)) => id,
        None => Seq::empty(),
    }
}

/// The name of the directory that is remembered.
pub open spec fn kept_name(cache: Option<(Seq<char>, Seq<char>)>) -> Seq<char> {
    match cache {
        Some((_, name)) => name,
        None => Seq::empty(),
    }
}

/// Where an import puts its file, and what it does to have the directory.
///
/// A tag that names a directory of the index decides for that directory:
/// nothing is made, and the import cannot fail. Else the first tag that
/// gives a name asks for a new directory of that name. Without such a tag
/// the file goes to the directory that is remembered for files without a
/// folder; when none is remembered yet, the directory of that name is
/// looked up, or made, and remembered from then on.
pub open spec fn import_placed(
    before: IndexView,
    after: IndexView,
    cache_before: Option<(Seq<char>, Seq<char>)>,
    cache_after: Option<(Seq<char>, Seq<char>)>,
    caption: Seq<char>,
    r: Result<ImportAction, CoreError>,
    now: i64,
) -> bool {
    let imported = r matches Ok(ImportAction::Imported);
    match import_target(before, folder_tags(caption), None) {
        ImportTargetView::Existing(id, _) => {
            &&& r is Ok
            &&& after.dirs == before.dirs
            &&& cache_after == cache_before
            &&& imported ==> after.files.last().dir_id == id
        },
        ImportTargetView::Create(name) => {
            &&& cache_after == cache_before
            &&& r is Ok ==> dir_added(before, after, after.dirs.last().id, name, now)
            &&& imported ==> after.files.last().dir_id == after.dirs.last().id
        },
        ImportTargetView::Unassigned => match cache_before {
            Some((id, _)) => {
                &&& r is Ok
                &&& after.dirs == before.dirs
                &&& cache_after == cache_before
                &&& imported ==> after.files.last().dir_id == id
            },
            None => match r {
                Ok(_) => {
                    &&& cache_after is Some
                    &&& imported ==> after.files.last().dir_id == kept_id(cache_after)
                    &&& match best_named(before.dirs, UNASSIGNED_DIR_NAME@) {
                        Some(i) => {
                            &&& kept_id(cache_after) == before.dirs[i].id
                            &&& kept_name(cache_after) == before.dirs[i].name
                            &&& after.dirs == before.dirs
                        },
                        None => {
                            &&& kept_name(cache_after) == UNASSIGNED_DIR_NAME@
                            &&& dir_added(
                                before,
                                after,
                                kept_id(cache_after),
                                UNASSIGNED_DIR_NAME@,
                                now,
                            )
                        },
                    }
                },
                Err(_) => cache_after is None && best_named(before.dirs, UNASSIGNED_DIR_NAME@)
                    is None,
            },
        },
    }
}

/// What indexing a foreign attachment may do to the files that its message
/// backs: a message that backs a file already changes nothing, and a message
/// that backs at most one file backs at most one afterwards.
pub open spec fn guarded_import(before: IndexView, after: IndexView, chat_id: i64, msg_id: i64) -> bool {
    &&& before.files_at(chat_id, msg_id) > 0 ==> after == before
    &&& before.files_at(chat_id, msg_id) <= 1 ==> after.files_at(chat_id, msg_id) <= 1
}

/// Indexing the same attachment twice never leaves two files backed by its
/// message: once a file is backed by it, indexing it again changes nothing.
pub proof fn law_import_once(
    v0: IndexView,
    v1: IndexView,
    v2: IndexView,
    chat_id: i64,
    msg_id: i64,
)
    requires
        v0.files_at(chat_id, msg_id) == 0,
        guarded_import(v0, v1, chat_id, msg_id),
        guarded_import(v1, v2, chat_id, msg_id),
    ensures
        v2.files_at(chat_id, msg_id) <= 1,
        v1.files_at(chat_id, msg_id) == 1 ==> v2 == v1,
{
}

/// What became of a foreign attachment.
#[derive(Debug, Clone, Copy, PartialEq, Eq)]
pub enum ImportAction {
    Imported,
    Skipped,
}

/// The name under which a foreign attachment is imported: the name that the
/// message reports, or one made of the message id.
pub open spec fn import_name(msg: HistoryMessage) -> Seq<char> {
    if msg.file_name is Some && !is_blank(msg.file_name->0@) {
        msg.file_name->0@
    } else {
        "файл_"@ + int_text(msg.id as int)
    }
}

/// The text whose fingerprint an imported file gets.
pub open spec fn import_seed(chat_id: i64, msg: HistoryMessage) -> Seq<char> {
    int_text(chat_id as int) + seq![':'] + int_text(msg.id as int) + seq![':'] + import_name(msg)
        + seq![':'] + int_text(size_of(msg) as int)
}

fn import_file_name(msg: &HistoryMessage) -> (r: String)
    ensures
        r@ == import_name(*msg),
{
    match &msg.file_name {
        Some(n) => {
            if !str_is_blank(n.as_str()) {
                return n.clone();
            }
        },
        None => {},
    }
    let mut out = chars_of("файл_");
    append_i64(&mut out, msg.id);
    string_of(&out)
}

fn import_seed_text(chat_id: ChatId, msg: &HistoryMessage, file_name: &str, size: i64) -> (r: String)
    requires
        file_name@ == import_name(*msg),
        size == size_of(*msg),
    ensures
        r@ == import_seed(chat_id, *msg),
{
    let mut out: Vec<char> = Vec::new();
    append_i64(&mut out, chat_id);
    out.push(':');
    append_i64(&mut out, msg.id);
    out.push(':');
    append_str(&mut out, file_name);
    out.push(':');
    append_i64(&mut out, size);
    assert(out@ =~= import_seed(chat_id, *msg));
    string_of(&out)
}

/// The row under which a foreign attachment is imported.
pub open spec fn imported_row(
    id: Seq<char>,
    dir_id: Seq<char>,
    chat_id: i64,
    msg: HistoryMessage,
    now: i64,
) -> FileView {
    FileView {
        id,
        dir_id,
        name: import_name(msg),
        size: size_of(msg),
        hash: text_fingerprint(import_seed(chat_id, msg)),
        tg_chat_id: chat_id,
        tg_msg_id: msg.id,
        created_at: if msg.date > 0 {
            msg.date
        } else {
            now
        },
        is_broken: false,
    }
}

/// Makes the row under which a foreign attachment is imported: backed by
/// the message, named as the message says, dated by the message where it
/// has a date.
pub fn import_row(chat_id: ChatId, msg: &HistoryMessage, id: String, dir_id: String, now: i64) -> (r:
    FileEntry)
    ensures
        r@ == imported_row(id@, dir_id@, chat_id, *msg, now),
{
    let name = import_file_name(msg);
    let size: i64 = match msg.file_size {
        Some(s) => s,
        None => 0,
    };
    let hash = hash_short_from_seed(import_seed_text(chat_id, msg, name.as_str(), size).as_str());
    FileEntry {
        id,
        dir_id,
        name,
        size,
        hash,
        tg_chat_id: chat_id,
        tg_msg_id: msg.id,
        created_at: if msg.date > 0 {
            msg.date
        } else {
            now
        },
        is_broken: false,
    }
}

/// Ends an import. `seen` says whether the message was still seen to exist
/// after its caption was rewritten; whether the caption could be rewritten
/// plays no part. A message that has vanished is passed over and nothing
/// changes; else the row is added, and passed over only if its id is taken.
pub fn settle_import(index: &mut Index, row: FileEntry, seen: bool) -> (r: ImportAction)
    ensures
        old(index)@.wf() ==> final(index)@.wf(),
        if seen && !old(index)@.has_file(row@.id) {
            r == ImportAction::Imported && final(index)@.files == old(index)@.files.push(row@)
                && final(index)@.dirs == old(index)@.dirs
        } else {
            r == ImportAction::Skipped && final(index)@ == old(index)@
        },
{
    if !seen {
        return ImportAction::Skipped;
    }
    match index.insert_file(row) {
        Ok(()) => ImportAction::Imported,
        Err(_) => ImportAction::Skipped,
    }
}

/// Takes a file without a record into the index, unless a file of the
/// index is backed by the message already. The directory comes from the
/// tags of the caption. The caption is rewritten as a record, as far as the
/// transport allows, and the row is added only while the message is still
/// seen to exist.
///
/// Whatever the transport answers: a message that backs a file already
/// changes nothing; at most one row is added to the files, and it is backed
/// by this message; directories are only added, at most one. The directory
/// of the file is the one that the tags of the caption decide for, and an
/// import into a directory that is there cannot fail; see `import_placed`.
pub fn import_untagged_file<T: TelegramService>(
    index: &mut Index,
    tg: &mut T,
    storage_chat_id: ChatId,
    msg: &HistoryMessage,
    unassigned_cache: &mut Option<(String, String)>,
    now: i64,
) -> (r: Result<ImportAction, CoreError>)
    ensures
        old(index)@.wf() ==> final(index)@.wf(),
        old(index)@.files_at(storage_chat_id, msg.id) > 0 ==> r == Ok::<ImportAction, CoreError>(
            ImportAction::Skipped,
        ) && final(index)@ == old(index)@ && *final(tg) == *old(tg) && *final(unassigned_cache)
            == *old(unassigned_cache),
        old(index)@.dirs.len() <= final(index)@.dirs.len() <= old(index)@.dirs.len() + 1,
        final(index)@.dirs.take(old(index)@.dirs.len() as int) == old(index)@.dirs,
        match r {
            Ok(ImportAction::Imported) => final(index)@.files.len() == old(index)@.files.len() + 1
                && final(index)@.files.drop_last() == old(index)@.files && ({
                let row = final(index)@.files.last();
                &&& row == imported_row(row.id, row.dir_id, storage_chat_id, *msg, now)
                &&& !old(index)@.has_file(row.id)
                &&& is_ulid_text(row.id)
                &&& import_target(old(index)@, folder_tags(caption_of(*msg)), None) matches ImportTargetView::Existing(
                    id,
                    _,
                ) ==> row.dir_id == id
            }),
            Ok(ImportAction::Skipped) => final(index)@.files == old(index)@.files,
            Err(e) => final(index)@.files == old(index)@.files && (e is Transport || e is Store),
        },
        guarded_import(old(index)@, final(index)@, storage_chat_id, msg.id),
        old(index)@.files_at(storage_chat_id, msg.id) > 0 ==> remembered(*final(unassigned_cache))
            == remembered(*old(unassigned_cache)),
        old(index)@.files_at(storage_chat_id, msg.id) == 0 ==> import_placed(
            old(index)@,
            final(index)@,
            remembered(*old(unassigned_cache)),
            remembered(*final(unassigned_cache)),
            caption_of(*msg),
            r,
            now,
        ),
{
    let ghost before = index@;
    let ghost cache_before = remembered(*unassigned_cache);
    assert(before.dirs.take(before.dirs.len() as int) =~= before.dirs);
    if index.has_file_at(storage_chat_id, msg.id) {
        return Ok(ImportAction::Skipped);
    }
    let caption_text = match &msg.caption {
        Some(c) => c.clone(),
        None => String::new(),
    };
    let ghost wanted = import_target(before, folder_tags(caption_of(*msg)), None);
    proof {
        assert(caption_text@ == caption_of(*msg));
        lemma_create_is_unknown(before, folder_tags(caption_of(*msg)), None);
    }
    let target: (String, String) = match pick_import_target(index, caption_text.as_str()) {
        ImportTarget::Existing(id, name) => (id, name),
        ImportTarget::Create(name) => {
            match ensure_dir_by_name(index, tg, storage_chat_id, name.as_str(), now) {
                Ok(t) => t,
                Err(e) => {
                    return Err(e);
                },
            }
        },
        ImportTarget::Unassigned => {
            match unassigned_cache {
                Some((id, name)) => (id.clone(), name.clone()),
                None => {
                    match ensure_dir_by_name(
                        index,
                        tg,
                        storage_chat_id,
                        UNASSIGNED_DIR_NAME,
                        now,
                    ) {
                        Ok((id, name)) => {
                            *unassigned_cache = Some((id.clone(), name.clone()));
                            (id, name)
                        },
                        Err(e) => {
                            return Err(e);
                        },
                    }
                },
            }
        },
    };
    let ghost mid = index@;
    let ghost cache_after = remembered(*unassigned_cache);
    let ghost dir_id = target.0@;
    // the directory is there; what follows touches the files only
    assert(match wanted {
        ImportTargetView::Existing(id, _) => mid == before && cache_after == cache_before && dir_id
            == id,
        ImportTargetView::Create(name) => cache_after == cache_before && dir_added(
            before,
            mid,
            dir_id,
            name,
            now,
        ) && mid.files == before.files,
        ImportTargetView::Unassigned => match cache_before {
            Some((id, _)) => mid == before && cache_after == cache_before && dir_id == id,
            None => cache_after is Some && kept_id(cache_after) == dir_id && mid.files == before.files
                && (match best_named(before.dirs, UNASSIGNED_DIR_NAME@) {
                Some(i) => kept_id(cache_after) == before.dirs[i].id && kept_name(cache_after)
                    == before.dirs[i].name && mid.dirs == before.dirs,
                None => kept_name(cache_after) == UNASSIGNED_DIR_NAME@ && dir_added(
                    before,
                    mid,
                    dir_id,
                    UNASSIGNED_DIR_NAME@,
                    now,
                ),
            }),
        },
    });
    let row = import_row(storage_chat_id, msg, new_id(), target.0, now);
    let caption = make_file_caption_with_tag(
        &FileMeta {
            dir_id: row.dir_id.clone(),
            file_id: row.id.clone(),
            name: row.name.clone(),
            hash_short: row.hash.clone(),
        },
        Some(target.1.as_str()),
    );
    let _ = edit_caption_with_retry(tg, storage_chat_id, msg.id, caption.as_str());
    let seen = message_exists_with_retry(tg, storage_chat_id, msg.id);
    proof {
        assert(index@.files.push(row@).drop_last() =~= index@.files);
        assert(row@.dir_id == dir_id);
    }
    Ok(settle_import(index, row, seen))
}

/// Reads one message of the storage channel into the index.
///
/// The record of a directory or of a file is inserted or overwritten. A
/// message that carries no file and no record is passed over. A file
/// without a record is imported.
pub fn index_storage_message<T: TelegramService>(
    index: &mut Index,
    tg: &mut T,
    storage_chat_id: ChatId,
    msg: &HistoryMessage,
    unassigned_cache: &mut Option<(String, String)>,
    now: i64,
) -> (r: Result<IndexOutcome, CoreError>)
    ensures
        old(index)@.wf() ==> final(index)@.wf(),
        old(index)@.keeps(final(index)@),
        match classify(*msg) {
            MessageClass::Directory(meta) => r == Ok::<IndexOutcome, CoreError>(
                IndexOutcome {
                    dir: true,
                    file: false,
                    imported: false,
                    skipped: false,
                    failed: false,
                },
            ) && final(index)@ == upsert_dir_view(old(index)@, meta, msg.id, msg.date) && *final(tg) == *old(tg) && *final(unassigned_cache) == *old(unassigned_cache),
            MessageClass::File(meta) => r == Ok::<IndexOutcome, CoreError>(
                IndexOutcome {
                    dir: false,
                    file: true,
                    imported: false,
                    skipped: false,
                    failed: false,
                },
            ) && final(index)@ == upsert_file_view(
                old(index)@,
                meta,
                storage_chat_id,
                msg.id,
                msg.date,
                size_of(*msg),
            ) && *final(tg) == *old(tg) && *final(unassigned_cache) == *old(unassigned_cache),
            MessageClass::Other => r == Ok::<IndexOutcome, CoreError>(
                IndexOutcome {
                    dir: false,
                    file: false,
                    imported: false,
                    skipped: true,
                    failed: false,
                },
            ) && final(index)@ == old(index)@ && *final(tg) == *old(tg) && *final(unassigned_cache) == *old(unassigned_cache),
            MessageClass::Attachment => {
                &&& guarded_import(old(index)@, final(index)@, storage_chat_id, msg.id)
                &&& old(index)@.files_at(storage_chat_id, msg.id) > 0 ==> r == Ok::<
                    IndexOutcome,
                    CoreError,
                >(
                    IndexOutcome {
                        dir: false,
                        file: false,
                        imported: false,
                        skipped: true,
                        failed: false,
                    },
                ) && *final(tg) == *old(tg) && *final(unassigned_cache) == *old(unassigned_cache)
                &&& old(index)@.dirs.len() <= final(index)@.dirs.len() <= old(index)@.dirs.len() + 1
                &&& final(index)@.dirs.take(old(index)@.dirs.len() as int) == old(index)@.dirs
                &&& match r {
                    Ok(out) => {
                        &&& !out.dir
                        &&& !out.failed
                        &&& out.file == out.imported
                        &&& out.skipped == !out.imported
                        &&& if out.imported {
                            final(index)@.files.len() == old(index)@.files.len() + 1 && final(index)@.files.drop_last() == old(index)@.files
                        } else {
                            final(index)@.files == old(index)@.files
                        }
                    },
                    Err(e) => final(index)@.files == old(index)@.files && (e is Transport
                        || e is Store),
                }
            },
        },
{
    match &msg.text {
        Some(text) => {
            match parse_dir_message(text.as_str()) {
                Ok(meta) => {
                    upsert_dir(index, &meta, msg.id, msg.date);
                    return Ok(
                        IndexOutcome {
                            dir: true,
                            file: false,
                            imported: false,
                            skipped: false,
                            failed: false,
                        },
                    );
                },
                Err(_) => {},
            }
        },
        None => {},
    }
    let size: i64 = match msg.file_size {
        Some(s) => s,
        None => 0,
    };
    match &msg.caption {
        Some(caption) => {
            match parse_file_caption(caption.as_str()) {
                Ok(meta) => {
                    upsert_file(index, &meta, storage_chat_id, msg.id, msg.date, size);
                    return Ok(
                        IndexOutcome {
                            dir: false,
                            file: true,
                            imported: false,
                            skipped: false,
                            failed: false,
                        },
                    );
                },
                Err(_) => {},
            }
        },
        None => {},
    }
    let named = match &msg.file_name {
        Some(n) => !str_is_blank(n.as_str()),
        None => false,
    };
    if !(msg.file_size.is_some() || named) {
        return Ok(
            IndexOutcome { dir: false, file: false, imported: false, skipped: true, failed: false },
        );
    }
    let ghost before = index@;
    let imported = import_untagged_file(index, tg, storage_chat_id, msg, unassigned_cache, now);
    proof {
        let after = index@;
        assert forall|i: int| 0 <= i < before.dirs.len() implies before.dir_ids()[i]
            == after.dir_ids()[i] by {
            assert(after.dirs.take(before.dirs.len() as int)[i] == after.dirs[i]);
        }
        assert forall|i: int| 0 <= i < before.files.len() implies before.file_ids()[i]
            == after.file_ids()[i] by {
            if after.files.len() == before.files.len() + 1 {
                assert(after.files.drop_last()[i] == after.files[i]);
            }
        }
    }
    match imported {
        Ok(ImportAction::Imported) => Ok(
            IndexOutcome { dir: false, file: true, imported: true, skipped: false, failed: false },
        ),
        Ok(ImportAction::Skipped) => Ok(
            IndexOutcome { dir: false, file: false, imported: false, skipped: true, failed: false },
        ),
        Err(e) => Err(e),
    }
}

} // verus!
