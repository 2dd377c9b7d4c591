//! The local index as data: directory and file entries, their mathematical
//! views, and the pure operations on an index that the engine is specified
//! with.

use crate::text::is_blank;
use vstd::prelude::*;

verus! {

/// Name of a directory that stands in for one not seen yet.
pub const PLACEHOLDER_DIR_NAME: &'static str = "Неизвестная папка";

/// Name of the directory that receives files without a folder of their own.
pub const UNASSIGNED_DIR_NAME: &'static str = "Неразобранное";

/// What a directory message writes in place of a parent for a top-level
/// directory.
pub const ROOT_ID: &'static str = "ROOT";

/// What the store says of a directory row whose id is taken.
pub const DIR_ID_TAKEN: &'static str = "UNIQUE constraint failed: directories.id";

/// What the store says of a file row whose id is taken.
pub const FILE_ID_TAKEN: &'static str = "UNIQUE constraint failed: files.id";

/// A directory of the index.
#[derive(Debug, PartialEq, Eq)]
pub struct DirectoryEntry {
    pub id: String,
    /// `None` for a top-level directory.
    pub parent_id: Option<String>,
    pub name: String,
    /// The message that currently represents the directory; `None` until it
    /// was first published.
    pub tg_msg_id: Option<i64>,
    pub updated_at: i64,
    pub is_broken: bool,
}

/// A file of the index.
#[derive(Debug, PartialEq, Eq)]
pub struct FileEntry {
    pub id: String,
    pub dir_id: String,
    pub name: String,
    pub size: i64,
    /// Eight hex characters: a naming hint, not a proof of integrity.
    pub hash: String,
    pub tg_chat_id: i64,
    pub tg_msg_id: i64,
    pub created_at: i64,
    pub is_broken: bool,
}

/// The view of a directory entry.
pub struct DirView {
    pub id: Seq<char>,
    pub parent_id: Option<Seq<char>>,
    pub name: Seq<char>,
    pub tg_msg_id: Option<i64>,
    pub updated_at: i64,
    pub is_broken: bool,
}

/// The view of a file entry.
pub struct FileView {
    pub id: Seq<char>,
    pub dir_id: Seq<char>,
    pub name: Seq<char>,
    pub size: i64,
    pub hash: Seq<char>,
    pub tg_chat_id: i64,
    pub tg_msg_id: i64,
    pub created_at: i64,
    pub is_broken: bool,
}

/// The view of an optional string.
pub open spec fn opt_text(s: Option<String>) -> Option<Seq<char>> {
    match s {
        Some(t) => Some(t@),
        None => None,
    }
}

impl View for DirectoryEntry {
    type V = DirView;

    open spec fn view(&self) -> DirView {
        DirView {
            id: self.id@,
            parent_id: opt_text(self.parent_id),
            name: self.name@,
            tg_msg_id: self.tg_msg_id,
            updated_at: self.updated_at,
            is_broken: self.is_broken,
        }
    }
}

impl View for FileEntry {
    type V = FileView;

    open spec fn view(&self) -> FileView {
        FileView {
            id: self.id@,
            dir_id: self.dir_id@,
            name: self.name@,
            size: self.size,
            hash: self.hash@,
            tg_chat_id: self.tg_chat_id,
            tg_msg_id: self.tg_msg_id,
            created_at: self.created_at,
            is_broken: self.is_broken,
        }
    }
}

/// A copy of an optional string.
pub fn clone_opt_string(s: &Option<String>) -> (r: Option<String>)
    ensures
        opt_text(r) == opt_text(*s),
        r == *s,
{
    match s {
        Some(t) => Some(t.clone()),
        None => None,
    }
}

impl Clone for DirectoryEntry {
    fn clone(&self) -> (r: Self)
        ensures
            r@ == self@,
    {
        DirectoryEntry {
            id: self.id.clone(),
            parent_id: clone_opt_string(&self.parent_id),
            name: self.name.clone(),
            tg_msg_id: self.tg_msg_id,
            updated_at: self.updated_at,
            is_broken: self.is_broken,
        }
    }
}

impl Clone for FileEntry {
    fn clone(&self) -> (r: Self)
        ensures
            r@ == self@,
    {
        FileEntry {
            id: self.id.clone(),
            dir_id: self.dir_id.clone(),
            name: self.name.clone(),
            size: self.size,
            hash: self.hash.clone(),
            tg_chat_id: self.tg_chat_id,
            tg_msg_id: self.tg_msg_id,
            created_at: self.created_at,
            is_broken: self.is_broken,
        }
    }
}

// ---------------------------------------------------------------------------
// Sequences of ids
// ---------------------------------------------------------------------------
/// The offset of the first occurrence of `id`, or the length when there is
/// none.
pub open spec fn index_of(ids: Seq<Seq<char>>, id: Seq<char>) -> int
    decreases ids.len(),
{
    if ids.len() == 0 || ids[0] == id {
        0
    } else {
        1 + index_of(ids.skip(1), id)
    }
}

/// No id occurs twice.
pub open spec fn distinct(ids: Seq<Seq<char>>) -> bool {
    forall|i: int, j: int| 0 <= i < j < ids.len() ==> ids[i] != ids[j]
}

/// An id is found where it stands first.
pub proof fn lemma_index_of(ids: Seq<Seq<char>>, id: Seq<char>, i: int)
    requires
        0 <= i <= ids.len(),
        forall|k: int| 0 <= k < i ==> ids[k] != id,
        i < ids.len() ==> ids[i] == id,
    ensures
        index_of(ids, id) == i,
    decreases i,
{
    if i > 0 {
        lemma_index_of(ids.skip(1), id, i - 1);
    }
}

/// Where an id is found it stands, and nowhere before.
pub proof fn lemma_index_of_found(ids: Seq<Seq<char>>, id: Seq<char>)
    ensures
        0 <= index_of(ids, id) <= ids.len(),
        index_of(ids, id) < ids.len() ==> ids[index_of(ids, id)] == id,
        forall|k: int| 0 <= k < index_of(ids, id) ==> ids[k] != id,
    decreases ids.len(),
{
    if ids.len() == 0 || ids[0] == id {
    } else {
        lemma_index_of_found(ids.skip(1), id);
        let p = index_of(ids.skip(1), id);
        assert forall|k: int| 0 <= k < 1 + p implies ids[k] != id by {
            if k > 0 {
                assert(ids.skip(1)[k - 1] == ids[k]);
            }
        }
    }
}

/// Whether `b` begins with the ids of `a`.
pub open spec fn is_prefix_ids(a: Seq<Seq<char>>, b: Seq<Seq<char>>) -> bool {
    a.len() <= b.len() && forall|i: int| 0 <= i < a.len() ==> a[i] == b[i]
}

/// How many elements of `s` satisfy `p`.
pub open spec fn count_where<T>(s: Seq<T>, p: spec_fn(T) -> bool) -> nat
    decreases s.len(),
{
    if s.len() == 0 {
        0
    } else {
        count_where(s.drop_last(), p) + if p(s.last()) {
            1nat
        } else {
            0nat
        }
    }
}

// ---------------------------------------------------------------------------
// The index
// ---------------------------------------------------------------------------
/// The view of the index: its directories and its files, in order.
pub struct IndexView {
    pub dirs: Seq<DirView>,
    pub files: Seq<FileView>,
}

/// The parent that a stored value names: none when it is blank or `ROOT`.
pub open spec fn normal_parent(raw: Option<Seq<char>>) -> Option<Seq<char>> {
    match raw {
        Some(p) => if is_blank(p) || p == ROOT_ID@ {
            None
        } else {
            Some(p)
        },
        None => None,
    }
}

/// The row that stands in for a directory not seen yet.
pub open spec fn placeholder_dir(id: Seq<char>, date: i64) -> DirView {
    DirView {
        id,
        parent_id: None,
        name: PLACEHOLDER_DIR_NAME@,
        tg_msg_id: None,
        updated_at: date,
        is_broken: false,
    }
}

impl IndexView {
    /// The index without entries.
    pub open spec fn empty() -> IndexView {
        IndexView { dirs: Seq::empty(), files: Seq::empty() }
    }

    /// The ids of the directories, in order.
    pub open spec fn dir_ids(self) -> Seq<Seq<char>> {
        Seq::new(self.dirs.len(), |i: int| self.dirs[i].id)
    }

    /// The ids of the files, in order.
    pub open spec fn file_ids(self) -> Seq<Seq<char>> {
        Seq::new(self.files.len(), |i: int| self.files[i].id)
    }

    /// No two directories and no two files share an id.
    pub open spec fn wf(self) -> bool {
        distinct(self.dir_ids()) && distinct(self.file_ids())
    }

    /// Where the directory `id` stands; the number of directories when there is
    /// none.
    pub open spec fn dir_pos(self, id: Seq<char>) -> int {
        index_of(self.dir_ids(), id)
    }

    /// Where the file `id` stands; the number of files when there is none.
    pub open spec fn file_pos(self, id: Seq<char>) -> int {
        index_of(self.file_ids(), id)
    }

    /// Whether there is a directory of the given id.
    pub open spec fn has_dir(self, id: Seq<char>) -> bool {
        self.dir_pos(id) < self.dirs.len()
    }

    /// Whether there is a file of the given id.
    pub open spec fn has_file(self, id: Seq<char>) -> bool {
        self.file_pos(id) < self.files.len()
    }

    /// The directory with the given id; meaningful when there is one.
    pub open spec fn dir(self, id: Seq<char>) -> DirView {
        self.dirs[self.dir_pos(id)]
    }

    /// The file with the given id; meaningful when there is one.
    pub open spec fn file(self, id: Seq<char>) -> FileView {
        self.files[self.file_pos(id)]
    }

    /// Inserts the row, or replaces the row of the same id.
    pub open spec fn put_dir(self, row: DirView) -> IndexView {
        if self.has_dir(row.id) {
            IndexView { dirs: self.dirs.update(self.dir_pos(row.id), row), ..self }
        } else {
            IndexView { dirs: self.dirs.push(row), ..self }
        }
    }

    /// Inserts the row, or replaces the row of the same id.
    pub open spec fn put_file(self, row: FileView) -> IndexView {
        if self.has_file(row.id) {
            IndexView { files: self.files.update(self.file_pos(row.id), row), ..self }
        } else {
            IndexView { files: self.files.push(row), ..self }
        }
    }

    /// The index without the directory `id`.
    pub open spec fn remove_dir(self, id: Seq<char>) -> IndexView {
        if self.has_dir(id) {
            IndexView { dirs: self.dirs.remove(self.dir_pos(id)), ..self }
        } else {
            self
        }
    }

    /// The index without the file `id`.
    pub open spec fn remove_file(self, id: Seq<char>) -> IndexView {
        if self.has_file(id) {
            IndexView { files: self.files.remove(self.file_pos(id)), ..self }
        } else {
            self
        }
    }

    /// The parent of the directory `id`: none when there is no such
    /// directory or it stands at the top.
    pub open spec fn parent_of(self, id: Seq<char>) -> Option<Seq<char>> {
        if self.has_dir(id) {
            normal_parent(self.dir(id).parent_id)
        } else {
            None
        }
    }

    /// How many directories name `id` as their parent.
    pub open spec fn child_dir_count(self, id: Seq<char>) -> nat {
        count_where(self.dirs, |d: DirView| d.parent_id == Some(id))
    }

    /// How many files lie in directory `id`.
    pub open spec fn file_count(self, id: Seq<char>) -> nat {
        count_where(self.files, |f: FileView| f.dir_id == id)
    }

    /// How many files are backed by the given message.
    pub open spec fn files_at(self, chat_id: i64, msg_id: i64) -> nat {
        count_where(self.files, |f: FileView| f.tg_chat_id == chat_id && f.tg_msg_id == msg_id)
    }

    /// The file `id` with a new backing message and its flag cleared.
    pub open spec fn relocate_file(self, id: Seq<char>, chat_id: i64, msg_id: i64) -> IndexView {
        if self.has_file(id) {
            self.put_file(
                FileView {
                    tg_chat_id: chat_id,
                    tg_msg_id: msg_id,
                    is_broken: false,
                    ..self.file(id)
                },
            )
        } else {
            self
        }
    }

    /// The file `id` with the size that its local copy has, when that is
    /// positive.
    pub open spec fn resize_file(self, id: Seq<char>, local_size: i64) -> IndexView {
        if self.has_file(id) && local_size > 0 {
            self.put_file(FileView { size: local_size, ..self.file(id) })
        } else {
            self
        }
    }

    /// The file `id` in another directory, with the given backing message
    /// and its flag cleared.
    pub open spec fn move_file(
        self,
        id: Seq<char>,
        dir_id: Seq<char>,
        chat_id: i64,
        msg_id: i64,
    ) -> IndexView {
        if self.has_file(id) {
            self.put_file(
                FileView {
                    dir_id,
                    tg_chat_id: chat_id,
                    tg_msg_id: msg_id,
                    is_broken: false,
                    ..self.file(id)
                },
            )
        } else {
            self
        }
    }

    /// Whether `later` still has every entry of this index, each where it
    /// stood.
    pub open spec fn keeps(self, later: IndexView) -> bool {
        is_prefix_ids(self.dir_ids(), later.dir_ids()) && is_prefix_ids(
            self.file_ids(),
            later.file_ids(),
        )
    }

    /// Adds a placeholder for `id` unless `id` is blank or known.
    pub open spec fn ensure_placeholder(self, id: Seq<char>, date: i64) -> IndexView {
        if is_blank(id) || self.has_dir(id) {
            self
        } else {
            IndexView { dirs: self.dirs.push(placeholder_dir(id, date)), ..self }
        }
    }
}

/// The offset of the first element that satisfies `p`, or the length when
/// there is none.
pub open spec fn first_index<T>(s: Seq<T>, p: spec_fn(T) -> bool) -> int
    decreases s.len(),
{
    if s.len() == 0 || p(s[0]) {
        0
    } else {
        1 + first_index(s.skip(1), p)
    }
}

/// An element is found where it is the first to satisfy the predicate.
pub proof fn lemma_first_index<T>(s: Seq<T>, p: spec_fn(T) -> bool, i: int)
    requires
        0 <= i <= s.len(),
        forall|k: int| 0 <= k < i ==> !p(s[k]),
        i < s.len() ==> p(s[i]),
    ensures
        first_index(s, p) == i,
    decreases i,
{
    if i > 0 {
        assert(!p(s[0]));
        assert forall|k: int| 0 <= k < i - 1 implies !p(s.skip(1)[k]) by {
            assert(s.skip(1)[k] == s[k + 1]);
        }
        lemma_first_index(s.skip(1), p, i - 1);
    }
}

/// A row put in place of a row of the same id is the row found under that
/// id afterwards, and no id moves.
pub proof fn lemma_put_file_known(v: IndexView, row: FileView)
    requires
        v.has_file(row.id),
    ensures
        v.put_file(row).file_ids() == v.file_ids(),
        v.put_file(row).has_file(row.id),
        v.put_file(row).file(row.id) == row,
        v.put_file(row).dirs == v.dirs,
        v.put_file(row).put_file(row) == v.put_file(row),
{
    lemma_index_of_found(v.file_ids(), row.id);
    assert(v.put_file(row).file_ids() =~= v.file_ids());
    assert(v.put_file(row).files.update(v.file_pos(row.id), row) =~= v.put_file(row).files);
}

/// The same for a directory row.
pub proof fn lemma_put_dir_known(v: IndexView, row: DirView)
    requires
        v.has_dir(row.id),
    ensures
        v.put_dir(row).dir_ids() == v.dir_ids(),
        v.put_dir(row).has_dir(row.id),
        v.put_dir(row).dir(row.id) == row,
        v.put_dir(row).files == v.files,
{
    lemma_index_of_found(v.dir_ids(), row.id);
    assert(v.put_dir(row).dir_ids() =~= v.dir_ids());
}

/// A new row is found under its id afterwards.
pub proof fn lemma_put_dir_new(v: IndexView, row: DirView)
    requires
        !v.has_dir(row.id),
    ensures
        v.put_dir(row).dirs == v.dirs.push(row),
        v.put_dir(row).has_dir(row.id),
        v.put_dir(row).dir(row.id) == row,
        v.put_dir(row).dir_pos(row.id) == v.dirs.len(),
        v.put_dir(row).files == v.files,
{
    lemma_index_of_found(v.dir_ids(), row.id);
    let after = v.put_dir(row);
    assert(after.dir_ids() =~= v.dir_ids().push(row.id));
    lemma_index_of(after.dir_ids(), row.id, v.dirs.len() as int);
}

/// The same for a file row.
pub proof fn lemma_put_file_new(v: IndexView, row: FileView)
    requires
        !v.has_file(row.id),
    ensures
        v.put_file(row).files == v.files.push(row),
        v.put_file(row).has_file(row.id),
        v.put_file(row).file(row.id) == row,
        v.put_file(row).dirs == v.dirs,
{
    lemma_index_of_found(v.file_ids(), row.id);
    let after = v.put_file(row);
    assert(after.file_ids() =~= v.file_ids().push(row.id));
    lemma_index_of(after.file_ids(), row.id, v.files.len() as int);
}

/// Moving a file that was given a new backing message before is moving the
/// file as it was.
pub proof fn lemma_move_after_relocate(
    v: IndexView,
    id: Seq<char>,
    c1: i64,
    m1: i64,
    dir_id: Seq<char>,
    c2: i64,
    m2: i64,
)
    ensures
        v.relocate_file(id, c1, m1).move_file(id, dir_id, c2, m2) == v.move_file(id, dir_id, c2, m2),
        v.relocate_file(id, c1, m1).relocate_file(id, c2, m2) == v.relocate_file(id, c2, m2),
        v.has_file(id) ==> v.relocate_file(id, c1, m1).has_file(id) && v.relocate_file(
            id,
            c1,
            m1,
        ).file(id).dir_id == v.file(id).dir_id,
        v.has_file(id) ==> v.move_file(id, dir_id, c2, m2).has_file(id) && v.move_file(
            id,
            dir_id,
            c2,
            m2,
        ).file(id).tg_chat_id == c2 && v.move_file(id, dir_id, c2, m2).file(id).tg_msg_id == m2,
        v.has_file(id) ==> v.relocate_file(id, c2, m2).file(id).tg_chat_id == c2 && v.relocate_file(
            id,
            c2,
            m2,
        ).file(id).tg_msg_id == m2,
{
    if v.has_file(id) {
        lemma_index_of_found(v.file_ids(), id);
        assert(v.file(id).id == id);
        let r1 = FileView { tg_chat_id: c1, tg_msg_id: m1, is_broken: false, ..v.file(id) };
        let r2 = FileView {
            dir_id,
            tg_chat_id: c2,
            tg_msg_id: m2,
            is_broken: false,
            ..v.file(id)
        };
        let r3 = FileView { tg_chat_id: c2, tg_msg_id: m2, is_broken: false, ..v.file(id) };
        lemma_put_file_known(v, r1);
        lemma_put_file_known(v, r2);
        lemma_put_file_known(v, r3);
        let w = v.put_file(r1);
        assert(w.files.update(w.file_pos(id), r2) =~= v.files.update(v.file_pos(id), r2));
        assert(w.files.update(w.file_pos(id), r3) =~= v.files.update(v.file_pos(id), r3));
    }
}

/// Putting a row keeps ids apart.
pub proof fn lemma_put_dir_wf(v: IndexView, row: DirView)
    requires
        v.wf(),
    ensures
        v.put_dir(row).wf(),
{
    lemma_index_of_found(v.dir_ids(), row.id);
    let after = v.put_dir(row);
    assert(after.file_ids() =~= v.file_ids());
    if v.has_dir(row.id) {
        assert(after.dir_ids() =~= v.dir_ids());
    } else {
        assert(after.dir_ids() =~= v.dir_ids().push(row.id));
    }
}

/// Putting a row keeps ids apart.
pub proof fn lemma_put_file_wf(v: IndexView, row: FileView)
    requires
        v.wf(),
    ensures
        v.put_file(row).wf(),
{
    lemma_index_of_found(v.file_ids(), row.id);
    let after = v.put_file(row);
    assert(after.dir_ids() =~= v.dir_ids());
    if v.has_file(row.id) {
        assert(after.file_ids() =~= v.file_ids());
    } else {
        assert(after.file_ids() =~= v.file_ids().push(row.id));
    }
}

/// A placeholder is a row like any other.
pub proof fn lemma_placeholder(v: IndexView, id: Seq<char>, date: i64)
    ensures
        v.ensure_placeholder(id, date) == if is_blank(id) || v.has_dir(id) {
            v
        } else {
            v.put_dir(placeholder_dir(id, date))
        },
        v.wf() ==> v.ensure_placeholder(id, date).wf(),
        !is_blank(id) ==> v.ensure_placeholder(id, date).has_dir(id),
        v.ensure_placeholder(id, date).files == v.files,
        forall|other: Seq<char>| v.has_dir(other) ==> #[trigger] v.ensure_placeholder(
            id,
            date,
        ).has_dir(other) && v.ensure_placeholder(id, date).dir_pos(other) == v.dir_pos(other),
{
    let after = v.ensure_placeholder(id, date);
    if !(is_blank(id) || v.has_dir(id)) {
        lemma_put_dir_new(v, placeholder_dir(id, date));
        if v.wf() {
            lemma_put_dir_wf(v, placeholder_dir(id, date));
        }
        assert forall|other: Seq<char>| v.has_dir(other) implies #[trigger] after.has_dir(other)
            && after.dir_pos(other) == v.dir_pos(other) by {
            lemma_index_of_found(v.dir_ids(), other);
            assert(after.dir_ids() =~= v.dir_ids().push(id));
            lemma_index_of(after.dir_ids(), other, v.dir_pos(other));
        }
    }
}

/// Putting a row removes no entry and moves none.
pub proof fn lemma_put_keeps(v: IndexView, d: DirView, f: FileView)
    ensures
        v.keeps(v.put_dir(d)),
        v.keeps(v.put_file(f)),
        v.keeps(v),
{
    lemma_index_of_found(v.dir_ids(), d.id);
    lemma_index_of_found(v.file_ids(), f.id);
    let a = v.put_dir(d);
    let b = v.put_file(f);
    assert(a.file_ids() =~= v.file_ids());
    assert(b.dir_ids() =~= v.dir_ids());
    if v.has_dir(d.id) {
        assert(a.dir_ids() =~= v.dir_ids());
    } else {
        assert(a.dir_ids() =~= v.dir_ids().push(d.id));
    }
    if v.has_file(f.id) {
        assert(b.file_ids() =~= v.file_ids());
    } else {
        assert(b.file_ids() =~= v.file_ids().push(f.id));
    }
}

/// Keeping entries carries over from step to step.
pub proof fn lemma_keeps_trans(a: IndexView, b: IndexView, c: IndexView)
    requires
        a.keeps(b),
        b.keeps(c),
    ensures
        a.keeps(c),
{
}

} // verus!
