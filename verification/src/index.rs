//! The local index in memory: lookups and row-level changes.

use crate::error::CoreError;
use crate::model::{
    count_where, distinct, index_of, lemma_index_of, lemma_index_of_found, lemma_put_dir_new,
    lemma_put_file_new, placeholder_dir, DirView, DirectoryEntry, FileEntry, FileView, IndexView,
    DIR_ID_TAKEN, FILE_ID_TAKEN, PLACEHOLDER_DIR_NAME,
};
use crate::text::str_is_blank;
use vstd::prelude::*;

verus! {

/// The local index: every directory and every file that is known, each row
/// once for its id as long as rows are only put and removed through the
/// methods below.
pub struct Index {
    pub dirs: Vec<DirectoryEntry>,
    pub files: Vec<FileEntry>,
}

impl View for Index {
    type V = IndexView;

    open spec fn view(&self) -> IndexView {
        IndexView {
            dirs: Seq::new(self.dirs@.len(), |i: int| self.dirs@[i]@),
            files: Seq::new(self.files@.len(), |i: int| self.files@[i]@),
        }
    }
}

proof fn lemma_distinct_update(ids: Seq<Seq<char>>, i: int, id: Seq<char>)
    requires
        distinct(ids),
        0 <= i < ids.len(),
        ids[i] == id,
    ensures
        distinct(ids.update(i, id)),
{
    assert(ids.update(i, id) =~= ids);
}

proof fn lemma_distinct_push(ids: Seq<Seq<char>>, id: Seq<char>)
    requires
        distinct(ids),
        index_of(ids, id) >= ids.len(),
    ensures
        distinct(ids.push(id)),
{
    lemma_index_of_found(ids, id);
}

proof fn lemma_distinct_remove(ids: Seq<Seq<char>>, i: int)
    requires
        distinct(ids),
        0 <= i < ids.len(),
    ensures
        distinct(ids.remove(i)),
{
    let r = ids.remove(i);
    assert forall|a: int, b: int| 0 <= a < b < r.len() implies r[a] != r[b] by {
        let a2 = if a < i {
            a
        } else {
            a + 1
        };
        let b2 = if b < i {
            b
        } else {
            b + 1
        };
        assert(r[a] == ids[a2]);
        assert(r[b] == ids[b2]);
    }
}

impl Index {
    /// An index without entries.
    pub fn new() -> (r: Index)
        ensures
            r@ == IndexView::empty(),
            r@.wf(),
    {
        let r = Index { dirs: Vec::new(), files: Vec::new() };
        assert(r@.dirs =~= Seq::empty());
        assert(r@.files =~= Seq::empty());
        r
    }

    /// Where the directory with the given id stands.
    pub fn dir_position(&self, id: &str) -> (r: Option<usize>)
        ensures
            match r {
                Some(i) => self@.has_dir(id@) && i == self@.dir_pos(id@),
                None => !self@.has_dir(id@),
            },
    {
        let key = String::from_str(id);
        let mut i: usize = 0;
        while i < self.dirs.len()
            invariant
                i <= self.dirs.len(),
                key@ == id@,
                forall|k: int| 0 <= k < i ==> self@.dir_ids()[k] != id@,
            decreases self.dirs.len() - i,
        {
            if self.dirs[i].id == key {
                proof {
                    lemma_index_of(self@.dir_ids(), id@, i as int);
                }
                return Some(i);
            }
            i += 1;
        }
        proof {
            lemma_index_of(self@.dir_ids(), id@, i as int);
        }
        None
    }

    /// Where the file with the given id stands.
    pub fn file_position(&self, id: &str) -> (r: Option<usize>)
        ensures
            match r {
                Some(i) => self@.has_file(id@) && i == self@.file_pos(id@),
                None => !self@.has_file(id@),
            },
    {
        let key = String::from_str(id);
        let mut i: usize = 0;
        while i < self.files.len()
            invariant
                i <= self.files.len(),
                key@ == id@,
                forall|k: int| 0 <= k < i ==> self@.file_ids()[k] != id@,
            decreases self.files.len() - i,
        {
            if self.files[i].id == key {
                proof {
                    lemma_index_of(self@.file_ids(), id@, i as int);
                }
                return Some(i);
            }
            i += 1;
        }
        proof {
            lemma_index_of(self@.file_ids(), id@, i as int);
        }
        None
    }

    /// Whether the index has a directory of the given id.
    pub fn dir_exists(&self, id: &str) -> (r: bool)
        ensures
            r == self@.has_dir(id@),
    {
        self.dir_position(id).is_some()
    }

    /// A copy of the directory with the given id.
    pub fn get_dir(&self, id: &str) -> (r: Option<DirectoryEntry>)
        ensures
            match r {
                Some(d) => self@.has_dir(id@) && d@ == self@.dir(id@),
                None => !self@.has_dir(id@),
            },
    {
        match self.dir_position(id) {
            Some(i) => Some(self.dirs[i].clone()),
            None => None,
        }
    }

    /// A copy of the file with the given id.
    pub fn get_file(&self, id: &str) -> (r: Option<FileEntry>)
        ensures
            match r {
                Some(f) => self@.has_file(id@) && f@ == self@.file(id@),
                None => !self@.has_file(id@),
            },
    {
        match self.file_position(id) {
            Some(i) => Some(self.files[i].clone()),
            None => None,
        }
    }

    /// Inserts the row, or replaces the row of the same id.
    pub fn put_dir(&mut self, row: DirectoryEntry)
        ensures
            final(self)@ == old(self)@.put_dir(row@),
            old(self)@.wf() ==> final(self)@.wf(),
    {
        let ghost before = self@;
        match self.dir_position(row.id.as_str()) {
            Some(i) => {
                self.dirs.set(i, row);
                proof {
                    assert(self@.dirs =~= before.dirs.update(i as int, row@));
                    assert(self@.files =~= before.files);
                    assert(self@.dir_ids() =~= before.dir_ids().update(i as int, row@.id));
                    lemma_index_of_found(before.dir_ids(), row@.id);
                    if before.wf() {
                        lemma_distinct_update(before.dir_ids(), i as int, row@.id);
                        assert(self@.file_ids() =~= before.file_ids());
                    }
                }
            },
            None => {
                self.dirs.push(row);
                proof {
                    assert(self@.dirs =~= before.dirs.push(row@));
                    assert(self@.files =~= before.files);
                    assert(self@.dir_ids() =~= before.dir_ids().push(row@.id));
                    if before.wf() {
                        lemma_distinct_push(before.dir_ids(), row@.id);
                        assert(self@.file_ids() =~= before.file_ids());
                    }
                }
            },
        }
    }

    /// Inserts the row, or replaces the row of the same id.
    pub fn put_file(&mut self, row: FileEntry)
        ensures
            final(self)@ == old(self)@.put_file(row@),
            old(self)@.wf() ==> final(self)@.wf(),
    {
        let ghost before = self@;
        match self.file_position(row.id.as_str()) {
            Some(i) => {
                self.files.set(i, row);
                proof {
                    assert(self@.files =~= before.files.update(i as int, row@));
                    assert(self@.dirs =~= before.dirs);
                    assert(self@.file_ids() =~= before.file_ids().update(i as int, row@.id));
                    lemma_index_of_found(before.file_ids(), row@.id);
                    if before.wf() {
                        lemma_distinct_update(before.file_ids(), i as int, row@.id);
                        assert(self@.dir_ids() =~= before.dir_ids());
                    }
                }
            },
            None => {
                self.files.push(row);
                proof {
                    assert(self@.files =~= before.files.push(row@));
                    assert(self@.dirs =~= before.dirs);
                    assert(self@.file_ids() =~= before.file_ids().push(row@.id));
                    if before.wf() {
                        lemma_distinct_push(before.file_ids(), row@.id);
                        assert(self@.dir_ids() =~= before.dir_ids());
                    }
                }
            },
        }
    }

    /// Adds a directory row. A row whose id is taken is refused by the
    /// store, and nothing changes.
    pub fn insert_dir(&mut self, row: DirectoryEntry) -> (r: Result<(), CoreError>)
        ensures
            old(self)@.wf() ==> final(self)@.wf(),
            if old(self)@.has_dir(row@.id) {
                final(self)@ == old(self)@ && (r matches Err(CoreError::Store(text)) && text@
                    == DIR_ID_TAKEN@)
            } else {
                r is Ok && final(self)@.dirs == old(self)@.dirs.push(row@) && final(self)@.files
                    == old(self)@.files
            },
    {
        if self.dir_exists(row.id.as_str()) {
            return Err(CoreError::Store(String::from_str(DIR_ID_TAKEN)));
        }
        proof {
            lemma_put_dir_new(self@, row@);
        }
        self.put_dir(row);
        Ok(())
    }

    /// Adds a file row. A row whose id is taken is refused by the store,
    /// and nothing changes.
    pub fn insert_file(&mut self, row: FileEntry) -> (r: Result<(), CoreError>)
        ensures
            old(self)@.wf() ==> final(self)@.wf(),
            if old(self)@.has_file(row@.id) {
                final(self)@ == old(self)@ && (r matches Err(CoreError::Store(text)) && text@
                    == FILE_ID_TAKEN@)
            } else {
                r is Ok && final(self)@.files == old(self)@.files.push(row@) && final(self)@.dirs
                    == old(self)@.dirs
            },
    {
        if self.file_position(row.id.as_str()).is_some() {
            return Err(CoreError::Store(String::from_str(FILE_ID_TAKEN)));
        }
        proof {
            lemma_put_file_new(self@, row@);
        }
        self.put_file(row);
        Ok(())
    }

    /// Removes the directory row with the given id, if there is one.
    pub fn remove_dir(&mut self, id: &str)
        ensures
            final(self)@ == old(self)@.remove_dir(id@),
            old(self)@.wf() ==> final(self)@.wf(),
    {
        let ghost before = self@;
        match self.dir_position(id) {
            Some(i) => {
                self.dirs.remove(i);
                proof {
                    assert(self@.dirs =~= before.dirs.remove(i as int));
                    assert(self@.files =~= before.files);
                    assert(self@.dir_ids() =~= before.dir_ids().remove(i as int));
                    if before.wf() {
                        lemma_distinct_remove(before.dir_ids(), i as int);
                        assert(self@.file_ids() =~= before.file_ids());
                    }
                }
            },
            None => {},
        }
    }

    /// Removes the file row with the given id, if there is one.
    pub fn remove_file(&mut self, id: &str)
        ensures
            final(self)@ == old(self)@.remove_file(id@),
            old(self)@.wf() ==> final(self)@.wf(),
    {
        let ghost before = self@;
        match self.file_position(id) {
            Some(i) => {
                self.files.remove(i);
                proof {
                    assert(self@.files =~= before.files.remove(i as int));
                    assert(self@.dirs =~= before.dirs);
                    assert(self@.file_ids() =~= before.file_ids().remove(i as int));
                    if before.wf() {
                        lemma_distinct_remove(before.file_ids(), i as int);
                        assert(self@.dir_ids() =~= before.dir_ids());
                    }
                }
            },
            None => {},
        }
    }

    /// The name of the directory `id`, if there is one.
    pub fn dir_name(&self, id: &str) -> (r: Option<String>)
        ensures
            match r {
                Some(n) => self@.has_dir(id@) && n@ == self@.dir(id@).name,
                None => !self@.has_dir(id@),
            },
    {
        match self.dir_position(id) {
            Some(i) => Some(self.dirs[i].name.clone()),
            None => None,
        }
    }

    /// Gives the file a new backing message and clears its flag.
    pub fn relocate_file(&mut self, id: &str, chat_id: i64, msg_id: i64)
        ensures
            final(self)@ == old(self)@.relocate_file(id@, chat_id, msg_id),
            old(self)@.wf() ==> final(self)@.wf(),
    {
        match self.get_file(id) {
            Some(f) => {
                let mut row = f;
                row.tg_chat_id = chat_id;
                row.tg_msg_id = msg_id;
                row.is_broken = false;
                proof {
                    lemma_index_of_found(self@.file_ids(), id@);
                }
                self.put_file(row);
            },
            None => {},
        }
    }

    /// Takes over the size of the local copy of a file, which is the true
    /// one; a size that is not positive says nothing.
    pub fn resize_file(&mut self, id: &str, local_size: i64)
        ensures
            final(self)@ == old(self)@.resize_file(id@, local_size),
            old(self)@.wf() ==> final(self)@.wf(),
    {
        if local_size <= 0 {
            return ;
        }
        match self.get_file(id) {
            Some(f) => {
                let mut row = f;
                row.size = local_size;
                proof {
                    lemma_index_of_found(self@.file_ids(), id@);
                }
                self.put_file(row);
            },
            None => {},
        }
    }

    /// Puts the file into another directory, with the given backing message
    /// and its flag cleared.
    pub fn move_file(&mut self, id: &str, dir_id: &str, chat_id: i64, msg_id: i64)
        ensures
            final(self)@ == old(self)@.move_file(id@, dir_id@, chat_id, msg_id),
            old(self)@.wf() ==> final(self)@.wf(),
    {
        match self.get_file(id) {
            Some(f) => {
                let mut row = f;
                row.dir_id = String::from_str(dir_id);
                row.tg_chat_id = chat_id;
                row.tg_msg_id = msg_id;
                row.is_broken = false;
                proof {
                    lemma_index_of_found(self@.file_ids(), id@);
                }
                self.put_file(row);
            },
            None => {},
        }
    }

    /// Adds a placeholder for a directory that is referred to but not known.
    pub fn ensure_dir_placeholder(&mut self, dir_id: &str, date: i64)
        ensures
            final(self)@ == old(self)@.ensure_placeholder(dir_id@, date),
            old(self)@.wf() ==> final(self)@.wf(),
    {
        if str_is_blank(dir_id) {
            return ;
        }
        if self.dir_exists(dir_id) {
            return ;
        }
        let row = DirectoryEntry {
            id: String::from_str(dir_id),
            parent_id: None,
            name: String::from_str(PLACEHOLDER_DIR_NAME),
            tg_msg_id: None,
            updated_at: date,
            is_broken: false,
        };
        assert(row@ == placeholder_dir(dir_id@, date));
        self.put_dir(row);
    }

    /// How many directories name `id` as their parent.
    pub fn child_dir_count(&self, id: &str) -> (r: usize)
        ensures
            r == self@.child_dir_count(id@),
    {
        let key = String::from_str(id);
        let ghost p = |d: DirView| d.parent_id == Some(id@);
        let mut n: usize = 0;
        let mut i: usize = 0;
        assert(self@.dirs.take(0) =~= Seq::empty());
        while i < self.dirs.len()
            invariant
                i <= self.dirs.len(),
                key@ == id@,
                p == |d: DirView| d.parent_id == Some(id@),
                n <= i,
                n == count_where(self@.dirs.take(i as int), p),
            decreases self.dirs.len() - i,
        {
            proof {
                assert(self@.dirs.take(i + 1).drop_last() =~= self@.dirs.take(i as int));
                assert(self@.dirs.take(i + 1).last() == self.dirs@[i as int]@);
            }
            let hit = match &self.dirs[i].parent_id {
                Some(parent) => *parent == key,
                None => false,
            };
            if hit {
                n += 1;
            }
            i += 1;
        }
        assert(self@.dirs.take(i as int) =~= self@.dirs);
        n
    }

    /// How many files lie in directory `id`.
    pub fn file_count(&self, id: &str) -> (r: usize)
        ensures
            r == self@.file_count(id@),
    {
        let key = String::from_str(id);
        let ghost p = |f: FileView| f.dir_id == id@;
        let mut n: usize = 0;
        let mut i: usize = 0;
        assert(self@.files.take(0) =~= Seq::empty());
        while i < self.files.len()
            invariant
                i <= self.files.len(),
                key@ == id@,
                p == |f: FileView| f.dir_id == id@,
                n <= i,
                n == count_where(self@.files.take(i as int), p),
            decreases self.files.len() - i,
        {
            proof {
                assert(self@.files.take(i + 1).drop_last() =~= self@.files.take(i as int));
                assert(self@.files.take(i + 1).last() == self.files@[i as int]@);
            }
            if self.files[i].dir_id == key {
                n += 1;
            }
            i += 1;
        }
        assert(self@.files.take(i as int) =~= self@.files);
        n
    }

    /// Whether some file is backed by the given message.
    pub fn has_file_at(&self, chat_id: i64, msg_id: i64) -> (r: bool)
        ensures
            r == (self@.files_at(chat_id, msg_id) > 0),
    {
        let ghost p = |f: FileView| f.tg_chat_id == chat_id && f.tg_msg_id == msg_id;
        let mut i: usize = 0;
        assert(self@.files.take(0) =~= Seq::empty());
        while i < self.files.len()
            invariant
                i <= self.files.len(),
                p == |f: FileView| f.tg_chat_id == chat_id && f.tg_msg_id == msg_id,
                count_where(self@.files.take(i as int), p) == 0,
            decreases self.files.len() - i,
        {
            proof {
                assert(self@.files.take(i + 1).drop_last() =~= self@.files.take(i as int));
                assert(self@.files.take(i + 1).last() == self.files@[i as int]@);
            }
            if self.files[i].tg_chat_id == chat_id && self.files[i].tg_msg_id == msg_id {
                proof {
                    lemma_count_grows(self@.files, p, i + 1);
                }
                return true;
            }
            i += 1;
        }
        assert(self@.files.take(i as int) =~= self@.files);
        false
    }
}

/// A count over a prefix never exceeds the count over the whole.
pub proof fn lemma_count_grows<T>(s: Seq<T>, p: spec_fn(T) -> bool, k: int)
    requires
        0 <= k <= s.len(),
    ensures
        count_where(s.take(k), p) <= count_where(s, p),
    decreases s.len() - k,
{
    if k == s.len() {
        assert(s.take(k) =~= s);
    } else {
        lemma_count_grows(s.drop_last(), p, k);
        assert(s.drop_last().take(k) =~= s.take(k));
    }
}

} // verus!
