//! Drift flags: which entries a scanned window of messages confirms, and
//! which it leaves unconfirmed.

use crate::index::Index;
use crate::model::{count_where, DirView, FileView};
use vstd::prelude::*;

verus! {

/// Whether a window that starts at message `min` speaks of a directory.
pub open spec fn dir_in_window(d: DirView, min: i64) -> bool {
    d.tg_msg_id is Some && d.tg_msg_id->0 >= min && d.tg_msg_id->0 > 0
}

/// Whether a window of `chat_id` that starts at message `min` speaks of a
/// file.
pub open spec fn file_in_window(f: FileView, chat_id: i64, min: i64) -> bool {
    f.tg_chat_id == chat_id && f.tg_msg_id >= min && f.tg_msg_id > 0
}

/// The directory as the window leaves it: broken exactly when its message
/// was not seen, untouched when the window does not speak of it.
pub open spec fn marked_dir(d: DirView, min: i64, seen: Set<i64>) -> DirView {
    if dir_in_window(d, min) {
        DirView { is_broken: !seen.contains(d.tg_msg_id->0), ..d }
    } else {
        d
    }
}

/// The file as the window leaves it.
pub open spec fn marked_file(f: FileView, chat_id: i64, min: i64, seen: Set<i64>) -> FileView {
    if file_in_window(f, chat_id, min) {
        FileView { is_broken: !seen.contains(f.tg_msg_id), ..f }
    } else {
        f
    }
}

/// The directories as the window leaves them.
pub open spec fn marked_dirs(dirs: Seq<DirView>, min: i64, seen: Set<i64>) -> Seq<DirView> {
    Seq::new(dirs.len(), |i: int| marked_dir(dirs[i], min, seen))
}

/// The files as the window leaves them.
pub open spec fn marked_files(files: Seq<FileView>, chat_id: i64, min: i64, seen: Set<i64>) -> Seq<
    FileView,
> {
    Seq::new(files.len(), |i: int| marked_file(files[i], chat_id, min, seen))
}

/// How many directories the window newly flags.
pub open spec fn dirs_to_mark(dirs: Seq<DirView>, min: i64, seen: Set<i64>) -> nat {
    count_where(
        dirs,
        |d: DirView| dir_in_window(d, min) && !seen.contains(d.tg_msg_id->0) && !d.is_broken,
    )
}

/// How many directories the window clears of their flag.
pub open spec fn dirs_to_clear(dirs: Seq<DirView>, min: i64, seen: Set<i64>) -> nat {
    count_where(
        dirs,
        |d: DirView| dir_in_window(d, min) && seen.contains(d.tg_msg_id->0) && d.is_broken,
    )
}

/// How many files the window newly flags.
pub open spec fn files_to_mark(files: Seq<FileView>, chat_id: i64, min: i64, seen: Set<i64>) -> nat {
    count_where(
        files,
        |f: FileView| file_in_window(f, chat_id, min) && !seen.contains(f.tg_msg_id) && !f.is_broken,
    )
}

/// How many files the window clears of their flag.
pub open spec fn files_to_clear(files: Seq<FileView>, chat_id: i64, min: i64, seen: Set<i64>) -> nat {
    count_where(
        files,
        |f: FileView| file_in_window(f, chat_id, min) && seen.contains(f.tg_msg_id) && f.is_broken,
    )
}

/// The message ids that a vector holds.
pub open spec fn id_set(ids: Seq<i64>) -> Set<i64> {
    Set::new(|m: i64| ids.contains(m))
}

/// Whether `ids` holds `m`.
pub fn holds_id(ids: &Vec<i64>, m: i64) -> (r: bool)
    ensures
        r == id_set(ids@).contains(m),
{
    let mut i: usize = 0;
    while i < ids.len()
        invariant
            i <= ids.len(),
            forall|k: int| 0 <= k < i ==> ids@[k] != m,
        decreases ids.len() - i,
    {
        if ids[i] == m {
            assert(ids@.contains(m));
            return true;
        }
        i += 1;
    }
    assert(!ids@.contains(m));
    false
}

/// Flags every directory of the window whose message was not seen and
/// clears the flag of every one whose message was. Returns how many were
/// newly flagged and how many cleared. No row is added or removed.
pub fn mark_broken_dirs(index: &mut Index, min_message_id: i64, seen: &Vec<i64>) -> (r: (
    usize,
    usize,
))
    ensures
        final(index)@.dirs == marked_dirs(old(index)@.dirs, min_message_id, id_set(seen@)),
        final(index)@.files == old(index)@.files,
        r.0 == dirs_to_mark(old(index)@.dirs, min_message_id, id_set(seen@)),
        r.1 == dirs_to_clear(old(index)@.dirs, min_message_id, id_set(seen@)),
        old(index)@.wf() ==> final(index)@.wf(),
        old(index)@.keeps(final(index)@),
{
    let ghost before = index@;
    let ghost set = id_set(seen@);
    let ghost to_mark = |d: DirView|
        dir_in_window(d, min_message_id) && !set.contains(d.tg_msg_id->0) && !d.is_broken;
    let ghost to_clear = |d: DirView|
        dir_in_window(d, min_message_id) && set.contains(d.tg_msg_id->0) && d.is_broken;
    let mut marked: usize = 0;
    let mut cleared: usize = 0;
    let mut i: usize = 0;
    assert(before.dirs.take(0) =~= Seq::empty());
    while i < index.dirs.len()
        invariant
            i <= index.dirs.len(),
            index.dirs.len() == before.dirs.len(),
            index@.files == before.files,
            set == id_set(seen@),
            to_mark == |d: DirView|
                dir_in_window(d, min_message_id) && !set.contains(d.tg_msg_id->0) && !d.is_broken,
            to_clear == |d: DirView|
                dir_in_window(d, min_message_id) && set.contains(d.tg_msg_id->0) && d.is_broken,
            forall|k: int| 0 <= k < i ==> #[trigger] index@.dirs[k] == marked_dir(
                before.dirs[k],
                min_message_id,
                set,
            ),
            forall|k: int| i <= k < index.dirs.len() ==> #[trigger] index@.dirs[k] == before.dirs[k],
            index@.dir_ids() =~= before.dir_ids(),
            marked <= i,
            cleared <= i,
            marked == count_where(before.dirs.take(i as int), to_mark),
            cleared == count_where(before.dirs.take(i as int), to_clear),
        decreases index.dirs.len() - i,
    {
        proof {
            assert(before.dirs.take(i + 1).drop_last() =~= before.dirs.take(i as int));
            assert(before.dirs.take(i + 1).last() == before.dirs[i as int]);
        }
        let ghost prev = index@;
        assert(prev.dirs[i as int] == before.dirs[i as int]);
        assert(prev.dirs[i as int] == index.dirs@[i as int]@);
        let in_window = match index.dirs[i].tg_msg_id {
            Some(m) => m >= min_message_id && m > 0,
            None => false,
        };
        if in_window {
            let m = index.dirs[i].tg_msg_id.unwrap();
            let should_be_broken = !holds_id(seen, m);
            let was_broken = index.dirs[i].is_broken;
            if should_be_broken != was_broken {
                let mut row = index.dirs[i].clone();
                row.is_broken = should_be_broken;
                index.dirs.set(i, row);
                if should_be_broken {
                    marked += 1;
                } else {
                    cleared += 1;
                }
            }
        }
        proof {
            assert(index@.files =~= prev.files);
            assert(index@.dirs[i as int] == index.dirs@[i as int]@);
            assert(index@.dirs[i as int] == marked_dir(before.dirs[i as int], min_message_id, set));
            assert forall|k: int| 0 <= k < i + 1 implies #[trigger] index@.dirs[k] == marked_dir(
                before.dirs[k],
                min_message_id,
                set,
            ) by {
                if k < i {
                    assert(index@.dirs[k] == prev.dirs[k]);
                }
            }
            assert forall|k: int| i + 1 <= k < index.dirs.len() implies #[trigger] index@.dirs[k]
                == before.dirs[k] by {
                assert(index@.dirs[k] == prev.dirs[k]);
            }
        }
        i += 1;
    }
    proof {
        assert(before.dirs.take(i as int) =~= before.dirs);
        assert(index@.dirs =~= marked_dirs(before.dirs, min_message_id, set));
        assert(index@.file_ids() =~= before.file_ids());
    }
    (marked, cleared)
}

/// The same for the files that the given chat backs.
pub fn mark_broken_files(
    index: &mut Index,
    storage_chat_id: i64,
    min_message_id: i64,
    seen: &Vec<i64>,
) -> (r: (usize, usize))
    ensures
        final(index)@.files == marked_files(
            old(index)@.files,
            storage_chat_id,
            min_message_id,
            id_set(seen@),
        ),
        final(index)@.dirs == old(index)@.dirs,
        r.0 == files_to_mark(old(index)@.files, storage_chat_id, min_message_id, id_set(seen@)),
        r.1 == files_to_clear(old(index)@.files, storage_chat_id, min_message_id, id_set(seen@)),
        old(index)@.wf() ==> final(index)@.wf(),
        old(index)@.keeps(final(index)@),
{
    let ghost before = index@;
    let ghost set = id_set(seen@);
    let ghost to_mark = |f: FileView|
        file_in_window(f, storage_chat_id, min_message_id) && !set.contains(f.tg_msg_id)
            && !f.is_broken;
    let ghost to_clear = |f: FileView|
        file_in_window(f, storage_chat_id, min_message_id) && set.contains(f.tg_msg_id)
            && f.is_broken;
    let mut marked: usize = 0;
    let mut cleared: usize = 0;
    let mut i: usize = 0;
    assert(before.files.take(0) =~= Seq::empty());
    while i < index.files.len()
        invariant
            i <= index.files.len(),
            index.files.len() == before.files.len(),
            index@.dirs == before.dirs,
            set == id_set(seen@),
            to_mark == |f: FileView|
                file_in_window(f, storage_chat_id, min_message_id) && !set.contains(f.tg_msg_id)
                    && !f.is_broken,
            to_clear == |f: FileView|
                file_in_window(f, storage_chat_id, min_message_id) && set.contains(f.tg_msg_id)
                    && f.is_broken,
            forall|k: int| 0 <= k < i ==> #[trigger] index@.files[k] == marked_file(
                before.files[k],
                storage_chat_id,
                min_message_id,
                set,
            ),
            forall|k: int| i <= k < index.files.len() ==> #[trigger] index@.files[k]
                == before.files[k],
            index@.file_ids() =~= before.file_ids(),
            marked <= i,
            cleared <= i,
            marked == count_where(before.files.take(i as int), to_mark),
            cleared == count_where(before.files.take(i as int), to_clear),
        decreases index.files.len() - i,
    {
        proof {
            assert(before.files.take(i + 1).drop_last() =~= before.files.take(i as int));
            assert(before.files.take(i + 1).last() == before.files[i as int]);
        }
        let ghost prev = index@;
        assert(prev.files[i as int] == before.files[i as int]);
        assert(prev.files[i as int] == index.files@[i as int]@);
        let m = index.files[i].tg_msg_id;
        if index.files[i].tg_chat_id == storage_chat_id && m >= min_message_id && m > 0 {
            let should_be_broken = !holds_id(seen, m);
            let was_broken = index.files[i].is_broken;
            if should_be_broken != was_broken {
                let mut row = index.files[i].clone();
                row.is_broken = should_be_broken;
                index.files.set(i, row);
                if should_be_broken {
                    marked += 1;
                } else {
                    cleared += 1;
                }
            }
        }
        proof {
            assert(index@.dirs =~= prev.dirs);
            assert(index@.files[i as int] == index.files@[i as int]@);
            assert(index@.files[i as int] == marked_file(
                before.files[i as int],
                storage_chat_id,
                min_message_id,
                set,
            ));
            assert forall|k: int| 0 <= k < i + 1 implies #[trigger] index@.files[k] == marked_file(
                before.files[k],
                storage_chat_id,
                min_message_id,
                set,
            ) by {
                if k < i {
                    assert(index@.files[k] == prev.files[k]);
                }
            }
            assert forall|k: int| i + 1 <= k < index.files.len() implies #[trigger] index@.files[k]
                == before.files[k] by {
                assert(index@.files[k] == prev.files[k]);
            }
        }
        i += 1;
    }
    proof {
        assert(before.files.take(i as int) =~= before.files);
        assert(index@.files =~= marked_files(before.files, storage_chat_id, min_message_id, set));
        assert(index@.dir_ids() =~= before.dir_ids());
    }
    (marked, cleared)
}

/// Where no element satisfies the predicate, none is counted.
pub proof fn lemma_count_none<T>(s: Seq<T>, p: spec_fn(T) -> bool)
    requires
        forall|i: int| 0 <= i < s.len() ==> !p(#[trigger] s[i]),
    ensures
        count_where(s, p) == 0,
    decreases s.len(),
{
    if s.len() > 0 {
        assert(!p(s[s.len() - 1]));
        assert forall|i: int| 0 <= i < s.drop_last().len() implies !p(
            #[trigger] s.drop_last()[i],
        ) by {
            assert(s.drop_last()[i] == s[i]);
        }
        lemma_count_none(s.drop_last(), p);
    }
}

/// After a window was applied, every directory that it speaks of is flagged
/// exactly when its message was not seen; applying the same window again
/// changes nothing and counts nothing.
pub proof fn law_dirs_marking(dirs: Seq<DirView>, min: i64, seen: Set<i64>)
    ensures
        forall|i: int|
            0 <= i < dirs.len() && dir_in_window(dirs[i], min) ==> (#[trigger] marked_dirs(
                dirs,
                min,
                seen,
            )[i]).is_broken == !seen.contains(dirs[i].tg_msg_id->0),
        marked_dirs(marked_dirs(dirs, min, seen), min, seen) == marked_dirs(dirs, min, seen),
        dirs_to_mark(marked_dirs(dirs, min, seen), min, seen) == 0,
        dirs_to_clear(marked_dirs(dirs, min, seen), min, seen) == 0,
{
    let once = marked_dirs(dirs, min, seen);
    assert(marked_dirs(once, min, seen) =~= once);
    lemma_count_none(
        once,
        |d: DirView| dir_in_window(d, min) && !seen.contains(d.tg_msg_id->0) && !d.is_broken,
    );
    lemma_count_none(
        once,
        |d: DirView| dir_in_window(d, min) && seen.contains(d.tg_msg_id->0) && d.is_broken,
    );
}

/// The same law for files.
pub proof fn law_files_marking(files: Seq<FileView>, chat_id: i64, min: i64, seen: Set<i64>)
    ensures
        forall|i: int|
            0 <= i < files.len() && file_in_window(files[i], chat_id, min) ==> (
            #[trigger] marked_files(files, chat_id, min, seen)[i]).is_broken == !seen.contains(
                files[i].tg_msg_id,
            ),
        marked_files(marked_files(files, chat_id, min, seen), chat_id, min, seen) == marked_files(
            files,
            chat_id,
            min,
            seen,
        ),
        files_to_mark(marked_files(files, chat_id, min, seen), chat_id, min, seen) == 0,
        files_to_clear(marked_files(files, chat_id, min, seen), chat_id, min, seen) == 0,
{
    let once = marked_files(files, chat_id, min, seen);
    assert(marked_files(once, chat_id, min, seen) =~= once);
    lemma_count_none(
        once,
        |f: FileView| file_in_window(f, chat_id, min) && !seen.contains(f.tg_msg_id) && !f.is_broken,
    );
    lemma_count_none(
        once,
        |f: FileView| file_in_window(f, chat_id, min) && seen.contains(f.tg_msg_id) && f.is_broken,
    );
}

} // verus!
