//! Listings of the index for display: files and directories in the order of
//! their names.

use crate::cache::{local_download_info, resolved, CacheEntry};
use crate::files::FileItem;
use crate::index::Index;
use crate::model::{
    clone_opt_string, normal_parent, opt_text, DirView, FileEntry, FileView, ROOT_ID,
};
use crate::text::chars_of;
use crate::tree::normalize_parent_id;
use vstd::prelude::*;

verus! {

/// Whether text `a` comes strictly before text `b`, character by character
/// in the order of the code points; a text comes after its proper
/// beginnings.
pub open spec fn text_lt(a: Seq<char>, b: Seq<char>) -> bool
    decreases a.len(),
{
    if b.len() == 0 {
        false
    } else if a.len() == 0 {
        true
    } else if a[0] != b[0] {
        a[0] < b[0]
    } else {
        text_lt(a.skip(1), b.skip(1))
    }
}

/// Of two different texts one comes before the other.
pub proof fn lemma_text_lt_total(a: Seq<char>, b: Seq<char>)
    ensures
        a == b || text_lt(a, b) || text_lt(b, a),
    decreases a.len(),
{
    if a.len() > 0 && b.len() > 0 && a[0] == b[0] {
        lemma_text_lt_total(a.skip(1), b.skip(1));
        if a.skip(1) == b.skip(1) {
            assert(a =~= seq![a[0]] + a.skip(1));
            assert(b =~= seq![b[0]] + b.skip(1));
        }
    } else if a.len() == 0 && b.len() == 0 {
        assert(a =~= b);
    }
}

/// What comes before a text comes before all that the text comes before.
pub proof fn lemma_text_lt_transitive(a: Seq<char>, b: Seq<char>, c: Seq<char>)
    requires
        text_lt(a, b),
        text_lt(b, c),
    ensures
        text_lt(a, c),
    decreases a.len(),
{
    if a.len() > 0 && a[0] == b[0] && b[0] == c[0] {
        lemma_text_lt_transitive(a.skip(1), b.skip(1), c.skip(1));
    }
}

/// Whether the first text comes strictly before the second.
pub fn chars_lt(a: &Vec<char>, b: &Vec<char>) -> (r: bool)
    ensures
        r == text_lt(a@, b@),
{
    let mut i: usize = 0;
    assert(a@.skip(0) =~= a@ && b@.skip(0) =~= b@);
    while i < a.len() && i < b.len()
        invariant
            i <= a.len(),
            i <= b.len(),
            text_lt(a@, b@) == text_lt(a@.skip(i as int), b@.skip(i as int)),
        decreases a.len() - i,
    {
        if a[i] != b[i] {
            return a[i] < b[i];
        }
        assert(a@.skip(i as int).skip(1) =~= a@.skip(i + 1));
        assert(b@.skip(i as int).skip(1) =~= b@.skip(i + 1));
        i += 1;
    }
    i < b.len()
}

/// Whether entry `i` stands before entry `j` in a listing by name: by its
/// name, and among equal names by where it stands.
pub open spec fn stands_before(names: Seq<Seq<char>>, i: int, j: int) -> bool {
    text_lt(names[i], names[j]) || (names[i] == names[j] && i < j)
}

/// Whether `order` lists the positions `0..names.len()` by name: each
/// position is listed, and each listed position stands before the next.
pub open spec fn is_name_order(names: Seq<Seq<char>>, order: Seq<int>) -> bool {
    &&& order.len() == names.len()
    &&& forall|k: int| 0 <= k < order.len() ==> 0 <= #[trigger] order[k] < names.len()
    &&& forall|k: int| 0 <= k < names.len() ==> order.contains(k)
    &&& forall|a: int, b: int|
        0 <= a < b < order.len() ==> stands_before(names, #[trigger] order[a], #[trigger] order[b])
}

proof fn lemma_stands_before_transitive(names: Seq<Seq<char>>, i: int, j: int, k: int)
    requires
        stands_before(names, i, j),
        stands_before(names, j, k),
    ensures
        stands_before(names, i, k),
{
    if text_lt(names[i], names[j]) && text_lt(names[j], names[k]) {
        lemma_text_lt_transitive(names[i], names[j], names[k]);
    }
}

/// The texts that a vector of strings holds.
pub open spec fn name_texts(v: Seq<String>) -> Seq<Seq<char>> {
    Seq::new(v.len(), |i: int| v[i]@)
}

/// The positions as mathematical integers.
pub open spec fn positions(v: Seq<usize>) -> Seq<int> {
    Seq::new(v.len(), |i: int| v[i] as int)
}

/// The positions of the names, in the order of the names.
pub fn order_by_name(names: &Vec<String>) -> (r: Vec<usize>)
    ensures
        is_name_order(name_texts(names@), positions(r@)),
{
    let ghost texts = name_texts(names@);
    let mut order: Vec<usize> = Vec::new();
    let mut x: usize = 0;
    while x < names.len()
        invariant
            x <= names.len(),
            texts == name_texts(names@),
            order@.len() == x,
            forall|k: int| 0 <= k < order@.len() ==> 0 <= #[trigger] order@[k] < x,
            forall|k: int| 0 <= k < x ==> positions(order@).contains(k),
            forall|a: int, b: int|
                0 <= a < b < order@.len() ==> stands_before(
                    texts,
                    #[trigger] order@[a] as int,
                    #[trigger] order@[b] as int,
                ),
        decreases names.len() - x,
    {
        let key = chars_of(names[x].as_str());
        let mut j: usize = order.len();
        while j > 0 && chars_lt(&key, &chars_of(names[order[j - 1]].as_str()))
            invariant
                j <= order@.len(),
                x < names.len(),
                key@ == texts[x as int],
                texts == name_texts(names@),
                forall|k: int| 0 <= k < order@.len() ==> 0 <= #[trigger] order@[k] < x,
                forall|k: int| j <= k < order@.len() ==> text_lt(texts[x as int], texts[order@[k] as int]),
            decreases j,
        {
            j -= 1;
        }
        let ghost before = order@;
        order.insert(j, x);
        proof {
            let after = order@;
            assert(after == before.insert(j as int, x));
            assert forall|k: int| 0 <= k < after.len() implies 0 <= #[trigger] after[k] < x + 1 by {
                if k < j {
                    assert(after[k] == before[k]);
                } else if k > j {
                    assert(after[k] == before[k - 1]);
                }
            }
            assert forall|k: int| 0 <= k < x + 1 implies positions(after).contains(k) by {
                if k == x {
                    assert(positions(after)[j as int] == k);
                } else {
                    assert(positions(before).contains(k));
                    let i = choose|i: int| 0 <= i < before.len() && positions(before)[i] == k;
                    if i < j {
                        assert(positions(after)[i] == k);
                    } else {
                        assert(positions(after)[i + 1] == k);
                    }
                }
            }
            assert forall|a: int, b: int| 0 <= a < b < after.len() implies stands_before(
                texts,
                #[trigger] after[a] as int,
                #[trigger] after[b] as int,
            ) by {
                let pa = after[a] as int;
                let pb = after[b] as int;
                if b == j {
                    // what stands before the place of x stands before x
                    let last = before[j - 1] as int;
                    assert(!text_lt(texts[x as int], texts[last]));
                    lemma_text_lt_total(texts[last], texts[x as int]);
                    assert(stands_before(texts, last, x as int));
                    if a < j - 1 {
                        assert(after[a] == before[a]);
                        assert(stands_before(texts, before[a] as int, before[j - 1] as int));
                        lemma_stands_before_transitive(texts, pa, last, x as int);
                    } else {
                        assert(after[a] == before[j - 1]);
                    }
                } else if a == j {
                    assert(after[b] == before[b - 1]);
                } else if a < j && b < j {
                    assert(after[a] == before[a] && after[b] == before[b]);
                } else if a < j && b > j {
                    assert(after[a] == before[a] && after[b] == before[b - 1]);
                } else {
                    assert(after[a] == before[a - 1] && after[b] == before[b - 1]);
                }
            }
        }
        x += 1;
    }
    proof {
        assert forall|k: int| 0 <= k < positions(order@).len() implies 0 <= #[trigger] positions(
            order@,
        )[k] < texts.len() by {
            assert(0 <= order@[k] < x);
        }
        assert forall|a: int, b: int| 0 <= a < b < positions(order@).len() implies stands_before(
            texts,
            #[trigger] positions(order@)[a],
            #[trigger] positions(order@)[b],
        ) by {
            assert(stands_before(texts, order@[a] as int, order@[b] as int));
        }
    }
    order
}

// ---------------------------------------------------------------------------
// Files of a directory
// ---------------------------------------------------------------------------
/// The files of directory `dir_id`, in the order of the index.
pub open spec fn files_in(files: Seq<FileView>, dir_id: Seq<char>) -> Seq<FileView>
    decreases files.len(),
{
    if files.len() == 0 {
        Seq::empty()
    } else if files.last().dir_id == dir_id {
        files_in(files.drop_last(), dir_id).push(files.last())
    } else {
        files_in(files.drop_last(), dir_id)
    }
}

/// The views of the files.
pub open spec fn file_views(files: Seq<FileEntry>) -> Seq<FileView> {
    Seq::new(files.len(), |i: int| files[i]@)
}

/// The names of the files.
pub open spec fn file_names(files: Seq<FileView>) -> Seq<Seq<char>> {
    Seq::new(files.len(), |i: int| files[i].name)
}

/// Whether a listed item shows the file, with what the cache holds of it.
pub open spec fn shows_file(item: FileItem, f: FileView, entries: Seq<CacheEntry>) -> bool {
    &&& item.id@ == f.id
    &&& item.dir_id@ == f.dir_id
    &&& item.name@ == f.name
    &&& item.size == f.size
    &&& item.hash@ == f.hash
    &&& item.tg_chat_id == f.tg_chat_id
    &&& item.tg_msg_id == f.tg_msg_id
    &&& item.created_at == f.created_at
    &&& item.is_broken == f.is_broken
    &&& match resolved(entries, f.name, f.size) {
        Some(i) => item.is_downloaded && item.local_size == entries[i].size,
        None => !item.is_downloaded && item.local_size is None,
    }
}

/// The files of a directory by name, each with what the cache directory of
/// the directory holds of it.
pub fn list_files(index: &Index, dir_id: &str, entries: &Vec<CacheEntry>) -> (r: Vec<FileItem>)
    ensures
        ({
            let rows = files_in(index@.files, dir_id@);
            exists|order: Seq<int>|
                is_name_order(file_names(rows), order) && r@.len() == rows.len() && forall|k: int|
                    0 <= k < r@.len() ==> shows_file(#[trigger] r@[k], rows[order[k]], entries@)
        }),
{
    let wanted = String::from_str(dir_id);
    let mut rows: Vec<FileEntry> = Vec::new();
    let mut names: Vec<String> = Vec::new();
    let mut i: usize = 0;
    assert(index@.files.take(0) =~= Seq::empty());
    assert(file_views(rows@) =~= Seq::empty());
    assert(name_texts(names@) =~= file_names(file_views(rows@)));
    while i < index.files.len()
        invariant
            i <= index.files.len(),
            wanted@ == dir_id@,
            file_views(rows@) == files_in(index@.files.take(i as int), dir_id@),
            name_texts(names@) == file_names(file_views(rows@)),
        decreases index.files.len() - i,
    {
        proof {
            let part = index@.files.take(i + 1);
            assert(part.drop_last() =~= index@.files.take(i as int));
            assert(part.last() == index.files@[i as int]@);
        }
        if index.files[i].dir_id == wanted {
            let ghost before = file_views(rows@);
            let ghost before_names = name_texts(names@);
            let row = index.files[i].clone();
            let name = row.name.clone();
            rows.push(row);
            names.push(name);
            proof {
                assert(file_views(rows@) =~= before.push(row@));
                assert(name_texts(names@) =~= before_names.push(name@));
                assert(file_names(before.push(row@)) =~= file_names(before).push(row@.name));
            }
        }
        i += 1;
    }
    assert(index@.files.take(i as int) =~= index@.files);
    let ghost listed = file_views(rows@);
    let order = order_by_name(&names);
    let mut out: Vec<FileItem> = Vec::new();
    let mut k: usize = 0;
    while k < order.len()
        invariant
            k <= order.len(),
            is_name_order(file_names(listed), positions(order@)),
            listed == file_views(rows@),
            out@.len() == k,
            forall|j: int|
                0 <= j < k ==> shows_file(
                    #[trigger] out@[j],
                    listed[positions(order@)[j]],
                    entries@,
                ),
        decreases order.len() - k,
    {
        assert(0 <= positions(order@)[k as int] < listed.len());
        assert(order@[k as int] == positions(order@)[k as int]);
        assert(rows@.len() == listed.len());
        let f = &rows[order[k]];
        assert(f@ == listed[positions(order@)[k as int]]);
        let ghost before = out@;
        out.push(file_item(f, entries));
        proof {
            assert forall|j: int| 0 <= j < k + 1 implies shows_file(
                #[trigger] out@[j],
                listed[positions(order@)[j]],
                entries@,
            ) by {
                if j < k {
                    assert(out@[j] == before[j]);
                }
            }
        }
        k += 1;
    }
    out
}

/// A file as a listing shows it, with what its cache directory holds of it.
pub fn file_item(f: &FileEntry, entries: &Vec<CacheEntry>) -> (r: FileItem)
    ensures
        shows_file(r, f@, entries@),
{
    let (is_downloaded, local_size) = local_download_info(entries, f.name.as_str(), f.size);
    FileItem {
        id: f.id.clone(),
        dir_id: f.dir_id.clone(),
        name: f.name.clone(),
        size: f.size,
        local_size,
        is_downloaded,
        hash: f.hash.clone(),
        tg_chat_id: f.tg_chat_id,
        tg_msg_id: f.tg_msg_id,
        created_at: f.created_at,
        is_broken: f.is_broken,
    }
}

// ---------------------------------------------------------------------------
// The tree of directories
// ---------------------------------------------------------------------------
/// A directory with the directories below it.
#[derive(Debug)]
pub struct DirNode {
    pub id: String,
    pub name: String,
    pub parent_id: Option<String>,
    pub is_broken: bool,
    pub children: Vec<DirNode>,
}

/// The names of the directories.
pub open spec fn dir_names(dirs: Seq<DirView>) -> Seq<Seq<char>> {
    Seq::new(dirs.len(), |i: int| dirs[i].name)
}

/// Of the listed positions, those of the directories whose parent is
/// `parent`, in the order in which they are listed.
pub open spec fn children_in(dirs: Seq<DirView>, order: Seq<int>, parent: Option<Seq<char>>) -> Seq<
    int,
>
    decreases order.len(),
{
    if order.len() == 0 {
        Seq::empty()
    } else if normal_parent(dirs[order.last()].parent_id) == parent {
        children_in(dirs, order.drop_last(), parent).push(order.last())
    } else {
        children_in(dirs, order.drop_last(), parent)
    }
}

/// Whether the nodes are the directories below `parent`, by name, each with
/// the directories below it in turn, `depth` levels deep.
pub open spec fn shows_children(
    kids: Seq<DirNode>,
    dirs: Seq<DirView>,
    order: Seq<int>,
    parent: Option<Seq<char>>,
    depth: nat,
) -> bool
    decreases depth,
{
    if depth == 0 {
        kids.len() == 0
    } else {
        let want = children_in(dirs, order, parent);
        &&& kids.len() == want.len()
        &&& forall|k: int|
            0 <= k < kids.len() ==> {
                let node = #[trigger] kids[k];
                let row = dirs[want[k]];
                &&& node.id@ == row.id
                &&& node.name@ == row.name
                &&& opt_text(node.parent_id) == normal_parent(row.parent_id)
                &&& node.is_broken == row.is_broken
                &&& shows_children(node.children@, dirs, order, Some(row.id), (depth - 1) as nat)
            }
    }
}

fn same_parent(a: &Option<String>, b: &Option<String>) -> (r: bool)
    ensures
        r == (opt_text(*a) == opt_text(*b)),
{
    match (a, b) {
        (Some(x), Some(y)) => *x == *y,
        (None, None) => true,
        _ => false,
    }
}

fn build_children(index: &Index, order: &Vec<usize>, parent: &Option<String>, depth: usize) -> (r:
    Vec<DirNode>)
    requires
        forall|k: int| 0 <= k < order@.len() ==> #[trigger] order@[k] < index.dirs@.len(),
    ensures
        shows_children(r@, index@.dirs, positions(order@), opt_text(*parent), depth as nat),
    decreases depth,
{
    let mut out: Vec<DirNode> = Vec::new();
    if depth == 0 {
        return out;
    }
    let ghost dirs = index@.dirs;
    let ghost listed = positions(order@);
    let mut i: usize = 0;
    assert(listed.take(0) =~= Seq::empty());
    while i < order.len()
        invariant
            i <= order.len(),
            depth > 0,
            dirs == index@.dirs,
            listed == positions(order@),
            forall|k: int| 0 <= k < order@.len() ==> #[trigger] order@[k] < index.dirs@.len(),
            out@.len() == children_in(dirs, listed.take(i as int), opt_text(*parent)).len(),
            forall|k: int|
                0 <= k < out@.len() ==> {
                    let node = #[trigger] out@[k];
                    let row = dirs[children_in(dirs, listed.take(i as int), opt_text(*parent))[k]];
                    &&& node.id@ == row.id
                    &&& node.name@ == row.name
                    &&& opt_text(node.parent_id) == normal_parent(row.parent_id)
                    &&& node.is_broken == row.is_broken
                    &&& shows_children(
                        node.children@,
                        dirs,
                        listed,
                        Some(row.id),
                        (depth - 1) as nat,
                    )
                },
        decreases order.len() - i,
    {
        let pos = order[i];
        let row = &index.dirs[pos];
        let own_parent = normalize_parent_id(clone_opt_string(&row.parent_id));
        let ghost before = children_in(dirs, listed.take(i as int), opt_text(*parent));
        proof {
            let part = listed.take(i + 1);
            assert(part.drop_last() =~= listed.take(i as int));
            assert(part.last() == pos as int);
            assert(dirs[pos as int] == row@);
        }
        if same_parent(&own_parent, parent) {
            let kids = build_children(index, order, &Some(row.id.clone()), depth - 1);
            let ghost old_out = out@;
            out.push(
                DirNode {
                    id: row.id.clone(),
                    name: row.name.clone(),
                    parent_id: own_parent,
                    is_broken: row.is_broken,
                    children: kids,
                },
            );
            proof {
                let now = children_in(dirs, listed.take(i + 1), opt_text(*parent));
                assert(now == before.push(pos as int));
                assert forall|k: int| 0 <= k < out@.len() implies {
                    let node = #[trigger] out@[k];
                    let r = dirs[now[k]];
                    &&& node.id@ == r.id
                    &&& node.name@ == r.name
                    &&& opt_text(node.parent_id) == normal_parent(r.parent_id)
                    &&& node.is_broken == r.is_broken
                    &&& shows_children(node.children@, dirs, listed, Some(r.id), (depth - 1) as nat)
                } by {
                    if k < old_out.len() {
                        assert(out@[k] == old_out[k]);
                        assert(now[k] == before[k]);
                    }
                }
            }
        }
        i += 1;
    }
    assert(listed.take(i as int) =~= listed);
    out
}

/// The name under which the top of the tree is shown.
pub open spec fn is_root_node(root: DirNode) -> bool {
    root.id@ == ROOT_ID@ && root.name@ == ROOT_ID@ && root.parent_id is None && !root.is_broken
}

/// The tree of all directories: below the root stand the top-level
/// directories by name, and below each directory its subdirectories by name.
/// A directory whose parent is not in the index is not shown.
pub fn list_tree(index: &Index) -> (root: DirNode)
    ensures
        is_root_node(root),
        exists|order: Seq<int>|
            is_name_order(dir_names(index@.dirs), order) && shows_children(
                root.children@,
                index@.dirs,
                order,
                None,
                index@.dirs.len(),
            ),
{
    let mut names: Vec<String> = Vec::new();
    let mut i: usize = 0;
    while i < index.dirs.len()
        invariant
            i <= index.dirs.len(),
            name_texts(names@) == dir_names(index@.dirs).take(i as int),
        decreases index.dirs.len() - i,
    {
        let ghost before = name_texts(names@);
        let name = index.dirs[i].name.clone();
        names.push(name);
        assert(index@.dirs[i as int] == index.dirs@[i as int]@);
        assert(name_texts(names@) =~= before.push(name@));
        assert(dir_names(index@.dirs).take(i + 1) =~= dir_names(index@.dirs).take(i as int).push(
            name@,
        ));
        i += 1;
    }
    assert(dir_names(index@.dirs).take(i as int) =~= dir_names(index@.dirs));
    let order = order_by_name(&names);
    assert forall|k: int| 0 <= k < order@.len() implies #[trigger] order@[k] < index.dirs@.len() by {
        assert(0 <= positions(order@)[k] < names@.len());
    }
    let children = build_children(index, &order, &None, index.dirs.len());
    DirNode {
        id: String::from_str(ROOT_ID),
        name: String::from_str(ROOT_ID),
        parent_id: None,
        is_broken: false,
        children,
    }
}

} // verus!
