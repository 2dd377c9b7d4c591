//! The directory tree inside the index: parents, ancestors, and the rule
//! that keeps a move from closing a cycle.

use crate::error::{error_kind, CoreError, DirOp, ErrorKind};
use crate::index::Index;
use crate::model::{
    lemma_index_of_found, lemma_put_dir_known, normal_parent, opt_text, DirView, IndexView,
    ROOT_ID,
};
use crate::text::{str_eq, str_is_blank};
use vstd::prelude::*;

verus! {

/// The parent that a stored value names: none when it is blank or `ROOT`.
pub fn normalize_parent_id(raw: Option<String>) -> (r: Option<String>)
    ensures
        opt_text(r) == normal_parent(opt_text(raw)),
{
    match raw {
        Some(p) => {
            if str_is_blank(p.as_str()) || str_eq(p.as_str(), ROOT_ID) {
                None
            } else {
                Some(p)
            }
        },
        None => None,
    }
}

/// The directory reached from `start` by `k` steps towards the root.
pub open spec fn ancestor_at(v: IndexView, start: Seq<char>, k: nat) -> Option<Seq<char>>
    decreases k,
{
    if k == 0 {
        Some(start)
    } else {
        match ancestor_at(v, start, (k - 1) as nat) {
            Some(x) => v.parent_of(x),
            None => None,
        }
    }
}

/// Whether `target` is `start` or is met within `fuel` steps from `start`
/// towards the root.
pub open spec fn reaches_within(
    v: IndexView,
    start: Seq<char>,
    target: Seq<char>,
    fuel: nat,
) -> bool {
    exists|k: nat| k <= fuel && ancestor_at(v, start, k) == Some(target)
}

/// Whether `target` is `start` or one of its ancestors, at any depth.
pub open spec fn reaches(v: IndexView, start: Seq<char>, target: Seq<char>) -> bool {
    exists|k: nat| ancestor_at(v, start, k) == Some(target)
}

proof fn lemma_chain_ends(v: IndexView, start: Seq<char>, k: nat, m: nat)
    requires
        ancestor_at(v, start, k) is None,
        k <= m,
    ensures
        ancestor_at(v, start, m) is None,
    decreases m,
{
    if m > k {
        lemma_chain_ends(v, start, k, (m - 1) as nat);
    }
}

impl Index {
    /// The parent of the directory `id`, if it has one.
    pub fn parent_of(&self, id: &str) -> (r: Option<String>)
        ensures
            opt_text(r) == self@.parent_of(id@),
    {
        match self.get_dir(id) {
            Some(d) => normalize_parent_id(d.parent_id),
            None => None,
        }
    }
}

/// Whether `target_id` is `start_id` or one of its ancestors. The walk stops
/// after as many steps as the index has directories.
pub fn has_ancestor(index: &Index, start_id: &str, target_id: &str) -> (r: bool)
    ensures
        r == reaches_within(index@, start_id@, target_id@, index@.dirs.len()),
{
    let cap: usize = index.dirs.len();
    let mut current: String = String::from_str(start_id);
    let mut steps: usize = 0;
    loop
        invariant
            cap == index@.dirs.len(),
            steps <= cap,
            ancestor_at(index@, start_id@, steps as nat) == Some(current@),
            forall|k: nat| k < steps ==> ancestor_at(index@, start_id@, k) != Some(target_id@),
        decreases cap - steps,
    {
        if str_eq(current.as_str(), target_id) {
            return true;
        }
        if steps == cap {
            return false;
        }
        match index.parent_of(current.as_str()) {
            Some(p) => {
                current = p;
                steps += 1;
            },
            None => {
                proof {
                    assert(ancestor_at(index@, start_id@, (steps + 1) as nat) is None);
                    assert forall|k: nat| k <= cap implies ancestor_at(index@, start_id@, k)
                        != Some(target_id@) by {
                        if k > steps {
                            lemma_chain_ends(index@, start_id@, (steps + 1) as nat, k);
                        }
                    }
                }
                return false;
            },
        }
    }
}

/// Why a directory may not be moved under the given parent, if it may not.
/// The root is no directory to move.
pub open spec fn move_dir_fault(v: IndexView, dir_id: Seq<char>, parent: Option<Seq<char>>) -> Option<
    CoreError,
> {
    if dir_id == ROOT_ID@ {
        Some(CoreError::RootDirectory(DirOp::Move))
    } else if !v.has_dir(dir_id) {
        Some(CoreError::DirNotFound)
    } else {
        match normal_parent(parent) {
            None => None,
            Some(p) => if p == dir_id {
                Some(CoreError::MoveIntoSelf)
            } else if !v.has_dir(p) {
                Some(CoreError::ParentNotFound)
            } else if reaches_within(v, p, dir_id, v.dirs.len()) {
                Some(CoreError::MoveIntoDescendant)
            } else {
                None
            },
        }
    }
}

/// Checks a move before anything is changed.
pub fn check_move_dir(index: &Index, dir_id: &str, parent: &Option<String>) -> (r: Result<
    (),
    CoreError,
>)
    ensures
        match r {
            Ok(()) => move_dir_fault(index@, dir_id@, opt_text(*parent)) is None,
            Err(e) => move_dir_fault(index@, dir_id@, opt_text(*parent)) == Some(e),
        },
{
    if str_eq(dir_id, ROOT_ID) {
        return Err(CoreError::RootDirectory(DirOp::Move));
    }
    if !index.dir_exists(dir_id) {
        return Err(CoreError::DirNotFound);
    }
    match normalize_parent_id(crate::model::clone_opt_string(parent)) {
        None => Ok(()),
        Some(p) => {
            if str_eq(p.as_str(), dir_id) {
                Err(CoreError::MoveIntoSelf)
            } else if !index.dir_exists(p.as_str()) {
                Err(CoreError::ParentNotFound)
            } else if has_ancestor(index, p.as_str(), dir_id) {
                Err(CoreError::MoveIntoDescendant)
            } else {
                Ok(())
            }
        },
    }
}

proof fn lemma_two_alike(a: Seq<int>, n: int)
    requires
        n >= 0,
        a.len() == n + 1,
        forall|i: int| 0 <= i < a.len() ==> 0 <= #[trigger] a[i] < n,
    ensures
        exists|i: int, j: int| 0 <= i < j < a.len() && a[i] == a[j],
    decreases n,
{
    if n == 0 {
        let x = a[0];
        assert(0 <= x < n);
    } else {
        let last = a[n];
        if exists|i: int| 0 <= i < n && a[i] == last {
            let i = choose|i: int| 0 <= i < n && a[i] == last;
            assert(0 <= i < n < a.len() && a[i] == a[n]);
        } else {
            let b = Seq::new(
                n as nat,
                |i: int|
                    if a[i] == n - 1 {
                        last
                    } else {
                        a[i]
                    },
            );
            assert forall|i: int| 0 <= i < b.len() implies 0 <= #[trigger] b[i] < n - 1 by {
                assert(0 <= a[i] < n);
                assert(0 <= a[n] < n);
                assert(a[i] != last);
            }
            lemma_two_alike(b, n - 1);
            let (i, j) = choose|i: int, j: int| 0 <= i < j < b.len() && b[i] == b[j];
            assert(a[i] != last && a[j] != last);
            assert(a[i] == a[j]);
        }
    }
}

proof fn lemma_chain_repeats(v: IndexView, start: Seq<char>, i: nat, j: nat, k: nat)
    requires
        ancestor_at(v, start, i) == ancestor_at(v, start, j),
    ensures
        ancestor_at(v, start, i + k) == ancestor_at(v, start, j + k),
    decreases k,
{
    if k > 0 {
        lemma_chain_repeats(v, start, i, j, (k - 1) as nat);
    }
}

proof fn lemma_chain_folds(v: IndexView, start: Seq<char>, target: Seq<char>, k: nat)
    requires
        ancestor_at(v, start, k) == Some(target),
    ensures
        reaches_within(v, start, target, v.dirs.len()),
    decreases k,
{
    let n = v.dirs.len();
    if k > n {
        let ids = v.dir_ids();
        assert forall|i: nat| i <= k implies ancestor_at(v, start, i) is Some by {
            if ancestor_at(v, start, i) is None {
                lemma_chain_ends(v, start, i, k);
            }
        }
        let a = Seq::new(n + 1, |i: int| v.dir_pos(ancestor_at(v, start, i as nat)->0));
        assert forall|i: int| 0 <= i < a.len() implies 0 <= #[trigger] a[i] < n by {
            let x = ancestor_at(v, start, i as nat)->0;
            assert(ancestor_at(v, start, (i + 1) as nat) is Some);
            assert(ancestor_at(v, start, (i + 1) as nat) == v.parent_of(x));
            lemma_index_of_found(ids, x);
        }
        lemma_two_alike(a, n as int);
        let (i, j) = choose|i: int, j: int| 0 <= i < j < a.len() && a[i] == a[j];
        let x = ancestor_at(v, start, i as nat)->0;
        let y = ancestor_at(v, start, j as nat)->0;
        assert(0 <= a[i] < n && 0 <= a[j] < n);
        lemma_index_of_found(ids, x);
        lemma_index_of_found(ids, y);
        assert(x == y);
        lemma_chain_repeats(v, start, i as nat, j as nat, (k - j) as nat);
        lemma_chain_folds(v, start, target, (i + k - j) as nat);
    }
}

/// Whatever is reached at any depth is reached within as many steps as the
/// index has directories.
pub proof fn lemma_reaches_bounded(v: IndexView, start: Seq<char>, target: Seq<char>)
    requires
        reaches(v, start, target),
    ensures
        reaches_within(v, start, target, v.dirs.len()),
{
    let k = choose|k: nat| ancestor_at(v, start, k) == Some(target);
    lemma_chain_folds(v, start, target, k);
}

/// A directory is never moved under itself or under one of its descendants,
/// however deep: the move is refused as a request to correct.
pub proof fn law_cycle_protection(v: IndexView, a: Seq<char>, b: Seq<char>)
    requires
        v.has_dir(a),
        reaches(v, b, a),
        normal_parent(Some(b)) == Some(b),
    ensures
        move_dir_fault(v, a, Some(b)) == Some(
            if a == ROOT_ID@ {
                CoreError::RootDirectory(DirOp::Move)
            } else if b == a {
                CoreError::MoveIntoSelf
            } else {
                CoreError::MoveIntoDescendant
            },
        ),
        error_kind(move_dir_fault(v, a, Some(b))->0) == ErrorKind::Validation,
{
    if b != a {
        let k = choose|k: nat| ancestor_at(v, b, k) == Some(a);
        assert(k >= 1);
        assert(ancestor_at(v, b, 1) is Some) by {
            if ancestor_at(v, b, 1) is None {
                lemma_chain_ends(v, b, 1, k);
            }
        }
        assert(ancestor_at(v, b, 0) == Some(b));
        assert(ancestor_at(v, b, 1) == v.parent_of(b));
        lemma_reaches_bounded(v, b, a);
    }
}

// ---------------------------------------------------------------------------
// The tree stays a tree
// ---------------------------------------------------------------------------
/// Whether the walk from `start` towards the root ends.
pub open spec fn ends(v: IndexView, start: Seq<char>) -> bool {
    exists|k: nat| ancestor_at(v, start, k) is None
}

/// Whether the parents of the index close no cycle: from every directory
/// the walk towards the root ends.
pub open spec fn acyclic(v: IndexView) -> bool {
    forall|d: Seq<char>| #[trigger] ends(v, d)
}

/// The walk from a directory is the walk from its parent, one step on.
proof fn lemma_walk_from_parent(v: IndexView, start: Seq<char>, k: nat)
    ensures
        ancestor_at(v, start, k + 1) == match v.parent_of(start) {
            Some(x) => ancestor_at(v, x, k),
            None => None,
        },
    decreases k,
{
    if k > 0 {
        lemma_walk_from_parent(v, start, (k - 1) as nat);
    } else {
        assert(ancestor_at(v, start, 0) == Some(start));
        assert(ancestor_at(v, start, 1) == v.parent_of(start));
        match v.parent_of(start) {
            Some(x) => {
                assert(ancestor_at(v, x, 0) == Some(x));
            },
            None => {},
        }
    }
}

/// A walk that does not pass the directory whose parent changed is the
/// walk that it was.
proof fn lemma_same_walk(v: IndexView, w: IndexView, a: Seq<char>, start: Seq<char>, k: nat)
    requires
        forall|x: Seq<char>| x != a ==> #[trigger] w.parent_of(x) == v.parent_of(x),
        forall|i: nat| i < k ==> ancestor_at(v, start, i) != Some(a),
    ensures
        ancestor_at(w, start, k) == ancestor_at(v, start, k),
    decreases k,
{
    if k > 0 {
        lemma_same_walk(v, w, a, start, (k - 1) as nat);
        assert(ancestor_at(v, start, (k - 1) as nat) != Some(a));
    }
}

/// Every walk ends after the parent of `a` changed, when the walk from the
/// new parent ends.
proof fn lemma_walk_ends(v: IndexView, w: IndexView, a: Seq<char>, start: Seq<char>, k: nat)
    requires
        forall|x: Seq<char>| x != a ==> #[trigger] w.parent_of(x) == v.parent_of(x),
        w.parent_of(a) matches Some(p) ==> ends(w, p),
        ancestor_at(v, start, k) is None,
    ensures
        ends(w, start),
    decreases k,
{
    if start == a {
        match w.parent_of(a) {
            Some(p) => {
                let m = choose|m: nat| ancestor_at(w, p, m) is None;
                lemma_walk_from_parent(w, a, m);
                assert(ancestor_at(w, a, m + 1) is None);
            },
            None => {
                lemma_walk_from_parent(w, a, 0);
                assert(ancestor_at(w, a, 1) is None);
            },
        }
    } else {
        assert(k > 0);
        lemma_walk_from_parent(v, start, (k - 1) as nat);
        match v.parent_of(start) {
            Some(x) => {
                lemma_walk_ends(v, w, a, x, (k - 1) as nat);
                let m = choose|m: nat| ancestor_at(w, x, m) is None;
                lemma_walk_from_parent(w, start, m);
                assert(ancestor_at(w, start, m + 1) is None);
            },
            None => {
                lemma_walk_from_parent(w, start, 0);
                assert(ancestor_at(w, start, 1) is None);
            },
        }
    }
}

/// A move that is let through keeps the tree a tree: when the parents of
/// the index close no cycle and the directory is put under the parent that
/// the move names, they close none afterwards, whatever else of its row
/// changes.
pub proof fn law_move_keeps_tree(
    v: IndexView,
    dir_id: Seq<char>,
    parent: Option<Seq<char>>,
    row: DirView,
)
    requires
        acyclic(v),
        move_dir_fault(v, dir_id, parent) is None,
        row.id == dir_id,
        row.parent_id == normal_parent(parent),
    ensures
        acyclic(v.put_dir(row)),
{
    let w = v.put_dir(row);
    lemma_put_dir_known(v, row);
    lemma_index_of_found(v.dir_ids(), dir_id);
    assert forall|x: Seq<char>| x != dir_id implies #[trigger] w.parent_of(x) == v.parent_of(x) by {
        lemma_index_of_found(v.dir_ids(), x);
    }
    assert(w.parent_of(dir_id) == normal_parent(parent));
    match normal_parent(parent) {
        Some(p) => {
            // the walk from the new parent never passed the directory
            assert(ends(v, p));
            let k = choose|k: nat| ancestor_at(v, p, k) is None;
            assert forall|i: nat| i < k implies ancestor_at(v, p, i) != Some(dir_id) by {
                if ancestor_at(v, p, i) == Some(dir_id) {
                    assert(reaches(v, p, dir_id));
                    lemma_reaches_bounded(v, p, dir_id);
                }
            }
            lemma_same_walk(v, w, dir_id, p, k);
            assert(ends(w, p));
        },
        None => {},
    }
    assert forall|d: Seq<char>| #[trigger] ends(w, d) by {
        assert(ends(v, d));
        let k = choose|k: nat| ancestor_at(v, d, k) is None;
        lemma_walk_ends(v, w, dir_id, d, k);
    }
}

} // verus!
