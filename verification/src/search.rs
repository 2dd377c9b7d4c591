//! Searching the files of the index by directory, by name and by type.

use crate::index::Index;
use crate::listing::{
    file_names, file_views, is_name_order, name_texts, order_by_name, positions,
};
use crate::model::{normal_parent, opt_text, FileEntry, FileView};
use crate::text::{
    append_str, ascii_lower, ascii_lower_text, char_ascii_lower, chars_of, is_blank, slice_chars,
    string_of, trim, trim_chars,
};
use crate::tree::normalize_parent_id;
use crate::unicode::{lowercase, str_lowercase};
use vstd::prelude::*;

verus! {

/// Whether `text` matches `pattern` the way the store matches with `LIKE`:
/// `%` stands for any run of characters, `_` for any one character, and
/// every other character for itself, the case of ASCII letters apart.
pub open spec fn like(pattern: Seq<char>, text: Seq<char>) -> bool
    decreases pattern.len() + text.len(),
{
    if pattern.len() == 0 {
        text.len() == 0
    } else if pattern[0] == '%' {
        like(pattern.skip(1), text) || (text.len() > 0 && like(pattern, text.skip(1)))
    } else {
        text.len() > 0 && (pattern[0] == '_' || ascii_lower(pattern[0]) == ascii_lower(text[0]))
            && like(pattern.skip(1), text.skip(1))
    }
}

/// Whether the text matches the pattern.
pub fn chars_like(pattern: &Vec<char>, text: &Vec<char>) -> (r: bool)
    ensures
        r == like(pattern@, text@),
{
    let plen = pattern.len();
    let tlen = text.len();
    if tlen == usize::MAX {
        // the table below has one more cell than the text has characters
        return like_by_definition(pattern, text);
    }
    // next[j] says whether the rest of the pattern matches text[j..]
    let mut next: Vec<bool> = Vec::new();
    let mut j: usize = 0;
    while j <= tlen
        invariant
            j <= tlen + 1,
            tlen == text.len(),
            tlen < usize::MAX,
            next@.len() == j,
            forall|k: int| 0 <= k < j ==> #[trigger] next@[k] == (k == tlen),
        decreases tlen + 1 - j,
    {
        next.push(j == tlen);
        j += 1;
    }
    proof {
        assert(pattern@.skip(plen as int) =~= Seq::<char>::empty());
        assert forall|k: int| 0 <= k <= tlen implies #[trigger] next@[k] == like(
            pattern@.skip(plen as int),
            text@.skip(k),
        ) by {
            assert(text@.skip(k).len() == tlen - k);
        }
    }
    let mut i: usize = plen;
    while i > 0
        invariant
            i <= plen,
            plen == pattern.len(),
            tlen == text.len(),
            tlen < usize::MAX,
            next@.len() == tlen + 1,
            forall|k: int|
                0 <= k <= tlen ==> #[trigger] next@[k] == like(
                    pattern@.skip(i as int),
                    text@.skip(k),
                ),
        decreases i,
    {
        i -= 1;
        let c = pattern[i];
        let ghost rest = pattern@.skip(i as int);
        proof {
            assert(rest[0] == c);
            assert(rest.skip(1) =~= pattern@.skip(i + 1));
        }
        // cur is filled from the end of the text backwards
        let mut cur: Vec<bool> = Vec::new();
        let mut fill: usize = 0;
        while fill <= tlen
            invariant
                fill <= tlen + 1,
                cur@.len() == fill,
                tlen < usize::MAX,
            decreases tlen + 1 - fill,
        {
            cur.push(false);
            fill += 1;
        }
        let mut j: usize = tlen + 1;
        while j > 0
            invariant
                j <= tlen + 1,
                i < plen,
                plen == pattern.len(),
                tlen == text.len(),
                tlen < usize::MAX,
                c == pattern@[i as int],
                rest == pattern@.skip(i as int),
                rest[0] == c,
                rest.skip(1) == pattern@.skip(i + 1),
                cur@.len() == tlen + 1,
                next@.len() == tlen + 1,
                forall|k: int|
                    0 <= k <= tlen ==> #[trigger] next@[k] == like(
                        pattern@.skip(i + 1),
                        text@.skip(k),
                    ),
                forall|k: int| j <= k <= tlen ==> #[trigger] cur@[k] == like(rest, text@.skip(k)),
            decreases j,
        {
            j -= 1;
            let ghost here = text@.skip(j as int);
            proof {
                if j < tlen {
                    assert(here[0] == text@[j as int]);
                    assert(here.skip(1) =~= text@.skip(j + 1));
                }
                assert(here.len() == tlen - j);
            }
            let value = if c == '%' {
                next[j] || (j < tlen && cur[j + 1])
            } else {
                j < tlen && (c == '_' || char_ascii_lower(c) == char_ascii_lower(text[j]))
                    && next[j + 1]
            };
            assert(value == like(rest, here));
            let ghost before = cur@;
            cur.set(j, value);
            assert forall|k: int| j <= k <= tlen implies #[trigger] cur@[k] == like(
                rest,
                text@.skip(k),
            ) by {
                if k > j {
                    assert(cur@[k] == before[k]);
                }
            }
        }
        next = cur;
    }
    assert(pattern@.skip(0) =~= pattern@);
    assert(text@.skip(0) =~= text@);
    next[0]
}

/// Matching without a table, for a text so long that none can be made.
fn like_by_definition(pattern: &Vec<char>, text: &Vec<char>) -> (r: bool)
    ensures
        r == like(pattern@, text@),
{
    assert(pattern@.skip(0) =~= pattern@);
    assert(text@.skip(0) =~= text@);
    like_from(pattern, text, 0, 0, pattern.len())
}

/// Whether the pattern from `i` on matches the text from `j` on, by the
/// definition; `budget` bounds the pattern that is left.
fn like_from(pattern: &Vec<char>, text: &Vec<char>, i: usize, j: usize, budget: usize) -> (r: bool)
    requires
        i <= pattern.len(),
        j <= text.len(),
        budget == pattern.len() - i,
    ensures
        r == like(pattern@.skip(i as int), text@.skip(j as int)),
    decreases budget + (text.len() - j),
{
    let ghost p = pattern@.skip(i as int);
    let ghost t = text@.skip(j as int);
    proof {
        if i < pattern.len() {
            assert(p[0] == pattern@[i as int]);
            assert(p.skip(1) =~= pattern@.skip(i + 1));
        }
        if j < text.len() {
            assert(t[0] == text@[j as int]);
            assert(t.skip(1) =~= text@.skip(j + 1));
        }
    }
    if i == pattern.len() {
        j == text.len()
    } else if pattern[i] == '%' {
        like_from(pattern, text, i + 1, j, budget - 1) || (j < text.len() && like_from(
            pattern,
            text,
            i,
            j + 1,
            budget,
        ))
    } else {
        j < text.len() && (pattern[i] == '_' || char_ascii_lower(pattern[i]) == char_ascii_lower(
            text[j],
        )) && like_from(pattern, text, i + 1, j + 1, budget - 1)
    }
}

/// The directory that a search is confined to, if any.
pub open spec fn wanted_dir(dir_id: Option<Seq<char>>) -> Option<Seq<char>> {
    normal_parent(dir_id)
}

/// A text without the dots at its start.
pub open spec fn without_leading_dots(s: Seq<char>) -> Seq<char>
    decreases s.len(),
{
    if s.len() > 0 && s[0] == '.' {
        without_leading_dots(s.skip(1))
    } else {
        s
    }
}

/// The pattern for names that contain the filter, if the filter asks for
/// anything.
pub open spec fn name_pattern(name: Option<Seq<char>>) -> Option<Seq<char>> {
    match name {
        Some(n) => if is_blank(n) {
            None
        } else {
            Some(seq!['%'] + lowercase(trim(n)) + seq!['%'])
        },
        None => None,
    }
}

/// The pattern for names of the given type, if the filter asks for
/// anything.
pub open spec fn type_pattern(file_type: Option<Seq<char>>) -> Option<Seq<char>> {
    match file_type {
        Some(t) => {
            let bare = trim(without_leading_dots(trim(t)));
            if bare.len() == 0 {
                None
            } else {
                Some(seq!['%', '.'] + lowercase(bare))
            }
        },
        None => None,
    }
}

/// How many files a search gives at most.
pub open spec fn search_limit(limit: Option<i64>) -> int {
    match limit {
        Some(n) => if n > 1 {
            n as int
        } else {
            1
        },
        None => 500,
    }
}

/// Whether a file is what the three filters ask for.
pub open spec fn is_hit(
    f: FileView,
    dir: Option<Seq<char>>,
    name: Option<Seq<char>>,
    kind: Option<Seq<char>>,
) -> bool {
    &&& dir is Some ==> f.dir_id == dir->0
    &&& name is Some ==> like(name->0, ascii_lower_text(f.name))
    &&& kind is Some ==> like(kind->0, ascii_lower_text(f.name))
}

/// The files that the filters ask for, in the order of the index.
pub open spec fn hits(
    files: Seq<FileView>,
    dir: Option<Seq<char>>,
    name: Option<Seq<char>>,
    kind: Option<Seq<char>>,
) -> Seq<FileView>
    decreases files.len(),
{
    if files.len() == 0 {
        Seq::empty()
    } else if is_hit(files.last(), dir, name, kind) {
        hits(files.drop_last(), dir, name, kind).push(files.last())
    } else {
        hits(files.drop_last(), dir, name, kind)
    }
}

fn strip_leading_dots(v: &Vec<char>) -> (r: Vec<char>)
    ensures
        r@ == without_leading_dots(v@),
{
    let mut i: usize = 0;
    assert(v@.skip(0) =~= v@);
    while i < v.len() && v[i] == '.'
        invariant
            i <= v.len(),
            without_leading_dots(v@) == without_leading_dots(v@.skip(i as int)),
        decreases v.len() - i,
    {
        assert(v@.skip(i as int).skip(1) =~= v@.skip(i + 1));
        i += 1;
    }
    let r = slice_chars(v, i, v.len());
    assert(v@.skip(i as int) =~= v@.subrange(i as int, v.len() as int));
    r
}

fn make_name_pattern(name: &Option<String>) -> (r: Option<Vec<char>>)
    ensures
        match r {
            Some(p) => name_pattern(opt_text(*name)) == Some(p@),
            None => name_pattern(opt_text(*name)) is None,
        },
{
    match name {
        Some(n) => {
            let trimmed = trim_chars(&chars_of(n.as_str()));
            if trimmed.len() == 0 {
                return None;
            }
            let lowered = str_lowercase(string_of(&trimmed).as_str());
            let mut p: Vec<char> = Vec::new();
            p.push('%');
            append_str(&mut p, lowered.as_str());
            p.push('%');
            assert(p@ =~= seq!['%'] + lowercase(trim(n@)) + seq!['%']);
            Some(p)
        },
        None => None,
    }
}

fn make_type_pattern(file_type: &Option<String>) -> (r: Option<Vec<char>>)
    ensures
        match r {
            Some(p) => type_pattern(opt_text(*file_type)) == Some(p@),
            None => type_pattern(opt_text(*file_type)) is None,
        },
{
    match file_type {
        Some(t) => {
            let bare = trim_chars(&strip_leading_dots(&trim_chars(&chars_of(t.as_str()))));
            if bare.len() == 0 {
                return None;
            }
            let lowered = str_lowercase(string_of(&bare).as_str());
            let mut p: Vec<char> = Vec::new();
            p.push('%');
            p.push('.');
            append_str(&mut p, lowered.as_str());
            assert(p@ =~= seq!['%', '.'] + lowercase(bare@));
            Some(p)
        },
        None => None,
    }
}

fn ascii_lower_chars(v: &Vec<char>) -> (r: Vec<char>)
    ensures
        r@ == ascii_lower_text(v@),
{
    let mut out: Vec<char> = Vec::new();
    let mut i: usize = 0;
    while i < v.len()
        invariant
            i <= v.len(),
            out@ == ascii_lower_text(v@).take(i as int),
        decreases v.len() - i,
    {
        out.push(char_ascii_lower(v[i]));
        assert(out@ =~= ascii_lower_text(v@).take(i + 1));
        i += 1;
    }
    assert(ascii_lower_text(v@).take(i as int) =~= ascii_lower_text(v@));
    out
}

/// The view of an optional string slice.
pub open spec fn opt_str(s: Option<&str>) -> Option<Seq<char>> {
    match s {
        Some(t) => Some(t@),
        None => None,
    }
}

fn owned(s: Option<&str>) -> (r: Option<String>)
    ensures
        opt_text(r) == opt_str(s),
{
    match s {
        Some(t) => Some(String::from_str(t)),
        None => None,
    }
}

/// Searches the files of the index. A filter that is left out, or blank,
/// asks for nothing; `dir_id` confines the search to a directory, `ROOT`
/// to none; `name` asks for names that contain it, `file_type` for names
/// that end with a dot and it, both read as patterns and without regard to
/// leading dots of the type. The files come by name, at most `limit` of
/// them: 500 when no limit is given, and never less than one.
pub fn search_files(
    index: &Index,
    dir_id: Option<&str>,
    name: Option<&str>,
    file_type: Option<&str>,
    limit: Option<i64>,
) -> (r: Vec<FileEntry>)
    ensures
        ({
            let found = hits(
                index@.files,
                wanted_dir(opt_str(dir_id)),
                name_pattern(opt_str(name)),
                type_pattern(opt_str(file_type)),
            );
            exists|order: Seq<int>|
                is_name_order(file_names(found), order) && r@.len() == if found.len()
                    <= search_limit(limit) {
                    found.len() as int
                } else {
                    search_limit(limit)
                } && forall|k: int| 0 <= k < r@.len() ==> (#[trigger] r@[k])@ == found[order[k]]
        }),
{
    let dir = normalize_parent_id(owned(dir_id));
    let name_like = make_name_pattern(&owned(name));
    let kind_like = make_type_pattern(&owned(file_type));
    let ghost dir_view = wanted_dir(opt_str(dir_id));
    let ghost name_view = name_pattern(opt_str(name));
    let ghost kind_view = type_pattern(opt_str(file_type));
    let mut rows: Vec<FileEntry> = Vec::new();
    let mut names: Vec<String> = Vec::new();
    let mut i: usize = 0;
    assert(index@.files.take(0) =~= Seq::empty());
    assert(file_views(rows@) =~= Seq::empty());
    assert(name_texts(names@) =~= file_names(file_views(rows@)));
    while i < index.files.len()
        invariant
            i <= index.files.len(),
            opt_text(dir) == dir_view,
            match name_like {
                Some(p) => name_view == Some(p@),
                None => name_view is None,
            },
            match kind_like {
                Some(p) => kind_view == Some(p@),
                None => kind_view is None,
            },
            file_views(rows@) == hits(index@.files.take(i as int), dir_view, name_view, kind_view),
            name_texts(names@) == file_names(file_views(rows@)),
        decreases index.files.len() - i,
    {
        proof {
            let part = index@.files.take(i + 1);
            assert(part.drop_last() =~= index@.files.take(i as int));
            assert(part.last() == index.files@[i as int]@);
        }
        let f = &index.files[i];
        let in_dir = match &dir {
            Some(d) => f.dir_id == *d,
            None => true,
        };
        let hit = if !in_dir {
            false
        } else {
            let lowered = ascii_lower_chars(&chars_of(f.name.as_str()));
            let by_name = match &name_like {
                Some(p) => chars_like(p, &lowered),
                None => true,
            };
            let by_kind = match &kind_like {
                Some(p) => chars_like(p, &lowered),
                None => true,
            };
            by_name && by_kind
        };
        assert(hit == is_hit(f@, dir_view, name_view, kind_view));
        if hit {
            let ghost before = file_views(rows@);
            let ghost before_names = name_texts(names@);
            let row = f.clone();
            let row_name = row.name.clone();
            rows.push(row);
            names.push(row_name);
            proof {
                assert(file_views(rows@) =~= before.push(row@));
                assert(name_texts(names@) =~= before_names.push(row_name@));
                assert(file_names(before.push(row@)) =~= file_names(before).push(row@.name));
            }
        }
        i += 1;
    }
    assert(index@.files.take(i as int) =~= index@.files);
    let ghost found = file_views(rows@);
    let order = order_by_name(&names);
    let most: usize = match limit {
        Some(n) => if n > 1 {
            if n as u64 > usize::MAX as u64 {
                usize::MAX
            } else {
                n as usize
            }
        } else {
            1
        },
        None => 500,
    };
    let mut out: Vec<FileEntry> = Vec::new();
    let mut k: usize = 0;
    while k < order.len() && k < most
        invariant
            k <= order.len(),
            k <= most,
            is_name_order(file_names(found), positions(order@)),
            found == file_views(rows@),
            out@.len() == k,
            forall|j: int| 0 <= j < k ==> (#[trigger] out@[j])@ == found[positions(order@)[j]],
        decreases order.len() - k,
    {
        assert(0 <= positions(order@)[k as int] < found.len());
        assert(order@[k as int] == positions(order@)[k as int]);
        assert(rows@.len() == found.len());
        let ghost before = out@;
        out.push(rows[order[k]].clone());
        proof {
            assert forall|j: int| 0 <= j < k + 1 implies (#[trigger] out@[j])@ == found[positions(
                order@,
            )[j]] by {
                if j < k {
                    assert(out@[j] == before[j]);
                }
            }
        }
        k += 1;
    }
    out
}

} // verus!
