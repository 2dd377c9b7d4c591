//! Content cache resolver: which local file stands for a file of the index.
//!
//! The cache mirrors the directory tree under a root. A file is kept under
//! its sanitized name, or under a numbered variant `stem (n).ext` when the
//! name was taken. The caller lists a cache directory and performs what is
//! decided here.

use crate::index::Index;
use crate::model::{
    first_index, lemma_first_index, normal_parent, opt_text, IndexView, PLACEHOLDER_DIR_NAME,
};
use crate::text::{
    all_digits, append_chars, append_str, append_u64, char_is_ascii_digit, char_is_control,
    chars_are, chars_eq, chars_of, is_ascii_digit, is_blank, is_control, nat_text, slice_chars,
    lemma_trim_is_part, str_eq, str_is_blank, string_of, trim, trim_chars,
};
use crate::tree::normalize_parent_id;
use vstd::prelude::*;

verus! {

/// The name given to a file whose own name leaves nothing.
pub const FALLBACK_FILE_NAME: &'static str = "файл";

/// How deep a directory path is followed.
pub const MAX_PATH_DEPTH: usize = 64;

/// Whether a character may not stand in a path component.
pub open spec fn is_forbidden(c: char) -> bool {
    c == '/' || c == '\\' || c == ':' || c == '\0' || is_control(c)
}

/// The text with every forbidden character turned into an underscore.
pub open spec fn masked(s: Seq<char>) -> Seq<char> {
    Seq::new(
        s.len(),
        |i: int|
            if is_forbidden(s[i]) {
                '_'
            } else {
                s[i]
            },
    )
}

/// A name as a path component: forbidden characters masked, trimmed, and
/// never `.` or `..`.
pub open spec fn sanitized(name: Seq<char>) -> Seq<char> {
    let cleaned = trim(masked(name));
    if cleaned == "."@ || cleaned == ".."@ {
        "_"@
    } else {
        cleaned
    }
}

/// A sanitized name holds no forbidden character and is neither `.` nor
/// `..`: as a path component it stays inside its directory.
pub proof fn lemma_sanitized_is_safe(name: Seq<char>)
    ensures
        forall|i: int|
            0 <= i < sanitized(name).len() ==> !is_forbidden(#[trigger] sanitized(name)[i]),
        sanitized(name) != "."@,
        sanitized(name) != ".."@,
{
    reveal_strlit(".");
    reveal_strlit("..");
    reveal_strlit("_");
    let m = masked(name);
    let cleaned = trim(m);
    lemma_trim_is_part(m);
    let (i, j) = choose|i: int, j: int|
        0 <= i <= j <= m.len() && trim(m) == #[trigger] m.subrange(i, j);
    assert("_"@[0] != "."@[0]);
    assert("_"@.len() != ".."@.len());
    assert(!is_forbidden('_'));
    assert forall|k: int| 0 <= k < sanitized(name).len() implies !is_forbidden(
        #[trigger] sanitized(name)[k],
    ) by {
        if cleaned == "."@ || cleaned == ".."@ {
            assert(sanitized(name)[k] == '_');
        } else {
            assert(cleaned[k] == m[i + k]);
        }
    }
}

fn sanitize_chars(name: &Vec<char>) -> (r: Vec<char>)
    ensures
        r@ == sanitized(name@),
{
    let mut out: Vec<char> = Vec::new();
    let mut i: usize = 0;
    while i < name.len()
        invariant
            i <= name.len(),
            out@ == masked(name@).take(i as int),
        decreases name.len() - i,
    {
        let ch = name[i];
        if ch == '/' || ch == '\\' || ch == ':' || ch == '\0' || char_is_control(ch) {
            out.push('_');
        } else {
            out.push(ch);
        }
        assert(out@ =~= masked(name@).take(i + 1));
        i += 1;
    }
    assert(masked(name@).take(i as int) =~= masked(name@));
    let cleaned = trim_chars(&out);
    if chars_are(&cleaned, ".") || chars_are(&cleaned, "..") {
        chars_of("_")
    } else {
        cleaned
    }
}

/// A name made safe to use as one component of a path below the cache root.
pub fn sanitize_component(name: &str) -> (r: String)
    ensures
        r@ == sanitized(name@),
        forall|i: int| 0 <= i < r@.len() ==> !is_forbidden(#[trigger] r@[i]),
        r@ != "."@ && r@ != ".."@,
{
    proof {
        lemma_sanitized_is_safe(name@);
    }
    string_of(&sanitize_chars(&chars_of(name)))
}

/// The name under which a file is kept: its sanitized name, or a fixed name
/// when that is empty.
pub open spec fn cache_name(name: Seq<char>) -> Seq<char> {
    if sanitized(name).len() == 0 {
        FALLBACK_FILE_NAME@
    } else {
        sanitized(name)
    }
}

fn cache_name_chars(name: &str) -> (r: Vec<char>)
    ensures
        r@ == cache_name(name@),
{
    let safe = sanitize_chars(&chars_of(name));
    if safe.len() == 0 {
        chars_of(FALLBACK_FILE_NAME)
    } else {
        safe
    }
}

/// The name under which a download of `name` is kept by preference.
pub fn preferred_target_path(name: &str) -> (r: String)
    ensures
        r@ == cache_name(name@),
{
    string_of(&cache_name_chars(name))
}

/// The offset of the last `.` in `s`, or -1 when it has none.
pub open spec fn last_dot(s: Seq<char>) -> int
    decreases s.len(),
{
    if s.len() == 0 {
        -1
    } else if s.last() == '.' {
        s.len() - 1
    } else {
        last_dot(s.drop_last())
    }
}

/// The stem of a file name: what stands before its last `.`, or all of it
/// when the last `.` is the first character or there is none.
pub open spec fn stem_of(s: Seq<char>) -> Seq<char> {
    if last_dot(s) > 0 {
        s.take(last_dot(s))
    } else {
        s
    }
}

/// The extension of a file name, with its `.`; empty when the stem is all.
pub open spec fn ext_of(s: Seq<char>) -> Seq<char> {
    if last_dot(s) > 0 {
        s.skip(last_dot(s))
    } else {
        Seq::empty()
    }
}

proof fn lemma_last_dot(s: Seq<char>, j: int)
    requires
        -1 <= j < s.len(),
        j >= 0 ==> s[j] == '.',
        forall|k: int| j < k < s.len() ==> s[k] != '.',
    ensures
        last_dot(s) == j,
    decreases s.len() - j,
{
    if s.len() > 0 && j < s.len() - 1 {
        lemma_last_dot(s.drop_last(), j);
    }
}

fn split_chars(name: &Vec<char>) -> (r: (Vec<char>, Vec<char>))
    ensures
        r.0@ == stem_of(name@),
        r.1@ == ext_of(name@),
{
    let mut j: usize = name.len();
    while j > 0 && name[j - 1] != '.'
        invariant
            j <= name.len(),
            forall|k: int| j <= k < name.len() ==> name@[k] != '.',
        decreases j,
    {
        j -= 1;
    }
    proof {
        lemma_last_dot(name@, j as int - 1);
    }
    if j > 1 {
        let stem = slice_chars(name, 0, j - 1);
        let ext = slice_chars(name, j - 1, name.len());
        assert(name@.take(j - 1) =~= name@.subrange(0, j - 1));
        assert(name@.skip(j - 1) =~= name@.subrange(j - 1, name.len() as int));
        (stem, ext)
    } else {
        let stem = slice_chars(name, 0, name.len());
        assert(name@.subrange(0, name.len() as int) =~= name@);
        (stem, Vec::new())
    }
}

/// Splits a file name into its stem and its extension.
pub fn split_name(name: &str) -> (r: (String, String))
    ensures
        r.0@ == stem_of(name@),
        r.1@ == ext_of(name@),
{
    let (stem, ext) = split_chars(&chars_of(name));
    (string_of(&stem), string_of(&ext))
}

/// Whether `candidate` is `base`, or `base` followed by a space and a
/// number in round brackets.
pub open spec fn is_variant(base: Seq<char>, candidate: Seq<char>) -> bool {
    candidate == base || ({
        let n = candidate.len() - base.len();
        &&& n >= 4
        &&& candidate.take(base.len() as int) == base
        &&& candidate[base.len() as int] == ' '
        &&& candidate[base.len() as int + 1] == '('
        &&& candidate.last() == ')'
        &&& all_digits(candidate.subrange(base.len() as int + 2, candidate.len() - 1))
    })
}

fn is_variant_chars(base: &Vec<char>, candidate: &Vec<char>) -> (r: bool)
    ensures
        r == is_variant(base@, candidate@),
{
    if chars_eq(candidate, base) {
        return true;
    }
    let b = base.len();
    let c = candidate.len();
    if c < b || c - b < 4 {
        return false;
    }
    let head = slice_chars(candidate, 0, b);
    assert(candidate@.take(b as int) =~= candidate@.subrange(0, b as int));
    if !chars_eq(&head, base) {
        return false;
    }
    if candidate[b] != ' ' || candidate[b + 1] != '(' || candidate[c - 1] != ')' {
        return false;
    }
    let ghost num = candidate@.subrange(b + 2, c - 1);
    let mut i: usize = b + 2;
    while i < c - 1
        invariant
            b + 2 <= i <= c - 1,
            c == candidate.len(),
            b == base.len(),
            candidate@ != base@,
            num == candidate@.subrange(b + 2, c - 1),
            forall|k: int| 0 <= k < i - (b + 2) ==> is_ascii_digit(#[trigger] num[k]),
        decreases c - i,
    {
        if !char_is_ascii_digit(candidate[i]) {
            assert(!is_ascii_digit(num[i - (b + 2)]));
            return false;
        }
        i += 1;
    }
    true
}

/// Whether `candidate_stem` names the same file as `base_stem`, possibly as
/// a numbered variant.
pub fn is_name_variant(base_stem: &str, candidate_stem: &str) -> (r: bool)
    ensures
        r == is_variant(base_stem@, candidate_stem@),
{
    is_variant_chars(&chars_of(base_stem), &chars_of(candidate_stem))
}

// ---------------------------------------------------------------------------
// Listings
// ---------------------------------------------------------------------------
/// An entry of a cache directory, as the caller listed it.
#[derive(Debug)]
pub struct CacheEntry {
    pub name: String,
    /// Whether the entry is a regular file.
    pub is_file: bool,
    /// The length of the file, where the file system told it.
    pub size: Option<i64>,
}

/// Whether a cache entry is a copy of the file `name`: a regular file with
/// the same extension whose stem is the stem of the name or a numbered
/// variant of it.
pub open spec fn is_copy_of(e: CacheEntry, name: Seq<char>) -> bool {
    e.is_file && ext_of(e.name@) == ext_of(cache_name(name)) && is_variant(
        stem_of(cache_name(name)),
        stem_of(e.name@),
    )
}

/// Whether a copy has the expected size, as far as that can be told: an
/// expected size that is not positive, or a length that the file system
/// did not tell, rule nothing out.
pub open spec fn size_agrees(e: CacheEntry, size: i64) -> bool {
    size <= 0 || e.size is None || e.size->0 == size
}

/// The entry that stands for the file: the first copy whose size agrees,
/// else the first copy.
pub open spec fn resolved(entries: Seq<CacheEntry>, name: Seq<char>, size: i64) -> Option<int> {
    let exact = first_index(entries, |e: CacheEntry| is_copy_of(e, name) && size_agrees(e, size));
    let any = first_index(entries, |e: CacheEntry| is_copy_of(e, name));
    if exact < entries.len() {
        Some(exact)
    } else if any < entries.len() {
        Some(any)
    } else {
        None
    }
}

fn entry_is_copy(e: &CacheEntry, stem: &Vec<char>, ext: &Vec<char>) -> (r: bool)
    ensures
        r == (e.is_file && ext_of(e.name@) == ext@ && is_variant(stem@, stem_of(e.name@))),
{
    if !e.is_file {
        return false;
    }
    let (cand_stem, cand_ext) = split_chars(&chars_of(e.name.as_str()));
    chars_eq(&cand_ext, ext) && is_variant_chars(stem, &cand_stem)
}

/// Finds the cached copy of a file among the entries of its cache
/// directory. The size is a hint: a copy of the expected size is preferred,
/// but any copy is better than none.
pub fn find_local_download(entries: &Vec<CacheEntry>, name: &str, size: i64) -> (r: Option<usize>)
    ensures
        match r {
            Some(i) => resolved(entries@, name@, size) == Some(i as int) && i < entries@.len()
                && is_copy_of(entries@[i as int], name@),
            None => resolved(entries@, name@, size) is None,
        },
        (exists|i: int| 0 <= i < entries@.len() && is_copy_of(entries@[i], name@)) ==> r is Some,
{
    let safe = cache_name_chars(name);
    let (stem, ext) = split_chars(&safe);
    let ghost exact = |e: CacheEntry| is_copy_of(e, name@) && size_agrees(e, size);
    let ghost any = |e: CacheEntry| is_copy_of(e, name@);
    let mut first_match: Option<usize> = None;
    let mut i: usize = 0;
    while i < entries.len()
        invariant
            i <= entries.len(),
            stem@ == stem_of(cache_name(name@)),
            ext@ == ext_of(cache_name(name@)),
            exact == |e: CacheEntry| is_copy_of(e, name@) && size_agrees(e, size),
            any == |e: CacheEntry| is_copy_of(e, name@),
            forall|k: int| 0 <= k < i ==> !exact(entries@[k]),
            match first_match {
                Some(m) => m < i && any(entries@[m as int]) && forall|k: int|
                    0 <= k < m ==> !any(entries@[k]),
                None => forall|k: int| 0 <= k < i ==> !any(entries@[k]),
            },
        decreases entries.len() - i,
    {
        if entry_is_copy(&entries[i], &stem, &ext) {
            if first_match.is_none() {
                first_match = Some(i);
            }
            let agrees = if size > 0 {
                match entries[i].size {
                    Some(len) => len == size,
                    None => true,
                }
            } else {
                true
            };
            if agrees {
                proof {
                    lemma_first_index(entries@, exact, i as int);
                }
                return Some(i);
            }
        }
        i += 1;
    }
    proof {
        lemma_first_index(entries@, exact, i as int);
        match first_match {
            Some(m) => {
                lemma_first_index(entries@, any, m as int);
            },
            None => {
                lemma_first_index(entries@, any, i as int);
            },
        }
    }
    first_match
}

/// Whether a copy of the file is cached, and its length where known.
pub fn local_download_info(entries: &Vec<CacheEntry>, name: &str, size: i64) -> (r: (
    bool,
    Option<i64>,
))
    ensures
        match resolved(entries@, name@, size) {
            Some(i) => r == (true, entries@[i].size),
            None => r == (false, None::<i64>),
        },
{
    match find_local_download(entries, name, size) {
        Some(i) => (true, entries[i].size),
        None => (false, None),
    }
}

/// Where the copies of the file stand among the entries, in order.
pub open spec fn copies(entries: Seq<CacheEntry>, name: Seq<char>) -> Seq<int>
    decreases entries.len(),
{
    if entries.len() == 0 {
        Seq::empty()
    } else if is_copy_of(entries.last(), name) {
        copies(entries.drop_last(), name).push(entries.len() - 1)
    } else {
        copies(entries.drop_last(), name)
    }
}

/// The offsets as mathematical integers.
pub open spec fn offsets(v: Seq<usize>) -> Seq<int> {
    Seq::new(v.len(), |i: int| v[i] as int)
}

/// All cached copies of a file, whatever their size: what is to be removed
/// when the file is deleted.
pub fn local_copies(entries: &Vec<CacheEntry>, name: &str) -> (r: Vec<usize>)
    ensures
        offsets(r@) == copies(entries@, name@),
{
    let safe = cache_name_chars(name);
    let (stem, ext) = split_chars(&safe);
    let mut out: Vec<usize> = Vec::new();
    let mut i: usize = 0;
    assert(entries@.take(0) =~= Seq::empty());
    assert(offsets(out@) =~= Seq::empty());
    while i < entries.len()
        invariant
            i <= entries.len(),
            stem@ == stem_of(cache_name(name@)),
            ext@ == ext_of(cache_name(name@)),
            offsets(out@) == copies(entries@.take(i as int), name@),
        decreases entries.len() - i,
    {
        proof {
            let part = entries@.take(i + 1);
            assert(part.drop_last() =~= entries@.take(i as int));
            assert(part.last() == entries@[i as int]);
        }
        if entry_is_copy(&entries[i], &stem, &ext) {
            let ghost before = offsets(out@);
            out.push(i);
            assert(offsets(out@) =~= before.push(i as int));
        }
        i += 1;
    }
    assert(entries@.take(i as int) =~= entries@);
    out
}

/// Whether some entry, of whatever kind, has the given name.
pub open spec fn name_taken(entries: Seq<CacheEntry>, name: Seq<char>) -> bool {
    exists|i: int| 0 <= i < entries.len() && entries[i].name@ == name
}

fn find_entry(entries: &Vec<CacheEntry>, name: &Vec<char>) -> (r: Option<usize>)
    ensures
        match r {
            Some(i) => i < entries@.len() && entries@[i as int].name@ == name@ && forall|k: int|
                0 <= k < i ==> entries@[k].name@ != name@,
            None => !name_taken(entries@, name@),
        },
{
    let mut i: usize = 0;
    while i < entries.len()
        invariant
            i <= entries.len(),
            forall|k: int| 0 <= k < i ==> entries@[k].name@ != name@,
        decreases entries.len() - i,
    {
        if chars_eq(&chars_of(entries[i].name.as_str()), name) {
            return Some(i);
        }
        i += 1;
    }
    None
}

/// The `n`-th numbered variant of a name.
pub open spec fn numbered(name: Seq<char>, n: nat) -> Seq<char> {
    stem_of(name) + " ("@ + nat_text(n) + ")"@ + ext_of(name)
}

fn numbered_chars(stem: &Vec<char>, ext: &Vec<char>, n: u64) -> (r: Vec<char>)
    ensures
        r@ == stem@ + " ("@ + nat_text(n as nat) + ")"@ + ext@,
{
    let mut out: Vec<char> = Vec::new();
    append_chars(&mut out, stem);
    append_str(&mut out, " (");
    append_u64(&mut out, n);
    append_str(&mut out, ")");
    append_chars(&mut out, ext);
    assert(out@ =~= stem@ + " ("@ + nat_text(n as nat) + ")"@ + ext@);
    out
}

/// The least `n` from `from` to 99 whose numbered variant is free, or 99
/// when none is.
pub open spec fn free_number(entries: Seq<CacheEntry>, name: Seq<char>, from: nat) -> nat
    decreases 100 - from,
{
    if from >= 99 || !name_taken(entries, numbered(name, from)) {
        if from >= 99 {
            99
        } else {
            from
        }
    } else {
        free_number(entries, name, from + 1)
    }
}

/// The name under which a download is to be written: the cache name when
/// that is free, or taken by a file of the expected size; else its first
/// free numbered variant, trying the numbers 1 to 99.
pub open spec fn target_name(entries: Seq<CacheEntry>, name: Seq<char>, size: i64) -> Seq<char> {
    let safe = cache_name(name);
    if !name_taken(entries, safe) {
        safe
    } else {
        let i = choose|i: int|
            0 <= i < entries.len() && entries[i].name@ == safe && forall|k: int|
                0 <= k < i ==> entries[k].name@ != safe;
        if size > 0 && entries[i].size == Some(size) {
            safe
        } else {
            numbered(safe, free_number(entries, safe, 1))
        }
    }
}

/// Chooses the name for a download that must not overwrite another file.
pub fn resolve_target_path(entries: &Vec<CacheEntry>, name: &str, size: i64) -> (r: String)
    ensures
        r@ == target_name(entries@, name@, size),
{
    let safe = cache_name_chars(name);
    let taken = match find_entry(entries, &safe) {
        Some(i) => i,
        None => {
            return string_of(&safe);
        },
    };
    proof {
        let i = choose|i: int|
            0 <= i < entries@.len() && entries@[i].name@ == safe@ && forall|k: int|
                0 <= k < i ==> entries@[k].name@ != safe@;
        assert(i == taken) by {
            if i < taken {
                assert(entries@[i].name@ != safe@);
            } else if taken < i {
                assert(entries@[taken as int].name@ != safe@);
            }
        }
    }
    if size > 0 {
        match entries[taken].size {
            Some(len) => {
                if len == size {
                    return string_of(&safe);
                }
            },
            None => {},
        }
    }
    let (stem, ext) = split_chars(&safe);
    let mut n: u64 = 1;
    assert(target_name(entries@, name@, size) == numbered(
        safe@,
        free_number(entries@, safe@, 1),
    ));
    loop
        invariant
            1 <= n <= 99,
            stem@ == stem_of(safe@),
            ext@ == ext_of(safe@),
            free_number(entries@, safe@, n as nat) == free_number(entries@, safe@, 1),
            target_name(entries@, name@, size) == numbered(
                safe@,
                free_number(entries@, safe@, 1),
            ),
        decreases 99 - n,
    {
        let candidate = numbered_chars(&stem, &ext, n);
        assert(candidate@ == numbered(safe@, n as nat));
        if n == 99 || find_entry(entries, &candidate).is_none() {
            return string_of(&candidate);
        }
        assert(name_taken(entries@, numbered(safe@, n as nat)));
        n += 1;
    }
}

// ---------------------------------------------------------------------------
// Paths
// ---------------------------------------------------------------------------
/// Whether a text may stand as one component of a path below the cache
/// root: it is not empty, it is neither `.` nor `..`, and it holds no
/// separator and no control character.
pub open spec fn is_safe_component(c: Seq<char>) -> bool {
    &&& c.len() > 0
    &&& c != "."@
    &&& c != ".."@
    &&& forall|i: int| 0 <= i < c.len() ==> !is_forbidden(#[trigger] c[i])
}

/// The component that a directory name gives to a path: none for a blank
/// name or the name of a placeholder.
pub open spec fn segment(name: Seq<char>) -> Seq<Seq<char>> {
    if is_blank(name) || name == PLACEHOLDER_DIR_NAME@ || sanitized(name).len() == 0 {
        Seq::empty()
    } else {
        seq![sanitized(name)]
    }
}

/// The components of the path of a directory, from the top down, following
/// at most `fuel` directories upwards.
pub open spec fn path_from(v: IndexView, current: Option<Seq<char>>, fuel: nat) -> Seq<Seq<char>>
    decreases fuel,
{
    match current {
        None => Seq::empty(),
        Some(id) => if fuel == 0 || !v.has_dir(id) {
            Seq::empty()
        } else {
            path_from(v, normal_parent(v.dir(id).parent_id), (fuel - 1) as nat) + segment(
                v.dir(id).name,
            )
        },
    }
}

/// The path of a directory below the cache root, as components.
pub open spec fn dir_path(v: IndexView, dir_id: Seq<char>) -> Seq<Seq<char>> {
    path_from(v, Some(dir_id), MAX_PATH_DEPTH as nat)
}

/// The texts that a vector of strings holds.
pub open spec fn components(v: Seq<String>) -> Seq<Seq<char>> {
    Seq::new(v.len(), |i: int| v[i]@)
}

/// Builds the path of a directory in the cache, from the top down, by
/// walking the parents of the directory. Placeholders and blank names give
/// no component, and the walk ends after 64 directories.
pub fn build_dir_path(index: &Index, dir_id: &str) -> (r: Vec<String>)
    ensures
        components(r@) == dir_path(index@, dir_id@),
        forall|i: int| 0 <= i < r@.len() ==> is_safe_component((#[trigger] r@[i])@),
{
    let mut names: Vec<String> = Vec::new();
    let mut current: Option<String> = Some(String::from_str(dir_id));
    let mut guard: usize = 0;
    assert(path_from(index@, opt_text(current), 64) + components(names@) =~= dir_path(
        index@,
        dir_id@,
    ));
    while guard < MAX_PATH_DEPTH && current.is_some()
        invariant
            guard <= MAX_PATH_DEPTH,
            path_from(index@, opt_text(current), (MAX_PATH_DEPTH - guard) as nat) + components(
                names@,
            ) == dir_path(index@, dir_id@),
            forall|i: int| 0 <= i < names@.len() ==> is_safe_component((#[trigger] names@[i])@),
        decreases MAX_PATH_DEPTH - guard,
    {
        let id = current.unwrap();
        match index.get_dir(id.as_str()) {
            Some(row) => {
                let ghost above = path_from(
                    index@,
                    normal_parent(row@.parent_id),
                    (MAX_PATH_DEPTH - guard - 1) as nat,
                );
                let ghost below = components(names@);
                let ghost before = names@;
                if !(str_is_blank(row.name.as_str()) || str_eq(
                    row.name.as_str(),
                    PLACEHOLDER_DIR_NAME,
                )) {
                    let safe = sanitize_component(row.name.as_str());
                    if safe.as_str().unicode_len() > 0 {
                        assert(is_safe_component(safe@));
                        names.insert(0, safe);
                        proof {
                            assert(components(names@) =~= seq![safe@] + below);
                            assert forall|i: int| 0 <= i < names@.len() implies is_safe_component(
                                (#[trigger] names@[i])@,
                            ) by {
                                if i > 0 {
                                    assert(names@[i] == before[i - 1]);
                                }
                            }
                        }
                    }
                }
                assert(components(names@) == segment(row@.name) + below);
                assert((above + segment(row@.name)) + below =~= above + (segment(row@.name)
                    + below));
                current = normalize_parent_id(row.parent_id);
            },
            None => {
                current = None;
            },
        }
        guard += 1;
    }
    proof {
        let rest = path_from(index@, opt_text(current), (MAX_PATH_DEPTH - guard) as nat);
        assert(rest =~= Seq::<Seq<char>>::empty());
        assert(rest + components(names@) =~= components(names@));
    }
    names
}

// ---------------------------------------------------------------------------
// Cleaning up
// ---------------------------------------------------------------------------
/// Whether path `dir` lies at or below path `root`.
pub open spec fn lies_below(dir: Seq<Seq<char>>, root: Seq<Seq<char>>) -> bool {
    root.len() <= dir.len() && dir.take(root.len() as int) == root
}

/// What to do with a cache directory after files were removed from it.
#[derive(Debug, PartialEq, Eq)]
pub enum CleanupStep {
    /// Leave the directory, and all above it, as they are.
    Stop,
    /// Remove the directory and look at the one above it next.
    RemoveAndAscend(Vec<String>),
}

/// Decides one step of the cleanup of empty cache directories: a directory
/// that is empty and lies strictly below the root is removed, and its parent
/// is looked at next. The root itself is never removed.
pub fn cleanup_step(root: &Vec<String>, dir: &Vec<String>, is_empty: bool) -> (r: CleanupStep)
    ensures
        match r {
            CleanupStep::Stop => !(is_empty && lies_below(components(dir@), components(root@))
                && dir@.len() > root@.len()),
            CleanupStep::RemoveAndAscend(parent) => is_empty && lies_below(
                components(dir@),
                components(root@),
            ) && dir@.len() > root@.len() && components(parent@) == components(dir@).drop_last(),
        },
{
    if !is_empty || dir.len() <= root.len() {
        return CleanupStep::Stop;
    }
    let mut i: usize = 0;
    while i < root.len()
        invariant
            i <= root.len(),
            root.len() < dir.len(),
            forall|k: int| 0 <= k < i ==> root@[k]@ == dir@[k]@,
        decreases root.len() - i,
    {
        if !str_eq(root[i].as_str(), dir[i].as_str()) {
            assert(components(dir@).take(root@.len() as int)[i as int] != components(
                root@,
            )[i as int]);
            return CleanupStep::Stop;
        }
        i += 1;
    }
    assert(components(dir@).take(root@.len() as int) =~= components(root@));
    let mut parent: Vec<String> = Vec::new();
    let mut j: usize = 0;
    while j < dir.len() - 1
        invariant
            j <= dir.len() - 1,
            parent@.len() == j,
            components(parent@) == components(dir@).take(j as int),
        decreases dir.len() - j,
    {
        let ghost before = parent@;
        let part = dir[j].clone();
        parent.push(part);
        proof {
            assert(parent@ == before.push(part));
            assert forall|k: int| 0 <= k < j + 1 implies components(parent@)[k] == components(
                dir@,
            ).take(j + 1)[k] by {
                if k < j {
                    assert(components(before)[k] == components(dir@).take(j as int)[k]);
                }
            }
            assert(components(parent@) =~= components(dir@).take(j + 1));
        }
        j += 1;
    }
    assert(components(dir@).take(dir@.len() - 1) =~= components(dir@).drop_last());
    CleanupStep::RemoveAndAscend(parent)
}

} // verus!
