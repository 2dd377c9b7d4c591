//! Metadata codec: directory and file records as message bodies.
//!
//! A record is a line of space-separated words: the version tag, a kind
//! marker, and `key=value` fields. Spaces inside a name are written as
//! underscores and underscores are doubled.

use crate::text::{
    append_chars, append_str, chars_contain_str, chars_eq, chars_of, char_is_whitespace,
    contains_text, is_whitespace, slice_chars, starts_with, string_of,
};
use crate::roundtrip::{law_dir_round_trip, law_file_round_trip, valid_dir, valid_file};
use vstd::prelude::*;

verus! {

/// The version tag with which every record begins.
pub const TAG_PREFIX: &'static str = "#ocltg #v1";

/// The record of a file: where it lies, what it is called, and the fingerprint of its
/// content.
#[derive(Debug, PartialEq, Eq)]
pub struct FileMeta {
    pub dir_id: String,
    pub file_id: String,
    pub name: String,
    pub hash_short: String,
}

/// The record of a directory.
#[derive(Debug, PartialEq, Eq)]
pub struct DirMeta {
    pub dir_id: String,
    /// `"ROOT"` or the parent's id.
    pub parent_id: String,
    pub name: String,
}

/// Why a text is no record.
#[derive(Debug)]
pub enum MetaError {
    /// The text lacks the version tag or the kind marker.
    NotCloudtg,
    /// The named field is absent.
    Missing(&'static str),
}

/// The view of a file record.
pub struct FileMetaView {
    pub dir_id: Seq<char>,
    pub file_id: Seq<char>,
    pub name: Seq<char>,
    pub hash_short: Seq<char>,
}

/// The view of a directory record.
pub struct DirMetaView {
    pub dir_id: Seq<char>,
    pub parent_id: Seq<char>,
    pub name: Seq<char>,
}

/// The view of a decoding error.
pub enum MetaFault {
    NotRecognized,
    Missing(Seq<char>),
}

impl View for FileMeta {
    type V = FileMetaView;

    open spec fn view(&self) -> FileMetaView {
        FileMetaView {
            dir_id: self.dir_id@,
            file_id: self.file_id@,
            name: self.name@,
            hash_short: self.hash_short@,
        }
    }
}

impl View for DirMeta {
    type V = DirMetaView;

    open spec fn view(&self) -> DirMetaView {
        DirMetaView { dir_id: self.dir_id@, parent_id: self.parent_id@, name: self.name@ }
    }
}

impl View for MetaError {
    type V = MetaFault;

    open spec fn view(&self) -> MetaFault {
        match self {
            MetaError::NotCloudtg => MetaFault::NotRecognized,
            MetaError::Missing(key) => MetaFault::Missing(key@),
        }
    }
}

impl Clone for FileMeta {
    fn clone(&self) -> (r: Self)
        ensures
            r@ == self@,
    {
        FileMeta {
            dir_id: self.dir_id.clone(),
            file_id: self.file_id.clone(),
            name: self.name.clone(),
            hash_short: self.hash_short.clone(),
        }
    }
}

impl Clone for DirMeta {
    fn clone(&self) -> (r: Self)
        ensures
            r@ == self@,
    {
        DirMeta {
            dir_id: self.dir_id.clone(),
            parent_id: self.parent_id.clone(),
            name: self.name.clone(),
        }
    }
}

impl MetaError {
    /// The error as a sentence.
    pub fn message(&self) -> (r: String)
        ensures
            r@ == match self {
                MetaError::NotCloudtg => "not a cloudtg message"@,
                MetaError::Missing(key) => "missing field: "@ + key@,
            },
    {
        match self {
            MetaError::NotCloudtg => String::from_str("not a cloudtg message"),
            MetaError::Missing(key) => {
                let mut out = chars_of("missing field: ");
                append_str(&mut out, key);
                string_of(&out)
            },
        }
    }
}

// ---------------------------------------------------------------------------
// Escaping of names
// ---------------------------------------------------------------------------
/// How one character of a name is written.
pub open spec fn escape_char(c: char) -> Seq<char> {
    if c == '_' {
        seq!['_', '_']
    } else if c == ' ' {
        seq!['_']
    } else {
        seq![c]
    }
}

/// A name with every underscore doubled and every space turned into an
/// underscore.
pub open spec fn escape(s: Seq<char>) -> Seq<char>
    decreases s.len(),
{
    if s.len() == 0 {
        Seq::empty()
    } else {
        escape_char(s[0]) + escape(s.skip(1))
    }
}

/// Reads an escaped name from the left: a pair of underscores is an
/// underscore, a single one is a space, and a NUL is an underscore.
pub open spec fn unescape(s: Seq<char>) -> Seq<char>
    decreases s.len(),
{
    if s.len() == 0 {
        Seq::empty()
    } else if s.len() >= 2 && s[0] == '_' && s[1] == '_' {
        seq!['_'] + unescape(s.skip(2))
    } else if s[0] == '_' {
        seq![' '] + unescape(s.skip(1))
    } else if s[0] == '\0' {
        seq!['_'] + unescape(s.skip(1))
    } else {
        seq![s[0]] + unescape(s.skip(1))
    }
}

/// Writes a name so that it holds no space.
pub fn escape_spaces(s: &Vec<char>) -> (r: Vec<char>)
    ensures
        r@ == escape(s@),
{
    let mut out: Vec<char> = Vec::new();
    let mut i: usize = 0;
    assert(s@.skip(0) == s@);
    while i < s.len()
        invariant
            i <= s.len(),
            out@ + escape(s@.skip(i as int)) == escape(s@),
        decreases s.len() - i,
    {
        let c = s[i];
        proof {
            let rest = s@.skip(i as int);
            assert(rest.skip(1) == s@.skip(i + 1));
            assert(escape(rest) == escape_char(c) + escape(s@.skip(i + 1)));
            assert(out@ + (escape_char(c) + escape(s@.skip(i + 1))) == (out@ + escape_char(c))
                + escape(s@.skip(i + 1)));
        }
        let ghost before = out@;
        if c == '_' {
            out.push('_');
            out.push('_');
        } else if c == ' ' {
            out.push('_');
        } else {
            out.push(c);
        }
        assert(out@ == before + escape_char(c));
        i += 1;
    }
    assert(out@ + Seq::<char>::empty() == out@);
    out
}

/// Reads a name that was written without spaces.
pub fn unescape_spaces(s: &Vec<char>) -> (r: Vec<char>)
    ensures
        r@ == unescape(s@),
{
    let mut out: Vec<char> = Vec::new();
    let mut i: usize = 0;
    let n = s.len();
    assert(s@.skip(0) == s@);
    while i < n
        invariant
            n == s.len(),
            i <= n,
            out@ + unescape(s@.skip(i as int)) == unescape(s@),
        decreases n - i,
    {
        let c = s[i];
        let ghost rest = s@.skip(i as int);
        let ghost before = out@;
        assert(rest.skip(1) == s@.skip(i + 1));
        if c == '_' && i + 1 < n && s[i + 1] == '_' {
            assert(rest.skip(2) == s@.skip(i + 2));
            assert(before + (seq!['_'] + unescape(s@.skip(i + 2))) == before.push('_') + unescape(
                s@.skip(i + 2),
            ));
            out.push('_');
            i += 2;
        } else if c == '_' {
            assert(before + (seq![' '] + unescape(s@.skip(i + 1))) == before.push(' ') + unescape(
                s@.skip(i + 1),
            ));
            out.push(' ');
            i += 1;
        } else if c == '\0' {
            assert(before + (seq!['_'] + unescape(s@.skip(i + 1))) == before.push('_') + unescape(
                s@.skip(i + 1),
            ));
            out.push('_');
            i += 1;
        } else {
            assert(before + (seq![c] + unescape(s@.skip(i + 1))) == before.push(c) + unescape(
                s@.skip(i + 1),
            ));
            out.push(c);
            i += 1;
        }
    }
    assert(out@ + Seq::<char>::empty() == out@);
    out
}

// ---------------------------------------------------------------------------
// Words and fields
// ---------------------------------------------------------------------------
/// The pending word as a list: nothing when it is empty.
pub open spec fn flush(cur: Seq<char>) -> Seq<Seq<char>> {
    if cur.len() > 0 {
        seq![cur]
    } else {
        Seq::empty()
    }
}

/// The whitespace-separated words of `s`, read from the left with `cur` as
/// the word under way.
pub open spec fn scan_words(s: Seq<char>, cur: Seq<char>) -> Seq<Seq<char>>
    decreases s.len(),
{
    if s.len() == 0 {
        flush(cur)
    } else if is_whitespace(s[0]) {
        flush(cur) + scan_words(s.skip(1), Seq::empty())
    } else {
        scan_words(s.skip(1), cur.push(s[0]))
    }
}

/// The maximal runs of non-whitespace characters of `s`, in order.
pub open spec fn words(s: Seq<char>) -> Seq<Seq<char>> {
    scan_words(s, Seq::empty())
}

/// The texts that a vector of character vectors holds.
pub open spec fn views(v: Seq<Vec<char>>) -> Seq<Seq<char>> {
    Seq::new(v.len(), |i: int| v[i]@)
}

/// Splits a text at its whitespace.
pub fn split_words(text: &Vec<char>) -> (r: Vec<Vec<char>>)
    ensures
        views(r@) == words(text@),
{
    let mut done: Vec<Vec<char>> = Vec::new();
    let mut cur: Vec<char> = Vec::new();
    let mut i: usize = 0;
    assert(text@.skip(0) == text@);
    assert(views(done@) + words(text@) == words(text@));
    while i < text.len()
        invariant
            i <= text.len(),
            views(done@) + scan_words(text@.skip(i as int), cur@) == words(text@),
        decreases text.len() - i,
    {
        let c = text[i];
        let ghost rest = text@.skip(i as int);
        assert(rest.skip(1) == text@.skip(i + 1));
        if char_is_whitespace(c) {
            if cur.len() > 0 {
                let ghost before = views(done@);
                let ghost word = cur@;
                done.push(cur);
                cur = Vec::new();
                assert(views(done@) == before + seq![word]);
                assert(before + (seq![word] + scan_words(text@.skip(i + 1), Seq::empty()))
                    == (before + seq![word]) + scan_words(text@.skip(i + 1), Seq::empty()));
            } else {
                assert(cur@ == Seq::<char>::empty());
                assert(Seq::<Seq<char>>::empty() + scan_words(text@.skip(i + 1), Seq::empty())
                    == scan_words(text@.skip(i + 1), Seq::empty()));
            }
        } else {
            cur.push(c);
        }
        i += 1;
    }
    if cur.len() > 0 {
        let ghost before = views(done@);
        let ghost word = cur@;
        done.push(cur);
        assert(views(done@) == before + seq![word]);
    } else {
        assert(views(done@) + Seq::<Seq<char>>::empty() == views(done@));
    }
    done
}

/// The offset of the first `=` in `t`, or the length of `t` when it has none.
pub open spec fn first_eq(t: Seq<char>) -> int
    decreases t.len(),
{
    if t.len() == 0 || t[0] == '=' {
        0
    } else {
        1 + first_eq(t.skip(1))
    }
}

/// The value of word `t` when it reads `key=value`.
pub open spec fn field_of(t: Seq<char>, key: Seq<char>) -> Option<Seq<char>> {
    let i = first_eq(t);
    if i < t.len() && t.take(i) == key {
        Some(t.skip(i + 1))
    } else {
        None
    }
}

/// The value that the last `key=value` word among `ws` gives to `key`.
pub open spec fn lookup(ws: Seq<Seq<char>>, key: Seq<char>) -> Option<Seq<char>>
    decreases ws.len(),
{
    if ws.len() == 0 {
        None
    } else {
        match field_of(ws.last(), key) {
            Some(v) => Some(v),
            None => lookup(ws.drop_last(), key),
        }
    }
}

/// The first `=` of a word is where no `=` stands before.
pub proof fn lemma_first_eq(t: Seq<char>, i: int)
    requires
        0 <= i <= t.len(),
        forall|k: int| 0 <= k < i ==> t[k] != '=',
        i < t.len() ==> t[i] == '=',
    ensures
        first_eq(t) == i,
    decreases i,
{
    if i > 0 {
        lemma_first_eq(t.skip(1), i - 1);
    }
}

fn word_field(t: &Vec<char>, key: &Vec<char>) -> (r: Option<Vec<char>>)
    ensures
        match r {
            Some(v) => field_of(t@, key@) == Some(v@),
            None => field_of(t@, key@) is None,
        },
{
    let mut i: usize = 0;
    while i < t.len() && t[i] != '='
        invariant
            i <= t.len(),
            forall|k: int| 0 <= k < i ==> t@[k] != '=',
        decreases t.len() - i,
    {
        i += 1;
    }
    proof {
        lemma_first_eq(t@, i as int);
    }
    if i >= t.len() {
        return None;
    }
    let name = slice_chars(t, 0, i);
    assert(t@.take(i as int) == t@.subrange(0, i as int));
    if chars_eq(&name, key) {
        let value = slice_chars(t, i + 1, t.len());
        assert(t@.skip(i + 1) == t@.subrange(i + 1, t.len() as int));
        Some(value)
    } else {
        None
    }
}

fn find_field(ws: &Vec<Vec<char>>, key: &str) -> (r: Option<Vec<char>>)
    ensures
        match r {
            Some(v) => lookup(views(ws@), key@) == Some(v@),
            None => lookup(views(ws@), key@) is None,
        },
{
    let k = chars_of(key);
    let mut i: usize = ws.len();
    assert(views(ws@).take(i as int) == views(ws@));
    while i > 0
        invariant
            i <= ws.len(),
            k@ == key@,
            lookup(views(ws@), key@) == lookup(views(ws@).take(i as int), key@),
        decreases i,
    {
        let ghost part = views(ws@).take(i as int);
        assert(part.last() == ws@[i - 1]@);
        assert(part.drop_last() == views(ws@).take(i - 1));
        match word_field(&ws[i - 1], &k) {
            Some(v) => {
                return Some(v);
            },
            None => {},
        }
        i -= 1;
    }
    None
}

// ---------------------------------------------------------------------------
// Encoding
// ---------------------------------------------------------------------------
/// The words joined by single spaces.
pub open spec fn join_words(ws: Seq<Seq<char>>) -> Seq<char>
    decreases ws.len(),
{
    if ws.len() == 0 {
        Seq::empty()
    } else if ws.len() == 1 {
        ws[0]
    } else {
        ws[0] + seq![' '] + join_words(ws.skip(1))
    }
}

/// The words of a directory message.
pub open spec fn dir_words(m: DirMetaView) -> Seq<Seq<char>> {
    seq![
        "#ocltg"@,
        "#v1"@,
        "#dir"@,
        "d="@ + m.dir_id,
        "p="@ + m.parent_id,
        "name="@ + escape(m.name),
    ]
}

/// The words of a file caption.
pub open spec fn file_words(m: FileMetaView) -> Seq<Seq<char>> {
    seq![
        "#ocltg"@,
        "#v1"@,
        "#file"@,
        "d="@ + m.dir_id,
        "f="@ + m.file_id,
        "n="@ + escape(m.name),
        "h="@ + m.hash_short,
    ]
}

/// The message body of a directory record.
pub open spec fn dir_message(m: DirMetaView) -> Seq<char> {
    join_words(dir_words(m))
}

/// The caption of a file record.
pub open spec fn file_caption(m: FileMetaView) -> Seq<char> {
    join_words(file_words(m))
}

/// Appends a space and the word `key` followed by `value`.
fn append_field(out: &mut Vec<char>, key: &str, value: &Vec<char>)
    ensures
        final(out)@ == old(out)@ + seq![' '] + (key@ + value@),
{
    out.push(' ');
    append_str(out, key);
    append_chars(out, value);
    assert(final(out)@ =~= old(out)@ + seq![' '] + (key@ + value@));
}

/// One word more is joined on behind a space.
proof fn lemma_join_push(ws: Seq<Seq<char>>, w: Seq<char>)
    requires
        ws.len() >= 1,
    ensures
        join_words(ws.push(w)) == join_words(ws) + seq![' '] + w,
    decreases ws.len(),
{
    let all = ws.push(w);
    if ws.len() == 1 {
        assert(all.skip(1) =~= seq![w]);
        assert(join_words(all.skip(1)) == w);
    } else {
        assert(all.skip(1) =~= ws.skip(1).push(w));
        lemma_join_push(ws.skip(1), w);
        assert(all[0] == ws[0]);
        assert(join_words(all) =~= join_words(ws) + seq![' '] + w);
    }
}

/// The fixed head of every record: the version tag and the kind marker.
fn record_head(kind: &str) -> (out: Vec<char>)
    ensures
        out@ == join_words(seq!["#ocltg"@, "#v1"@, kind@]),
        starts_with(out@, TAG_PREFIX@),
{
    let mut out = chars_of("#ocltg");
    out.push(' ');
    append_str(&mut out, "#v1");
    out.push(' ');
    append_str(&mut out, kind);
    proof {
        reveal_strlit("#ocltg");
        reveal_strlit("#v1");
        reveal_strlit("#ocltg #v1");
        assert(out@ =~= "#ocltg"@ + seq![' '] + "#v1"@ + seq![' '] + kind@);
        assert(out@.subrange(0, TAG_PREFIX@.len() as int) =~= TAG_PREFIX@);
        let one = seq!["#ocltg"@];
        assert(join_words(one) == "#ocltg"@);
        lemma_join_push(one, "#v1"@);
        lemma_join_push(one.push("#v1"@), kind@);
        assert(one.push("#v1"@).push(kind@) =~= seq!["#ocltg"@, "#v1"@, kind@]);
    }
    out
}

proof fn lemma_starts_with_extend(s: Seq<char>, pat: Seq<char>, more: Seq<char>)
    requires
        starts_with(s, pat),
    ensures
        starts_with(s + more, pat),
{
    assert((s + more).subrange(0, pat.len() as int) =~= s.subrange(0, pat.len() as int));
}

/// Encodes a file record. The caption starts with the version tag, and a
/// valid record is read back from it as it was.
pub fn make_file_caption(m: &FileMeta) -> (r: String)
    ensures
        r@ == file_caption(m@),
        starts_with(r@, TAG_PREFIX@),
        valid_file(m@) ==> parse_file_text(r@) == Ok::<FileMetaView, MetaFault>(m@),
{
    proof {
        if valid_file(m@) {
            law_file_round_trip(m@);
        }
    }
    encode_file(m)
}

fn encode_file(m: &FileMeta) -> (r: String)
    ensures
        r@ == file_caption(m@),
        starts_with(r@, TAG_PREFIX@),
{
    let mut out = record_head("#file");
    let ghost head = out@;
    let ghost w0 = seq!["#ocltg"@, "#v1"@, "#file"@];
    append_field(&mut out, "d=", &chars_of(m.dir_id.as_str()));
    let ghost w1 = w0.push("d="@ + m@.dir_id);
    proof {
        lemma_join_push(w0, "d="@ + m@.dir_id);
    }
    append_field(&mut out, "f=", &chars_of(m.file_id.as_str()));
    let ghost w2 = w1.push("f="@ + m@.file_id);
    proof {
        lemma_join_push(w1, "f="@ + m@.file_id);
    }
    append_field(&mut out, "n=", &escape_spaces(&chars_of(m.name.as_str())));
    let ghost w3 = w2.push("n="@ + escape(m@.name));
    proof {
        lemma_join_push(w2, "n="@ + escape(m@.name));
    }
    append_field(&mut out, "h=", &chars_of(m.hash_short.as_str()));
    let ghost w4 = w3.push("h="@ + m@.hash_short);
    proof {
        lemma_join_push(w3, "h="@ + m@.hash_short);
        assert(out@ == join_words(w4));
        assert(w4 =~= file_words(m@));
        assert(out@ =~= head + (out@.skip(head.len() as int)));
        lemma_starts_with_extend(head, TAG_PREFIX@, out@.skip(head.len() as int));
    }
    string_of(&out)
}

/// Encodes a directory record. The message starts with the version tag, and
/// a valid record is read back from it as it was.
pub fn make_dir_message(m: &DirMeta) -> (r: String)
    ensures
        r@ == dir_message(m@),
        starts_with(r@, TAG_PREFIX@),
        valid_dir(m@) ==> parse_dir_text(r@) == Ok::<DirMetaView, MetaFault>(m@),
{
    proof {
        if valid_dir(m@) {
            law_dir_round_trip(m@);
        }
    }
    encode_dir(m)
}

fn encode_dir(m: &DirMeta) -> (r: String)
    ensures
        r@ == dir_message(m@),
        starts_with(r@, TAG_PREFIX@),
{
    let mut out = record_head("#dir");
    let ghost head = out@;
    let ghost w0 = seq!["#ocltg"@, "#v1"@, "#dir"@];
    append_field(&mut out, "d=", &chars_of(m.dir_id.as_str()));
    let ghost w1 = w0.push("d="@ + m@.dir_id);
    proof {
        lemma_join_push(w0, "d="@ + m@.dir_id);
    }
    append_field(&mut out, "p=", &chars_of(m.parent_id.as_str()));
    let ghost w2 = w1.push("p="@ + m@.parent_id);
    proof {
        lemma_join_push(w1, "p="@ + m@.parent_id);
    }
    append_field(&mut out, "name=", &escape_spaces(&chars_of(m.name.as_str())));
    let ghost w3 = w2.push("name="@ + escape(m@.name));
    proof {
        lemma_join_push(w2, "name="@ + escape(m@.name));
        assert(out@ == join_words(w3));
        assert(w3 =~= dir_words(m@));
        assert(out@ =~= head + (out@.skip(head.len() as int)));
        lemma_starts_with_extend(head, TAG_PREFIX@, out@.skip(head.len() as int));
    }
    string_of(&out)
}

// ---------------------------------------------------------------------------
// Decoding
// ---------------------------------------------------------------------------
/// Whether the text carries the version tag and the given kind marker.
pub open spec fn recognized(text: Seq<char>, kind: Seq<char>) -> bool {
    contains_text(text, "#ocltg"@) && contains_text(text, "#v1"@) && contains_text(text, kind)
}

/// What a file caption decodes to.
pub open spec fn parse_file_text(text: Seq<char>) -> Result<FileMetaView, MetaFault> {
    let ws = words(text);
    if !recognized(text, "#file"@) {
        Err(MetaFault::NotRecognized)
    } else if lookup(ws, "d"@) is None {
        Err(MetaFault::Missing("d"@))
    } else if lookup(ws, "f"@) is None {
        Err(MetaFault::Missing("f"@))
    } else if lookup(ws, "n"@) is None {
        Err(MetaFault::Missing("n"@))
    } else if lookup(ws, "h"@) is None {
        Err(MetaFault::Missing("h"@))
    } else {
        Ok(
            FileMetaView {
                dir_id: lookup(ws, "d"@)->0,
                file_id: lookup(ws, "f"@)->0,
                name: unescape(lookup(ws, "n"@)->0),
                hash_short: lookup(ws, "h"@)->0,
            },
        )
    }
}

/// What a directory message decodes to.
pub open spec fn parse_dir_text(text: Seq<char>) -> Result<DirMetaView, MetaFault> {
    let ws = words(text);
    if !recognized(text, "#dir"@) {
        Err(MetaFault::NotRecognized)
    } else if lookup(ws, "d"@) is None {
        Err(MetaFault::Missing("d"@))
    } else if lookup(ws, "p"@) is None {
        Err(MetaFault::Missing("p"@))
    } else if lookup(ws, "name"@) is None {
        Err(MetaFault::Missing("name"@))
    } else {
        Ok(
            DirMetaView {
                dir_id: lookup(ws, "d"@)->0,
                parent_id: lookup(ws, "p"@)->0,
                name: unescape(lookup(ws, "name"@)->0),
            },
        )
    }
}

fn is_recognized(text: &Vec<char>, kind: &str) -> (r: bool)
    ensures
        r == recognized(text@, kind@),
{
    chars_contain_str(text, "#ocltg") && chars_contain_str(text, "#v1") && chars_contain_str(
        text,
        kind,
    )
}

/// Decodes the caption of a file record. The caption must carry the version
/// tag and the file marker, and each of the fields `d`, `f`, `n` and `h`; the
/// first field that is missing is named.
pub fn parse_file_caption(caption: &str) -> (r: Result<FileMeta, MetaError>)
    ensures
        match r {
            Ok(m) => parse_file_text(caption@) == Ok::<FileMetaView, MetaFault>(m@),
            Err(e) => parse_file_text(caption@) == Err::<FileMetaView, MetaFault>(e@),
        },
{
    let text = chars_of(caption);
    if !is_recognized(&text, "#file") {
        return Err(MetaError::NotCloudtg);
    }
    let ws = split_words(&text);
    let dir_id = match find_field(&ws, "d") {
        Some(v) => v,
        None => {
            return Err(MetaError::Missing("d"));
        },
    };
    let file_id = match find_field(&ws, "f") {
        Some(v) => v,
        None => {
            return Err(MetaError::Missing("f"));
        },
    };
    let name = match find_field(&ws, "n") {
        Some(v) => v,
        None => {
            return Err(MetaError::Missing("n"));
        },
    };
    let hash_short = match find_field(&ws, "h") {
        Some(v) => v,
        None => {
            return Err(MetaError::Missing("h"));
        },
    };
    Ok(
        FileMeta {
            dir_id: string_of(&dir_id),
            file_id: string_of(&file_id),
            name: string_of(&unescape_spaces(&name)),
            hash_short: string_of(&hash_short),
        },
    )
}

/// Decodes the message of a directory record. The text must carry the
/// version tag and the directory marker, and each of the fields `d`, `p` and
/// `name`; the first field that is missing is named.
pub fn parse_dir_message(text: &str) -> (r: Result<DirMeta, MetaError>)
    ensures
        match r {
            Ok(m) => parse_dir_text(text@) == Ok::<DirMetaView, MetaFault>(m@),
            Err(e) => parse_dir_text(text@) == Err::<DirMetaView, MetaFault>(e@),
        },
{
    let body = chars_of(text);
    if !is_recognized(&body, "#dir") {
        return Err(MetaError::NotCloudtg);
    }
    let ws = split_words(&body);
    let dir_id = match find_field(&ws, "d") {
        Some(v) => v,
        None => {
            return Err(MetaError::Missing("d"));
        },
    };
    let parent_id = match find_field(&ws, "p") {
        Some(v) => v,
        None => {
            return Err(MetaError::Missing("p"));
        },
    };
    let name = match find_field(&ws, "name") {
        Some(v) => v,
        None => {
            return Err(MetaError::Missing("name"));
        },
    };
    Ok(
        DirMeta {
            dir_id: string_of(&dir_id),
            parent_id: string_of(&parent_id),
            name: string_of(&unescape_spaces(&name)),
        },
    )
}

} // verus!
