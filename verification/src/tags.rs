//! Folder hashtags: the tag that a caption carries for its folder, and the
//! folder names that the tags of a foreign caption suggest.

use crate::fsmeta::{
    file_caption, make_file_caption, parse_file_text, FileMeta, FileMetaView, MetaFault,
    TAG_PREFIX,
};
use crate::roundtrip::{law_file_round_trip, law_tagged_file_round_trip, valid_file};
use crate::text::{
    append_chars, ascii_lower_text, char_is_whitespace, chars_are, chars_of, is_whitespace, slice_chars, starts_with,
    string_of, trim, trim_chars,
};
use crate::unicode::{
    alphanumeric, char_is_alphanumeric, is_ascii_text, lowercase, str_lowercase,
};
use vstd::prelude::*;

verus! {

/// The characters that a folder name writes as one underscore in its tag.
pub open spec fn is_tag_separator(c: char) -> bool {
    c == '_' || is_whitespace(c) || c == '-' || c == '.'
}

/// The tag body of a folder name, read from the left: letters and digits are
/// kept, a run of separators gives one underscore, the rest is dropped.
pub open spec fn tag_body(s: Seq<char>, after_underscore: bool) -> Seq<char>
    decreases s.len(),
{
    if s.len() == 0 {
        Seq::empty()
    } else if alphanumeric(s[0]) {
        seq![s[0]] + tag_body(s.skip(1), false)
    } else if is_tag_separator(s[0]) && !after_underscore {
        seq!['_'] + tag_body(s.skip(1), true)
    } else {
        tag_body(s.skip(1), after_underscore)
    }
}

/// `s` without leading underscores.
pub open spec fn strip_start_underscores(s: Seq<char>) -> Seq<char>
    decreases s.len(),
{
    if s.len() > 0 && s[0] == '_' {
        strip_start_underscores(s.skip(1))
    } else {
        s
    }
}

/// `s` without trailing underscores.
pub open spec fn strip_end_underscores(s: Seq<char>) -> Seq<char>
    decreases s.len(),
{
    if s.len() > 0 && s.last() == '_' {
        strip_end_underscores(s.drop_last())
    } else {
        s
    }
}

/// `s` without leading and trailing underscores.
pub open spec fn strip_underscores(s: Seq<char>) -> Seq<char> {
    strip_end_underscores(strip_start_underscores(s))
}

/// The hashtag of a folder name, if the name leaves anything to write.
pub open spec fn folder_hashtag_text(name: Seq<char>) -> Option<Seq<char>> {
    let body = strip_underscores(tag_body(trim(name), false));
    if body.len() == 0 {
        None
    } else {
        Some(seq!['#'] + body)
    }
}

/// No character of `s` is `=`.
pub open spec fn no_equals(s: Seq<char>) -> bool {
    forall|i: int| 0 <= i < s.len() ==> #[trigger] s[i] != '='
}

proof fn lemma_strip_start(s: Seq<char>, i: int)
    requires
        0 <= i <= s.len(),
        forall|k: int| 0 <= k < i ==> s[k] == '_',
    ensures
        strip_start_underscores(s) == strip_start_underscores(s.skip(i)),
    decreases i,
{
    if i == 0 {
        assert(s.skip(0) =~= s);
    } else {
        lemma_strip_start(s.skip(1), i - 1);
        assert(s.skip(1).skip(i - 1) =~= s.skip(i));
    }
}

proof fn lemma_strip_end(s: Seq<char>, j: int)
    requires
        0 <= j <= s.len(),
        forall|k: int| j <= k < s.len() ==> s[k] == '_',
    ensures
        strip_end_underscores(s) == strip_end_underscores(s.take(j)),
    decreases s.len() - j,
{
    if j == s.len() {
        assert(s.take(j) =~= s);
    } else {
        lemma_strip_end(s.drop_last(), j);
        assert(s.drop_last().take(j) =~= s.take(j));
    }
}

fn strip_underscore_chars(v: &Vec<char>) -> (r: Vec<char>)
    ensures
        r@ == strip_underscores(v@),
        no_equals(v@) ==> no_equals(r@),
{
    let mut i: usize = 0;
    while i < v.len() && v[i] == '_'
        invariant
            i <= v.len(),
            forall|k: int| 0 <= k < i ==> v@[k] == '_',
        decreases v.len() - i,
    {
        i += 1;
    }
    let mut j: usize = v.len();
    while j > i && v[j - 1] == '_'
        invariant
            i <= j <= v.len(),
            forall|k: int| j <= k < v.len() ==> v@[k] == '_',
        decreases j,
    {
        j -= 1;
    }
    let r = slice_chars(v, i, j);
    proof {
        let t = v@.skip(i as int);
        lemma_strip_start(v@, i as int);
        assert(strip_start_underscores(t) == t);
        lemma_strip_end(t, j - i);
        assert(t.take(j - i) =~= r@);
        assert(strip_end_underscores(r@) == r@);
    }
    r
}

/// The hashtag that a caption carries for the folder `name`.
pub fn folder_hashtag(name: &str) -> (r: Option<String>)
    ensures
        match r {
            Some(tag) => folder_hashtag_text(name@) == Some(tag@) && no_equals(tag@),
            None => folder_hashtag_text(name@) is None,
        },
{
    let trimmed = trim_chars(&chars_of(name));
    let mut out: Vec<char> = Vec::new();
    let mut after_underscore = false;
    let mut i: usize = 0;
    assert(trimmed@.skip(0) =~= trimmed@);
    while i < trimmed.len()
        invariant
            i <= trimmed.len(),
            out@ + tag_body(trimmed@.skip(i as int), after_underscore) == tag_body(
                trimmed@,
                false,
            ),
            no_equals(out@),
        decreases trimmed.len() - i,
    {
        let c = trimmed[i];
        let ghost before = out@;
        let ghost rest = trimmed@.skip(i + 1);
        assert(trimmed@.skip(i as int).skip(1) =~= rest);
        if char_is_alphanumeric(c) {
            assert(before + (seq![c] + tag_body(rest, false)) =~= before.push(c) + tag_body(
                rest,
                false,
            ));
            out.push(c);
            after_underscore = false;
        } else if (c == '_' || char_is_whitespace(c) || c == '-' || c == '.') && !after_underscore {
            assert(before + (seq!['_'] + tag_body(rest, true)) =~= before.push('_') + tag_body(
                rest,
                true,
            ));
            out.push('_');
            after_underscore = true;
        }
        i += 1;
    }
    assert(out@ + Seq::<char>::empty() =~= out@);
    let cleaned = strip_underscore_chars(&out);
    if cleaned.len() == 0 {
        None
    } else {
        let mut tag: Vec<char> = Vec::new();
        tag.push('#');
        append_chars(&mut tag, &cleaned);
        assert(tag@ =~= seq!['#'] + cleaned@);
        Some(string_of(&tag))
    }
}

/// The caption of a file record, followed by a space and the tag when there
/// is one.
pub open spec fn tagged_caption(m: FileMetaView, tag: Option<Seq<char>>) -> Seq<char> {
    match tag {
        Some(t) => file_caption(m) + seq![' '] + t,
        None => file_caption(m),
    }
}

/// The tag for an optional folder name.
pub open spec fn hashtag_of(dir_name: Option<Seq<char>>) -> Option<Seq<char>> {
    match dir_name {
        Some(name) => folder_hashtag_text(name),
        None => None,
    }
}

/// The caption of a file record with the hashtag of its folder.
pub fn make_file_caption_with_tag(meta: &FileMeta, dir_name: Option<&str>) -> (r: String)
    ensures
        r@ == tagged_caption(
            meta@,
            hashtag_of(
                match dir_name {
                    Some(n) => Some(n@),
                    None => None,
                },
            ),
        ),
        starts_with(r@, TAG_PREFIX@),
        valid_file(meta@) ==> parse_file_text(r@) == Ok::<FileMetaView, MetaFault>(meta@),
{
    let base = make_file_caption(meta);
    let tag = match dir_name {
        Some(name) => folder_hashtag(name),
        None => None,
    };
    proof {
        if valid_file(meta@) {
            if tag is Some {
                law_tagged_file_round_trip(meta@, tag->0@);
            } else {
                law_file_round_trip(meta@);
            }
        }
    }
    match tag {
        Some(t) => {
            let mut out = chars_of(base.as_str());
            out.push(' ');
            append_chars(&mut out, &chars_of(t.as_str()));
            proof {
                assert(out@ =~= base@ + seq![' '] + t@);
                assert(out@.subrange(0, TAG_PREFIX@.len() as int) =~= base@.subrange(
                    0,
                    TAG_PREFIX@.len() as int,
                ));
            }
            string_of(&out)
        },
        None => base,
    }
}

// ---------------------------------------------------------------------------
// Tags of a foreign caption
// ---------------------------------------------------------------------------
/// The tags that name the records of the engine itself.
pub open spec fn is_reserved(tag: Seq<char>) -> bool {
    tag == "ocltg"@ || tag == "v1"@ || tag == "file"@ || tag == "dir"@
}

/// Whether the tag is one of the engine's own.
pub fn is_reserved_tag(tag: &str) -> (r: bool)
    ensures
        r == is_reserved(tag@),
{
    let t = chars_of(tag);
    chars_are(&t, "ocltg") || chars_are(&t, "v1") || chars_are(&t, "file") || chars_are(&t, "dir")
}

/// Whether the tag is one of the engine's own, whatever its case. For a tag
/// of ASCII characters the case is that of its letters `A` to `Z`.
pub fn is_engine_tag(tag: &str) -> (r: bool)
    ensures
        r == is_reserved(lowercase(tag@)),
        is_ascii_text(tag@) ==> r == is_reserved(ascii_lower_text(tag@)),
{
    let lowered = str_lowercase(tag);
    is_reserved_tag(lowered.as_str())
}

/// Whether a character may stand in a tag.
pub open spec fn is_tag_char(c: char) -> bool {
    alphanumeric(c) || c == '_' || c == '-'
}

/// The tag under way as a list: nothing when there is none, it is empty, or
/// it is reserved.
pub open spec fn close_tag(cur: Option<Seq<char>>) -> Seq<Seq<char>> {
    match cur {
        Some(t) => if t.len() > 0 && !is_reserved(lowercase(t)) {
            seq![t]
        } else {
            Seq::empty()
        },
        None => Seq::empty(),
    }
}

/// The folder tags of a caption, read from the left; `cur` is the tag under
/// way after a `#`.
pub open spec fn scan_tags(s: Seq<char>, cur: Option<Seq<char>>) -> Seq<Seq<char>>
    decreases s.len(),
{
    if s.len() == 0 {
        close_tag(cur)
    } else if cur is Some && is_tag_char(s[0]) {
        scan_tags(s.skip(1), Some(cur->0.push(s[0])))
    } else if s[0] == '#' {
        close_tag(cur) + scan_tags(s.skip(1), Some(Seq::empty()))
    } else {
        close_tag(cur) + scan_tags(s.skip(1), None)
    }
}

/// The hashtags of a caption that may name a folder, in order.
pub open spec fn folder_tags(caption: Seq<char>) -> Seq<Seq<char>> {
    scan_tags(caption, None)
}

/// The texts that a vector of strings holds.
pub open spec fn string_views(v: Seq<String>) -> Seq<Seq<char>> {
    Seq::new(v.len(), |i: int| v[i]@)
}

/// Appends the tag under way to `tags` unless it is empty or reserved.
fn push_tag(tags: &mut Vec<String>, cur: &Vec<char>)
    ensures
        string_views(final(tags)@) == string_views(old(tags)@) + close_tag(Some(cur@)),
{
    if cur.len() == 0 {
        assert(string_views(tags@) + Seq::<Seq<char>>::empty() =~= string_views(tags@));
        return ;
    }
    let tag = string_of(cur);
    if is_engine_tag(tag.as_str()) {
        assert(string_views(tags@) + Seq::<Seq<char>>::empty() =~= string_views(tags@));
        return ;
    }
    tags.push(tag);
    assert(string_views(tags@) =~= string_views(old(tags)@) + seq![cur@]);
}

/// The hashtags of a caption that may name a folder, in order: each `#`
/// with the letters, digits, underscores and hyphens that follow it, but for
/// the tags of the engine itself, whatever their case.
pub fn extract_folder_tags(caption: &str) -> (r: Vec<String>)
    ensures
        string_views(r@) == folder_tags(caption@),
{
    let text = chars_of(caption);
    let mut tags: Vec<String> = Vec::new();
    let mut cur: Vec<char> = Vec::new();
    let mut inside = false;
    let mut i: usize = 0;
    assert(text@.skip(0) =~= text@);
    assert(string_views(tags@) + folder_tags(text@) =~= folder_tags(text@));
    while i < text.len()
        invariant
            i <= text.len(),
            text@ == caption@,
            string_views(tags@) + scan_tags(
                text@.skip(i as int),
                if inside {
                    Some(cur@)
                } else {
                    None
                },
            ) == folder_tags(caption@),
        decreases text.len() - i,
    {
        let c = text[i];
        let ghost rest = text@.skip(i + 1);
        let ghost before = string_views(tags@);
        assert(text@.skip(i as int).skip(1) =~= rest);
        if inside && (char_is_alphanumeric(c) || c == '_' || c == '-') {
            cur.push(c);
        } else {
            let ghost closed = close_tag(
                if inside {
                    Some(cur@)
                } else {
                    None
                },
            );
            if inside {
                push_tag(&mut tags, &cur);
            } else {
                assert(before + Seq::<Seq<char>>::empty() =~= before);
            }
            assert(string_views(tags@) == before + closed);
            cur = Vec::new();
            inside = c == '#';
            proof {
                let next = scan_tags(
                    rest,
                    if inside {
                        Some(cur@)
                    } else {
                        None
                    },
                );
                assert(cur@ =~= Seq::<char>::empty());
                assert(before + (closed + next) =~= (before + closed) + next);
            }
        }
        i += 1;
    }
    let ghost before = string_views(tags@);
    if inside {
        push_tag(&mut tags, &cur);
    } else {
        assert(before + Seq::<Seq<char>>::empty() =~= before);
    }
    tags
}

/// A tag as a folder name, read from the left: underscores and hyphens are
/// spaces, and a run of whitespace is one space.
pub open spec fn spaced(s: Seq<char>, after_space: bool) -> Seq<char>
    decreases s.len(),
{
    if s.len() == 0 {
        Seq::empty()
    } else if s[0] == '_' || s[0] == '-' || is_whitespace(s[0]) {
        if after_space {
            spaced(s.skip(1), true)
        } else {
            seq![' '] + spaced(s.skip(1), true)
        }
    } else {
        seq![s[0]] + spaced(s.skip(1), false)
    }
}

/// The folder name that a tag stands for, if it leaves anything.
pub open spec fn tag_name(tag: Seq<char>) -> Option<Seq<char>> {
    let cleaned = trim(spaced(tag, false));
    if cleaned.len() == 0 {
        None
    } else {
        Some(cleaned)
    }
}

/// The folder name that a tag stands for.
pub fn normalize_tag_name(tag: &str) -> (r: Option<String>)
    ensures
        match r {
            Some(name) => tag_name(tag@) == Some(name@),
            None => tag_name(tag@) is None,
        },
{
    let text = chars_of(tag);
    let mut out: Vec<char> = Vec::new();
    let mut after_space = false;
    let mut i: usize = 0;
    assert(text@.skip(0) =~= text@);
    while i < text.len()
        invariant
            i <= text.len(),
            out@ + spaced(text@.skip(i as int), after_space) == spaced(text@, false),
        decreases text.len() - i,
    {
        let c = text[i];
        let ghost before = out@;
        let ghost rest = text@.skip(i + 1);
        assert(text@.skip(i as int).skip(1) =~= rest);
        if c == '_' || c == '-' || char_is_whitespace(c) {
            if !after_space {
                assert(before + (seq![' '] + spaced(rest, true)) =~= before.push(' ') + spaced(
                    rest,
                    true,
                ));
                out.push(' ');
                after_space = true;
            }
        } else {
            assert(before + (seq![c] + spaced(rest, false)) =~= before.push(c) + spaced(
                rest,
                false,
            ));
            out.push(c);
            after_space = false;
        }
        i += 1;
    }
    assert(out@ + Seq::<char>::empty() =~= out@);
    let cleaned = trim_chars(&out);
    if cleaned.len() == 0 {
        None
    } else {
        Some(string_of(&cleaned))
    }
}

} // verus!
