//! Laws of the metadata codec: what is encoded decodes to itself.

use crate::fsmeta::{
    dir_message, dir_words, escape, escape_char, field_of, file_caption, file_words, flush,
    join_words, lemma_first_eq, lookup, parse_dir_text, parse_file_text, recognized,
    scan_words, unescape, words, DirMetaView, FileMetaView, MetaFault,
};
use crate::tags::{no_equals, tagged_caption};
use crate::text::{contains_text, is_whitespace, occurs_at};
use vstd::prelude::*;

verus! {

/// No character of `s` is whitespace.
pub open spec fn no_whitespace(s: Seq<char>) -> bool {
    forall|i: int| 0 <= i < s.len() ==> !is_whitespace(#[trigger] s[i])
}

/// A name that survives escaping: its only whitespace is the plain space, it
/// holds no NUL, and no space stands directly before a space or an
/// underscore.
pub open spec fn valid_name(z: Seq<char>) -> bool {
    forall|i: int|
        0 <= i < z.len() ==> {
            &&& (is_whitespace(#[trigger] z[i]) ==> z[i] == ' ')
            &&& z[i] != '\0'
            &&& (z[i] == ' ' && i + 1 < z.len() ==> z[i + 1] != ' ' && z[i + 1] != '_')
        }
}

/// A directory record whose fields can be told apart again.
pub open spec fn valid_dir(m: DirMetaView) -> bool {
    no_whitespace(m.dir_id) && no_whitespace(m.parent_id) && valid_name(m.name)
}

/// A file record whose fields can be told apart again.
pub open spec fn valid_file(m: FileMetaView) -> bool {
    no_whitespace(m.dir_id) && no_whitespace(m.file_id) && valid_name(m.name) && no_whitespace(
        m.hash_short,
    )
}

proof fn lemma_valid_name_skip(z: Seq<char>)
    requires
        valid_name(z),
        z.len() > 0,
    ensures
        valid_name(z.skip(1)),
{
    let r = z.skip(1);
    assert forall|i: int| 0 <= i < r.len() implies {
        &&& (is_whitespace(#[trigger] r[i]) ==> r[i] == ' ')
        &&& r[i] != '\0'
        &&& (r[i] == ' ' && i + 1 < r.len() ==> r[i + 1] != ' ' && r[i + 1] != '_')
    } by {
        assert(r[i] == z[i + 1]);
        if i + 1 < r.len() {
            assert(r[i + 1] == z[i + 2]);
        }
    }
}

/// Unescaping undoes escaping on every valid name.
pub proof fn lemma_unescape_escape(z: Seq<char>)
    requires
        valid_name(z),
    ensures
        unescape(escape(z)) == z,
    decreases z.len(),
{
    if z.len() > 0 {
        let c = z[0];
        let rest = z.skip(1);
        let s = escape(z);
        lemma_valid_name_skip(z);
        lemma_unescape_escape(rest);
        assert(s == escape_char(c) + escape(rest));
        assert(z =~= seq![c] + rest);
        if c == '_' {
            assert(s.skip(2) =~= escape(rest));
        } else if c == ' ' {
            assert(s.skip(1) =~= escape(rest));
            if rest.len() > 0 {
                assert(rest[0] == z[1]);
                assert(escape(rest) == escape_char(rest[0]) + escape(rest.skip(1)));
                assert(s[1] == rest[0]);
            }
        } else {
            assert(s.skip(1) =~= escape(rest));
        }
    } else {
        assert(z =~= Seq::<char>::empty());
    }
}

proof fn lemma_escape_no_whitespace(z: Seq<char>)
    requires
        valid_name(z),
    ensures
        no_whitespace(escape(z)),
    decreases z.len(),
{
    if z.len() > 0 {
        lemma_valid_name_skip(z);
        lemma_escape_no_whitespace(z.skip(1));
        let head = escape_char(z[0]);
        let tail = escape(z.skip(1));
        assert(!is_whitespace('_'));
        assert forall|i: int| 0 <= i < (head + tail).len() implies !is_whitespace(
            #[trigger] (head + tail)[i],
        ) by {
            if i >= head.len() {
                assert((head + tail)[i] == tail[i - head.len()]);
            }
        }
    }
}

proof fn lemma_no_whitespace_concat(a: Seq<char>, b: Seq<char>)
    requires
        no_whitespace(a),
        no_whitespace(b),
    ensures
        no_whitespace(a + b),
{
    assert forall|i: int| 0 <= i < (a + b).len() implies !is_whitespace(#[trigger] (a + b)[i]) by {
        if i >= a.len() {
            assert((a + b)[i] == b[i - a.len()]);
        }
    }
}

proof fn lemma_scan_word(w: Seq<char>, rest: Seq<char>, cur: Seq<char>)
    requires
        no_whitespace(w),
    ensures
        scan_words(w + rest, cur) == scan_words(rest, cur + w),
    decreases w.len(),
{
    if w.len() == 0 {
        assert(w + rest =~= rest);
        assert(cur + w =~= cur);
    } else {
        let s = w + rest;
        assert(s[0] == w[0]);
        assert(!is_whitespace(w[0]));
        assert(s.skip(1) =~= w.skip(1) + rest);
        assert(no_whitespace(w.skip(1))) by {
            assert forall|i: int| 0 <= i < w.skip(1).len() implies !is_whitespace(
                #[trigger] w.skip(1)[i],
            ) by {
                assert(w.skip(1)[i] == w[i + 1]);
            }
        }
        lemma_scan_word(w.skip(1), rest, cur.push(w[0]));
        assert(cur.push(w[0]) + w.skip(1) =~= cur + w);
    }
}

/// Words joined by single spaces split into the same words again.
pub proof fn lemma_words_join(ws: Seq<Seq<char>>)
    requires
        forall|i: int| 0 <= i < ws.len() ==> (#[trigger] ws[i]).len() > 0 && no_whitespace(ws[i]),
    ensures
        words(join_words(ws)) == ws,
    decreases ws.len(),
{
    let none = Seq::<char>::empty();
    if ws.len() == 0 {
        assert(ws =~= Seq::<Seq<char>>::empty());
    } else if ws.len() == 1 {
        lemma_scan_word(ws[0], none, none);
        assert(ws[0] + none =~= ws[0]);
        assert(none + ws[0] =~= ws[0]);
        assert(ws =~= seq![ws[0]]);
    } else {
        let rest = ws.skip(1);
        let tail = seq![' '] + join_words(rest);
        assert(join_words(ws) =~= ws[0] + tail);
        lemma_scan_word(ws[0], tail, none);
        assert(none + ws[0] =~= ws[0]);
        assert(is_whitespace(tail[0]));
        assert(tail.skip(1) =~= join_words(rest));
        assert forall|i: int| 0 <= i < rest.len() implies (#[trigger] rest[i]).len() > 0
            && no_whitespace(rest[i]) by {
            assert(rest[i] == ws[i + 1]);
        }
        lemma_words_join(rest);
        assert(scan_words(tail, ws[0]) == flush(ws[0]) + scan_words(tail.skip(1), none));
        assert(seq![ws[0]] + rest =~= ws);
    }
}

/// Each of the joined words occurs in the joined text.
pub proof fn lemma_join_contains(ws: Seq<Seq<char>>, k: int)
    requires
        0 <= k < ws.len(),
    ensures
        contains_text(join_words(ws), ws[k]),
    decreases ws.len(),
{
    let j = join_words(ws);
    if ws.len() == 1 {
        assert(j.subrange(0, ws[0].len() as int) =~= ws[0]);
        assert(occurs_at(j, ws[0], 0));
    } else if k == 0 {
        assert(j.subrange(0, ws[0].len() as int) =~= ws[0]);
        assert(occurs_at(j, ws[0], 0));
    } else {
        let rest = ws.skip(1);
        lemma_join_contains(rest, k - 1);
        assert(rest[k - 1] == ws[k]);
        let i = choose|i: int| occurs_at(join_words(rest), ws[k], i);
        let off = ws[0].len() + 1 + i;
        assert(j =~= ws[0] + seq![' '] + join_words(rest));
        assert(j.subrange(off, off + ws[k].len()) =~= join_words(rest).subrange(
            i,
            i + ws[k].len(),
        ));
        assert(occurs_at(j, ws[k], off));
    }
}

proof fn lemma_lookup_push(ws: Seq<Seq<char>>, t: Seq<char>, key: Seq<char>)
    ensures
        lookup(ws.push(t), key) == match field_of(t, key) {
            Some(v) => Some(v),
            None => lookup(ws, key),
        },
{
    assert(ws.push(t).last() == t);
    assert(ws.push(t).drop_last() =~= ws);
}

/// A word without `=` gives no field.
proof fn lemma_field_plain(t: Seq<char>, key: Seq<char>)
    requires
        forall|i: int| 0 <= i < t.len() ==> t[i] != '=',
    ensures
        field_of(t, key) is None,
{
    lemma_first_eq(t, t.len() as int);
}

/// The word `name=value` gives `value` to `name` and nothing to other keys.
proof fn lemma_field_pair(name: Seq<char>, value: Seq<char>, key: Seq<char>)
    requires
        forall|i: int| 0 <= i < name.len() ==> name[i] != '=',
    ensures
        field_of(name + seq!['='] + value, key) == if key == name {
            Some(value)
        } else {
            None
        },
{
    let t = name + seq!['='] + value;
    lemma_first_eq(t, name.len() as int);
    assert(t.take(name.len() as int) =~= name);
    assert(t.skip(name.len() as int + 1) =~= value);
}

/// A directory record is read back from its message as it was written.
pub proof fn law_dir_round_trip(m: DirMetaView)
    requires
        valid_dir(m),
    ensures
        parse_dir_text(dir_message(m)) == Ok::<DirMetaView, MetaFault>(m),
{
    reveal_strlit("#ocltg");
    reveal_strlit("#v1");
    reveal_strlit("#dir");
    reveal_strlit("d=");
    reveal_strlit("p=");
    reveal_strlit("name=");
    reveal_strlit("d");
    reveal_strlit("p");
    reveal_strlit("name");
    let ws = dir_words(m);
    let text = dir_message(m);
    let esc = escape(m.name);
    lemma_escape_no_whitespace(m.name);
    lemma_unescape_escape(m.name);
    assert(no_whitespace("d="@)) by {
        assert forall|i: int| 0 <= i < "d="@.len() implies !is_whitespace(#[trigger] "d="@[i]) by {}
    }
    assert(no_whitespace("p="@)) by {
        assert forall|i: int| 0 <= i < "p="@.len() implies !is_whitespace(#[trigger] "p="@[i]) by {}
    }
    assert(no_whitespace("name="@)) by {
        assert forall|i: int| 0 <= i < "name="@.len() implies !is_whitespace(
            #[trigger] "name="@[i],
        ) by {}
    }
    lemma_no_whitespace_concat("d="@, m.dir_id);
    lemma_no_whitespace_concat("p="@, m.parent_id);
    lemma_no_whitespace_concat("name="@, esc);
    assert forall|i: int| 0 <= i < ws.len() implies (#[trigger] ws[i]).len() > 0 && no_whitespace(
        ws[i],
    ) by {
        assert(no_whitespace("#ocltg"@));
        assert(no_whitespace("#v1"@));
        assert(no_whitespace("#dir"@));
    }
    lemma_words_join(ws);
    lemma_join_contains(ws, 0);
    lemma_join_contains(ws, 1);
    lemma_join_contains(ws, 2);
    assert(recognized(text, "#dir"@));
    // the three fields
    let w0 = Seq::<Seq<char>>::empty().push(ws[0]);
    let w1 = w0.push(ws[1]);
    let w2 = w1.push(ws[2]);
    let w3 = w2.push(ws[3]);
    let w4 = w3.push(ws[4]);
    let w5 = w4.push(ws[5]);
    assert(w5 =~= ws);
    assert(ws[3] =~= "d"@ + seq!['='] + m.dir_id);
    assert(ws[4] =~= "p"@ + seq!['='] + m.parent_id);
    assert(ws[5] =~= "name"@ + seq!['='] + esc);
    assert("d"@ != "p"@ && "d"@ != "name"@ && "p"@ != "name"@) by {
        assert("d"@[0] != "p"@[0]);
        assert("d"@.len() != "name"@.len());
        assert("p"@.len() != "name"@.len());
    }
    assert forall|key: Seq<char>| #[trigger]
        lookup(ws, key) == if key == "name"@ {
            Some(esc)
        } else if key == "p"@ {
            Some(m.parent_id)
        } else if key == "d"@ {
            Some(m.dir_id)
        } else {
            None
        } by {
        lemma_field_plain(ws[0], key);
        lemma_field_plain(ws[1], key);
        lemma_field_plain(ws[2], key);
        lemma_field_pair("d"@, m.dir_id, key);
        lemma_field_pair("p"@, m.parent_id, key);
        lemma_field_pair("name"@, esc, key);
        lemma_lookup_push(Seq::empty(), ws[0], key);
        lemma_lookup_push(w0, ws[1], key);
        lemma_lookup_push(w1, ws[2], key);
        lemma_lookup_push(w2, ws[3], key);
        lemma_lookup_push(w3, ws[4], key);
        lemma_lookup_push(w4, ws[5], key);
    }
    assert(lookup(ws, "d"@) == Some(m.dir_id));
    assert(lookup(ws, "p"@) == Some(m.parent_id));
    assert(lookup(ws, "name"@) == Some(esc));
}

/// What makes a file record readable: its words are proper words, each
/// field is found under its key, and the markers are there.
proof fn lemma_file_words(m: FileMetaView)
    requires
        valid_file(m),
    ensures
        forall|i: int|
            0 <= i < file_words(m).len() ==> (#[trigger] file_words(m)[i]).len() > 0
                && no_whitespace(file_words(m)[i]),
        forall|key: Seq<char>| #[trigger]
            lookup(file_words(m), key) == if key == "h"@ {
                Some(m.hash_short)
            } else if key == "n"@ {
                Some(escape(m.name))
            } else if key == "f"@ {
                Some(m.file_id)
            } else if key == "d"@ {
                Some(m.dir_id)
            } else {
                None
            },
        "d"@ != "f"@ && "d"@ != "n"@ && "d"@ != "h"@ && "f"@ != "n"@ && "f"@ != "h"@ && "n"@
            != "h"@,
        recognized(file_caption(m), "#file"@),
        unescape(escape(m.name)) == m.name,
{
    reveal_strlit("#ocltg");
    reveal_strlit("#v1");
    reveal_strlit("#file");
    reveal_strlit("d=");
    reveal_strlit("f=");
    reveal_strlit("n=");
    reveal_strlit("h=");
    reveal_strlit("d");
    reveal_strlit("f");
    reveal_strlit("n");
    reveal_strlit("h");
    let ws = file_words(m);
    let text = file_caption(m);
    let esc = escape(m.name);
    lemma_escape_no_whitespace(m.name);
    lemma_unescape_escape(m.name);
    assert(no_whitespace("d="@)) by {
        assert forall|i: int| 0 <= i < "d="@.len() implies !is_whitespace(#[trigger] "d="@[i]) by {}
    }
    assert(no_whitespace("f="@)) by {
        assert forall|i: int| 0 <= i < "f="@.len() implies !is_whitespace(#[trigger] "f="@[i]) by {}
    }
    assert(no_whitespace("n="@)) by {
        assert forall|i: int| 0 <= i < "n="@.len() implies !is_whitespace(#[trigger] "n="@[i]) by {}
    }
    assert(no_whitespace("h="@)) by {
        assert forall|i: int| 0 <= i < "h="@.len() implies !is_whitespace(#[trigger] "h="@[i]) by {}
    }
    lemma_no_whitespace_concat("d="@, m.dir_id);
    lemma_no_whitespace_concat("f="@, m.file_id);
    lemma_no_whitespace_concat("n="@, esc);
    lemma_no_whitespace_concat("h="@, m.hash_short);
    assert forall|i: int| 0 <= i < ws.len() implies (#[trigger] ws[i]).len() > 0 && no_whitespace(
        ws[i],
    ) by {
        assert(no_whitespace("#ocltg"@));
        assert(no_whitespace("#v1"@));
        assert(no_whitespace("#file"@));
    }
    lemma_join_contains(ws, 0);
    lemma_join_contains(ws, 1);
    lemma_join_contains(ws, 2);
    assert(recognized(text, "#file"@));
    let w0 = Seq::<Seq<char>>::empty().push(ws[0]);
    let w1 = w0.push(ws[1]);
    let w2 = w1.push(ws[2]);
    let w3 = w2.push(ws[3]);
    let w4 = w3.push(ws[4]);
    let w5 = w4.push(ws[5]);
    let w6 = w5.push(ws[6]);
    assert(w6 =~= ws);
    assert(ws[3] =~= "d"@ + seq!['='] + m.dir_id);
    assert(ws[4] =~= "f"@ + seq!['='] + m.file_id);
    assert(ws[5] =~= "n"@ + seq!['='] + esc);
    assert(ws[6] =~= "h"@ + seq!['='] + m.hash_short);
    assert("d"@ != "f"@ && "d"@ != "n"@ && "d"@ != "h"@ && "f"@ != "n"@ && "f"@ != "h"@ && "n"@
        != "h"@) by {
        assert("d"@[0] == 'd' && "f"@[0] == 'f' && "n"@[0] == 'n' && "h"@[0] == 'h');
    }
    assert forall|key: Seq<char>| #[trigger]
        lookup(ws, key) == if key == "h"@ {
            Some(m.hash_short)
        } else if key == "n"@ {
            Some(esc)
        } else if key == "f"@ {
            Some(m.file_id)
        } else if key == "d"@ {
            Some(m.dir_id)
        } else {
            None
        } by {
        lemma_field_plain(ws[0], key);
        lemma_field_plain(ws[1], key);
        lemma_field_plain(ws[2], key);
        lemma_field_pair("d"@, m.dir_id, key);
        lemma_field_pair("f"@, m.file_id, key);
        lemma_field_pair("n"@, esc, key);
        lemma_field_pair("h"@, m.hash_short, key);
        lemma_lookup_push(Seq::empty(), ws[0], key);
        lemma_lookup_push(w0, ws[1], key);
        lemma_lookup_push(w1, ws[2], key);
        lemma_lookup_push(w2, ws[3], key);
        lemma_lookup_push(w3, ws[4], key);
        lemma_lookup_push(w4, ws[5], key);
        lemma_lookup_push(w5, ws[6], key);
    }
}

/// A file record is read back from its caption as it was written.
pub proof fn law_file_round_trip(m: FileMetaView)
    requires
        valid_file(m),
    ensures
        parse_file_text(file_caption(m)) == Ok::<FileMetaView, MetaFault>(m),
{
    let ws = file_words(m);
    lemma_file_words(m);
    lemma_words_join(ws);
    assert(lookup(ws, "d"@) == Some(m.dir_id));
    assert(lookup(ws, "f"@) == Some(m.file_id));
    assert(lookup(ws, "n"@) == Some(escape(m.name)));
    assert(lookup(ws, "h"@) == Some(m.hash_short));
}

proof fn lemma_words_append(ws: Seq<Seq<char>>, t: Seq<char>)
    requires
        ws.len() >= 1,
        forall|i: int| 0 <= i < ws.len() ==> (#[trigger] ws[i]).len() > 0 && no_whitespace(ws[i]),
    ensures
        words(join_words(ws) + seq![' '] + t) == ws + words(t),
    decreases ws.len(),
{
    let none = Seq::<char>::empty();
    if ws.len() == 1 {
        let tail = seq![' '] + t;
        assert(join_words(ws) + seq![' '] + t =~= ws[0] + tail);
        lemma_scan_word(ws[0], tail, none);
        assert(none + ws[0] =~= ws[0]);
        assert(is_whitespace(tail[0]));
        assert(tail.skip(1) =~= t);
        assert(scan_words(tail, ws[0]) == flush(ws[0]) + scan_words(tail.skip(1), none));
        assert(ws =~= seq![ws[0]]);
    } else {
        let rest = ws.skip(1);
        let inner = join_words(rest) + seq![' '] + t;
        let tail = seq![' '] + inner;
        assert(join_words(ws) + seq![' '] + t =~= ws[0] + tail);
        lemma_scan_word(ws[0], tail, none);
        assert(none + ws[0] =~= ws[0]);
        assert(is_whitespace(tail[0]));
        assert(tail.skip(1) =~= inner);
        assert forall|i: int| 0 <= i < rest.len() implies (#[trigger] rest[i]).len() > 0
            && no_whitespace(rest[i]) by {
            assert(rest[i] == ws[i + 1]);
        }
        lemma_words_append(rest, t);
        assert(scan_words(tail, ws[0]) == flush(ws[0]) + scan_words(tail.skip(1), none));
        assert(seq![ws[0]] + (rest + words(t)) =~= ws + words(t));
    }
}

/// The words of a text without `=` hold no `=`.
proof fn lemma_words_plain(s: Seq<char>, cur: Seq<char>)
    requires
        no_equals(s),
        no_equals(cur),
    ensures
        forall|i: int|
            0 <= i < scan_words(s, cur).len() ==> no_equals(#[trigger] scan_words(s, cur)[i]),
    decreases s.len(),
{
    if s.len() > 0 {
        let rest = s.skip(1);
        assert forall|i: int| 0 <= i < rest.len() implies #[trigger] rest[i] != '=' by {
            assert(rest[i] == s[i + 1]);
        }
        if is_whitespace(s[0]) {
            lemma_words_plain(rest, Seq::empty());
            let head = flush(cur);
            let tail = scan_words(rest, Seq::empty());
            assert forall|i: int| 0 <= i < (head + tail).len() implies no_equals(
                #[trigger] (head + tail)[i],
            ) by {
                if i >= head.len() {
                    assert((head + tail)[i] == tail[i - head.len()]);
                } else {
                    assert((head + tail)[i] == cur);
                }
            }
            assert(scan_words(s, cur) == head + tail);
        } else {
            let next = cur.push(s[0]);
            assert forall|i: int| 0 <= i < next.len() implies #[trigger] next[i] != '=' by {
                if i < cur.len() {
                    assert(next[i] == cur[i]);
                } else {
                    assert(next[i] == s[0]);
                }
            }
            lemma_words_plain(rest, next);
            assert(scan_words(s, cur) == scan_words(rest, next));
        }
    } else {
        assert(scan_words(s, cur) == flush(cur));
        assert forall|i: int| 0 <= i < flush(cur).len() implies no_equals(
            #[trigger] flush(cur)[i],
        ) by {
            assert(flush(cur)[i] == cur);
        }
    }
}

/// Words without `=` after the fields change no field.
proof fn lemma_lookup_extra(ws: Seq<Seq<char>>, extra: Seq<Seq<char>>, key: Seq<char>)
    requires
        forall|i: int| 0 <= i < extra.len() ==> no_equals(#[trigger] extra[i]),
    ensures
        lookup(ws + extra, key) == lookup(ws, key),
    decreases extra.len(),
{
    if extra.len() == 0 {
        assert(ws + extra =~= ws);
    } else {
        let front = extra.drop_last();
        assert forall|i: int| 0 <= i < front.len() implies no_equals(#[trigger] front[i]) by {
            assert(front[i] == extra[i]);
        }
        lemma_lookup_extra(ws, front, key);
        assert(ws + extra =~= (ws + front).push(extra.last()));
        lemma_lookup_push(ws + front, extra.last(), key);
        assert(no_equals(extra[extra.len() - 1]));
        lemma_field_plain(extra.last(), key);
    }
}

proof fn lemma_contains_extend(s: Seq<char>, more: Seq<char>, pat: Seq<char>)
    requires
        contains_text(s, pat),
    ensures
        contains_text(s + more, pat),
{
    let i = choose|i: int| occurs_at(s, pat, i);
    assert((s + more).subrange(i, i + pat.len()) =~= s.subrange(i, i + pat.len()));
    assert(occurs_at(s + more, pat, i));
}

/// A file record is read back as it was written also from a caption that
/// goes on, after a space, with words that hold no `=`: the hashtag of a
/// folder is such a word.
pub proof fn law_tagged_file_round_trip(m: FileMetaView, tag: Seq<char>)
    requires
        valid_file(m),
        no_equals(tag),
    ensures
        parse_file_text(tagged_caption(m, Some(tag))) == Ok::<FileMetaView, MetaFault>(m),
{
    let ws = file_words(m);
    let text = file_caption(m) + seq![' '] + tag;
    lemma_file_words(m);
    lemma_words_append(ws, tag);
    lemma_words_plain(tag, Seq::empty());
    let extra = words(tag);
    lemma_lookup_extra(ws, extra, "d"@);
    lemma_lookup_extra(ws, extra, "f"@);
    lemma_lookup_extra(ws, extra, "n"@);
    lemma_lookup_extra(ws, extra, "h"@);
    lemma_contains_extend(file_caption(m), seq![' '] + tag, "#ocltg"@);
    lemma_contains_extend(file_caption(m), seq![' '] + tag, "#v1"@);
    lemma_contains_extend(file_caption(m), seq![' '] + tag, "#file"@);
    assert(file_caption(m) + (seq![' '] + tag) =~= text);
    assert(lookup(ws, "d"@) == Some(m.dir_id));
    assert(lookup(ws, "f"@) == Some(m.file_id));
    assert(lookup(ws, "n"@) == Some(escape(m.name)));
    assert(lookup(ws, "h"@) == Some(m.hash_short));
}



} // verus!
