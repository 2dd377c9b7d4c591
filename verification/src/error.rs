//! What can go wrong in the engine, by kind and in words.

use crate::text::{append_str, append_u64, chars_of, contains_text, nat_text, occurs_at, string_of};
use vstd::prelude::*;

verus! {

/// The four kinds of failure: a request the user can correct, an id that the
/// index does not know, a transport call that failed, and the local store.
#[derive(Debug, Clone, Copy, PartialEq, Eq)]
pub enum ErrorKind {
    Validation,
    NotFound,
    Transport,
    Store,
}

/// The operations that the root directory refuses.
#[derive(Debug, Clone, Copy, PartialEq, Eq)]
pub enum DirOp {
    Rename,
    Move,
    Delete,
    Repair,
}

/// An error of the engine.
#[derive(Debug)]
pub enum CoreError {
    /// `ROOT` was named as the directory to change.
    RootDirectory(DirOp),
    EmptyDirName,
    MoveIntoSelf,
    MoveIntoDescendant,
    DirNotEmpty { files: usize, dirs: usize },
    /// The local source is no regular file.
    SourceNotFound,
    NotAChannel,
    LinkUnavailable,
    InvalidApiId,
    InvalidApiHash,
    /// The API id kept in the settings is no number.
    InvalidStoredApiId,
    DirNotFound,
    ParentNotFound,
    FileNotFound,
    /// A transport call failed; the text is the transport's own.
    Transport(String),
    /// Every step of a fallback chain failed; the text names each reason.
    Exhausted(String),
    /// The store refused a row.
    Store(String),
}

/// The error in words.
pub open spec fn error_text(e: CoreError) -> Seq<char> {
    match e {
        CoreError::RootDirectory(DirOp::Rename) => "Нельзя переименовать корневую папку"@,
        CoreError::RootDirectory(DirOp::Move) => "Нельзя перемещать корневую папку"@,
        CoreError::RootDirectory(DirOp::Delete) => "Нельзя удалить корневую папку"@,
        CoreError::RootDirectory(DirOp::Repair) => "Нельзя восстановить корневую папку"@,
        CoreError::EmptyDirName => "Имя папки не может быть пустым"@,
        CoreError::MoveIntoSelf => "Нельзя переместить папку внутрь самой себя"@,
        CoreError::MoveIntoDescendant => "Нельзя переместить папку в ее подпапку"@,
        CoreError::DirNotEmpty { files, dirs } => "Папка не пустая: файлов="@ + nat_text(
            files as nat,
        ) + ", подпапок="@ + nat_text(dirs as nat),
        CoreError::SourceNotFound => "Файл не найден"@,
        CoreError::NotAChannel => "Ссылка доступна только для сообщений каналов"@,
        CoreError::LinkUnavailable => "Не удалось определить ссылку для этого чата"@,
        CoreError::InvalidApiId => "Некорректный API_ID"@,
        CoreError::InvalidApiHash => "Некорректный API_HASH"@,
        CoreError::InvalidStoredApiId => "Некорректный tg_api_id"@,
        CoreError::DirNotFound => "Папка не найдена"@,
        CoreError::ParentNotFound => "Родительская папка не найдена"@,
        CoreError::FileNotFound => "Файл не найден"@,
        CoreError::Transport(text) => text@,
        CoreError::Exhausted(text) => text@,
        CoreError::Store(text) => text@,
    }
}

/// The kind that an error belongs to.
pub open spec fn error_kind(e: CoreError) -> ErrorKind {
    match e {
        CoreError::RootDirectory(_) => ErrorKind::Validation,
        CoreError::EmptyDirName => ErrorKind::Validation,
        CoreError::MoveIntoSelf => ErrorKind::Validation,
        CoreError::MoveIntoDescendant => ErrorKind::Validation,
        CoreError::DirNotEmpty { .. } => ErrorKind::Validation,
        CoreError::SourceNotFound => ErrorKind::Validation,
        CoreError::NotAChannel => ErrorKind::Validation,
        CoreError::LinkUnavailable => ErrorKind::Validation,
        CoreError::InvalidApiId => ErrorKind::Validation,
        CoreError::InvalidApiHash => ErrorKind::Validation,
        CoreError::InvalidStoredApiId => ErrorKind::Store,
        CoreError::DirNotFound => ErrorKind::NotFound,
        CoreError::ParentNotFound => ErrorKind::NotFound,
        CoreError::FileNotFound => ErrorKind::NotFound,
        CoreError::Transport(_) => ErrorKind::Transport,
        CoreError::Exhausted(_) => ErrorKind::Transport,
        CoreError::Store(_) => ErrorKind::Store,
    }
}

impl CoreError {
    /// The kind of the error.
    pub fn kind(&self) -> (r: ErrorKind)
        ensures
            r == error_kind(*self),
    {
        match self {
            CoreError::RootDirectory(_) => ErrorKind::Validation,
            CoreError::EmptyDirName => ErrorKind::Validation,
            CoreError::MoveIntoSelf => ErrorKind::Validation,
            CoreError::MoveIntoDescendant => ErrorKind::Validation,
            CoreError::DirNotEmpty { .. } => ErrorKind::Validation,
            CoreError::SourceNotFound => ErrorKind::Validation,
            CoreError::NotAChannel => ErrorKind::Validation,
            CoreError::LinkUnavailable => ErrorKind::Validation,
            CoreError::InvalidApiId => ErrorKind::Validation,
            CoreError::InvalidApiHash => ErrorKind::Validation,
            CoreError::InvalidStoredApiId => ErrorKind::Store,
            CoreError::DirNotFound => ErrorKind::NotFound,
            CoreError::ParentNotFound => ErrorKind::NotFound,
            CoreError::FileNotFound => ErrorKind::NotFound,
            CoreError::Transport(_) => ErrorKind::Transport,
            CoreError::Exhausted(_) => ErrorKind::Transport,
            CoreError::Store(_) => ErrorKind::Store,
        }
    }

    /// The error in words.
    pub fn message(&self) -> (r: String)
        ensures
            r@ == error_text(*self),
    {
        match self {
            CoreError::RootDirectory(DirOp::Rename) => String::from_str(
                "Нельзя переименовать корневую папку",
            ),
            CoreError::RootDirectory(DirOp::Move) => String::from_str(
                "Нельзя перемещать корневую папку",
            ),
            CoreError::RootDirectory(DirOp::Delete) => String::from_str(
                "Нельзя удалить корневую папку",
            ),
            CoreError::RootDirectory(DirOp::Repair) => String::from_str(
                "Нельзя восстановить корневую папку",
            ),
            CoreError::EmptyDirName => String::from_str("Имя папки не может быть пустым"),
            CoreError::MoveIntoSelf => String::from_str(
                "Нельзя переместить папку внутрь самой себя",
            ),
            CoreError::MoveIntoDescendant => String::from_str(
                "Нельзя переместить папку в ее подпапку",
            ),
            CoreError::DirNotEmpty { files, dirs } => {
                let mut out = chars_of("Папка не пустая: файлов=");
                append_u64(&mut out, *files as u64);
                append_str(&mut out, ", подпапок=");
                append_u64(&mut out, *dirs as u64);
                string_of(&out)
            },
            CoreError::SourceNotFound => String::from_str("Файл не найден"),
            CoreError::NotAChannel => String::from_str(
                "Ссылка доступна только для сообщений каналов",
            ),
            CoreError::LinkUnavailable => String::from_str(
                "Не удалось определить ссылку для этого чата",
            ),
            CoreError::InvalidApiId => String::from_str("Некорректный API_ID"),
            CoreError::InvalidApiHash => String::from_str("Некорректный API_HASH"),
            CoreError::InvalidStoredApiId => String::from_str("Некорректный tg_api_id"),
            CoreError::DirNotFound => String::from_str("Папка не найдена"),
            CoreError::ParentNotFound => String::from_str("Родительская папка не найдена"),
            CoreError::FileNotFound => String::from_str("Файл не найден"),
            CoreError::Transport(text) => text.clone(),
            CoreError::Exhausted(text) => text.clone(),
            CoreError::Store(text) => text.clone(),
        }
    }
}

/// The reasons, each after a space and closed by a full stop.
pub open spec fn reasons_text(reasons: Seq<Seq<char>>) -> Seq<char>
    decreases reasons.len(),
{
    if reasons.len() == 0 {
        Seq::empty()
    } else {
        reasons_text(reasons.drop_last()) + seq![' '] + reasons.last() + seq!['.']
    }
}

/// The text of a chain that ran out of steps: what failed last, the reason
/// of every step that was tried, and a closing hint.
pub open spec fn failure_text(headline: Seq<char>, reasons: Seq<Seq<char>>, hint: Seq<char>) -> Seq<
    char,
> {
    headline + reasons_text(reasons) + hint
}

/// The texts that a vector of strings holds.
pub open spec fn texts(v: Seq<String>) -> Seq<Seq<char>> {
    Seq::new(v.len(), |i: int| v[i]@)
}

/// Builds the error of a fallback chain of which every step failed.
pub fn chain_failure(headline: &str, reasons: &Vec<String>, hint: &str) -> (r: CoreError)
    ensures
        r matches CoreError::Exhausted(text) && text@ == failure_text(
            headline@,
            texts(reasons@),
            hint@,
        ),
{
    let mut out = chars_of(headline);
    let mut i: usize = 0;
    assert(texts(reasons@).take(0) =~= Seq::empty());
    while i < reasons.len()
        invariant
            i <= reasons.len(),
            out@ == headline@ + reasons_text(texts(reasons@).take(i as int)),
        decreases reasons.len() - i,
    {
        proof {
            let part = texts(reasons@).take(i + 1);
            assert(part.drop_last() =~= texts(reasons@).take(i as int));
            assert(part.last() == reasons@[i as int]@);
        }
        let ghost before = out@;
        out.push(' ');
        append_str(&mut out, reasons[i].as_str());
        out.push('.');
        assert(out@ =~= headline@ + (reasons_text(texts(reasons@).take(i as int)) + seq![' ']
            + reasons@[i as int]@ + seq!['.']));
        i += 1;
    }
    assert(texts(reasons@).take(i as int) =~= texts(reasons@));
    append_str(&mut out, hint);
    CoreError::Exhausted(string_of(&out))
}

proof fn lemma_contains_middle(a: Seq<char>, b: Seq<char>, c: Seq<char>)
    ensures
        contains_text(a + b + c, b),
{
    let s = a + b + c;
    assert(s.subrange(a.len() as int, a.len() as int + b.len()) =~= b);
    assert(occurs_at(s, b, a.len() as int));
}

proof fn lemma_contains_widen(a: Seq<char>, s: Seq<char>, c: Seq<char>, pat: Seq<char>)
    requires
        contains_text(s, pat),
    ensures
        contains_text(a + s + c, pat),
{
    let i = choose|i: int| occurs_at(s, pat, i);
    let t = a + s + c;
    assert(t.subrange(a.len() + i, a.len() + i + pat.len()) =~= s.subrange(i, i + pat.len()));
    assert(occurs_at(t, pat, a.len() + i));
}

proof fn lemma_reasons_text_names(reasons: Seq<Seq<char>>, k: int)
    requires
        0 <= k < reasons.len(),
    ensures
        contains_text(reasons_text(reasons), reasons[k]),
    decreases reasons.len(),
{
    let front = reasons_text(reasons.drop_last());
    let none = Seq::<char>::empty();
    if k == reasons.len() - 1 {
        lemma_contains_middle(front + seq![' '], reasons.last(), seq!['.']);
        assert(front + seq![' '] + reasons.last() + seq!['.'] =~= (front + seq![' '])
            + reasons.last() + seq!['.']);
    } else {
        lemma_reasons_text_names(reasons.drop_last(), k);
        lemma_contains_widen(none, front, seq![' '] + reasons.last() + seq!['.'], reasons[k]);
        assert(none + front + (seq![' '] + reasons.last() + seq!['.']) =~= reasons_text(reasons));
    }
}

/// The text of an exhausted chain contains the reason of every step that
/// was tried.
pub proof fn law_failure_text_names_every_reason(
    headline: Seq<char>,
    reasons: Seq<Seq<char>>,
    hint: Seq<char>,
    k: int,
)
    requires
        0 <= k < reasons.len(),
    ensures
        contains_text(failure_text(headline, reasons, hint), reasons[k]),
{
    lemma_reasons_text_names(reasons, k);
    lemma_contains_widen(headline, reasons_text(reasons), hint, reasons[k]);
}

} // verus!
