//! What the commands of the user interface answer: plain records, and the
//! words that go with an outcome.

use crate::files::RepairFileResult;
use crate::reconcile::ReconcileOutcome;
use crate::secrets::{source_name, CredentialsStatus};
use crate::state::{auth_state_name, auth_state_to_str, AuthState};
use crate::text::{append_str, append_u64, chars_of, nat_text, string_of};
use vstd::prelude::*;

verus! {

/// The code of an error that asks for a full read before a reconciliation.
pub const RECONCILE_SYNC_REQUIRED: &'static str = "RECONCILE_SYNC_REQUIRED";

/// The code of a repair that needs a local copy of the file.
pub const REPAIR_NEED_FILE: &'static str = "REPAIR_NEED_FILE";

/// The stage of signing in, by name.
#[derive(Debug)]
pub struct AuthStatus {
    pub state: String,
}

/// The progress of a read of the storage channel.
#[derive(Debug)]
pub struct TgSyncStatus {
    pub state: String,
    pub message: String,
    pub processed: i64,
    pub total: Option<i64>,
}

/// What is shown of the credentials: where they come from, never what they are.
#[derive(Debug)]
pub struct TgCredentialsView {
    pub available: bool,
    pub source: Option<String>,
    pub keychain_available: bool,
    pub encrypted_present: bool,
    pub locked: bool,
}

/// The settings of the connection as they are shown.
#[derive(Debug)]
pub struct TgSettingsView {
    pub tdlib_path: Option<String>,
    pub credentials: TgCredentialsView,
}

/// What saving the settings came to.
#[derive(Debug)]
pub struct TgSettingsSaveResult {
    pub storage: Option<String>,
    pub message: String,
}

/// A chat that a file may be shared to.
#[derive(Debug)]
pub struct ChatView {
    pub id: i64,
    pub title: String,
    pub kind: String,
    pub username: Option<String>,
}

/// What sharing a file came to.
#[derive(Debug)]
pub struct ShareResult {
    pub message: String,
}

/// The sum of a reconciliation, with directories and files counted together.
#[derive(Debug)]
pub struct TgReconcileResult {
    pub message: String,
    pub scanned: usize,
    pub marked: usize,
    pub cleared: usize,
    pub imported: usize,
}

/// What a backup came to.
#[derive(Debug)]
pub struct BackupResult {
    pub message: String,
}

/// What a repair came to; `code` names an outcome that asks something of the user.
#[derive(Debug)]
pub struct RepairResult {
    pub ok: bool,
    pub message: String,
    pub code: Option<String>,
}

/// The settings of the connection as they are entered.
#[derive(Debug)]
pub struct TgSettingsInput {
    pub api_id: Option<i32>,
    pub api_hash: Option<String>,
    pub remember: Option<bool>,
    pub storage_mode: Option<String>,
    pub password: Option<String>,
    pub tdlib_path: Option<String>,
}

/// The filters of a search as they are entered.
#[derive(Debug)]
pub struct FileSearchInput {
    pub dir_id: Option<String>,
    pub name: Option<String>,
    pub file_type: Option<String>,
    pub limit: Option<i64>,
}

/// Whether a download may overwrite the cached copy: only when asked to.
pub fn resolve_download_overwrite(overwrite: Option<bool>) -> (r: bool)
    ensures
        r == (overwrite == Some(true)),
{
    match overwrite {
        Some(v) => v,
        None => false,
    }
}

/// The stage of signing in, as the user interface is told it.
pub fn auth_status(state: AuthState) -> (r: AuthStatus)
    ensures
        r.state@ == auth_state_name(state),
{
    AuthStatus { state: String::from_str(auth_state_to_str(&state)) }
}

/// What the user interface is told of the credentials.
pub fn credentials_view(status: &CredentialsStatus) -> (r: TgCredentialsView)
    ensures
        r.available == status.available,
        r.keychain_available == status.keychain_available,
        r.encrypted_present == status.encrypted_present,
        r.locked == status.locked,
        match status.source {
            Some(s) => r.source is Some && r.source->0@ == source_name(s),
            None => r.source is None,
        },
{
    TgCredentialsView {
        available: status.available,
        source: match status.source {
            Some(s) => Some(String::from_str(s.as_str())),
            None => None,
        },
        keychain_available: status.keychain_available,
        encrypted_present: status.encrypted_present,
        locked: status.locked,
    }
}

/// What the user is told of the repair of a file. A repair that needs a
/// local copy is no error: it is answered with a code of its own.
pub fn file_repair_result(outcome: RepairFileResult) -> (r: RepairResult)
    ensures
        r.ok == (outcome == RepairFileResult::Repaired),
        match outcome {
            RepairFileResult::Repaired => r.code is None && r.message@ == "Файл восстановлен."@,
            RepairFileResult::NeedFile => r.code is Some && r.code->0@ == REPAIR_NEED_FILE@
                && r.message@
                == "Не удалось восстановить файл: нужно выбрать файл для переотправки."@,
        },
{
    match outcome {
        RepairFileResult::Repaired => RepairResult {
            ok: true,
            message: String::from_str("Файл восстановлен."),
            code: None,
        },
        RepairFileResult::NeedFile => RepairResult {
            ok: false,
            message: String::from_str(
                "Не удалось восстановить файл: нужно выбрать файл для переотправки.",
            ),
            code: Some(String::from_str(REPAIR_NEED_FILE)),
        },
    }
}

/// What the user is told when a file was forwarded to a chat.
pub fn share_result() -> (r: ShareResult)
    ensures
        r.message@ == "Сообщение переслано."@,
{
    ShareResult { message: String::from_str("Сообщение переслано.") }
}

/// What the user is told of the repair of a directory.
pub fn dir_repair_result() -> (r: RepairResult)
    ensures
        r.ok,
        r.code is None,
        r.message@ == "Папка восстановлена."@,
{
    RepairResult { ok: true, message: String::from_str("Папка восстановлена."), code: None }
}

/// The sum of two counts, held at the greatest count.
pub open spec fn capped_sum(a: usize, b: usize) -> usize {
    if a + b > usize::MAX {
        usize::MAX
    } else {
        (a + b) as usize
    }
}

/// The sentence that sums up a reconciliation.
pub open spec fn reconcile_message(scanned: nat, marked: nat, cleared: nat, imported: nat) -> Seq<
    char,
> {
    "Готово: просмотрено "@ + nat_text(scanned) + ", битых отмечено "@ + nat_text(marked)
        + ", восстановлено "@ + nat_text(cleared) + ", импортировано "@ + nat_text(imported) + "."@
}

/// What the user is told of a reconciliation: directories and files are
/// counted together.
pub fn reconcile_result(outcome: &ReconcileOutcome) -> (r: TgReconcileResult)
    ensures
        r.scanned == outcome.scanned,
        r.imported == outcome.imported,
        r.marked == capped_sum(outcome.marked_dirs, outcome.marked_files),
        r.cleared == capped_sum(outcome.cleared_dirs, outcome.cleared_files),
        r.message@ == reconcile_message(
            r.scanned as nat,
            r.marked as nat,
            r.cleared as nat,
            r.imported as nat,
        ),
{
    let marked = outcome.marked_dirs.saturating_add(outcome.marked_files);
    let cleared = outcome.cleared_dirs.saturating_add(outcome.cleared_files);
    let mut out = chars_of("Готово: просмотрено ");
    append_u64(&mut out, outcome.scanned as u64);
    append_str(&mut out, ", битых отмечено ");
    append_u64(&mut out, marked as u64);
    append_str(&mut out, ", восстановлено ");
    append_u64(&mut out, cleared as u64);
    append_str(&mut out, ", импортировано ");
    append_u64(&mut out, outcome.imported as u64);
    append_str(&mut out, ".");
    TgReconcileResult {
        message: string_of(&out),
        scanned: outcome.scanned,
        marked,
        cleared,
        imported: outcome.imported,
    }
}

/// Whether anything changed that the tree on screen shows.
pub fn reconcile_changed_tree(outcome: &ReconcileOutcome) -> (r: bool)
    ensures
        r == (outcome.scanned > 0 && (outcome.marked_dirs > 0 || outcome.marked_files > 0
            || outcome.cleared_dirs > 0 || outcome.cleared_files > 0 || outcome.imported > 0)),
{
    outcome.scanned > 0 && (outcome.marked_dirs > 0 || outcome.marked_files > 0
        || outcome.cleared_dirs > 0 || outcome.cleared_files > 0 || outcome.imported > 0)
}

} // verus!
