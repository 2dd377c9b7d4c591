use cloudtg::backup::build_backup_caption;
use cloudtg::commands::{
    auth_status, credentials_view, dir_repair_result, file_repair_result, reconcile_changed_tree,
    reconcile_result, resolve_download_overwrite,
};
use cloudtg::digest::{hash_short_from_seed, hash_short_of_bytes};
use cloudtg::error::{chain_failure, CoreError, DirOp, ErrorKind};
use cloudtg::files::{build_message_link, first_copied_id, reason, RepairFileResult};
use cloudtg::ids::new_id;
use cloudtg::reconcile::ReconcileOutcome;
use cloudtg::secrets::{
    env_credentials, normalize_credentials, resolve_credentials, CredentialsSource,
    CredentialsStatus, KeychainAnswer, TgCredentials,
};
use cloudtg::settings::{
    get_tg_settings, get_tg_settings_view, parse_stored_api_id, tdlib_path_to_keep, TgSettings,
};
use cloudtg::state::{auth_state_to_str, AuthState};
use cloudtg::sync::{advance_watermark, get_sync, read_watermark, set_sync, SyncState};
use cloudtg::telegram::TgError;
use cloudtg::text::{
    chars_contain_str, chars_eq_ignore_ascii_case, chars_of, i64_chars, parse_i64_chars,
    str_is_blank, string_of, trim_chars,
};

fn chars(s: &str) -> Vec<char> {
    s.chars().collect()
}

#[test]
fn resolve_download_overwrite_uses_false_by_default() {
    assert!(!resolve_download_overwrite(None));
    assert!(!resolve_download_overwrite(Some(false)));
    assert!(resolve_download_overwrite(Some(true)));
}

#[test]
fn strings_and_chars_convert_both_ways() {
    assert_eq!(chars_of("aé𝄞"), vec!['a', 'é', '𝄞']);
    assert_eq!(string_of(&vec!['a', 'é', '𝄞']), "aé𝄞");
    assert_eq!(string_of(&chars_of("")), "");
}

#[test]
fn trimming_knows_unicode_whitespace() {
    assert_eq!(string_of(&trim_chars(&chars(" \t\u{a0}a b\u{3000}\n"))), "a b");
    assert!(str_is_blank(" \u{2028}\u{205f} "));
    assert!(str_is_blank(""));
    assert!(!str_is_blank(" \u{200b} "));
}

#[test]
fn substring_search_finds_what_is_there() {
    assert!(chars_contain_str(&chars("say #ocltg now"), "#ocltg"));
    assert!(chars_contain_str(&chars("abc"), ""));
    assert!(chars_contain_str(&chars("abc"), "abc"));
    assert!(!chars_contain_str(&chars("abc"), "abcd"));
    assert!(!chars_contain_str(&chars("#oclt g"), "#ocltg"));
}

#[test]
fn ascii_case_is_ignored_and_no_other() {
    assert!(chars_eq_ignore_ascii_case(&chars("Docs"), &chars("dOCS")));
    assert!(!chars_eq_ignore_ascii_case(&chars("Фото"), &chars("фото")));
    assert!(!chars_eq_ignore_ascii_case(&chars("a"), &chars("ab")));
}

#[test]
fn integers_are_written_in_decimal() {
    assert_eq!(string_of(&i64_chars(0)), "0");
    assert_eq!(string_of(&i64_chars(7)), "7");
    assert_eq!(string_of(&i64_chars(1234567890)), "1234567890");
    assert_eq!(string_of(&i64_chars(-42)), "-42");
    assert_eq!(string_of(&i64_chars(i64::MAX)), "9223372036854775807");
    assert_eq!(string_of(&i64_chars(i64::MIN)), "-9223372036854775808");
}

#[test]
fn integers_are_read_from_decimal() {
    assert_eq!(parse_i64_chars(&chars("0")), Some(0));
    assert_eq!(parse_i64_chars(&chars("+15")), Some(15));
    assert_eq!(parse_i64_chars(&chars("-15")), Some(-15));
    assert_eq!(parse_i64_chars(&chars("0007")), Some(7));
    assert_eq!(parse_i64_chars(&chars("9223372036854775807")), Some(i64::MAX));
    assert_eq!(parse_i64_chars(&chars("-9223372036854775808")), Some(i64::MIN));
    assert_eq!(parse_i64_chars(&chars("9223372036854775808")), None);
    assert_eq!(parse_i64_chars(&chars("-9223372036854775809")), None);
    assert_eq!(parse_i64_chars(&chars("99999999999999999999999")), None);
    assert_eq!(parse_i64_chars(&chars("")), None);
    assert_eq!(parse_i64_chars(&chars("-")), None);
    assert_eq!(parse_i64_chars(&chars("+")), None);
    assert_eq!(parse_i64_chars(&chars("12a")), None);
    assert_eq!(parse_i64_chars(&chars(" 12")), None);
    assert_eq!(parse_i64_chars(&chars("١٢")), None);
}

#[test]
fn fingerprint_is_the_head_of_the_sha256_digest() {
    assert_eq!(hash_short_of_bytes(b"abc"), "ba7816bf");
    assert_eq!(hash_short_of_bytes(b""), "e3b0c442");
    assert_eq!(hash_short_from_seed("abc"), "ba7816bf");
    assert_eq!(hash_short_from_seed("hello"), "2cf24dba");
    assert_ne!(hash_short_from_seed("hello"), hash_short_from_seed("hellp"));
}

#[test]
fn new_ids_are_ulids() {
    let a = new_id();
    let b = new_id();
    assert_eq!(a.len(), 26);
    assert!(a.chars().all(|c| "0123456789ABCDEFGHJKMNPQRSTVWXYZ".contains(c)));
    assert_ne!(a, b);
}

#[test]
fn message_links_are_for_channels_only() {
    assert_eq!(build_message_link(-1001234567890, 42).unwrap(), "https://t.me/c/1234567890/42");
    assert_eq!(build_message_link(-1000000000001, -7).unwrap(), "https://t.me/c/1/-7");
    assert!(matches!(build_message_link(0, 1), Err(CoreError::NotAChannel)));
    assert!(matches!(build_message_link(777, 1), Err(CoreError::NotAChannel)));
    assert!(matches!(build_message_link(-1000000000000, 1), Err(CoreError::LinkUnavailable)));
    assert!(matches!(build_message_link(-5, 1), Err(CoreError::LinkUnavailable)));
    assert!(build_message_link(i64::MIN, 1).is_ok());
}

#[test]
fn errors_have_a_kind_and_words() {
    assert_eq!(CoreError::EmptyDirName.kind(), ErrorKind::Validation);
    assert_eq!(CoreError::MoveIntoSelf.kind(), ErrorKind::Validation);
    assert_eq!(CoreError::MoveIntoDescendant.kind(), ErrorKind::Validation);
    assert_eq!(CoreError::RootDirectory(DirOp::Delete).kind(), ErrorKind::Validation);
    assert_eq!(CoreError::DirNotEmpty { files: 1, dirs: 0 }.kind(), ErrorKind::Validation);
    assert_eq!(CoreError::DirNotFound.kind(), ErrorKind::NotFound);
    assert_eq!(CoreError::ParentNotFound.kind(), ErrorKind::NotFound);
    assert_eq!(CoreError::FileNotFound.kind(), ErrorKind::NotFound);
    assert_eq!(CoreError::Transport("x".to_string()).kind(), ErrorKind::Transport);
    assert_eq!(CoreError::Exhausted("x".to_string()).kind(), ErrorKind::Transport);
    assert_eq!(CoreError::Store("x".to_string()).kind(), ErrorKind::Store);
    assert_eq!(CoreError::DirNotEmpty { files: 12, dirs: 3 }.message(), "Папка не пустая: файлов=12, подпапок=3");
    assert_eq!(CoreError::DirNotFound.message(), "Папка не найдена");
    assert_eq!(CoreError::FileNotFound.message(), "Файл не найден");
    assert_eq!(CoreError::EmptyDirName.message(), "Имя папки не может быть пустым");
    assert_eq!(CoreError::RootDirectory(DirOp::Rename).message(), "Нельзя переименовать корневую папку");
    assert_eq!(CoreError::Transport("boom".to_string()).message(), "boom");
}

#[test]
fn transport_errors_have_words() {
    assert_eq!(TgError::NotImplemented.message(), "не реализовано");
    assert_eq!(TgError::AuthRequired.message(), "требуется авторизация");
    assert_eq!(TgError::Io("disk".to_string()).message(), "ошибка ввода-вывода: disk");
    assert_eq!(TgError::Other("late".to_string()).message(), "late");
    assert_eq!(reason("Ошибка переотправки: ", &TgError::Other("late".to_string())), "Ошибка переотправки: late");
}

#[test]
fn chain_failure_names_every_reason() {
    let reasons = vec!["first: a".to_string(), "second: b".to_string()];
    let e = chain_failure("All failed.", &reasons, " Try later.");
    assert!(matches!(e, CoreError::Exhausted(_)));
    assert_eq!(e.message(), "All failed. first: a. second: b. Try later.");
    assert_eq!(chain_failure("Nothing.", &Vec::new(), "").message(), "Nothing.");
}

#[test]
fn the_first_copy_counts() {
    assert_eq!(first_copied_id(&vec![Some(5), Some(6)]), Some(5));
    assert_eq!(first_copied_id(&vec![None, Some(6)]), None);
    assert_eq!(first_copied_id(&Vec::new()), None);
}

#[test]
fn sync_state_keeps_the_last_value_of_a_key() {
    let mut s = SyncState::new();
    assert_eq!(get_sync(&s, "a"), None);
    set_sync(&mut s, "a", "1");
    set_sync(&mut s, "b", "2");
    set_sync(&mut s, "a", "3");
    assert_eq!(get_sync(&s, "a"), Some("3".to_string()));
    assert_eq!(get_sync(&s, "b"), Some("2".to_string()));
    assert_eq!(s.entries.len(), 2);
}

#[test]
fn the_watermark_only_moves_forward() {
    let mut s = SyncState::new();
    assert_eq!(read_watermark(&s), 0);
    advance_watermark(&mut s, 40);
    assert_eq!(read_watermark(&s), 40);
    assert_eq!(get_sync(&s, "storage_last_message_id"), Some("40".to_string()));
    advance_watermark(&mut s, 30);
    assert_eq!(read_watermark(&s), 40);
    advance_watermark(&mut s, 0);
    advance_watermark(&mut s, -5);
    assert_eq!(read_watermark(&s), 40);
    advance_watermark(&mut s, 41);
    assert_eq!(read_watermark(&s), 41);
    set_sync(&mut s, "storage_last_message_id", "junk");
    assert_eq!(read_watermark(&s), 0);
}

#[test]
fn credentials_are_checked_and_trimmed() {
    let c = normalize_credentials(5, "  abc  ".to_string()).unwrap();
    assert_eq!(c.api_id, 5);
    assert_eq!(c.api_hash, "abc");
    assert!(matches!(normalize_credentials(0, "abc".to_string()), Err(CoreError::InvalidApiId)));
    assert!(matches!(normalize_credentials(-1, "".to_string()), Err(CoreError::InvalidApiId)));
    assert!(matches!(normalize_credentials(1, "   ".to_string()), Err(CoreError::InvalidApiHash)));
    assert_eq!(CoreError::InvalidApiId.message(), "Некорректный API_ID");
    assert_eq!(CoreError::InvalidApiHash.message(), "Некорректный API_HASH");
}

#[test]
fn environment_credentials_need_both_parts() {
    let c = env_credentials(Some("12"), Some(" h ")).unwrap();
    assert_eq!((c.api_id, c.api_hash.as_str()), (12, "h"));
    assert!(env_credentials(Some("0"), Some("h")).is_none());
    assert!(env_credentials(Some("2147483648"), Some("h")).is_none());
    assert!(env_credentials(Some("x"), Some("h")).is_none());
    assert!(env_credentials(None, Some("h")).is_none());
    assert!(env_credentials(Some("12"), None).is_none());
    assert!(env_credentials(Some("12"), Some("  ")).is_none());
}

#[test]
fn the_first_source_of_credentials_wins() {
    let rt = TgCredentials { api_id: 1, api_hash: "r".to_string() };
    let kc = TgCredentials { api_id: 2, api_hash: "k".to_string() };
    let env = TgCredentials { api_id: 3, api_hash: "e".to_string() };
    let (c, s) = resolve_credentials(Some(&rt), KeychainAnswer::Found(kc.clone()), Some(env.clone()), true);
    assert_eq!(c.unwrap().api_id, 1);
    assert_eq!(s, CredentialsStatus { available: true, source: Some(CredentialsSource::Runtime), keychain_available: true, encrypted_present: true, locked: false });
    let (c, s) = resolve_credentials(None, KeychainAnswer::Found(kc.clone()), Some(env.clone()), false);
    assert_eq!(c.unwrap().api_id, 2);
    assert_eq!(s.source, Some(CredentialsSource::Keychain));
    let (c, s) = resolve_credentials(None, KeychainAnswer::Unavailable, Some(env.clone()), true);
    assert_eq!(c.unwrap().api_id, 3);
    assert_eq!(s, CredentialsStatus { available: true, source: Some(CredentialsSource::Env), keychain_available: false, encrypted_present: true, locked: false });
    let (c, s) = resolve_credentials(None, KeychainAnswer::Empty, None, true);
    assert!(c.is_none());
    assert_eq!(s, CredentialsStatus { available: false, source: None, keychain_available: true, encrypted_present: true, locked: true });
    let (_, s) = resolve_credentials(None, KeychainAnswer::Empty, None, false);
    assert!(!s.locked);
}

#[test]
fn sources_and_stages_have_names() {
    assert_eq!(CredentialsSource::Runtime.as_str(), "runtime");
    assert_eq!(CredentialsSource::Keychain.as_str(), "keychain");
    assert_eq!(CredentialsSource::EncryptedFile.as_str(), "encrypted");
    assert_eq!(CredentialsSource::Env.as_str(), "env");
    assert_eq!(auth_state_to_str(&AuthState::WaitPassword), "wait_password");
    assert_eq!(auth_status(AuthState::Ready).state, "ready");
    assert_eq!(auth_status(AuthState::Unknown).state, "unknown");
}

#[test]
fn views_for_the_user_interface() {
    let status = CredentialsStatus { available: true, source: Some(CredentialsSource::EncryptedFile), keychain_available: false, encrypted_present: true, locked: false };
    let view = credentials_view(&status);
    assert_eq!(view.source, Some("encrypted".to_string()));
    assert!(view.available && !view.keychain_available && view.encrypted_present && !view.locked);
    let ok = file_repair_result(RepairFileResult::Repaired);
    assert!(ok.ok);
    assert_eq!(ok.code, None);
    let need = file_repair_result(RepairFileResult::NeedFile);
    assert!(!need.ok);
    assert_eq!(need.code, Some("REPAIR_NEED_FILE".to_string()));
    assert_eq!(dir_repair_result().message, "Папка восстановлена.");
}

#[test]
fn reconcile_summary_adds_dirs_and_files() {
    let out = ReconcileOutcome {
        scanned: 50,
        dir_seen: 3,
        file_seen: 40,
        imported: 2,
        failed: 1,
        marked_dirs: 1,
        marked_files: 4,
        cleared_dirs: 0,
        cleared_files: 6,
        min_message_id: 10,
        max_message_id: 90,
    };
    let r = reconcile_result(&out);
    assert_eq!((r.scanned, r.marked, r.cleared, r.imported), (50, 5, 6, 2));
    assert_eq!(r.message, "Готово: просмотрено 50, битых отмечено 5, восстановлено 6, импортировано 2.");
    assert!(reconcile_changed_tree(&out));
    let quiet = ReconcileOutcome { marked_dirs: 0, marked_files: 0, cleared_files: 0, imported: 0, ..out };
    assert!(!reconcile_changed_tree(&quiet));
}

#[test]
fn backup_caption_has_tag_time_and_version() {
    assert_eq!(build_backup_caption("1.2.3", "2024-01-01T00:00:00+00:00"), "#ocltg #backup #v1 ts=2024-01-01T00:00:00+00:00 app=1.2.3");
}

#[test]
fn stored_settings_are_read_and_merged() {
    assert!(matches!(parse_stored_api_id(None), Ok(None)));
    assert!(matches!(parse_stored_api_id(Some("12")), Ok(Some(12))));
    assert!(matches!(parse_stored_api_id(Some("-3")), Ok(Some(-3))));
    assert!(matches!(parse_stored_api_id(Some("2147483648")), Err(CoreError::InvalidStoredApiId)));
    assert!(matches!(parse_stored_api_id(Some("abc")), Err(CoreError::InvalidStoredApiId)));
    assert_eq!(CoreError::InvalidStoredApiId.message(), "Некорректный tg_api_id");
    let env = || Some(TgSettings { api_id: 9, api_hash: "env".to_string() });
    let s = get_tg_settings(Some(1), Some("db".to_string()), env()).unwrap();
    assert_eq!((s.api_id, s.api_hash.as_str()), (1, "db"));
    let s = get_tg_settings(Some(1), None, env()).unwrap();
    assert_eq!((s.api_id, s.api_hash.as_str()), (9, "env"));
    assert!(get_tg_settings(None, Some("db".to_string()), None).is_none());
    let v = get_tg_settings_view(Some(1), None, Some("/lib".to_string()), env());
    assert_eq!((v.api_id, v.api_hash, v.tdlib_path), (Some(1), Some("env".to_string()), Some("/lib".to_string())));
    let v = get_tg_settings_view(None, Some("db".to_string()), None, None);
    assert_eq!((v.api_id, v.api_hash, v.tdlib_path), (None, Some("db".to_string()), None));
    assert_eq!(tdlib_path_to_keep(Some("  /opt/td  ")), Some("/opt/td".to_string()));
    assert_eq!(tdlib_path_to_keep(Some("   ")), None);
    assert_eq!(tdlib_path_to_keep(None), None);
}

#[test]
fn the_tags_of_the_engine_are_known_in_any_case() {
    assert!(cloudtg::tags::is_engine_tag("DIR"));
    assert!(cloudtg::tags::is_engine_tag("ocltg"));
    assert!(cloudtg::tags::is_engine_tag("File"));
    assert!(cloudtg::tags::is_engine_tag("V1"));
    assert!(!cloudtg::tags::is_engine_tag("dirs"));
    assert!(!cloudtg::tags::is_engine_tag(""));
    assert!(!cloudtg::tags::is_engine_tag("Папка"));
    let tags = cloudtg::tags::extract_folder_tags("#OCLTG #Docs #DIR #v1 #Фото");
    assert_eq!(tags, vec!["Docs".to_string(), "Фото".to_string()]);
}
