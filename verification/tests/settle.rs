use cloudtg::backup::{fresh_messages, settle_sync};
use cloudtg::dirs::{
    dir_message_step, dir_search_step, settle_created, settle_dir_message, settle_republication,
    DirMessageStep,
};
use cloudtg::error::{CoreError, ErrorKind};
use cloudtg::files::{
    file_search_step, settle_found, settle_repair, settle_resend, settle_search, settle_upload,
    stored_name, transport_result, LocalFile, LocalSource, RepairFileResult, RepairStep,
    SearchStep, SearchTurn,
};
use cloudtg::index::Index;
use cloudtg::indexer::{
    confirms, import_row, message_kind, settle_import, ImportAction, IndexOutcome, MessageKind,
};
use cloudtg::model::{DirectoryEntry, FileEntry};
use cloudtg::reconcile::{close_scan, seen_ids};
use cloudtg::scan::{tally, ScanCounts};
use cloudtg::sync::{get_sync, read_watermark, set_sync, SyncState};
use cloudtg::telegram::{HistoryMessage, SearchMessagesResult, TgError, UploadedMessage};

const CHAT: i64 = -1000000000777;

fn sent(chat_id: i64, message_id: i64) -> Result<UploadedMessage, TgError> {
    Ok(UploadedMessage { chat_id, message_id, caption_or_text: String::new() })
}

fn refused(words: &str) -> Result<UploadedMessage, TgError> {
    Err(TgError::Other(words.to_string()))
}

fn dir(id: &str, name: &str, msg: Option<i64>) -> DirectoryEntry {
    DirectoryEntry {
        id: id.to_string(),
        parent_id: None,
        name: name.to_string(),
        tg_msg_id: msg,
        updated_at: 3,
        is_broken: false,
    }
}

fn file(id: &str, dir: &str, chat: i64, msg: i64, broken: bool) -> FileEntry {
    FileEntry {
        id: id.to_string(),
        dir_id: dir.to_string(),
        name: "a.txt".to_string(),
        size: 5,
        hash: "deadbeef".to_string(),
        tg_chat_id: chat,
        tg_msg_id: msg,
        created_at: 11,
        is_broken: broken,
    }
}

fn one_file() -> Index {
    let mut index = Index::new();
    index.put_dir(dir("D1", "Docs", Some(1)));
    index.put_file(file("F1", "D1", CHAT, 3, true));
    index
}

fn text_msg(id: i64, text: &str) -> HistoryMessage {
    HistoryMessage { id, date: 500, text: Some(text.to_string()), caption: None, file_size: None, file_name: None }
}

fn file_msg(id: i64, caption: Option<&str>, name: Option<&str>, size: Option<i64>) -> HistoryMessage {
    HistoryMessage {
        id,
        date: 600,
        text: None,
        caption: caption.map(|c| c.to_string()),
        file_size: size,
        file_name: name.map(|n| n.to_string()),
    }
}

fn transport_words(e: &CoreError) -> String {
    assert_eq!(e.kind(), ErrorKind::Transport);
    e.message()
}

#[test]
fn a_new_publication_makes_the_old_message_stale() {
    let r = settle_republication(Some(7), sent(CHAT, 9));
    assert_eq!(r.message.unwrap(), 9);
    assert_eq!(r.stale, Some(7));
    let r = settle_republication(None, sent(CHAT, 9));
    assert_eq!(r.message.unwrap(), 9);
    assert_eq!(r.stale, None);
}

#[test]
fn a_failed_publication_leaves_the_old_message() {
    let r = settle_republication(Some(7), refused("flood"));
    assert_eq!(transport_words(&r.message.unwrap_err()), "flood");
    assert_eq!(r.stale, None);
    let r = settle_republication(Some(7), Err(TgError::AuthRequired));
    assert_eq!(transport_words(&r.message.unwrap_err()), "требуется авторизация");
}

#[test]
fn a_created_directory_is_given_its_message() {
    let mut index = Index::new();
    index.put_dir(dir("D9", "New", None));
    settle_created(&mut index, "D9", sent(CHAT, 42)).unwrap();
    assert_eq!(index.dirs, vec![dir("D9", "New", Some(42))]);
    let err = settle_created(&mut index, "D9", refused("down")).unwrap_err();
    assert_eq!(transport_words(&err), "down");
    assert_eq!(index.dirs, vec![dir("D9", "New", Some(42))]);
    let err = settle_created(&mut index, "nope", sent(CHAT, 43)).unwrap_err();
    assert_eq!(err.kind(), ErrorKind::NotFound);
    assert_eq!(index.dirs.len(), 1);
}

#[test]
fn a_repair_edited_in_place_stays_on_its_message() {
    let mut index = one_file();
    let step = settle_repair(&mut index, "F1", true, Some((CHAT, 50)), None);
    assert!(matches!(step, RepairStep::Done(Ok(RepairFileResult::Repaired))));
    assert_eq!(index.files, vec![file("F1", "D1", CHAT, 3, false)]);
}

#[test]
fn a_repair_takes_the_message_that_was_found() {
    let mut index = one_file();
    let step = settle_repair(&mut index, "F1", false, Some((-5, 50)), None);
    assert!(matches!(step, RepairStep::Done(Ok(RepairFileResult::Repaired))));
    assert_eq!(index.files, vec![file("F1", "D1", -5, 50, false)]);
}

#[test]
fn a_repair_without_a_copy_needs_the_file() {
    let mut index = one_file();
    let step = settle_repair(&mut index, "F1", false, None, None);
    assert!(matches!(step, RepairStep::Done(Ok(RepairFileResult::NeedFile))));
    assert_eq!(index.files, vec![file("F1", "D1", CHAT, 3, true)]);
}

#[test]
fn a_repair_refuses_a_copy_that_is_no_file() {
    let mut index = one_file();
    let source = LocalSource { path: "/tmp/dir".to_string(), is_file: false };
    let step = settle_repair(&mut index, "F1", false, None, Some(&source));
    assert!(matches!(step, RepairStep::Done(Err(CoreError::SourceNotFound))));
    assert_eq!(index.files, vec![file("F1", "D1", CHAT, 3, true)]);
}

#[test]
fn a_repair_with_a_copy_goes_on_to_publish_it() {
    let mut index = one_file();
    let source = LocalSource { path: "/tmp/a.txt".to_string(), is_file: true };
    let step = settle_repair(&mut index, "F1", false, None, Some(&source));
    assert!(matches!(step, RepairStep::Publish));
    assert_eq!(index.files, vec![file("F1", "D1", CHAT, 3, true)]);
    let step = settle_repair(&mut index, "nope", true, None, Some(&source));
    assert!(matches!(step, RepairStep::Done(Err(CoreError::FileNotFound))));
}

#[test]
fn a_published_copy_becomes_the_message_of_the_file() {
    let mut index = one_file();
    assert_eq!(settle_resend(&mut index, "F1", sent(CHAT, 77)).unwrap(), RepairFileResult::Repaired);
    assert_eq!(index.files, vec![file("F1", "D1", CHAT, 77, false)]);
    let err = settle_resend(&mut index, "F1", refused("too big")).unwrap_err();
    assert_eq!(transport_words(&err), "too big");
    assert_eq!(index.files, vec![file("F1", "D1", CHAT, 77, false)]);
    let err = settle_resend(&mut index, "nope", sent(CHAT, 78)).unwrap_err();
    assert_eq!(err.kind(), ErrorKind::NotFound);
}

#[test]
fn a_message_found_elsewhere_corrects_the_entry() {
    let mut index = one_file();
    assert_eq!(settle_found(&mut index, "F1", Some((CHAT, 3))), Some((CHAT, 3)));
    assert_eq!(index.files, vec![file("F1", "D1", CHAT, 3, true)]);
    assert_eq!(settle_found(&mut index, "F1", None), Some((CHAT, 3)));
    assert_eq!(index.files, vec![file("F1", "D1", CHAT, 3, true)]);
    assert_eq!(settle_found(&mut index, "F1", Some((CHAT, 8))), Some((CHAT, 8)));
    assert_eq!(index.files, vec![file("F1", "D1", CHAT, 8, false)]);
    assert_eq!(settle_found(&mut index, "nope", Some((CHAT, 8))), None);
}

#[test]
fn an_answer_of_the_transport_is_passed_on_or_worded() {
    assert_eq!(transport_result(Ok::<i64, TgError>(5)).unwrap(), 5);
    let err = transport_result(Err::<i64, TgError>(TgError::Io("disk".to_string()))).unwrap_err();
    assert_eq!(transport_words(&err), "ошибка ввода-вывода: disk");
    let err = transport_result(Err::<(), TgError>(TgError::NotImplemented)).unwrap_err();
    assert_eq!(transport_words(&err), "не реализовано");
}

#[test]
fn an_upload_is_settled_by_what_was_published() {
    let mut index = one_file();
    let source = LocalFile {
        path: "/home/u/b.bin".to_string(),
        is_file: true,
        file_name: Some("b.bin".to_string()),
        size: 3,
        content: vec![1, 2, 3],
    };
    let id = settle_upload(&mut index, "D1", &source, "F2".to_string(), sent(-9, 40), 100).unwrap();
    assert_eq!(id, "F2");
    assert_eq!(index.files.len(), 2);
    let row = &index.files[1];
    assert_eq!((row.id.as_str(), row.dir_id.as_str(), row.name.as_str()), ("F2", "D1", "b.bin"));
    assert_eq!((row.size, row.tg_chat_id, row.tg_msg_id, row.created_at, row.is_broken), (3, -9, 40, 100, false));
    assert_eq!(row.hash, "039058c6");
    // an id that is known keeps its time of creation
    settle_upload(&mut index, "D1", &source, "F1".to_string(), sent(CHAT, 41), 200).unwrap();
    assert_eq!(index.files.len(), 2);
    assert_eq!((index.files[0].tg_msg_id, index.files[0].created_at, index.files[0].is_broken), (41, 11, false));
    let err = settle_upload(&mut index, "D1", &source, "F3".to_string(), refused("quota"), 300).unwrap_err();
    assert_eq!(transport_words(&err), "quota");
    assert_eq!(index.files.len(), 2);
}

#[test]
fn a_file_without_a_readable_name_is_stored_as_file() {
    let mut source = LocalFile { path: "x".to_string(), is_file: true, file_name: None, size: 0, content: vec![] };
    assert_eq!(stored_name(&source), "file");
    source.file_name = Some("y.txt".to_string());
    assert_eq!(stored_name(&source), "y.txt");
}

#[test]
fn messages_are_told_apart_by_kind() {
    assert_eq!(message_kind(&text_msg(1, "#ocltg #v1 #dir d=D1 p=ROOT name=Docs")), MessageKind::Directory);
    assert_eq!(
        message_kind(&file_msg(2, Some("#ocltg #v1 #file d=D1 f=F1 n=a.txt h=deadbeef"), Some("a.txt"), Some(5))),
        MessageKind::File
    );
    assert_eq!(message_kind(&file_msg(3, Some("holiday"), Some("sun.jpg"), None)), MessageKind::Attachment);
    assert_eq!(message_kind(&file_msg(4, None, None, Some(0))), MessageKind::Attachment);
    assert_eq!(message_kind(&file_msg(5, Some("#ocltg #v1 #file d=D1"), Some("  "), None)), MessageKind::Other);
    assert_eq!(message_kind(&text_msg(6, "hello")), MessageKind::Other);
    // the text decides before the caption
    let mut both = file_msg(7, Some("#ocltg #v1 #file d=D1 f=F1 n=a.txt h=deadbeef"), Some("a.txt"), Some(5));
    both.text = Some("#ocltg #v1 #dir d=D1 p=ROOT name=Docs".to_string());
    assert_eq!(message_kind(&both), MessageKind::Directory);
}

#[test]
fn only_a_plain_yes_confirms_a_message() {
    assert!(confirms(&Ok(true)));
    assert!(!confirms(&Ok(false)));
    assert!(!confirms(&Err(TgError::AuthRequired)));
}

#[test]
fn the_row_of_an_import_is_made_of_the_message() {
    let msg = file_msg(77, Some("#photos"), Some("sun.jpg"), Some(12));
    let row = import_row(CHAT, &msg, "F7".to_string(), "A".to_string(), 5);
    assert_eq!((row.id.as_str(), row.dir_id.as_str(), row.name.as_str()), ("F7", "A", "sun.jpg"));
    assert_eq!((row.size, row.tg_chat_id, row.tg_msg_id, row.created_at, row.is_broken), (12, CHAT, 77, 600, false));
    assert_eq!(row.hash.len(), 8);
    let mut undated = file_msg(78, None, None, Some(1));
    undated.date = 0;
    let row = import_row(CHAT, &undated, "F8".to_string(), "A".to_string(), 5);
    assert_eq!((row.name.as_str(), row.created_at), ("файл_78", 5));
}

#[test]
fn an_import_ends_by_whether_the_message_is_still_there() {
    let mut index = one_file();
    let msg = file_msg(77, None, Some("sun.jpg"), Some(12));
    let row = import_row(CHAT, &msg, "F7".to_string(), "D1".to_string(), 5);
    assert_eq!(settle_import(&mut index, row, false), ImportAction::Skipped);
    assert_eq!(index.files.len(), 1);
    let row = import_row(CHAT, &msg, "F7".to_string(), "D1".to_string(), 5);
    assert_eq!(settle_import(&mut index, row, true), ImportAction::Imported);
    assert_eq!(index.files.len(), 2);
    assert_eq!((index.files[1].id.as_str(), index.files[1].tg_msg_id), ("F7", 77));
    // an id that is taken is passed over
    let row = import_row(CHAT, &msg, "F1".to_string(), "D1".to_string(), 5);
    assert_eq!(settle_import(&mut index, row, true), ImportAction::Skipped);
    assert_eq!(index.files.len(), 2);
    assert_eq!(index.files[0].tg_msg_id, 3);
}

fn window() -> Vec<HistoryMessage> {
    vec![
        other_msg(10),
        file_msg(9, Some("holiday"), Some("new.jpg"), Some(1)),
        file_msg(8, Some("holiday"), Some("old.jpg"), Some(1)),
        file_msg(7, Some("#ocltg #v1 #file d=D1 f=F1 n=a.txt h=deadbeef"), Some("a.txt"), Some(5)),
        text_msg(6, "#ocltg #v1 #dir d=D1 p=ROOT name=Docs"),
    ]
}

fn other_msg(id: i64) -> HistoryMessage {
    text_msg(id, "hello")
}

fn read_window() -> Index {
    let mut index = Index::new();
    index.put_dir(dir("D1", "Docs", Some(6)));
    index.put_dir(dir("D0", "Gone", Some(12)));
    index.put_dir(dir("D2", "Made", Some(20)));
    index.put_dir(dir("D3", "Pending", None));
    index.put_file(file("F1", "D1", CHAT, 7, true));
    index.put_file(file("F8", "D1", CHAT, 8, false));
    index.put_file(file("F5", "D1", CHAT, 5, false));
    index.put_file(file("F10", "D1", CHAT, 10, false));
    index.put_file(file("F11", "D1", -1, 11, false));
    index
}

fn outcome(dir: bool, file: bool, imported: bool, skipped: bool, failed: bool) -> IndexOutcome {
    IndexOutcome { dir, file, imported, skipped, failed }
}

/// What indexing the messages of `window` came to: the newer attachment
/// was imported, the older one backs a file already and was passed over.
fn window_outcomes() -> Vec<IndexOutcome> {
    vec![
        outcome(false, false, false, true, false),
        outcome(false, true, true, false, false),
        outcome(false, false, false, true, false),
        outcome(false, true, false, false, false),
        outcome(true, false, false, false, false),
    ]
}

#[test]
fn the_messages_that_confirm_are_collected() {
    let (dirs, files) = seen_ids(&window(), &window_outcomes());
    assert_eq!(dirs, vec![6]);
    assert_eq!(files, vec![9, 7]);
    let failed = vec![outcome(false, false, false, false, true); 5];
    let (dirs, files) = seen_ids(&window(), &failed);
    assert!(dirs.is_empty() && files.is_empty());
    let (dirs, files) = seen_ids(&Vec::new(), &window_outcomes());
    assert!(dirs.is_empty() && files.is_empty());
}

#[test]
fn outcomes_are_counted() {
    assert_eq!(tally(&window_outcomes()), ScanCounts { dir_seen: 1, file_seen: 2, imported: 1, failed: 0 });
    let failed = vec![outcome(false, false, false, false, true); 3];
    assert_eq!(tally(&failed), ScanCounts { dir_seen: 0, file_seen: 0, imported: 0, failed: 3 });
    assert_eq!(tally(&Vec::new()), ScanCounts { dir_seen: 0, file_seen: 0, imported: 0, failed: 0 });
}

#[test]
fn closing_a_scan_flags_what_no_message_confirms() {
    let mut index = read_window();
    let mut sync = SyncState::new();
    let out = close_scan(&mut index, &mut sync, CHAT, &window(), &window_outcomes(), "t1");
    assert_eq!((out.scanned, out.min_message_id, out.max_message_id), (5, 6, 10));
    assert_eq!((out.dir_seen, out.file_seen, out.imported, out.failed), (1, 2, 1, 0));
    assert_eq!((out.marked_dirs, out.cleared_dirs, out.marked_files, out.cleared_files), (2, 0, 2, 1));
    let flags: Vec<bool> = index.dirs.iter().map(|d| d.is_broken).collect();
    // D1 is a record of the window; the messages of D0 and D2 are not in
    // the window; D3 has no message
    assert_eq!(flags, vec![false, true, true, false]);
    let flags: Vec<bool> = index.files.iter().map(|f| f.is_broken).collect();
    // F1 is confirmed by its record; the message of F8 is an attachment
    // that was not imported in this run; F5 lies below the window; F10 is
    // backed by a message that is no file; F11 lies in another chat
    assert_eq!(flags, vec![false, true, false, true, false]);
    assert_eq!(read_watermark(&sync), 10);
    assert_eq!(get_sync(&sync, "storage_reconcile_done"), Some("t1".to_string()));
    // closing the same window again flips nothing
    let snapshot = (index.dirs.clone(), index.files.clone());
    let out = close_scan(&mut index, &mut sync, CHAT, &window(), &window_outcomes(), "t2");
    assert_eq!((out.marked_dirs, out.cleared_dirs, out.marked_files, out.cleared_files), (0, 0, 0, 0));
    assert_eq!((index.dirs.clone(), index.files.clone()), snapshot);
}

#[test]
fn the_fresh_part_of_a_page_ends_at_the_watermark() {
    let page = window();
    let ids = |v: Vec<HistoryMessage>| v.iter().map(|m| m.id).collect::<Vec<i64>>();
    assert_eq!(ids(fresh_messages(&page, 0)), vec![10, 9, 8, 7, 6]);
    assert_eq!(ids(fresh_messages(&page, 7)), vec![10, 9, 8]);
    assert_eq!(ids(fresh_messages(&page, 10)), Vec::<i64>::new());
    assert_eq!(ids(fresh_messages(&page, -3)), vec![10, 9, 8, 7, 6]);
    assert_eq!(ids(fresh_messages(&page, 5)), vec![10, 9, 8, 7, 6]);
}

#[test]
fn a_full_read_is_written_down() {
    let mut sync = SyncState::new();
    set_sync(&mut sync, "storage_last_message_id", "4");
    set_sync(&mut sync, "other", "kept");
    settle_sync(&mut sync, None, "t1");
    assert_eq!(read_watermark(&sync), 4);
    assert_eq!(get_sync(&sync, "storage_sync_done"), Some("t1".to_string()));
    settle_sync(&mut sync, Some(9), "t2");
    assert_eq!(get_sync(&sync, "storage_last_message_id"), Some("9".to_string()));
    assert_eq!(get_sync(&sync, "storage_sync_done"), Some("t2".to_string()));
    assert_eq!(get_sync(&sync, "other"), Some("kept".to_string()));
}

#[test]
fn a_directory_is_put_with_the_message_that_says_what_it_is() {
    let mut index = Index::new();
    index.put_dir(DirectoryEntry { is_broken: true, ..dir("D1", "Docs", Some(1)) });
    let renamed = DirectoryEntry { is_broken: true, ..dir("D1", "Papers", Some(1)) };
    settle_dir_message(&mut index, renamed, Ok(8), 77).unwrap();
    assert_eq!(
        index.dirs,
        vec![DirectoryEntry { updated_at: 77, ..dir("D1", "Papers", Some(8)) }]
    );
    let again = dir("D1", "Letters", Some(8));
    let err = settle_dir_message(&mut index, again, Err(CoreError::Transport("down".to_string())), 78).unwrap_err();
    assert_eq!(transport_words(&err), "down");
    assert_eq!(index.dirs[0].name, "Papers");
}

#[test]
fn the_message_of_a_directory_is_edited_before_one_is_published() {
    assert_eq!(dir_message_step(None, None), DirMessageStep::Publish);
    assert_eq!(dir_message_step(None, Some(Ok(()))), DirMessageStep::Publish);
    assert_eq!(dir_message_step(Some(7), None), DirMessageStep::Edit(7));
    assert_eq!(dir_message_step(Some(7), Some(Ok(()))), DirMessageStep::Done(7));
    assert_eq!(dir_message_step(Some(7), Some(Err(TgError::AuthRequired))), DirMessageStep::Publish);
}

fn page(messages: Vec<HistoryMessage>, next: i64) -> Result<SearchMessagesResult, TgError> {
    Ok(SearchMessagesResult { total_count: None, next_from_message_id: next, messages })
}

#[test]
fn a_page_of_a_search_for_a_file_is_decided() {
    let record = "#ocltg #v1 #file d=D1 f=F1 n=a.txt h=deadbeef";
    let other = "#ocltg #v1 #file d=D1 f=F2 n=b.txt h=deadbeef";
    let hit = page(
        vec![
            file_msg(9, Some(other), Some("b.txt"), Some(1)),
            file_msg(8, Some(record), Some("a.txt"), Some(5)),
            file_msg(7, Some(record), Some("a.txt"), Some(5)),
        ],
        7,
    );
    assert_eq!(file_search_step(&hit, "F1"), SearchStep::Found(8));
    assert_eq!(file_search_step(&hit, "F2"), SearchStep::Found(9));
    assert_eq!(file_search_step(&hit, "F3"), SearchStep::Next(7));
    let last = page(vec![file_msg(9, Some(other), Some("b.txt"), Some(1))], 0);
    assert_eq!(file_search_step(&last, "F1"), SearchStep::Stop);
    assert_eq!(file_search_step(&page(Vec::new(), 5), "F1"), SearchStep::Next(5));
    assert_eq!(file_search_step(&Err(TgError::AuthRequired), "F1"), SearchStep::Stop);
}

#[test]
fn a_page_of_a_search_for_a_directory_is_collected() {
    let hit = page(
        vec![
            text_msg(9, "#ocltg #v1 #dir d=D1 p=ROOT name=Docs"),
            text_msg(8, "#ocltg #v1 #dir d=D2 p=ROOT name=Archive"),
            text_msg(7, "#ocltg #v1 #dir d=D1 p=ROOT name=Old"),
        ],
        7,
    );
    let mut out = vec![20];
    assert_eq!(dir_search_step(&hit, "D1", &mut out), Some(7));
    assert_eq!(out, vec![20, 9, 7]);
    assert_eq!(dir_search_step(&page(Vec::new(), 0), "D1", &mut out), None);
    assert_eq!(dir_search_step(&Err(TgError::AuthRequired), "D1", &mut out), None);
    assert_eq!(out, vec![20, 9, 7]);
}

#[test]
fn the_chat_of_the_entry_is_searched_before_the_storage_chat() {
    assert_eq!(settle_search(-5, CHAT, None, None), SearchTurn::Search(-5));
    assert_eq!(settle_search(-5, CHAT, Some(Some(3)), None), SearchTurn::Found(-5, 3));
    assert_eq!(settle_search(-5, CHAT, Some(Some(3)), Some(Some(4))), SearchTurn::Found(-5, 3));
    assert_eq!(settle_search(-5, CHAT, Some(None), None), SearchTurn::Search(CHAT));
    assert_eq!(settle_search(-5, CHAT, Some(None), Some(Some(4))), SearchTurn::Found(CHAT, 4));
    assert_eq!(settle_search(-5, CHAT, Some(None), Some(None)), SearchTurn::NotFound);
    assert_eq!(settle_search(CHAT, CHAT, Some(None), None), SearchTurn::NotFound);
    assert_eq!(settle_search(CHAT, CHAT, Some(None), Some(Some(4))), SearchTurn::NotFound);
}
