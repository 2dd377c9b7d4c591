use cloudtg::backup::{read_page, rebuild_storage, sync_storage};
use cloudtg::dirs::{
    create_dir, create_dir_with_id, delete_dir, guard_root, messages_to_delete, move_dir,
    rename_dir, repair_dir,
};
use cloudtg::error::{CoreError, DirOp, ErrorKind};
use cloudtg::cache::CacheEntry;
use cloudtg::dirs::{dir_body, published_message};
use cloudtg::files::{
    caption_for, delete_file, delete_files, download_file, find_file_message,
    find_local_download_path, move_file,
    plan_download, repair_file, settle_move, share_file_to_chat, upload_file, DownloadPlan,
    LocalFile, LocalSource, MoveEnd, MoveRun, RepairFileResult,
};
use cloudtg::fsmeta::{
    make_dir_message, make_file_caption, parse_dir_message, parse_file_caption, DirMeta, FileMeta,
};
use cloudtg::index::Index;
use cloudtg::indexer::{
    both_failures, find_dir_by_name, import_untagged_file, index_storage_message, pick_import_target, upsert_dir,
    upsert_file, ImportAction, ImportTarget, IndexOutcome,
};
use cloudtg::marking::{mark_broken_dirs, mark_broken_files};
use cloudtg::model::{DirectoryEntry, FileEntry};
use cloudtg::reconcile::{
    close_window, fetch_recent_messages, page_limit, reconcile_messages, reconcile_recent,
    take_page,
};
use cloudtg::scan::{scan_messages, tally, ScanCounts};
use cloudtg::sync::{get_sync, read_watermark, set_sync, SyncState};
use cloudtg::telegram::{
    HistoryMessage, SearchMessagesResult, TelegramService, TgError, UploadedMessage,
};
use cloudtg::tree::{check_move_dir, has_ancestor, normalize_parent_id};

const CHAT: i64 = -1000000000777;

#[derive(Clone, Debug)]
struct Msg {
    chat: i64,
    id: i64,
    date: i64,
    text: Option<String>,
    caption: Option<String>,
    file: Option<(String, i64)>,
}

#[derive(Clone, Copy, PartialEq)]
enum Copying {
    Works,
    Fails,
    GivesNoId,
}

/// A storage channel in memory, with switches that make its calls fail.
struct Fake {
    next_id: i64,
    messages: Vec<Msg>,
    fail_edit_caption: bool,
    fail_edit_text: bool,
    fail_send_dir: bool,
    fail_send_file: bool,
    fail_resend: bool,
    fail_delete: bool,
    fail_search: bool,
    fail_history: bool,
    hide_messages: bool,
    copying: Copying,
    page_size: usize,
    deleted: Vec<Vec<i64>>,
    pauses: Vec<u64>,
    edits: usize,
    downloads: Vec<(i64, i64, String)>,
    /// Messages whose caption cannot be edited.
    frozen: Vec<i64>,
}

impl Fake {
    fn new() -> Fake {
        Fake {
            next_id: 1,
            messages: Vec::new(),
            fail_edit_caption: false,
            fail_edit_text: false,
            fail_send_dir: false,
            fail_send_file: false,
            fail_resend: false,
            fail_delete: false,
            fail_search: false,
            fail_history: false,
            hide_messages: false,
            copying: Copying::Works,
            page_size: 100,
            deleted: Vec::new(),
            pauses: Vec::new(),
            edits: 0,
            downloads: Vec::new(),
            frozen: Vec::new(),
        }
    }

    fn push(&mut self, chat: i64, text: Option<String>, caption: Option<String>, file: Option<(String, i64)>) -> i64 {
        let id = self.next_id;
        self.next_id += 1;
        self.messages.push(Msg { chat, id, date: 1000 + id, text, caption, file });
        id
    }

    fn get(&self, chat: i64, id: i64) -> Option<&Msg> {
        self.messages.iter().find(|m| m.chat == chat && m.id == id)
    }

    fn remove(&mut self, chat: i64, id: i64) {
        self.messages.retain(|m| !(m.chat == chat && m.id == id));
    }

    fn to_history(m: &Msg) -> HistoryMessage {
        HistoryMessage {
            id: m.id,
            date: m.date,
            text: m.text.clone(),
            caption: m.caption.clone(),
            file_size: m.file.as_ref().map(|f| f.1),
            file_name: m.file.as_ref().map(|f| f.0.clone()),
        }
    }
}

impl TelegramService for Fake {
    fn send_dir_message(&mut self, chat_id: i64, text: String) -> Result<UploadedMessage, TgError> {
        if self.fail_send_dir {
            return Err(TgError::Other("send refused".to_string()));
        }
        let id = self.push(chat_id, Some(text.clone()), None, None);
        Ok(UploadedMessage { chat_id, message_id: id, caption_or_text: text })
    }

    fn send_file(&mut self, chat_id: i64, path: String, caption: String) -> Result<UploadedMessage, TgError> {
        if self.fail_send_file {
            return Err(TgError::Io("upload refused".to_string()));
        }
        let id = self.push(chat_id, None, Some(caption.clone()), Some((path, 5)));
        Ok(UploadedMessage { chat_id, message_id: id, caption_or_text: caption })
    }

    fn send_file_from_message(&mut self, chat_id: i64, message_id: i64, caption: String) -> Result<UploadedMessage, TgError> {
        if self.fail_resend {
            return Err(TgError::Other("resend refused".to_string()));
        }
        let file = match self.get(chat_id, message_id) {
            Some(m) => m.file.clone(),
            None => return Err(TgError::Other("no such message".to_string())),
        };
        let id = self.push(chat_id, None, Some(caption.clone()), file);
        Ok(UploadedMessage { chat_id, message_id: id, caption_or_text: caption })
    }

    fn edit_message_text(&mut self, chat_id: i64, message_id: i64, text: String) -> Result<(), TgError> {
        if self.fail_edit_text {
            return Err(TgError::Other("edit refused".to_string()));
        }
        match self.messages.iter_mut().find(|m| m.chat == chat_id && m.id == message_id) {
            Some(m) => {
                m.text = Some(text);
                Ok(())
            }
            None => Err(TgError::Other("no such message".to_string())),
        }
    }

    fn edit_message_caption(&mut self, chat_id: i64, message_id: i64, caption: String) -> Result<(), TgError> {
        self.edits += 1;
        if self.fail_edit_caption || self.frozen.contains(&message_id) {
            return Err(TgError::Other(format!("caption refused {}", self.edits)));
        }
        match self.messages.iter_mut().find(|m| m.chat == chat_id && m.id == message_id) {
            Some(m) => {
                m.caption = Some(caption);
                Ok(())
            }
            None => Err(TgError::Other("no such message".to_string())),
        }
    }

    fn copy_messages(&mut self, _from_chat_id: i64, to_chat_id: i64, message_ids: Vec<i64>) -> Result<Vec<Option<i64>>, TgError> {
        match self.copying {
            Copying::Fails => Err(TgError::Other("copy refused".to_string())),
            Copying::GivesNoId => Ok(message_ids.iter().map(|_| None).collect()),
            Copying::Works => {
                let mut out = Vec::new();
                for id in message_ids {
                    let src = self.messages.iter().find(|m| m.id == id).cloned();
                    match src {
                        Some(m) => out.push(Some(self.push(to_chat_id, m.text, m.caption, m.file))),
                        None => out.push(None),
                    }
                }
                Ok(out)
            }
        }
    }

    fn delete_messages(&mut self, chat_id: i64, message_ids: Vec<i64>, _revoke: bool) -> Result<(), TgError> {
        self.deleted.push(message_ids.clone());
        if self.fail_delete {
            return Err(TgError::Other("delete refused".to_string()));
        }
        for id in message_ids {
            self.remove(chat_id, id);
        }
        Ok(())
    }

    fn forward_message(&mut self, from_chat_id: i64, to_chat_id: i64, message_id: i64) -> Result<i64, TgError> {
        let src = self.get(from_chat_id, message_id).cloned();
        match src {
            Some(m) => Ok(self.push(to_chat_id, m.text, m.caption, m.file)),
            None => Err(TgError::Other("nothing to forward".to_string())),
        }
    }

    fn search_chat_messages(&mut self, chat_id: i64, query: String, _from_message_id: i64, _limit: i32) -> Result<SearchMessagesResult, TgError> {
        if self.fail_search {
            return Err(TgError::Other("search refused".to_string()));
        }
        let mut found: Vec<HistoryMessage> = self
            .messages
            .iter()
            .filter(|m| m.chat == chat_id)
            .filter(|m| {
                m.text.as_deref().map(|t| t.contains(&query)).unwrap_or(false)
                    || m.caption.as_deref().map(|t| t.contains(&query)).unwrap_or(false)
            })
            .map(Fake::to_history)
            .collect();
        found.reverse();
        Ok(SearchMessagesResult { total_count: Some(found.len() as i64), next_from_message_id: 0, messages: found })
    }

    fn chat_history(&mut self, chat_id: i64, from_message_id: i64, limit: i32) -> Result<SearchMessagesResult, TgError> {
        if self.fail_history {
            return Err(TgError::AuthRequired);
        }
        let mut all: Vec<&Msg> = self
            .messages
            .iter()
            .filter(|m| m.chat == chat_id && (from_message_id == 0 || m.id < from_message_id))
            .collect();
        all.sort_by(|a, b| b.id.cmp(&a.id));
        let take = (limit.max(0) as usize).min(self.page_size);
        let page: Vec<HistoryMessage> = all.iter().take(take).map(|m| Fake::to_history(m)).collect();
        let next = if all.len() > page.len() { page.last().map(|m| m.id).unwrap_or(0) } else { 0 };
        Ok(SearchMessagesResult { total_count: None, next_from_message_id: next, messages: page })
    }

    fn message_exists(&mut self, chat_id: i64, message_id: i64) -> Result<bool, TgError> {
        if self.hide_messages {
            return Ok(false);
        }
        Ok(self.get(chat_id, message_id).is_some())
    }

    fn download_message_file(&mut self, chat_id: i64, message_id: i64, target: String) -> Result<String, TgError> {
        self.downloads.push((chat_id, message_id, target.clone()));
        match self.get(chat_id, message_id) {
            Some(m) if m.file.is_some() => Ok(target),
            _ => Err(TgError::Other("no payload".to_string())),
        }
    }

    fn pause(&mut self, millis: u64) {
        self.pauses.push(millis);
    }
}

fn dir_row(id: &str, parent: Option<&str>, name: &str, msg: Option<i64>) -> DirectoryEntry {
    DirectoryEntry {
        id: id.to_string(),
        parent_id: parent.map(|p| p.to_string()),
        name: name.to_string(),
        tg_msg_id: msg,
        updated_at: 0,
        is_broken: false,
    }
}

fn file_row(id: &str, dir: &str, name: &str, chat: i64, msg: i64) -> FileEntry {
    FileEntry {
        id: id.to_string(),
        dir_id: dir.to_string(),
        name: name.to_string(),
        size: 5,
        hash: "deadbeef".to_string(),
        tg_chat_id: chat,
        tg_msg_id: msg,
        created_at: 0,
        is_broken: false,
    }
}

fn local(path: &str, content: &[u8]) -> LocalFile {
    LocalFile {
        path: path.to_string(),
        is_file: true,
        file_name: Some(path.to_string()),
        size: content.len() as i64,
        content: content.to_vec(),
    }
}

/// An index with a directory `D1`, a directory `D2` and a file `F1` in `D1`
/// whose message the channel holds.
fn seeded() -> (Index, Fake) {
    let mut tg = Fake::new();
    let mut index = Index::new();
    let m1 = tg.push(CHAT, Some("#ocltg #v1 #dir d=D1 p=ROOT name=Docs".to_string()), None, None);
    let m2 = tg.push(CHAT, Some("#ocltg #v1 #dir d=D2 p=ROOT name=Archive".to_string()), None, None);
    let m3 = tg.push(
        CHAT,
        None,
        Some("#ocltg #v1 #file d=D1 f=F1 n=a.txt h=deadbeef #Docs".to_string()),
        Some(("a.txt".to_string(), 5)),
    );
    index.put_dir(dir_row("D1", None, "Docs", Some(m1)));
    index.put_dir(dir_row("D2", None, "Archive", Some(m2)));
    index.put_file(file_row("F1", "D1", "a.txt", CHAT, m3));
    (index, tg)
}

// ----- directories ---------------------------------------------------------

#[test]
fn create_dir_publishes_and_keeps_the_message() {
    let mut tg = Fake::new();
    let mut index = Index::new();
    let id = create_dir(&mut index, &mut tg, CHAT, Some("ROOT".to_string()), "Docs".to_string(), 77).unwrap();
    assert_eq!(id.len(), 26);
    assert_eq!(index.dirs.len(), 1);
    let row = index.get_dir(&id).unwrap();
    assert_eq!(row, DirectoryEntry { id: id.clone(), parent_id: None, name: "Docs".to_string(), tg_msg_id: Some(1), updated_at: 77, is_broken: false });
    let body = tg.get(CHAT, 1).unwrap().text.clone().unwrap();
    assert_eq!(body, format!("#ocltg #v1 #dir d={id} p=ROOT name=Docs"));
    assert_eq!(parse_dir_message(&body).unwrap(), DirMeta { dir_id: id, parent_id: "ROOT".to_string(), name: "Docs".to_string() });
}

#[test]
fn create_dir_under_a_parent_names_the_parent() {
    let (mut index, mut tg) = seeded();
    let id = create_dir(&mut index, &mut tg, CHAT, Some("D1".to_string()), "Sub dir".to_string(), 1).unwrap();
    assert_eq!(index.get_dir(&id).unwrap().parent_id, Some("D1".to_string()));
    let m = index.get_dir(&id).unwrap().tg_msg_id.unwrap();
    assert_eq!(tg.get(CHAT, m).unwrap().text.clone().unwrap(), format!("#ocltg #v1 #dir d={id} p=D1 name=Sub_dir"));
    let blank = create_dir(&mut index, &mut tg, CHAT, Some("   ".to_string()), "x".to_string(), 1).unwrap();
    assert_eq!(index.get_dir(&blank).unwrap().parent_id, None);
}

#[test]
fn create_dir_keeps_the_row_when_publishing_fails() {
    let mut tg = Fake::new();
    tg.fail_send_dir = true;
    let mut index = Index::new();
    let err = create_dir(&mut index, &mut tg, CHAT, None, "Docs".to_string(), 5).unwrap_err();
    assert_eq!(err.kind(), ErrorKind::Transport);
    assert_eq!(err.message(), "send refused");
    assert_eq!(index.dirs.len(), 1);
    assert_eq!(index.dirs[0].tg_msg_id, None);
    assert_eq!(index.dirs[0].name, "Docs");
    // renaming to the same name publishes the directory after all
    tg.fail_send_dir = false;
    let id = index.dirs[0].id.clone();
    rename_dir(&mut index, &mut tg, CHAT, &id, "Docs".to_string(), 6).unwrap();
    assert_eq!(index.dirs[0].tg_msg_id, Some(1));
    assert_eq!(index.dirs[0].updated_at, 6);
}

#[test]
fn rename_dir_refuses_empty_names_and_unknown_ids() {
    let (mut index, mut tg) = seeded();
    assert!(matches!(rename_dir(&mut index, &mut tg, CHAT, "D1", "   ".to_string(), 1), Err(CoreError::EmptyDirName)));
    assert!(matches!(rename_dir(&mut index, &mut tg, CHAT, "nope", "  ".to_string(), 1), Err(CoreError::EmptyDirName)));
    assert!(matches!(rename_dir(&mut index, &mut tg, CHAT, "nope", "x".to_string(), 1), Err(CoreError::DirNotFound)));
    assert_eq!(index.get_dir("D1").unwrap().name, "Docs");
}

#[test]
fn rename_dir_does_nothing_when_unchanged() {
    let (mut index, mut tg) = seeded();
    tg.fail_edit_text = true;
    tg.fail_send_dir = true;
    rename_dir(&mut index, &mut tg, CHAT, "D1", "  Docs  ".to_string(), 9).unwrap();
    assert_eq!(index.get_dir("D1").unwrap().updated_at, 0);
}

#[test]
fn rename_dir_edits_the_message_in_place() {
    let (mut index, mut tg) = seeded();
    let mut row = index.get_dir("D1").unwrap();
    row.is_broken = true;
    index.put_dir(row);
    rename_dir(&mut index, &mut tg, CHAT, "D1", " Papers ".to_string(), 9).unwrap();
    let row = index.get_dir("D1").unwrap();
    assert_eq!((row.name.as_str(), row.tg_msg_id, row.updated_at, row.is_broken), ("Papers", Some(1), 9, false));
    assert_eq!(tg.get(CHAT, 1).unwrap().text.clone().unwrap(), "#ocltg #v1 #dir d=D1 p=ROOT name=Papers");
}

#[test]
fn rename_dir_publishes_anew_when_the_edit_fails() {
    let (mut index, mut tg) = seeded();
    tg.fail_edit_text = true;
    rename_dir(&mut index, &mut tg, CHAT, "D1", "Papers".to_string(), 9).unwrap();
    assert_eq!(index.get_dir("D1").unwrap().tg_msg_id, Some(4));
    assert!(tg.get(CHAT, 1).is_none());
    assert_eq!(tg.deleted, vec![vec![1]]);
    // and fails as a whole when nothing can be published
    tg.fail_send_dir = true;
    let err = rename_dir(&mut index, &mut tg, CHAT, "D1", "Other".to_string(), 10).unwrap_err();
    assert_eq!(err.kind(), ErrorKind::Transport);
    assert_eq!(index.get_dir("D1").unwrap().name, "Papers");
}

#[test]
fn move_dir_refuses_cycles_at_any_depth() {
    let mut tg = Fake::new();
    let mut index = Index::new();
    index.put_dir(dir_row("A", None, "a", Some(1)));
    index.put_dir(dir_row("B", Some("A"), "b", Some(2)));
    index.put_dir(dir_row("C", Some("B"), "c", Some(3)));
    index.put_dir(dir_row("D", Some("C"), "d", Some(4)));
    let self_move = move_dir(&mut index, &mut tg, CHAT, "A", Some("A".to_string()), 1).unwrap_err();
    assert!(matches!(self_move, CoreError::MoveIntoSelf));
    assert_eq!(self_move.kind(), ErrorKind::Validation);
    for target in ["B", "C", "D"] {
        let err = move_dir(&mut index, &mut tg, CHAT, "A", Some(target.to_string()), 1).unwrap_err();
        assert!(matches!(err, CoreError::MoveIntoDescendant));
        assert_eq!(err.kind(), ErrorKind::Validation);
    }
    assert_eq!(index.get_dir("A").unwrap().parent_id, None);
    assert!(tg.messages.is_empty());
}

#[test]
fn move_dir_refuses_unknown_directories() {
    let (mut index, mut tg) = seeded();
    assert!(matches!(move_dir(&mut index, &mut tg, CHAT, "nope", Some("D1".to_string()), 1), Err(CoreError::DirNotFound)));
    assert!(matches!(move_dir(&mut index, &mut tg, CHAT, "D1", Some("nope".to_string()), 1), Err(CoreError::ParentNotFound)));
    assert_eq!(CoreError::ParentNotFound.kind(), ErrorKind::NotFound);
}

#[test]
fn move_dir_changes_the_parent_and_the_message() {
    let (mut index, mut tg) = seeded();
    move_dir(&mut index, &mut tg, CHAT, "D2", Some("D1".to_string()), 8).unwrap();
    let row = index.get_dir("D2").unwrap();
    assert_eq!((row.parent_id.as_deref(), row.tg_msg_id, row.updated_at), (Some("D1"), Some(2), 8));
    assert_eq!(tg.get(CHAT, 2).unwrap().text.clone().unwrap(), "#ocltg #v1 #dir d=D2 p=D1 name=Archive");
    // unchanged parent: nothing is done
    tg.fail_edit_text = true;
    tg.fail_send_dir = true;
    move_dir(&mut index, &mut tg, CHAT, "D2", Some("D1".to_string()), 9).unwrap();
    assert_eq!(index.get_dir("D2").unwrap().updated_at, 8);
    // back to the top
    tg.fail_edit_text = false;
    move_dir(&mut index, &mut tg, CHAT, "D2", Some("ROOT".to_string()), 10).unwrap();
    assert_eq!(index.get_dir("D2").unwrap().parent_id, None);
    move_dir(&mut index, &mut tg, CHAT, "D2", None, 11).unwrap();
    assert_eq!(index.get_dir("D2").unwrap().updated_at, 10);
}

#[test]
fn ancestors_are_found_however_deep() {
    let mut index = Index::new();
    index.put_dir(dir_row("A", None, "a", None));
    index.put_dir(dir_row("B", Some("A"), "b", None));
    index.put_dir(dir_row("C", Some("B"), "c", None));
    assert!(has_ancestor(&index, "C", "A"));
    assert!(has_ancestor(&index, "C", "C"));
    assert!(!has_ancestor(&index, "A", "C"));
    assert!(!has_ancestor(&index, "C", "nope"));
    assert!(has_ancestor(&index, "nope", "nope"));
    assert!(check_move_dir(&index, "C", &Some("A".to_string())).is_ok());
    assert!(matches!(check_move_dir(&index, "A", &Some("C".to_string())), Err(CoreError::MoveIntoDescendant)));
}

#[test]
fn ancestor_walk_ends_on_a_cycle_in_the_index() {
    let mut index = Index::new();
    index.put_dir(dir_row("A", Some("B"), "a", None));
    index.put_dir(dir_row("B", Some("A"), "b", None));
    index.put_dir(dir_row("X", None, "x", None));
    assert!(!has_ancestor(&index, "A", "X"));
    assert!(has_ancestor(&index, "A", "B"));
}

#[test]
fn parents_are_normalized() {
    assert_eq!(normalize_parent_id(None), None);
    assert_eq!(normalize_parent_id(Some("ROOT".to_string())), None);
    assert_eq!(normalize_parent_id(Some(" \t".to_string())), None);
    assert_eq!(normalize_parent_id(Some("".to_string())), None);
    assert_eq!(normalize_parent_id(Some("root".to_string())), Some("root".to_string()));
    assert_eq!(normalize_parent_id(Some(" D1 ".to_string())), Some(" D1 ".to_string()));
}

#[test]
fn delete_dir_refuses_what_is_not_empty() {
    let (mut index, mut tg) = seeded();
    index.put_dir(dir_row("D3", Some("D1"), "sub", Some(9)));
    let err = delete_dir(&mut index, &mut tg, CHAT, "D1").unwrap_err();
    assert!(matches!(err, CoreError::DirNotEmpty { files: 1, dirs: 1 }));
    assert_eq!(err.kind(), ErrorKind::Validation);
    assert_eq!(err.message(), "Папка не пустая: файлов=1, подпапок=1");
    assert!(index.dir_exists("D1"));
    assert!(tg.deleted.is_empty());
    assert!(matches!(delete_dir(&mut index, &mut tg, CHAT, "nope"), Err(CoreError::DirNotFound)));
}

#[test]
fn delete_dir_removes_the_message_and_its_duplicates() {
    let (mut index, mut tg) = seeded();
    tg.push(CHAT, Some("#ocltg #v1 #dir d=D2 p=ROOT name=Old".to_string()), None, None);
    tg.push(CHAT, Some("#ocltg #v1 #dir d=D22 p=ROOT name=Other".to_string()), None, None);
    delete_dir(&mut index, &mut tg, CHAT, "D2").unwrap();
    assert!(!index.dir_exists("D2"));
    assert_eq!(tg.deleted, vec![vec![2, 4]]);
    assert!(tg.get(CHAT, 5).is_some());
}

#[test]
fn delete_dir_removes_the_row_even_when_the_channel_refuses() {
    let (mut index, mut tg) = seeded();
    tg.fail_delete = true;
    tg.fail_search = true;
    delete_dir(&mut index, &mut tg, CHAT, "D2").unwrap();
    assert!(!index.dir_exists("D2"));
    assert!(tg.get(CHAT, 2).is_some());
}

#[test]
fn messages_to_delete_are_sorted_and_unique() {
    assert_eq!(messages_to_delete(Some(5), &vec![9, 5, 1, 9, 3]), vec![1, 3, 5, 9]);
    assert_eq!(messages_to_delete(None, &vec![2, 2]), vec![2]);
    assert_eq!(messages_to_delete(Some(7), &Vec::new()), vec![7]);
    assert_eq!(messages_to_delete(None, &Vec::new()), Vec::<i64>::new());
}

#[test]
fn repair_dir_publishes_the_directory_again() {
    let (mut index, mut tg) = seeded();
    let mut row = index.get_dir("D1").unwrap();
    row.is_broken = true;
    index.put_dir(row);
    tg.remove(CHAT, 1);
    repair_dir(&mut index, &mut tg, CHAT, "D1", 12).unwrap();
    let row = index.get_dir("D1").unwrap();
    assert_eq!((row.tg_msg_id, row.is_broken, row.updated_at), (Some(4), false, 12));
    assert_eq!(tg.get(CHAT, 4).unwrap().text.clone().unwrap(), "#ocltg #v1 #dir d=D1 p=ROOT name=Docs");
    assert!(matches!(repair_dir(&mut index, &mut tg, CHAT, "nope", 1), Err(CoreError::DirNotFound)));
}

#[test]
fn the_root_is_no_directory_to_change() {
    assert!(matches!(guard_root("ROOT", DirOp::Move), Err(CoreError::RootDirectory(DirOp::Move))));
    assert!(guard_root("root", DirOp::Move).is_ok());
    assert!(guard_root("D1", DirOp::Delete).is_ok());
    assert_eq!(CoreError::RootDirectory(DirOp::Delete).message(), "Нельзя удалить корневую папку");
}

#[test]
fn the_root_is_refused_by_every_change_of_a_directory() {
    let (mut index, mut tg) = seeded();
    // even a row that bears the name of the root is left alone
    index.put_dir(dir_row("ROOT", None, "Odd", Some(9)));
    let snapshot = index.dirs.clone();
    let quiet = (tg.messages.len(), tg.edits, tg.deleted.len());
    let err = rename_dir(&mut index, &mut tg, CHAT, "ROOT", "Top".to_string(), 1).unwrap_err();
    assert!(matches!(err, CoreError::RootDirectory(DirOp::Rename)));
    assert_eq!(err.kind(), ErrorKind::Validation);
    let err = move_dir(&mut index, &mut tg, CHAT, "ROOT", Some("D1".to_string()), 1).unwrap_err();
    assert!(matches!(err, CoreError::RootDirectory(DirOp::Move)));
    let err = delete_dir(&mut index, &mut tg, CHAT, "ROOT").unwrap_err();
    assert!(matches!(err, CoreError::RootDirectory(DirOp::Delete)));
    let err = repair_dir(&mut index, &mut tg, CHAT, "ROOT", 1).unwrap_err();
    assert!(matches!(err, CoreError::RootDirectory(DirOp::Repair)));
    assert_eq!(err.message(), "Нельзя восстановить корневую папку");
    assert_eq!(index.dirs, snapshot);
    assert_eq!((tg.messages.len(), tg.edits, tg.deleted.len()), quiet);
    assert!(matches!(check_move_dir(&index, "ROOT", &None), Err(CoreError::RootDirectory(DirOp::Move))));
}

#[test]
fn a_move_that_is_let_through_closes_no_cycle() {
    let (mut index, mut tg) = seeded();
    index.put_dir(dir_row("D3", Some("D1"), "Deep", Some(9)));
    index.put_dir(dir_row("D4", Some("D3"), "Deeper", Some(10)));
    move_dir(&mut index, &mut tg, CHAT, "D3", Some("D2".to_string()), 1).unwrap();
    move_dir(&mut index, &mut tg, CHAT, "D1", Some("D4".to_string()), 1).unwrap();
    // D1 lies under D4, D4 under D3, D3 under D2, D2 at the top
    for id in ["D1", "D2", "D3", "D4"] {
        assert!(has_ancestor(&index, id, "D2"));
        assert!(!has_ancestor(&index, "D2", id) || id == "D2");
    }
    assert!(matches!(
        move_dir(&mut index, &mut tg, CHAT, "D2", Some("D1".to_string()), 1),
        Err(CoreError::MoveIntoDescendant)
    ));
}

// ----- files ---------------------------------------------------------------

#[test]
fn upload_file_adds_the_entry() {
    let (mut index, mut tg) = seeded();
    let id = upload_file(&mut index, &mut tg, CHAT, "D2", &local("b.txt", b"hello"), 33).unwrap();
    let row = index.get_file(&id).unwrap();
    assert_eq!(row, FileEntry { id: id.clone(), dir_id: "D2".to_string(), name: "b.txt".to_string(), size: 5, hash: "2cf24dba".to_string(), tg_chat_id: CHAT, tg_msg_id: 4, created_at: 33, is_broken: false });
    let caption = tg.get(CHAT, 4).unwrap().caption.clone().unwrap();
    assert_eq!(caption, format!("#ocltg #v1 #file d=D2 f={id} n=b.txt h=2cf24dba #Archive"));
    assert_eq!(parse_file_caption(&caption).unwrap().file_id, id);
}

#[test]
fn upload_file_refuses_bad_requests() {
    let (mut index, mut tg) = seeded();
    assert!(matches!(upload_file(&mut index, &mut tg, CHAT, "nope", &local("b.txt", b"x"), 1), Err(CoreError::DirNotFound)));
    let mut not_a_file = local("dir", b"");
    not_a_file.is_file = false;
    let err = upload_file(&mut index, &mut tg, CHAT, "D1", &not_a_file, 1).unwrap_err();
    assert!(matches!(err, CoreError::SourceNotFound));
    assert_eq!(err.message(), "Файл не найден");
    tg.fail_send_file = true;
    let err = upload_file(&mut index, &mut tg, CHAT, "D1", &local("b.txt", b"x"), 1).unwrap_err();
    assert_eq!(err.message(), "ошибка ввода-вывода: upload refused");
    assert_eq!(index.files.len(), 1);
    let mut nameless = local("x", b"abc");
    nameless.file_name = None;
    tg.fail_send_file = false;
    let id = upload_file(&mut index, &mut tg, CHAT, "D1", &nameless, 1).unwrap();
    assert_eq!(index.get_file(&id).unwrap().name, "file");
}

#[test]
fn move_file_edits_the_caption_in_place() {
    let (mut index, mut tg) = seeded();
    let mut row = index.get_file("F1").unwrap();
    row.is_broken = true;
    index.put_file(row);
    move_file(&mut index, &mut tg, CHAT, "F1", "D2").unwrap();
    let row = index.get_file("F1").unwrap();
    assert_eq!((row.dir_id.as_str(), row.tg_chat_id, row.tg_msg_id, row.is_broken), ("D2", CHAT, 3, false));
    assert_eq!(tg.get(CHAT, 3).unwrap().caption.clone().unwrap(), "#ocltg #v1 #file d=D2 f=F1 n=a.txt h=deadbeef #Archive");
    assert_eq!(tg.messages.len(), 3);
}

#[test]
fn move_file_refuses_bad_requests_and_skips_no_ops() {
    let (mut index, mut tg) = seeded();
    assert!(matches!(move_file(&mut index, &mut tg, CHAT, "F1", "nope"), Err(CoreError::DirNotFound)));
    assert!(matches!(move_file(&mut index, &mut tg, CHAT, "nope", "D2"), Err(CoreError::FileNotFound)));
    tg.fail_edit_caption = true;
    move_file(&mut index, &mut tg, CHAT, "F1", "D1").unwrap();
    assert_eq!(tg.edits, 0);
}

#[test]
fn move_file_finds_the_message_again() {
    let (mut index, mut tg) = seeded();
    // the entry points at a message that is gone; the record lies elsewhere
    let mut row = index.get_file("F1").unwrap();
    row.tg_msg_id = 99;
    row.tg_chat_id = -5;
    index.put_file(row);
    move_file(&mut index, &mut tg, CHAT, "F1", "D2").unwrap();
    let row = index.get_file("F1").unwrap();
    assert_eq!((row.dir_id.as_str(), row.tg_chat_id, row.tg_msg_id), ("D2", CHAT, 3));
    assert_eq!(find_file_message(&mut tg, -5, CHAT, "F1"), Some((CHAT, 3)));
    assert_eq!(find_file_message(&mut tg, -5, CHAT, "F9"), None);
}

#[test]
fn move_file_sends_the_content_again() {
    let (mut index, mut tg) = seeded();
    tg.fail_edit_caption = true;
    move_file(&mut index, &mut tg, CHAT, "F1", "D2").unwrap();
    let row = index.get_file("F1").unwrap();
    assert_eq!((row.dir_id.as_str(), row.tg_msg_id), ("D2", 4));
    assert!(tg.get(CHAT, 3).is_none());
    assert_eq!(tg.get(CHAT, 4).unwrap().caption.clone().unwrap(), "#ocltg #v1 #file d=D2 f=F1 n=a.txt h=deadbeef #Archive");
}

#[test]
fn move_file_duplicates_as_the_last_resort() {
    let (mut index, mut tg) = seeded();
    tg.frozen = vec![3];
    tg.fail_resend = true;
    move_file(&mut index, &mut tg, CHAT, "F1", "D2").unwrap();
    let row = index.get_file("F1").unwrap();
    assert_eq!((row.dir_id.as_str(), row.tg_chat_id, row.tg_msg_id), ("D2", CHAT, 4));
    assert_eq!(tg.get(CHAT, 4).unwrap().caption.clone().unwrap(), "#ocltg #v1 #file d=D2 f=F1 n=a.txt h=deadbeef #Archive");
    assert!(tg.get(CHAT, 3).is_none());
    assert_eq!(tg.deleted, vec![vec![3]]);
    assert_eq!(tg.edits, 3);
}

#[test]
fn move_file_names_every_failed_step() {
    let (mut index, mut tg) = seeded();
    tg.fail_edit_caption = true;
    tg.fail_resend = true;
    tg.copying = Copying::Fails;
    let err = move_file(&mut index, &mut tg, CHAT, "F1", "D2").unwrap_err();
    assert_eq!(err.kind(), ErrorKind::Transport);
    let text = err.message();
    assert!(text.contains("caption refused 1"), "{text}");
    assert!(text.contains("caption refused 2"), "{text}");
    assert!(text.contains("resend refused"), "{text}");
    assert!(text.contains("copy refused"), "{text}");
    assert_eq!(
        text,
        "Не удалось скопировать файл для обновления подписи. Ошибка редактирования подписи: caption refused 1. Ошибка редактирования подписи: caption refused 2. Ошибка переотправки: resend refused. Ошибка копирования: copy refused."
    );
    let row = index.get_file("F1").unwrap();
    assert_eq!((row.dir_id.as_str(), row.tg_msg_id), ("D1", 3));
}

#[test]
fn move_file_fails_hard_when_no_copy_comes_back() {
    let (mut index, mut tg) = seeded();
    tg.fail_edit_caption = true;
    tg.fail_resend = true;
    tg.fail_search = true;
    tg.copying = Copying::GivesNoId;
    let err = move_file(&mut index, &mut tg, CHAT, "F1", "D2").unwrap_err();
    assert_eq!(
        err.message(),
        "TDLib не вернул id скопированного сообщения. Ошибка редактирования подписи: caption refused 1. Ошибка переотправки: resend refused. Возможно, в канале включена защита контента."
    );
    assert_eq!(index.get_file("F1").unwrap().dir_id, "D1");
}

#[test]
fn move_file_drops_a_copy_that_cannot_be_captioned() {
    let (mut index, mut tg) = seeded();
    tg.fail_edit_caption = true;
    tg.fail_resend = true;
    let err = move_file(&mut index, &mut tg, CHAT, "F1", "D2").unwrap_err();
    assert!(matches!(err, CoreError::Exhausted(_)));
    assert!(err.message().starts_with("Не удалось обновить подпись файла после копирования."));
    assert!(err.message().contains("caption refused 3"));
    assert_eq!(tg.deleted, vec![vec![4]]);
    assert_eq!(index.get_file("F1").unwrap().tg_msg_id, 3);
}

#[test]
fn a_move_is_settled_by_what_the_channel_answered() {
    let reasons = vec!["edit: no".to_string(), "resend: never".to_string()];
    let (mut index, _) = seeded();
    let run = MoveRun { relocated: Some((-9, 90)), reasons: reasons.clone(), end: MoveEnd::Moved(-8, 80) };
    settle_move(&mut index, "F1", "D2", &run).unwrap();
    let row = index.get_file("F1").unwrap();
    assert_eq!((row.dir_id.as_str(), row.tg_chat_id, row.tg_msg_id), ("D2", -8, 80));

    let (mut index, _) = seeded();
    index.files[0].is_broken = true;
    let run = MoveRun { relocated: Some((-9, 90)), reasons: reasons.clone(), end: MoveEnd::NoCopy };
    let err = settle_move(&mut index, "F1", "D2", &run).unwrap_err();
    assert_eq!(err.message(), "TDLib не вернул id скопированного сообщения. edit: no. resend: never. Возможно, в канале включена защита контента.");
    let row = index.get_file("F1").unwrap();
    assert_eq!((row.dir_id.as_str(), row.tg_chat_id, row.tg_msg_id, row.is_broken), ("D1", -9, 90, false));

    let (mut index, _) = seeded();
    let run = MoveRun { relocated: None, reasons: reasons.clone(), end: MoveEnd::CopyFailed };
    let err = settle_move(&mut index, "F1", "D2", &run).unwrap_err();
    assert_eq!(err.message(), "Не удалось скопировать файл для обновления подписи. edit: no. resend: never.");
    let run = MoveRun { relocated: None, reasons: Vec::new(), end: MoveEnd::CopyNotCaptioned };
    let err = settle_move(&mut index, "F1", "D2", &run).unwrap_err();
    assert_eq!(err.message(), "Не удалось обновить подпись файла после копирования.");
    assert_eq!(index.get_file("F1").unwrap(), seeded().0.get_file("F1").unwrap());
}

#[test]
fn delete_file_removes_the_entry_in_any_case() {
    let (mut index, mut tg) = seeded();
    let removed = delete_file(&mut index, &mut tg, "F1").unwrap();
    assert_eq!(removed.name, "a.txt");
    assert!(index.get_file("F1").is_none());
    assert!(tg.get(CHAT, 3).is_none());
    assert!(matches!(delete_file(&mut index, &mut tg, "F1"), Err(CoreError::FileNotFound)));
    let (mut index, mut tg) = seeded();
    tg.fail_delete = true;
    delete_file(&mut index, &mut tg, "F1").unwrap();
    assert!(index.files.is_empty());
    assert!(tg.get(CHAT, 3).is_some());
}

#[test]
fn delete_files_groups_messages_by_chat() {
    let (mut index, mut tg) = seeded();
    index.put_file(file_row("F2", "D1", "b.txt", CHAT, 10));
    index.put_file(file_row("F3", "D2", "c.txt", -42, 11));
    index.put_file(file_row("F4", "D2", "d.txt", CHAT, 12));
    let ids = vec!["F1".to_string(), "nope".to_string(), "F3".to_string(), "F2".to_string()];
    let removed = delete_files(&mut index, &mut tg, &ids);
    assert_eq!(removed.iter().map(|f| f.id.as_str()).collect::<Vec<&str>>(), vec!["F1", "F3", "F2"]);
    assert_eq!(index.files.iter().map(|f| f.id.as_str()).collect::<Vec<&str>>(), vec!["F4"]);
    assert_eq!(tg.deleted, vec![vec![3, 10], vec![11]]);
    assert!(delete_files(&mut index, &mut tg, &Vec::new()).is_empty());
}

#[test]
fn repair_file_edits_in_place_when_it_can() {
    let (mut index, mut tg) = seeded();
    let mut row = index.get_file("F1").unwrap();
    row.is_broken = true;
    index.put_file(row);
    assert_eq!(repair_file(&mut index, &mut tg, CHAT, "F1", None).unwrap(), RepairFileResult::Repaired);
    let row = index.get_file("F1").unwrap();
    assert_eq!((row.tg_msg_id, row.is_broken), (3, false));
    assert!(matches!(repair_file(&mut index, &mut tg, CHAT, "nope", None), Err(CoreError::FileNotFound)));
}

#[test]
fn repair_file_asks_for_a_source_when_the_message_is_gone() {
    let (mut index, mut tg) = seeded();
    tg.remove(CHAT, 3);
    let mut row = index.get_file("F1").unwrap();
    row.is_broken = true;
    index.put_file(row);
    assert_eq!(repair_file(&mut index, &mut tg, CHAT, "F1", None).unwrap(), RepairFileResult::NeedFile);
    assert!(index.get_file("F1").unwrap().is_broken);
    let missing = LocalSource { path: "gone.txt".to_string(), is_file: false };
    assert!(matches!(repair_file(&mut index, &mut tg, CHAT, "F1", Some(&missing)), Err(CoreError::SourceNotFound)));
    let source = LocalSource { path: "a.txt".to_string(), is_file: true };
    tg.fail_send_file = true;
    let err = repair_file(&mut index, &mut tg, CHAT, "F1", Some(&source)).unwrap_err();
    assert_eq!(err.kind(), ErrorKind::Transport);
    tg.fail_send_file = false;
    assert_eq!(repair_file(&mut index, &mut tg, CHAT, "F1", Some(&source)).unwrap(), RepairFileResult::Repaired);
    let row = index.get_file("F1").unwrap();
    assert_eq!((row.tg_chat_id, row.tg_msg_id, row.is_broken), (CHAT, 4, false));
}

#[test]
fn captions_and_bodies_are_what_the_channel_is_told() {
    let (index, _) = seeded();
    let f = index.get_file("F1").unwrap();
    assert_eq!(caption_for(&index, &f, "D2"), "#ocltg #v1 #file d=D2 f=F1 n=a.txt h=deadbeef #Archive");
    assert_eq!(caption_for(&index, &f, "nope"), "#ocltg #v1 #file d=nope f=F1 n=a.txt h=deadbeef");
    assert_eq!(dir_body("D9", &None, "New dir"), "#ocltg #v1 #dir d=D9 p=ROOT name=New_dir");
    assert_eq!(dir_body("D9", &Some("D1".to_string()), "x"), "#ocltg #v1 #dir d=D9 p=D1 name=x");
}

#[test]
fn a_file_is_shared_by_forwarding_its_message() {
    let (mut index, mut tg) = seeded();
    share_file_to_chat(&mut index, &mut tg, CHAT, "F1", -55).unwrap();
    assert_eq!(tg.get(-55, 4).unwrap().file.clone().unwrap().0, "a.txt");
    assert!(matches!(share_file_to_chat(&mut index, &mut tg, CHAT, "nope", -55), Err(CoreError::FileNotFound)));
    // the entry points at a message that is gone: it is found again
    let mut row = index.get_file("F1").unwrap();
    row.tg_msg_id = 99;
    row.is_broken = true;
    index.put_file(row);
    share_file_to_chat(&mut index, &mut tg, CHAT, "F1", -55).unwrap();
    let row = index.get_file("F1").unwrap();
    assert_eq!((row.tg_msg_id, row.is_broken), (3, false));
    tg.remove(CHAT, 3);
    let err = share_file_to_chat(&mut index, &mut tg, CHAT, "F1", -55).unwrap_err();
    assert_eq!(err.kind(), ErrorKind::Transport);
    assert_eq!(err.message(), "nothing to forward");
}

#[test]
fn downloads_are_planned_from_the_cache_listing() {
    let (index, _) = seeded();
    let none: Vec<CacheEntry> = Vec::new();
    let cached = vec![
        CacheEntry { name: "b.txt".to_string(), is_file: true, size: Some(1) },
        CacheEntry { name: "a (2).txt".to_string(), is_file: true, size: Some(9) },
    ];
    let taken = vec![CacheEntry { name: "a.txt".to_string(), is_file: false, size: None }];
    assert_eq!(plan_download(&index, "F1", &cached, false).unwrap(), DownloadPlan::UseCached(1));
    assert_eq!(plan_download(&index, "F1", &cached, true).unwrap(), DownloadPlan::Replace(1));
    assert_eq!(plan_download(&index, "F1", &none, false).unwrap(), DownloadPlan::Fetch("a.txt".to_string()));
    assert_eq!(plan_download(&index, "F1", &none, true).unwrap(), DownloadPlan::Fetch("a.txt".to_string()));
    assert_eq!(plan_download(&index, "F1", &taken, false).unwrap(), DownloadPlan::Fetch("a (1).txt".to_string()));
    assert_eq!(plan_download(&index, "F1", &taken, true).unwrap(), DownloadPlan::Fetch("a.txt".to_string()));
    assert!(matches!(plan_download(&index, "nope", &none, false), Err(CoreError::FileNotFound)));
}

#[test]
fn the_cached_copy_of_a_file_is_found_by_its_id() {
    let (index, _) = seeded();
    let entries = vec![
        CacheEntry { name: "b.txt".to_string(), is_file: true, size: Some(5) },
        CacheEntry { name: "a.txt".to_string(), is_file: true, size: Some(77) },
    ];
    assert_eq!(find_local_download_path(&index, "F1", &entries).unwrap(), Some(1));
    assert_eq!(find_local_download_path(&index, "F1", &Vec::new()).unwrap(), None);
    assert!(matches!(find_local_download_path(&index, "nope", &entries), Err(CoreError::FileNotFound)));
}

#[test]
fn a_download_finds_the_message_again() {
    let (mut index, mut tg) = seeded();
    assert_eq!(download_file(&mut index, &mut tg, CHAT, "F1", "/c/a.txt").unwrap(), "/c/a.txt");
    assert_eq!(tg.downloads, vec![(CHAT, 3, "/c/a.txt".to_string())]);
    let mut row = index.get_file("F1").unwrap();
    row.tg_chat_id = -4001;
    row.tg_msg_id = 300;
    index.put_file(row);
    tg.downloads.clear();
    assert_eq!(download_file(&mut index, &mut tg, CHAT, "F1", "/c/a.txt").unwrap(), "/c/a.txt");
    assert_eq!(tg.downloads, vec![(-4001, 300, "/c/a.txt".to_string()), (CHAT, 3, "/c/a.txt".to_string())]);
    let row = index.get_file("F1").unwrap();
    assert_eq!((row.tg_chat_id, row.tg_msg_id), (CHAT, 3));
    tg.remove(CHAT, 3);
    let err = download_file(&mut index, &mut tg, CHAT, "F1", "/c/a.txt").unwrap_err();
    assert_eq!(err.message(), "no payload");
    assert!(matches!(download_file(&mut index, &mut tg, CHAT, "nope", "/c/x"), Err(CoreError::FileNotFound)));
}

#[test]
fn the_size_of_the_local_copy_is_taken_over() {
    let (mut index, _) = seeded();
    index.resize_file("F1", 17);
    assert_eq!(index.get_file("F1").unwrap().size, 17);
    index.resize_file("F1", 0);
    index.resize_file("F1", -3);
    index.resize_file("nope", 5);
    assert_eq!(index.get_file("F1").unwrap().size, 17);
    assert_eq!(index.files.len(), 1);
}

#[test]
fn the_store_refuses_a_row_whose_id_is_taken() {
    let (mut index, _) = seeded();
    let err = index.insert_dir(dir_row("D1", None, "again", None)).unwrap_err();
    assert!(matches!(err, CoreError::Store(_)));
    assert_eq!(err.kind(), ErrorKind::Store);
    assert_eq!(err.message(), "UNIQUE constraint failed: directories.id");
    let err = index.insert_file(file_row("F1", "D2", "again", CHAT, 9)).unwrap_err();
    assert_eq!(err.kind(), ErrorKind::Store);
    assert_eq!(err.message(), "UNIQUE constraint failed: files.id");
    assert_eq!(index.get_dir("D1").unwrap().name, "Docs");
    assert_eq!(index.get_file("F1").unwrap().dir_id, "D1");
    index.insert_dir(dir_row("D7", None, "new", None)).unwrap();
    index.insert_file(file_row("F7", "D7", "new", CHAT, 9)).unwrap();
    assert_eq!((index.dirs.len(), index.files.len()), (3, 2));
}

// ----- indexer -------------------------------------------------------------

fn text_msg(id: i64, text: &str) -> HistoryMessage {
    HistoryMessage { id, date: 500, text: Some(text.to_string()), caption: None, file_size: None, file_name: None }
}

fn file_msg(id: i64, caption: Option<&str>, name: Option<&str>, size: Option<i64>) -> HistoryMessage {
    HistoryMessage { id, date: 600, text: None, caption: caption.map(|c| c.to_string()), file_size: size, file_name: name.map(|n| n.to_string()) }
}

const DIR_SEEN: IndexOutcome = IndexOutcome { dir: true, file: false, imported: false, skipped: false, failed: false };
const FILE_SEEN: IndexOutcome = IndexOutcome { dir: false, file: true, imported: false, skipped: false, failed: false };
const IMPORTED: IndexOutcome = IndexOutcome { dir: false, file: true, imported: true, skipped: false, failed: false };
const SKIPPED: IndexOutcome = IndexOutcome { dir: false, file: false, imported: false, skipped: true, failed: false };

#[test]
fn a_directory_record_is_upserted() {
    let mut tg = Fake::new();
    let mut index = Index::new();
    let mut cache = None;
    let out = index_storage_message(&mut index, &mut tg, CHAT, &text_msg(7, "#ocltg #v1 #dir d=A p=P name=My_Dir"), &mut cache, 1).unwrap();
    assert_eq!(out, DIR_SEEN);
    assert_eq!(index.dirs.len(), 2);
    assert_eq!(index.get_dir("P").unwrap(), DirectoryEntry { id: "P".to_string(), parent_id: None, name: "Неизвестная папка".to_string(), tg_msg_id: None, updated_at: 500, is_broken: false });
    assert_eq!(index.get_dir("A").unwrap(), DirectoryEntry { id: "A".to_string(), parent_id: Some("P".to_string()), name: "My Dir".to_string(), tg_msg_id: Some(7), updated_at: 500, is_broken: false });
}

#[test]
fn a_directory_record_clears_the_flag() {
    let mut index = Index::new();
    let mut row = dir_row("A", Some("X"), "old", Some(1));
    row.is_broken = true;
    index.put_dir(row);
    upsert_dir(&mut index, &DirMeta { dir_id: "A".to_string(), parent_id: "ROOT".to_string(), name: "new".to_string() }, 9, 50);
    assert_eq!(index.dirs, vec![DirectoryEntry { id: "A".to_string(), parent_id: None, name: "new".to_string(), tg_msg_id: Some(9), updated_at: 50, is_broken: false }]);
}

#[test]
fn a_file_record_is_upserted() {
    let mut tg = Fake::new();
    let mut index = Index::new();
    let mut cache = None;
    let msg = file_msg(8, Some("#ocltg #v1 #file d=A f=F n=a_b.txt h=12345678 #A"), Some("a b.txt"), Some(42));
    assert_eq!(index_storage_message(&mut index, &mut tg, CHAT, &msg, &mut cache, 1).unwrap(), FILE_SEEN);
    assert_eq!(index.files, vec![FileEntry { id: "F".to_string(), dir_id: "A".to_string(), name: "a b.txt".to_string(), size: 42, hash: "12345678".to_string(), tg_chat_id: CHAT, tg_msg_id: 8, created_at: 600, is_broken: false }]);
    // the same file seen again under another message keeps its date and its flag
    index.files[0].is_broken = true;
    upsert_file(&mut index, &FileMeta { dir_id: "B".to_string(), file_id: "F".to_string(), name: "c.txt".to_string(), hash_short: "87654321".to_string() }, -3, 9, 700, 0);
    assert_eq!(index.files, vec![FileEntry { id: "F".to_string(), dir_id: "B".to_string(), name: "c.txt".to_string(), size: 0, hash: "87654321".to_string(), tg_chat_id: -3, tg_msg_id: 9, created_at: 600, is_broken: true }]);
}

#[test]
fn a_placeholder_is_resolved_by_the_directory_record() {
    let mut index = Index::new();
    upsert_file(&mut index, &FileMeta { dir_id: "A".to_string(), file_id: "F".to_string(), name: "a.txt".to_string(), hash_short: "12345678".to_string() }, CHAT, 8, 600, 1);
    assert_eq!(index.dirs.len(), 1);
    assert_eq!(index.dirs[0].name, "Неизвестная папка");
    upsert_file(&mut index, &FileMeta { dir_id: "A".to_string(), file_id: "G".to_string(), name: "b.txt".to_string(), hash_short: "12345678".to_string() }, CHAT, 9, 600, 1);
    assert_eq!(index.dirs.len(), 1);
    upsert_dir(&mut index, &DirMeta { dir_id: "A".to_string(), parent_id: "ROOT".to_string(), name: "Real".to_string() }, 2, 650);
    assert_eq!(index.dirs, vec![DirectoryEntry { id: "A".to_string(), parent_id: None, name: "Real".to_string(), tg_msg_id: Some(2), updated_at: 650, is_broken: false }]);
}

#[test]
fn a_blank_directory_gets_no_placeholder() {
    let mut index = Index::new();
    upsert_file(&mut index, &FileMeta { dir_id: "".to_string(), file_id: "F".to_string(), name: "a".to_string(), hash_short: "h".to_string() }, CHAT, 8, 600, 1);
    assert!(index.dirs.is_empty());
    assert_eq!(index.files.len(), 1);
}

#[test]
fn messages_without_file_or_record_are_skipped() {
    let mut tg = Fake::new();
    let mut index = Index::new();
    let mut cache = None;
    assert_eq!(index_storage_message(&mut index, &mut tg, CHAT, &text_msg(1, "hello"), &mut cache, 1).unwrap(), SKIPPED);
    assert_eq!(index_storage_message(&mut index, &mut tg, CHAT, &file_msg(2, Some("x"), Some("  "), None), &mut cache, 1).unwrap(), SKIPPED);
    assert!(index.dirs.is_empty() && index.files.is_empty());
}

#[test]
fn directories_of_a_name_are_chosen_top_level_first() {
    let mut index = Index::new();
    index.put_dir(DirectoryEntry { updated_at: 9, ..dir_row("A", Some("X"), "docs", None) });
    index.put_dir(DirectoryEntry { updated_at: 1, ..dir_row("B", None, "DOCS", None) });
    index.put_dir(DirectoryEntry { updated_at: 5, ..dir_row("C", None, "Docs", None) });
    index.put_dir(DirectoryEntry { updated_at: 5, ..dir_row("D", None, "dOcs", None) });
    assert_eq!(find_dir_by_name(&index, "Docs"), Some(("C".to_string(), "Docs".to_string())));
    assert_eq!(find_dir_by_name(&index, "nothing"), None);
}

#[test]
fn import_targets_follow_the_tags() {
    let mut index = Index::new();
    index.put_dir(dir_row("A", None, "My Notes", None));
    assert!(matches!(pick_import_target(&index, "x #other #my_notes #third"), ImportTarget::Existing(id, name) if id == "A" && name == "My Notes"));
    assert!(matches!(pick_import_target(&index, "x #other-one #third"), ImportTarget::Create(name) if name == "other one"));
    assert!(matches!(pick_import_target(&index, "no tags, #file #_"), ImportTarget::Unassigned));
}

#[test]
fn an_attachment_is_imported_into_the_folder_of_its_tag() {
    let mut tg = Fake::new();
    let mut index = Index::new();
    index.put_dir(dir_row("A", None, "Photos", Some(50)));
    let id = tg.push(CHAT, None, Some("sunset #photos".to_string()), Some(("sun.jpg".to_string(), 1234)));
    let mut msg = Fake::to_history(tg.get(CHAT, id).unwrap());
    msg.date = 0;
    let mut cache = None;
    assert_eq!(index_storage_message(&mut index, &mut tg, CHAT, &msg, &mut cache, 4242).unwrap(), IMPORTED);
    assert_eq!(index.files.len(), 1);
    let row = &index.files[0];
    assert_eq!(row.id.len(), 26);
    assert_eq!((row.dir_id.as_str(), row.name.as_str(), row.size, row.tg_chat_id, row.tg_msg_id, row.created_at, row.is_broken), ("A", "sun.jpg", 1234, CHAT, id, 4242, false));
    assert_eq!(row.hash, cloudtg::digest::hash_short_from_seed(&format!("{CHAT}:{id}:sun.jpg:1234")));
    let caption = tg.get(CHAT, id).unwrap().caption.clone().unwrap();
    assert_eq!(caption, format!("#ocltg #v1 #file d=A f={} n=sun.jpg h={} #Photos", row.id, row.hash));
}

#[test]
fn indexing_an_attachment_twice_adds_one_row() {
    let mut tg = Fake::new();
    tg.fail_edit_caption = true;
    let mut index = Index::new();
    let id = tg.push(CHAT, None, None, Some(("".to_string(), 9)));
    let msg = Fake::to_history(tg.get(CHAT, id).unwrap());
    let mut cache = None;
    assert_eq!(import_untagged_file(&mut index, &mut tg, CHAT, &msg, &mut cache, 1).unwrap(), ImportAction::Imported);
    assert_eq!(tg.pauses, vec![600]);
    let snapshot = (index.dirs.clone(), index.files.clone());
    assert_eq!(import_untagged_file(&mut index, &mut tg, CHAT, &msg, &mut cache, 2).unwrap(), ImportAction::Skipped);
    assert_eq!(index_storage_message(&mut index, &mut tg, CHAT, &msg, &mut cache, 3).unwrap(), SKIPPED);
    assert_eq!((index.dirs.clone(), index.files.clone()), snapshot);
    assert_eq!(index.files.len(), 1);
    assert_eq!(index.files[0].name, format!("файл_{id}"));
    assert_eq!(index.files[0].created_at, 1000 + id);
    // the file went to the directory for files without a folder, made for it
    assert_eq!(index.dirs.len(), 1);
    assert_eq!(index.dirs[0].name, "Неразобранное");
    assert_eq!(cache, Some((index.dirs[0].id.clone(), "Неразобранное".to_string())));
}

#[test]
fn a_new_directory_is_made_for_an_unknown_tag() {
    let mut tg = Fake::new();
    let mut index = Index::new();
    let id = tg.push(CHAT, None, Some("#Trip_2024".to_string()), Some(("a.jpg".to_string(), 1)));
    let msg = Fake::to_history(tg.get(CHAT, id).unwrap());
    let mut cache = None;
    assert_eq!(import_untagged_file(&mut index, &mut tg, CHAT, &msg, &mut cache, 1).unwrap(), ImportAction::Imported);
    assert_eq!(index.dirs.len(), 1);
    assert_eq!(index.dirs[0].name, "Trip 2024");
    assert_eq!(index.files[0].dir_id, index.dirs[0].id);
    assert_eq!(cache, None);
    assert!(tg.get(CHAT, id).unwrap().caption.clone().unwrap().ends_with(" #Trip_2024"));
}

#[test]
fn the_remembered_directory_takes_files_without_a_folder() {
    let mut tg = Fake::new();
    let mut index = Index::new();
    index.put_dir(dir_row("P", None, "Photos", Some(50)));
    index.put_dir(dir_row("U", None, "elsewhere", Some(51)));
    let mut cache = Some(("U".to_string(), "elsewhere".to_string()));
    let a = tg.push(CHAT, None, Some("no tags".to_string()), Some(("a.bin".to_string(), 1)));
    let msg = Fake::to_history(tg.get(CHAT, a).unwrap());
    assert_eq!(import_untagged_file(&mut index, &mut tg, CHAT, &msg, &mut cache, 1).unwrap(), ImportAction::Imported);
    assert_eq!(index.files[0].dir_id, "U");
    assert_eq!(index.dirs.len(), 2);
    assert_eq!(cache, Some(("U".to_string(), "elsewhere".to_string())));
    // a tag that names a directory decides, and what is remembered stays
    let b = tg.push(CHAT, None, Some("#photos".to_string()), Some(("b.bin".to_string(), 1)));
    let msg = Fake::to_history(tg.get(CHAT, b).unwrap());
    tg.fail_send_dir = true;
    assert_eq!(import_untagged_file(&mut index, &mut tg, CHAT, &msg, &mut cache, 1).unwrap(), ImportAction::Imported);
    assert_eq!(index.files[1].dir_id, "P");
    assert_eq!(index.dirs.len(), 2);
    assert_eq!(cache, Some(("U".to_string(), "elsewhere".to_string())));
}

#[test]
fn the_directory_for_files_without_a_folder_is_looked_up_before_it_is_made() {
    let mut tg = Fake::new();
    tg.fail_send_dir = true;
    let mut index = Index::new();
    index.put_dir(dir_row("U", Some("X"), "Неразобранное", Some(50)));
    let mut cache = None;
    let a = tg.push(CHAT, None, None, Some(("a.bin".to_string(), 1)));
    let msg = Fake::to_history(tg.get(CHAT, a).unwrap());
    assert_eq!(import_untagged_file(&mut index, &mut tg, CHAT, &msg, &mut cache, 1).unwrap(), ImportAction::Imported);
    assert_eq!(cache, Some(("U".to_string(), "Неразобранное".to_string())));
    assert_eq!(index.files[0].dir_id, "U");
    assert_eq!(index.dirs.len(), 1);
    // nothing is remembered where the directory could not be made
    let mut empty = Index::new();
    let mut cache = None;
    assert!(import_untagged_file(&mut empty, &mut tg, CHAT, &msg, &mut cache, 1).is_err());
    assert_eq!(cache, None);
    assert_eq!(empty.dirs.len(), 1);
    assert_eq!(empty.dirs[0].tg_msg_id, None);
}

#[test]
fn an_attachment_that_vanished_is_skipped() {
    let mut tg = Fake::new();
    tg.hide_messages = true;
    let mut index = Index::new();
    index.put_dir(dir_row("A", None, "Photos", Some(50)));
    let msg = file_msg(77, Some("#photos"), Some("a.jpg"), Some(1));
    let mut cache = None;
    assert_eq!(index_storage_message(&mut index, &mut tg, CHAT, &msg, &mut cache, 1).unwrap(), SKIPPED);
    assert!(index.files.is_empty());
    assert_eq!(tg.pauses, vec![600, 150, 500, 1000, 1500]);
}

#[test]
fn an_import_that_cannot_make_its_directory_fails() {
    let mut tg = Fake::new();
    tg.fail_send_dir = true;
    let mut index = Index::new();
    let msg = file_msg(77, None, Some("a.jpg"), Some(1));
    let mut cache = None;
    let err = index_storage_message(&mut index, &mut tg, CHAT, &msg, &mut cache, 1).unwrap_err();
    assert_eq!(err.kind(), ErrorKind::Transport);
    assert!(index.files.is_empty());
}

// ----- reconciliation ------------------------------------------------------

#[test]
fn marking_flags_what_was_not_seen() {
    let mut index = Index::new();
    index.put_dir(dir_row("A", None, "a", Some(10)));
    index.put_dir(dir_row("B", None, "b", Some(20)));
    index.put_dir(DirectoryEntry { is_broken: true, ..dir_row("C", None, "c", Some(30)) });
    index.put_dir(DirectoryEntry { is_broken: true, ..dir_row("D", None, "d", Some(5)) });
    index.put_dir(dir_row("E", None, "e", None));
    assert_eq!(mark_broken_dirs(&mut index, 10, &vec![10, 30]), (1, 1));
    let flags: Vec<bool> = index.dirs.iter().map(|d| d.is_broken).collect();
    assert_eq!(flags, vec![false, true, false, true, false]);
    assert_eq!(mark_broken_dirs(&mut index, 10, &vec![10, 30]), (0, 0));
    index.put_file(file_row("F", "A", "f", CHAT, 15));
    index.put_file(file_row("G", "A", "g", -1, 15));
    index.put_file(file_row("H", "A", "h", CHAT, 0));
    assert_eq!(mark_broken_files(&mut index, CHAT, 10, &vec![]), (1, 0));
    let flags: Vec<bool> = index.files.iter().map(|f| f.is_broken).collect();
    assert_eq!(flags, vec![true, false, false]);
    assert_eq!(mark_broken_files(&mut index, CHAT, 10, &vec![15]), (0, 1));
}

#[test]
fn a_window_without_positive_ids_marks_nothing() {
    let mut index = Index::new();
    index.put_dir(dir_row("A", None, "a", Some(10)));
    let mut sync = SyncState::new();
    let stats = close_window(&mut index, &mut sync, CHAT, 0, 0, &vec![], &vec![], "now");
    assert_eq!((stats.marked_dirs, stats.cleared_dirs, stats.marked_files, stats.cleared_files), (0, 0, 0, 0));
    assert!(!index.dirs[0].is_broken);
    assert_eq!(read_watermark(&sync), 0);
    assert_eq!(get_sync(&sync, "storage_reconcile_done"), Some("now".to_string()));
}

#[test]
fn reconcile_flags_and_clears_within_the_window() {
    let (mut index, mut tg) = seeded();
    let mut sync = SyncState::new();
    tg.remove(CHAT, 3);
    index.put_dir(DirectoryEntry { is_broken: true, ..index.get_dir("D2").unwrap() });
    let out = reconcile_recent(&mut index, &mut sync, &mut tg, CHAT, 50, 1, "t1").unwrap();
    assert_eq!((out.scanned, out.dir_seen, out.file_seen, out.imported, out.failed), (2, 2, 0, 0, 0));
    assert_eq!((out.marked_dirs, out.cleared_dirs, out.marked_files, out.cleared_files), (0, 0, 1, 0));
    assert_eq!((out.min_message_id, out.max_message_id), (1, 2));
    assert!(index.get_file("F1").unwrap().is_broken);
    assert!(!index.get_dir("D2").unwrap().is_broken);
    assert_eq!(read_watermark(&sync), 2);
    assert_eq!(get_sync(&sync, "storage_reconcile_done"), Some("t1".to_string()));
    // nothing changed remotely: a second run flips nothing
    let again = reconcile_recent(&mut index, &mut sync, &mut tg, CHAT, 50, 2, "t2").unwrap();
    assert_eq!((again.marked_dirs, again.cleared_dirs, again.marked_files, again.cleared_files), (0, 0, 0, 0));
    assert!(index.get_file("F1").unwrap().is_broken);
    assert_eq!(index.dirs.len(), 2);
    assert_eq!(index.files.len(), 1);
}

#[test]
fn reconcile_leaves_entries_below_the_window_alone() {
    let (mut index, mut tg) = seeded();
    let mut sync = SyncState::new();
    set_sync(&mut sync, "storage_last_message_id", "100");
    tg.remove(CHAT, 1);
    let out = reconcile_recent(&mut index, &mut sync, &mut tg, CHAT, 1, 1, "t").unwrap();
    assert_eq!((out.scanned, out.min_message_id, out.max_message_id), (1, 3, 3));
    assert!(!index.get_dir("D1").unwrap().is_broken);
    assert!(!index.get_dir("D2").unwrap().is_broken);
    assert_eq!(read_watermark(&sync), 100);
    let out = reconcile_recent(&mut index, &mut sync, &mut tg, CHAT, -5, 1, "t").unwrap();
    assert_eq!(out.scanned, 1);
}

#[test]
fn reconcile_changes_nothing_when_the_history_fails_or_is_empty() {
    let (mut index, mut tg) = seeded();
    let mut sync = SyncState::new();
    tg.fail_history = true;
    let err = reconcile_recent(&mut index, &mut sync, &mut tg, CHAT, 50, 1, "t").unwrap_err();
    assert_eq!(err.kind(), ErrorKind::Transport);
    assert_eq!(err.message(), "требуется авторизация");
    let mut empty = Fake::new();
    let out = reconcile_recent(&mut index, &mut sync, &mut empty, CHAT, 50, 1, "t").unwrap();
    assert_eq!(out.scanned, 0);
    assert!(sync.entries.is_empty());
    assert!(!index.get_file("F1").unwrap().is_broken);
}

#[test]
fn reconcile_counts_a_failed_message_and_goes_on() {
    let (mut index, mut tg) = seeded();
    let mut sync = SyncState::new();
    tg.push(CHAT, None, None, Some(("stray.bin".to_string(), 3)));
    tg.fail_send_dir = true;
    let out = reconcile_recent(&mut index, &mut sync, &mut tg, CHAT, 50, 1, "t").unwrap();
    assert_eq!((out.scanned, out.dir_seen, out.file_seen, out.failed), (4, 2, 1, 1));
    assert_eq!(read_watermark(&sync), 4);
}

#[test]
fn pages_are_asked_for_and_taken_as_far_as_wanted() {
    assert_eq!(page_limit(1), 1);
    assert_eq!(page_limit(99), 99);
    assert_eq!(page_limit(100), 100);
    assert_eq!(page_limit(5000), 100);
    assert_eq!(page_limit(0), 0);
    assert_eq!(page_limit(-3), 0);
    let page = vec![text_msg(9, "a"), text_msg(8, "b"), text_msg(7, "c")];
    let mut out = vec![text_msg(10, "z")];
    assert_eq!(take_page(&mut out, &page, 2), 0);
    assert_eq!(out.iter().map(|m| m.id).collect::<Vec<i64>>(), vec![10, 9, 8]);
    assert_eq!(take_page(&mut out, &page, 5), 2);
    assert_eq!(out.iter().map(|m| m.id).collect::<Vec<i64>>(), vec![10, 9, 8, 9, 8, 7]);
    assert_eq!(take_page(&mut out, &page, 0), 0);
    assert_eq!(take_page(&mut out, &Vec::new(), 4), 4);
    assert_eq!(out.len(), 6);
}

#[test]
fn a_publication_gives_its_message_or_the_words_of_the_transport() {
    let sent = UploadedMessage { chat_id: CHAT, message_id: 12, caption_or_text: "x".to_string() };
    assert!(matches!(published_message(Ok(sent)), Ok(12)));
    let err = published_message(Err(TgError::Io("disk".to_string()))).unwrap_err();
    assert!(matches!(err, CoreError::Transport(_)));
    assert_eq!(err.message(), "ошибка ввода-вывода: disk");
    assert_eq!(both_failures(&TgError::AuthRequired, &TgError::Other("late".to_string())), "требуется авторизация; late");
}

#[test]
fn recent_messages_are_read_page_by_page() {
    let mut tg = Fake::new();
    for i in 0..7 {
        tg.push(CHAT, Some(format!("m{i}")), None, None);
    }
    tg.page_size = 3;
    let got = fetch_recent_messages(&mut tg, CHAT, 5).unwrap();
    assert_eq!(got.iter().map(|m| m.id).collect::<Vec<i64>>(), vec![7, 6, 5, 4, 3]);
    let all = fetch_recent_messages(&mut tg, CHAT, 100).unwrap();
    assert_eq!(all.len(), 7);
    assert_eq!(fetch_recent_messages(&mut tg, CHAT, 0).unwrap().len(), 1);
}

#[test]
fn a_full_read_stops_at_the_watermark() {
    let (_, mut tg) = seeded();
    tg.page_size = 2;
    let mut index = Index::new();
    let mut sync = SyncState::new();
    let stats = sync_storage(&mut index, &mut sync, &mut tg, CHAT, 1, "t1").unwrap();
    assert_eq!((stats.processed, stats.dirs, stats.files, stats.imported, stats.failed), (3, 2, 1, 0, 0));
    assert_eq!(read_watermark(&sync), 3);
    assert_eq!(get_sync(&sync, "storage_sync_done"), Some("t1".to_string()));
    assert_eq!(index.dirs.len(), 2);
    tg.push(CHAT, Some("#ocltg #v1 #dir d=D9 p=D1 name=New".to_string()), None, None);
    let stats = sync_storage(&mut index, &mut sync, &mut tg, CHAT, 2, "t2").unwrap();
    assert_eq!((stats.processed, stats.dirs), (1, 1));
    assert_eq!(read_watermark(&sync), 4);
    let stats = sync_storage(&mut index, &mut sync, &mut tg, CHAT, 3, "t3").unwrap();
    assert_eq!(stats.processed, 0);
    assert_eq!(read_watermark(&sync), 4);
    assert_eq!(get_sync(&sync, "storage_sync_done"), Some("t3".to_string()));
}

#[test]
fn an_index_is_rebuilt_from_the_channel() {
    let (seed, mut tg) = seeded();
    let (index, sync, stats) = rebuild_storage(&mut tg, CHAT, 1, "t").unwrap();
    assert_eq!(stats.processed, 3);
    assert_eq!(get_sync(&sync, "storage_chat_id"), Some(CHAT.to_string()));
    assert_eq!(index.files.len(), 1);
    assert_eq!(index.get_file("F1").unwrap().dir_id, seed.get_file("F1").unwrap().dir_id);
    assert_eq!(index.get_dir("D1").unwrap().name, "Docs");
    tg.fail_history = true;
    assert!(rebuild_storage(&mut tg, CHAT, 1, "t").is_err());
}

// ----- from end to end -----------------------------------------------------

#[test]
fn a_life_of_a_file() {
    let mut tg = Fake::new();
    let mut index = Index::new();
    let mut sync = SyncState::new();
    let d1 = create_dir(&mut index, &mut tg, CHAT, None, "Docs".to_string(), 1).unwrap();
    let d2 = create_dir(&mut index, &mut tg, CHAT, None, "Archive".to_string(), 2).unwrap();
    assert_eq!(index.get_dir(&d1).unwrap().tg_msg_id, Some(1));
    assert_eq!(index.get_dir(&d2).unwrap().tg_msg_id, Some(2));
    let f1 = upload_file(&mut index, &mut tg, CHAT, &d1, &local("a.txt", b"hello"), 3).unwrap();
    let row = index.get_file(&f1).unwrap();
    assert_eq!((row.size, row.tg_msg_id, row.hash.as_str()), (5, 3, "2cf24dba"));

    move_file(&mut index, &mut tg, CHAT, &f1, &d2).unwrap();
    let row = index.get_file(&f1).unwrap();
    assert_eq!((row.dir_id.clone(), row.tg_msg_id), (d2.clone(), 3));

    delete_dir(&mut index, &mut tg, CHAT, &d1).unwrap();
    assert!(!index.dir_exists(&d1));

    tg.remove(CHAT, 3);
    let out = reconcile_recent(&mut index, &mut sync, &mut tg, CHAT, 50, 4, "t").unwrap();
    assert_eq!(out.marked_files, 1);
    assert!(index.get_file(&f1).unwrap().is_broken);

    let source = LocalSource { path: "a.txt".to_string(), is_file: true };
    assert_eq!(repair_file(&mut index, &mut tg, CHAT, &f1, Some(&source)).unwrap(), RepairFileResult::Repaired);
    let row = index.get_file(&f1).unwrap();
    assert_eq!((row.tg_msg_id, row.is_broken, row.dir_id.clone()), (4, false, d2.clone()));
    let caption = tg.get(CHAT, 4).unwrap().caption.clone().unwrap();
    assert_eq!(caption, make_file_caption(&FileMeta { dir_id: d2.clone(), file_id: f1.clone(), name: "a.txt".to_string(), hash_short: "2cf24dba".to_string() }) + " #Archive");
    assert_eq!(make_dir_message(&DirMeta { dir_id: d2.clone(), parent_id: "ROOT".to_string(), name: "Archive".to_string() }), tg.get(CHAT, 2).unwrap().text.clone().unwrap());
}

// ----- what the channel is not asked -----------------------------------------

fn asked(tg: &Fake) -> (usize, usize, usize, usize, usize) {
    (tg.messages.len(), tg.edits, tg.deleted.len(), tg.pauses.len(), tg.downloads.len())
}

#[test]
fn a_refused_request_asks_nothing_of_the_channel() {
    let (mut index, mut tg) = seeded();
    index.put_dir(dir_row("D3", Some("D1"), "Deep", Some(9)));
    let quiet = asked(&tg);
    assert!(move_dir(&mut index, &mut tg, CHAT, "D1", Some("D1".to_string()), 1).is_err());
    assert!(move_dir(&mut index, &mut tg, CHAT, "D1", Some("D3".to_string()), 1).is_err());
    assert!(rename_dir(&mut index, &mut tg, CHAT, "D1", "   ".to_string(), 1).is_err());
    rename_dir(&mut index, &mut tg, CHAT, "D1", " Docs ".to_string(), 1).unwrap();
    assert!(delete_dir(&mut index, &mut tg, CHAT, "D1").is_err());
    move_file(&mut index, &mut tg, CHAT, "F1", "D1").unwrap();
    assert!(move_file(&mut index, &mut tg, CHAT, "F1", "nope").is_err());
    assert!(upload_file(&mut index, &mut tg, CHAT, "nope", &local("a.txt", b"x"), 1).is_err());
    assert!(repair_file(&mut index, &mut tg, CHAT, "nope", None).is_err());
    assert!(delete_file(&mut index, &mut tg, "nope").is_err());
    assert_eq!(asked(&tg), quiet);
}

#[test]
fn a_message_that_is_no_import_asks_nothing_of_the_channel() {
    let (mut index, mut tg) = seeded();
    let quiet = asked(&tg);
    let mut cache = Some(("D2".to_string(), "Archive".to_string()));
    let backed = file_msg(3, Some("holiday"), Some("a.txt"), Some(5));
    assert_eq!(index_storage_message(&mut index, &mut tg, CHAT, &backed, &mut cache, 1).unwrap(), SKIPPED);
    let nothing = text_msg(40, "hello");
    assert_eq!(index_storage_message(&mut index, &mut tg, CHAT, &nothing, &mut cache, 1).unwrap(), SKIPPED);
    assert_eq!(asked(&tg), quiet);
    assert_eq!(cache, Some(("D2".to_string(), "Archive".to_string())));
    assert_eq!((index.dirs.len(), index.files.len()), (2, 1));
}

#[test]
fn an_id_that_is_taken_is_refused_before_anything_is_published() {
    let (mut index, mut tg) = seeded();
    let quiet = asked(&tg);
    let err = create_dir_with_id(&mut index, &mut tg, CHAT, "D1".to_string(), None, "Twice".to_string(), 1).unwrap_err();
    assert_eq!(err.kind(), ErrorKind::Store);
    assert_eq!(err.message(), "UNIQUE constraint failed: directories.id");
    assert_eq!(asked(&tg), quiet);
    assert_eq!(index.dirs.len(), 2);
    let id = create_dir_with_id(&mut index, &mut tg, CHAT, "D7".to_string(), Some("D1".to_string()), "Sub".to_string(), 5).unwrap();
    assert_eq!(id, "D7");
    let made = index.get_dir("D7").unwrap();
    assert_eq!((made.parent_id.as_deref(), made.name.as_str(), made.tg_msg_id, made.updated_at), (Some("D1"), "Sub", Some(4), 5));
    tg.fail_send_dir = true;
    let err = create_dir_with_id(&mut index, &mut tg, CHAT, "D8".to_string(), None, "Late".to_string(), 6).unwrap_err();
    assert_eq!(err.kind(), ErrorKind::Transport);
    assert_eq!(index.get_dir("D8").unwrap().tg_msg_id, None);
}

#[test]
fn a_repair_publishes_the_copy_when_nothing_else_helps() {
    let (mut index, mut tg) = seeded();
    tg.remove(CHAT, 3);
    index.put_file(FileEntry { is_broken: true, ..index.get_file("F1").unwrap() });
    let source = LocalSource { path: "/tmp/a.txt".to_string(), is_file: true };
    assert_eq!(repair_file(&mut index, &mut tg, CHAT, "F1", Some(&source)).unwrap(), RepairFileResult::Repaired);
    let row = index.get_file("F1").unwrap();
    assert_eq!((row.tg_chat_id, row.tg_msg_id, row.is_broken), (CHAT, 4, false));
    assert_eq!(tg.get(CHAT, 4).unwrap().caption.as_deref(), Some("#ocltg #v1 #file d=D1 f=F1 n=a.txt h=deadbeef #Docs"));
}

// ----- scans ---------------------------------------------------------------

#[test]
fn a_scan_counts_what_the_messages_are() {
    let (_, mut tg) = seeded();
    tg.push(CHAT, Some("hello".to_string()), None, None);
    tg.push(CHAT, None, Some("#Docs".to_string()), Some(("b.txt".to_string(), 2)));
    let messages = fetch_recent_messages(&mut tg, CHAT, 50).unwrap();
    let mut index = Index::new();
    let mut cache = None;
    let outcomes = scan_messages(&mut index, &mut tg, CHAT, &messages, &mut cache, 1);
    assert_eq!(outcomes, vec![IMPORTED, SKIPPED, FILE_SEEN, DIR_SEEN, DIR_SEEN]);
    assert_eq!(tally(&outcomes), ScanCounts { dir_seen: 2, file_seen: 2, imported: 1, failed: 0 });
    // read newest first: the attachment found no directory `Docs` yet
    let names: Vec<&str> = index.dirs.iter().map(|d| d.name.as_str()).collect();
    assert_eq!(names, vec!["Docs", "Docs", "Archive"]);
    assert_eq!(index.dirs[1].id, "D1");
    assert_eq!(index.files.len(), 2);
    assert_eq!(index.files[0].dir_id, index.dirs[0].id);
    assert_eq!(index.files[1].id, "F1");
}

#[test]
fn a_scan_of_records_leaves_the_channel_alone() {
    let (_, mut tg) = seeded();
    let messages = fetch_recent_messages(&mut tg, CHAT, 50).unwrap();
    let quiet = asked(&tg);
    let mut index = Index::new();
    let mut cache = None;
    let outcomes = scan_messages(&mut index, &mut tg, CHAT, &messages, &mut cache, 1);
    assert_eq!(outcomes, vec![FILE_SEEN, DIR_SEEN, DIR_SEEN]);
    assert_eq!(asked(&tg), quiet);
    assert_eq!(cache, None);
    // the file came first and left a placeholder for its directory
    let ids: Vec<&str> = index.dirs.iter().map(|d| d.id.as_str()).collect();
    assert_eq!(ids, vec!["D1", "D2"]);
    assert_eq!((index.dirs[0].name.as_str(), index.dirs[0].tg_msg_id), ("Docs", Some(1)));
    assert_eq!(index.files[0].tg_msg_id, 3);
}

#[test]
fn messages_that_were_read_are_reconciled() {
    let (mut index, mut tg) = seeded();
    let mut sync = SyncState::new();
    let messages = vec![
        file_msg(3, Some("#ocltg #v1 #file d=D1 f=F1 n=a.txt h=deadbeef #Docs"), Some("a.txt"), Some(5)),
        text_msg(2, "#ocltg #v1 #dir d=D2 p=ROOT name=Archive"),
    ];
    index.put_file(FileEntry { is_broken: true, ..index.get_file("F1").unwrap() });
    let out = reconcile_messages(&mut index, &mut sync, &mut tg, CHAT, &messages, 1, "t");
    assert_eq!((out.scanned, out.dir_seen, out.file_seen, out.imported, out.failed), (2, 1, 1, 0, 0));
    assert_eq!((out.min_message_id, out.max_message_id), (2, 3));
    assert_eq!((out.marked_dirs, out.cleared_dirs, out.marked_files, out.cleared_files), (0, 0, 0, 1));
    // the message of D1 lies below the window
    assert!(!index.get_dir("D1").unwrap().is_broken);
    assert!(!index.get_file("F1").unwrap().is_broken);
    assert_eq!(read_watermark(&sync), 3);
    let nothing = reconcile_messages(&mut index, &mut sync, &mut tg, CHAT, &Vec::new(), 1, "later");
    assert_eq!((nothing.scanned, nothing.min_message_id, nothing.max_message_id), (0, 0, 0));
    assert_eq!(get_sync(&sync, "storage_reconcile_done"), Some("t".to_string()));
}

#[test]
fn a_directory_that_an_import_made_is_confirmed_by_the_next_run() {
    let (mut index, mut tg) = seeded();
    let mut sync = SyncState::new();
    tg.push(CHAT, None, Some("#Photos".to_string()), Some(("sun.jpg".to_string(), 7)));
    let out = reconcile_recent(&mut index, &mut sync, &mut tg, CHAT, 50, 1, "t1").unwrap();
    assert_eq!((out.scanned, out.dir_seen, out.file_seen, out.imported, out.failed), (4, 2, 2, 1, 0));
    // the message of the new directory was published after the window was
    // read: no message of the window confirms it
    assert_eq!((out.marked_dirs, out.cleared_dirs, out.marked_files, out.cleared_files), (1, 0, 0, 0));
    let made = index.dirs.last().unwrap();
    assert_eq!((made.name.as_str(), made.tg_msg_id, made.is_broken), ("Photos", Some(5), true));
    assert!(index.files.iter().all(|f| !f.is_broken));
    // the next run reads the record of the directory, which clears the flag
    let again = reconcile_recent(&mut index, &mut sync, &mut tg, CHAT, 50, 2, "t2").unwrap();
    assert_eq!((again.scanned, again.dir_seen, again.file_seen, again.imported), (5, 3, 2, 0));
    assert_eq!((again.marked_dirs, again.marked_files, again.cleared_files), (0, 0, 0));
    assert!(index.dirs.iter().all(|d| !d.is_broken));
    assert!(index.files.iter().all(|f| !f.is_broken));
    assert_eq!((index.dirs.len(), index.files.len()), (3, 2));
}

#[test]
fn a_second_run_flips_nothing_after_an_import_into_a_known_directory() {
    let (mut index, mut tg) = seeded();
    let mut sync = SyncState::new();
    let id = tg.push(CHAT, None, Some("#Docs".to_string()), Some(("b.txt".to_string(), 2)));
    let out = reconcile_recent(&mut index, &mut sync, &mut tg, CHAT, 50, 1, "t1").unwrap();
    assert_eq!((out.file_seen, out.imported, out.failed), (2, 1, 0));
    assert_eq!((out.marked_dirs, out.cleared_dirs, out.marked_files, out.cleared_files), (0, 0, 0, 0));
    assert!(tg.get(CHAT, id).unwrap().caption.as_deref().unwrap().starts_with("#ocltg #v1 #file d=D1 "));
    let snapshot = (index.dirs.clone(), index.files.clone());
    let again = reconcile_recent(&mut index, &mut sync, &mut tg, CHAT, 50, 2, "t2").unwrap();
    assert_eq!((again.scanned, again.file_seen, again.imported), (4, 2, 0));
    assert_eq!((again.marked_dirs, again.cleared_dirs, again.marked_files, again.cleared_files), (0, 0, 0, 0));
    assert_eq!((index.dirs.clone(), index.files.clone()), snapshot);
}

#[test]
fn an_import_whose_caption_stays_is_flagged_by_the_next_run() {
    let (mut index, mut tg) = seeded();
    let mut sync = SyncState::new();
    let id = tg.push(CHAT, None, Some("#Docs".to_string()), Some(("b.txt".to_string(), 2)));
    tg.frozen = vec![id];
    let out = reconcile_recent(&mut index, &mut sync, &mut tg, CHAT, 50, 1, "t1").unwrap();
    assert_eq!((out.file_seen, out.imported, out.failed), (2, 1, 0));
    assert_eq!((out.marked_files, out.cleared_files), (0, 0));
    assert_eq!(tg.get(CHAT, id).unwrap().caption.as_deref(), Some("#Docs"));
    assert_eq!(index.files.len(), 2);
    assert!(index.files.iter().all(|f| !f.is_broken));
    // the message is still no record, and it backs a file: it is passed
    // over, confirms nothing, and the file is flagged so that it can be
    // repaired
    let again = reconcile_recent(&mut index, &mut sync, &mut tg, CHAT, 50, 2, "t2").unwrap();
    assert_eq!((again.file_seen, again.imported, again.failed), (1, 0, 0));
    assert_eq!((again.marked_dirs, again.cleared_dirs, again.marked_files, again.cleared_files), (0, 0, 1, 0));
    assert_eq!(index.files.len(), 2);
    let flags: Vec<bool> = index.files.iter().map(|f| f.is_broken).collect();
    assert_eq!(flags, vec![false, true]);
}

#[test]
fn a_file_whose_message_was_deleted_is_flagged_and_kept() {
    let (mut index, mut tg) = seeded();
    let mut sync = SyncState::new();
    let kept = index.get_file("F1").unwrap();
    tg.remove(CHAT, 3);
    tg.push(CHAT, Some("hello".to_string()), None, None);
    let out = reconcile_recent(&mut index, &mut sync, &mut tg, CHAT, 50, 1, "t1").unwrap();
    assert!(out.marked_files >= 1);
    assert_eq!(index.get_file("F1").unwrap(), FileEntry { is_broken: true, ..kept });
    assert_eq!(index.files.len(), 1);
}

#[test]
fn a_page_is_read_up_to_the_watermark() {
    let (_, mut tg) = seeded();
    let page = fetch_recent_messages(&mut tg, CHAT, 50).unwrap();
    let quiet = asked(&tg);
    let mut index = Index::new();
    let mut cache = None;
    let read = read_page(&mut index, &mut tg, CHAT, &page, 1, &mut cache, 9);
    assert_eq!((read.read, read.newest, read.whole), (2, Some(3), false));
    assert_eq!(read.counts, ScanCounts { dir_seen: 1, file_seen: 1, imported: 0, failed: 0 });
    assert_eq!((index.dirs.len(), index.files.len()), (2, 1));
    let read = read_page(&mut index, &mut tg, CHAT, &page, 3, &mut cache, 9);
    assert_eq!((read.read, read.newest, read.whole), (0, None, false));
    assert_eq!((index.dirs.len(), index.files.len()), (2, 1));
    let read = read_page(&mut index, &mut tg, CHAT, &page, 0, &mut cache, 9);
    assert_eq!((read.read, read.newest, read.whole), (3, Some(3), true));
    assert_eq!(read.counts, ScanCounts { dir_seen: 2, file_seen: 1, imported: 0, failed: 0 });
    assert_eq!(asked(&tg), quiet);
}
