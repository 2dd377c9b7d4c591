//! The transport capability that the engine consumes, and the messages it
//! exchanges with it.
//!
//! The transport is unreliable: any call may fail, and nothing is promised of
//! what a call returns. The engine is verified for every outcome.

use crate::model::clone_opt_string;
use crate::text::{append_str, chars_of, string_of};
use vstd::prelude::*;

verus! {

/// The id of a chat.
pub type ChatId = i64;

/// The id of a message within its chat.
pub type MessageId = i64;

/// A message as the platform confirms it after publishing.
#[derive(Debug)]
pub struct UploadedMessage {
    pub chat_id: ChatId,
    pub message_id: MessageId,
    pub caption_or_text: String,
}

/// A message as the history of a chat shows it.
#[derive(Debug)]
pub struct HistoryMessage {
    pub id: MessageId,
    pub date: i64,
    pub text: Option<String>,
    pub caption: Option<String>,
    pub file_size: Option<i64>,
    pub file_name: Option<String>,
}

impl Clone for HistoryMessage {
    fn clone(&self) -> (r: Self)
        ensures
            r == *self,
    {
        HistoryMessage {
            id: self.id,
            date: self.date,
            text: clone_opt_string(&self.text),
            caption: clone_opt_string(&self.caption),
            file_size: self.file_size,
            file_name: clone_opt_string(&self.file_name),
        }
    }
}

/// One page of messages.
#[derive(Debug)]
pub struct SearchMessagesResult {
    pub total_count: Option<i64>,
    /// Where the next page starts; 0 when there is none.
    pub next_from_message_id: MessageId,
    pub messages: Vec<HistoryMessage>,
}

/// Why a call to the platform failed.
#[derive(Debug)]
pub enum TgError {
    NotImplemented,
    AuthRequired,
    Io(String),
    Other(String),
}

/// The transport error in words.
pub open spec fn tg_error_text(e: TgError) -> Seq<char> {
    match e {
        TgError::NotImplemented => "не реализовано"@,
        TgError::AuthRequired => "требуется авторизация"@,
        TgError::Io(e) => "ошибка ввода-вывода: "@ + e@,
        TgError::Other(e) => e@,
    }
}

impl TgError {
    /// The error as a sentence.
    pub fn message(&self) -> (r: String)
        ensures
            r@ == tg_error_text(*self),
    {
        match self {
            TgError::NotImplemented => String::from_str("не реализовано"),
            TgError::AuthRequired => String::from_str("требуется авторизация"),
            TgError::Io(e) => {
                let mut out = chars_of("ошибка ввода-вывода: ");
                append_str(&mut out, e.as_str());
                string_of(&out)
            },
            TgError::Other(e) => e.clone(),
        }
    }
}

/// What the engine asks of the messaging platform. Each call may fail; the
/// engine relies on nothing but the value that comes back.
pub trait TelegramService {
    /// Publishes a directory record as a text message.
    fn send_dir_message(&mut self, chat_id: ChatId, text: String) -> Result<
        UploadedMessage,
        TgError,
    >;

    /// Publishes the file at `path` with the given caption.
    fn send_file(&mut self, chat_id: ChatId, path: String, caption: String) -> Result<
        UploadedMessage,
        TgError,
    >;

    /// Sends the content of an existing message again, under a new caption.
    fn send_file_from_message(
        &mut self,
        chat_id: ChatId,
        message_id: MessageId,
        caption: String,
    ) -> Result<UploadedMessage, TgError>;

    fn edit_message_text(&mut self, chat_id: ChatId, message_id: MessageId, text: String) -> Result<
        (),
        TgError,
    >;

    fn edit_message_caption(
        &mut self,
        chat_id: ChatId,
        message_id: MessageId,
        caption: String,
    ) -> Result<(), TgError>;

    /// Duplicates messages; an entry is `None` where no copy was made.
    fn copy_messages(
        &mut self,
        from_chat_id: ChatId,
        to_chat_id: ChatId,
        message_ids: Vec<MessageId>,
    ) -> Result<Vec<Option<MessageId>>, TgError>;

    fn delete_messages(
        &mut self,
        chat_id: ChatId,
        message_ids: Vec<MessageId>,
        revoke: bool,
    ) -> Result<(), TgError>;

    fn forward_message(
        &mut self,
        from_chat_id: ChatId,
        to_chat_id: ChatId,
        message_id: MessageId,
    ) -> Result<MessageId, TgError>;

    fn search_chat_messages(
        &mut self,
        chat_id: ChatId,
        query: String,
        from_message_id: MessageId,
        limit: i32,
    ) -> Result<SearchMessagesResult, TgError>;

    fn chat_history(&mut self, chat_id: ChatId, from_message_id: MessageId, limit: i32) -> Result<
        SearchMessagesResult,
        TgError,
    >;

    fn message_exists(&mut self, chat_id: ChatId, message_id: MessageId) -> Result<bool, TgError>;

    /// Writes the file of a message to `target` and returns where it lies.
    fn download_message_file(
        &mut self,
        chat_id: ChatId,
        message_id: MessageId,
        target: String,
    ) -> Result<String, TgError>;

    /// Lets the given number of milliseconds pass.
    fn pause(&mut self, millis: u64);
}

} // verus!
