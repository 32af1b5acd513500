//! What a command asks of the database, and what comes back. The commands
//! decide; whoever holds the database runs the request and hands the
//! answer back to the command that asked.
use vstd::prelude::*;

verus! {

/// A database call that failed.
#[derive(Clone, Copy, PartialEq, Eq, Structural, Debug)]
pub struct DatabaseError;

/// The row of an account, as looked up by name.
pub struct UserRecord {
    pub user_id: i32,
    pub password: String,
    pub username: String,
}

/// Sign-in: look up the account named `username`.
pub struct LoginRequest {
    pub username: String,
    pub password: String,
}

/// Sign-up: first whether `username` is taken, then the new account.
pub struct SignUpRequest {
    pub first_name: String,
    pub last_name: String,
    pub username: String,
    pub password: String,
}

/// Reply: who sent message `message_id`.
pub struct ReplyRequest {
    pub sender_id: i32,
    pub message: String,
    pub message_id: i32,
}

/// Send: the id of the account named `username`.
pub struct SendRequest {
    pub sender_id: i32,
    pub message: String,
    pub username: String,
}

/// Past chat: the messages between the account named `username` and the
/// reader's account.
pub struct ChatRequest {
    pub username: String,
    pub reader_id: i64,
}

/// A message to write to the message table.
pub struct StoredMessage {
    pub sender_id: i32,
    pub receiver_id: i32,
    pub content: String,
    pub reply_to: Option<i32>,
}

/// A row of the message table, as the past chat shows it.
pub struct ChatLine {
    pub message_id: i64,
    pub content: String,
    pub reply_to: Option<i64>,
}

/// The view of a stored message: sender, receiver, text, replied message.
pub type StoredMessageView = (i32, i32, Seq<char>, Option<i32>);

/// The view of a chat line: id, text, replied message.
pub type ChatLineView = (i64, Seq<char>, Option<i64>);

impl View for StoredMessage {
    type V = StoredMessageView;

    open spec fn view(&self) -> StoredMessageView {
        (self.sender_id, self.receiver_id, self.content@, self.reply_to)
    }
}

impl View for ChatLine {
    type V = ChatLineView;

    open spec fn view(&self) -> ChatLineView {
        (self.message_id, self.content@, self.reply_to)
    }
}

pub open spec fn stored_views(v: Seq<StoredMessage>) -> Seq<StoredMessageView> {
    v.map_values(|m: StoredMessage| m@)
}

pub open spec fn chat_line_views(v: Seq<ChatLine>) -> Seq<ChatLineView> {
    v.map_values(|l: ChatLine| l@)
}

/// What a command needs next: nothing, or the answer to a database
/// request.
pub enum Action {
    Done,
    FindLogin(LoginRequest),
    CheckUsername(SignUpRequest),
    CreateUser(SignUpRequest),
    FindRepliedMessage(ReplyRequest),
    FindReceiver(SendRequest),
    StoreMessages(Vec<StoredMessage>),
    LoadChat(ChatRequest),
}

/// The view of an `Action`.
pub enum ActionView {
    Done,
    FindLogin { username: Seq<char>, password: Seq<char> },
    CheckUsername {
        first_name: Seq<char>,
        last_name: Seq<char>,
        username: Seq<char>,
        password: Seq<char>,
    },
    CreateUser {
        first_name: Seq<char>,
        last_name: Seq<char>,
        username: Seq<char>,
        password: Seq<char>,
    },
    FindRepliedMessage { sender_id: i32, message: Seq<char>, message_id: i32 },
    FindReceiver { sender_id: i32, message: Seq<char>, username: Seq<char> },
    StoreMessages { rows: Seq<StoredMessageView> },
    LoadChat { username: Seq<char>, reader_id: i64 },
}

impl View for Action {
    type V = ActionView;

    open spec fn view(&self) -> ActionView {
        match self {
            Action::Done => ActionView::Done,
            Action::FindLogin(r) => ActionView::FindLogin {
                username: r.username@,
                password: r.password@,
            },
            Action::CheckUsername(r) => ActionView::CheckUsername {
                first_name: r.first_name@,
                last_name: r.last_name@,
                username: r.username@,
                password: r.password@,
            },
            Action::CreateUser(r) => ActionView::CreateUser {
                first_name: r.first_name@,
                last_name: r.last_name@,
                username: r.username@,
                password: r.password@,
            },
            Action::FindRepliedMessage(r) => ActionView::FindRepliedMessage {
                sender_id: r.sender_id,
                message: r.message@,
                message_id: r.message_id,
            },
            Action::FindReceiver(r) => ActionView::FindReceiver {
                sender_id: r.sender_id,
                message: r.message@,
                username: r.username@,
            },
            Action::StoreMessages(rows) => ActionView::StoreMessages { rows: stored_views(rows@) },
            Action::LoadChat(r) => ActionView::LoadChat {
                username: r.username@,
                reader_id: r.reader_id,
            },
        }
    }
}

} // verus!
