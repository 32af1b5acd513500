//! The verified core of a small chat service: server addresses, command
//! lines and the commands they carry, the signed-in users, the messages
//! waiting for delivery, and the periodic delivery of those messages.
pub mod text;
pub mod utils;
pub mod message;
pub mod client_manager;
pub mod words;
pub mod state;
pub mod requests;
pub mod command_manager;
pub mod timer;

pub use utils::{IP, ServerDetails};
pub use message::Message;
pub use client_manager::{ClientManager, outgoing_line, ends_session};
pub use state::{OnlineUsers, PendingMessages};
pub use requests::{
    Action, ChatLine, ChatRequest, DatabaseError, LoginRequest, ReplyRequest, SendRequest,
    SignUpRequest, StoredMessage, UserRecord,
};
pub use command_manager::CommandManager;
pub use timer::{deliver_pending, Delivery};
