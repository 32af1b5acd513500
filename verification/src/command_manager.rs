//! Reading and carrying out the commands that clients send.
//!
//! A command line is split into words; the first names the command, the
//! rest are its arguments. Carrying a command out either finishes at once
//! with an answer, or yields an [`Action`]: a database request whose result
//! is handed back to the matching `finish_*` method.
use vstd::prelude::*;
use crate::text::{signed_decimal, push_char, push_signed_decimal, parse_i32, parsed_i32};
use crate::words::{split_words, split_command_line, strings_view};
use crate::state::{
    OnlineUsers,
    OnlineUserView,
    PendingMessages,
    ConversationView,
    PendingMessageView,
    Conversation,
    PendingMessage,
    conversation_view,
    pending_message_view,
    client_online,
    client_index,
    swap_removed,
    queued,
    online_user_view,
    OnlineUser,
};
use crate::requests::{
    Action,
    ActionView,
    DatabaseError,
    UserRecord,
    LoginRequest,
    SignUpRequest,
    ReplyRequest,
    SendRequest,
    ChatRequest,
    StoredMessage,
    StoredMessageView,
    ChatLine,
    ChatLineView,
    stored_views,
    chat_line_views,
};

verus! {

/// What carrying out a command gives: the answer, the signed-in users
/// afterwards, and what is asked of the database.
pub type Outcome = (Seq<char>, Seq<OnlineUserView>, ActionView);

/// An outcome that needs nothing more.
pub open spec fn finished(answer: Seq<char>, users: Seq<OnlineUserView>) -> Outcome {
    (answer, users, ActionView::Done)
}

/// The account signed in from `client`.
pub open spec fn account_of(users: Seq<OnlineUserView>, client: u16) -> i32 {
    users[client_index(users, client)].0
}

/// The text sent in answer to check_inbox: for each (sender, reader) pair
/// the sender's id, then each message on a line of its own.
pub open spec fn inbox_text(s: Seq<ConversationView>, reader: i32) -> Seq<char>
    decreases s.len(),
{
    if s.len() == 0 {
        Seq::empty()
    } else {
        let e = s.last();
        inbox_text(s.drop_last(), reader) + if e.0.1 == reader {
            "from "@ + signed_decimal(e.0.0 as int) + seq!['\n'] + lines_text(e.1)
        } else {
            Seq::empty()
        }
    }
}

/// Each message's text followed by a line break.
pub open spec fn lines_text(m: Seq<PendingMessageView>) -> Seq<char>
    decreases m.len(),
{
    if m.len() == 0 {
        Seq::empty()
    } else {
        lines_text(m.drop_last()) + m.last().0 + seq!['\n']
    }
}

/// The rows that check_inbox writes: each message waiting for `reader`.
pub open spec fn inbox_rows(s: Seq<ConversationView>, reader: i32) -> Seq<StoredMessageView>
    decreases s.len(),
{
    if s.len() == 0 {
        Seq::empty()
    } else {
        let e = s.last();
        inbox_rows(s.drop_last(), reader) + if e.0.1 == reader {
            message_rows(e.0.0, e.0.1, e.1)
        } else {
            Seq::empty()
        }
    }
}

/// The rows for messages from `sender` to `receiver`.
pub open spec fn message_rows(sender: i32, receiver: i32, m: Seq<PendingMessageView>) -> Seq<
    StoredMessageView,
>
    decreases m.len(),
{
    if m.len() == 0 {
        Seq::empty()
    } else {
        message_rows(sender, receiver, m.drop_last()).push(
            (sender, receiver, m.last().0, m.last().1),
        )
    }
}

/// Each signed-in user's name on a line of its own.
pub open spec fn names_text(users: Seq<OnlineUserView>) -> Seq<char>
    decreases users.len(),
{
    if users.len() == 0 {
        Seq::empty()
    } else {
        names_text(users.drop_last()) + users.last().2 + seq!['\n']
    }
}

/// A line of the past chat: `Message-id(<id>): <text>`, or with
/// ` replied to <id>` before the `)` for a reply.
pub open spec fn chat_line_text(l: ChatLineView) -> Seq<char> {
    "Message-id("@ + signed_decimal(l.0 as int) + match l.2 {
        Some(r) => " replied to "@ + signed_decimal(r as int) + "): "@,
        None => "): "@,
    } + l.1 + seq!['\n']
}

pub open spec fn chat_text(lines: Seq<ChatLineView>) -> Seq<char>
    decreases lines.len(),
{
    if lines.len() == 0 {
        Seq::empty()
    } else {
        chat_text(lines.drop_last()) + chat_line_text(lines.last())
    }
}

/// The command and its arguments, as `print` shows them: the command on a
/// line, then each argument followed by `|`, then a line break.
pub open spec fn listing_text(command: Seq<char>, args: Seq<Seq<char>>) -> Seq<char> {
    command + seq!['\n'] + args_text(args) + seq!['\n']
}

pub open spec fn args_text(args: Seq<Seq<char>>) -> Seq<char>
    decreases args.len(),
{
    if args.len() == 0 {
        Seq::empty()
    } else {
        args_text(args.drop_last()) + args.last() + seq!['|']
    }
}

/// sign_in: two arguments, from a client that is not signed in yet; then
/// the account is looked up.
pub open spec fn sign_in_outcome(
    args: Seq<Seq<char>>,
    client: u16,
    users: Seq<OnlineUserView>,
    answer: Seq<char>,
) -> Outcome {
    if args.len() != 2 {
        finished("invalid syntax !<sign_in> <username> <password> !"@, users)
    } else if client_online(users, client) {
        finished("You are logged in !"@, users)
    } else {
        (answer, users, ActionView::FindLogin { username: args[0], password: args[1] })
    }
}

/// sign_up: four arguments; then whether the name is taken is looked up.
pub open spec fn sign_up_outcome(
    args: Seq<Seq<char>>,
    users: Seq<OnlineUserView>,
    answer: Seq<char>,
) -> Outcome {
    if args.len() != 4 {
        finished(
            "invalid syntax !<sign_up> <first_name> <last_name> <username> <password> !"@,
            users,
        )
    } else {
        (
            answer,
            users,
            ActionView::CheckUsername {
                first_name: args[0],
                last_name: args[1],
                username: args[2],
                password: args[3],
            },
        )
    }
}

/// sign_out: no arguments, from a signed-in client, which is signed out.
pub open spec fn sign_out_outcome(
    args: Seq<Seq<char>>,
    client: u16,
    users: Seq<OnlineUserView>,
) -> Outcome {
    if args.len() != 0 {
        finished("invalid syntax !<sign_out> !"@, users)
    } else if !client_online(users, client) {
        finished("You are not logged in !"@, users)
    } else {
        finished("Logged out !"@, swap_removed(users, client_index(users, client)))
    }
}

/// reply: a message and the id of the message it answers, from a
/// signed-in client; then the sender of that message is looked up.
pub open spec fn reply_outcome(
    args: Seq<Seq<char>>,
    client: u16,
    users: Seq<OnlineUserView>,
    answer: Seq<char>,
) -> Outcome {
    if args.len() != 2 {
        finished("invalid syntax! Use: <reply> <\"message\"> <message_id>!"@, users)
    } else if !client_online(users, client) {
        finished("Sign in first !"@, users)
    } else if parsed_i32(args[1]) is None {
        finished("Invalid number format for message id !"@, users)
    } else {
        (
            answer,
            users,
            ActionView::FindRepliedMessage {
                sender_id: account_of(users, client),
                message: args[0],
                message_id: parsed_i32(args[1])->0,
            },
        )
    }
}

/// send: a message and the name of its receiver, from a signed-in client;
/// then the receiver's account is looked up.
pub open spec fn send_outcome(
    args: Seq<Seq<char>>,
    client: u16,
    users: Seq<OnlineUserView>,
    answer: Seq<char>,
) -> Outcome {
    if args.len() != 2 {
        finished("invalid syntax !<send> <\"message\"> <receiver> !"@, users)
    } else if !client_online(users, client) {
        finished("Sign in first !"@, users)
    } else {
        (
            answer,
            users,
            ActionView::FindReceiver {
                sender_id: account_of(users, client),
                message: args[0],
                username: args[1],
            },
        )
    }
}

/// show_past_chat: the name of the other user, from a signed-in client;
/// then the messages between the two are loaded.
pub open spec fn show_past_chat_outcome(
    args: Seq<Seq<char>>,
    client: u16,
    users: Seq<OnlineUserView>,
) -> Outcome {
    if args.len() != 1 {
        finished("invalid syntax !<show_past_chat> <user> !"@, users)
    } else if !client_online(users, client) {
        finished("Sign in first !"@, users)
    } else {
        (
            args[0] + "'s chat:\n"@,
            users,
            ActionView::LoadChat { username: args[0], reader_id: account_of(users, client) as i64 },
        )
    }
}

/// show_users: no arguments, from a signed-in client; lists the names.
pub open spec fn show_users_outcome(
    args: Seq<Seq<char>>,
    client: u16,
    users: Seq<OnlineUserView>,
) -> Outcome {
    if args.len() != 0 {
        finished("invalid syntax !<show_users> !"@, users)
    } else if !client_online(users, client) {
        finished("Sign in first !"@, users)
    } else {
        finished("Online users:\n"@ + names_text(users), users)
    }
}

/// check_inbox: no arguments, from a signed-in client; shows what waits for
/// its account and has it written to the message table. The messages stay
/// waiting.
pub open spec fn check_inbox_outcome(
    args: Seq<Seq<char>>,
    client: u16,
    users: Seq<OnlineUserView>,
    pending: Seq<ConversationView>,
) -> Outcome {
    if args.len() != 0 {
        finished("invalid syntax !<check_inbox> !"@, users)
    } else if !client_online(users, client) {
        finished("Sign in first !"@, users)
    } else {
        let reader = account_of(users, client);
        (
            "Unread messages:\n"@ + inbox_text(pending, reader),
            users,
            ActionView::StoreMessages { rows: inbox_rows(pending, reader) },
        )
    }
}

/// exit: signs the client out, whatever the arguments.
pub open spec fn exit_outcome(client: u16, users: Seq<OnlineUserView>) -> Outcome {
    if !client_online(users, client) {
        finished("User is not online !"@, users)
    } else {
        finished("exit!"@, swap_removed(users, client_index(users, client)))
    }
}

/// The account row that sign_in goes by: the one found, or, where none
/// was, a stand-in with id 0, password "Couldn't find user !" and name
/// "idk". `None` where the lookup failed.
pub open spec fn login_row(found: Result<Option<UserRecord>, DatabaseError>) -> Option<
    (i32, Seq<char>, Seq<char>),
> {
    match found {
        Ok(Some(r)) => Some((r.user_id, r.password@, r.username@)),
        Ok(None) => Some((0, "Couldn't find user !"@, "idk"@)),
        Err(_) => None,
    }
}

/// The answer and the signed-in users once sign_in has the account row.
pub open spec fn sign_in_result(
    row: Option<(i32, Seq<char>, Seq<char>)>,
    username: Seq<char>,
    password: Seq<char>,
    client: u16,
    users: Seq<OnlineUserView>,
) -> (Seq<char>, Seq<OnlineUserView>) {
    match row {
        None => ("Couldn't execute command"@, users),
        Some((id, pass, name)) => if pass != password {
            ("Mismatched password !"@, users)
        } else if client_online(users, client) {
            ("You are logged in !"@, users)
        } else {
            ("Hello "@ + username, users.push((id, client, name)))
        },
    }
}

/// What carrying out `command` with `args` for `client` gives, starting
/// from the signed-in `users`, the waiting messages `pending` and the
/// answer `answer`.
pub open spec fn command_outcome(
    command: Seq<char>,
    args: Seq<Seq<char>>,
    client: u16,
    users: Seq<OnlineUserView>,
    pending: Seq<ConversationView>,
    answer: Seq<char>,
) -> Outcome {
    if command == "sign_in"@ {
        sign_in_outcome(args, client, users, answer)
    } else if command == "sign_up"@ {
        sign_up_outcome(args, users, answer)
    } else if command == "sign_out"@ {
        sign_out_outcome(args, client, users)
    } else if command == "reply"@ {
        reply_outcome(args, client, users, answer)
    } else if command == "send"@ {
        send_outcome(args, client, users, answer)
    } else if command == "show_past_chat"@ {
        show_past_chat_outcome(args, client, users)
    } else if command == "show_users"@ {
        show_users_outcome(args, client, users)
    } else if command == "check_inbox"@ {
        check_inbox_outcome(args, client, users, pending)
    } else if command == "exit"@ {
        exit_outcome(client, users)
    } else {
        finished("invalid"@, users)
    }
}

/// Reads the commands of clients and carries them out, one at a time.
pub struct CommandManager {
    command: String,
    arguments: Vec<String>,
    user_id: u16,
    answer: String,
}

impl CommandManager {
    /// The command last read.
    pub closed spec fn command_view(&self) -> Seq<char> {
        self.command@
    }

    /// Its arguments.
    pub closed spec fn arguments_view(&self) -> Seq<Seq<char>> {
        strings_view(self.arguments@)
    }

    /// The client (port) it came from.
    pub closed spec fn client_view(&self) -> u16 {
        self.user_id
    }

    /// The answer to it.
    pub closed spec fn answer_view(&self) -> Seq<char> {
        self.answer@
    }

    /// A manager that has read nothing yet.
    pub fn new() -> (r: Self)
        ensures
            r.command_view() == Seq::<char>::empty(),
            r.arguments_view() == Seq::<Seq<char>>::empty(),
            r.client_view() == 0,
            r.answer_view() == Seq::<char>::empty(),
    {
        let r = Self {
            command: String::new(),
            arguments: Vec::new(),
            answer: String::new(),
            user_id: 0,
        };
        assert(r.arguments_view() =~= Seq::<Seq<char>>::empty());
        r
    }

    /// Reads the command line `input` sent by client `id`: its first word
    /// is the command, the others the arguments; the answer is cleared.
    pub fn parse_command(&mut self, input: &str, id: u16)
        ensures
            final(self).client_view() == id,
            final(self).answer_view() == Seq::<char>::empty(),
            split_words(input@).len() == 0 ==> final(self).command_view() == Seq::<char>::empty()
                && final(self).arguments_view() == Seq::<Seq<char>>::empty(),
            split_words(input@).len() > 0 ==> final(self).command_view() == split_words(input@)[0]
                && final(self).arguments_view() == split_words(input@).drop_first(),
    {
        self.arguments = Vec::new();
        self.command = String::new();
        self.answer = String::new();
        self.user_id = id;
        let mut words = split_command_line(input);
        if words.len() == 0 {
            assert(self.arguments_view() =~= Seq::<Seq<char>>::empty());
            return;
        }
        let ghost all = strings_view(words@);
        let first = words.remove(0);
        assert(strings_view(words@) =~= all.drop_first());
        self.command = first;
        self.arguments = words;
    }

    /// Whether the command read is `name`.
    fn is_command(&self, name: &str) -> (r: bool)
        ensures
            r == (self.command_view() == name@),
    {
        self.command == String::from_str(name)
    }

    fn set_answer(&mut self, text: &str)
        ensures
            final(self).answer_view() == text@,
            final(self).command_view() == old(self).command_view(),
            final(self).arguments_view() == old(self).arguments_view(),
            final(self).client_view() == old(self).client_view(),
    {
        self.answer = String::from_str(text);
    }

    /// Carries out the command read, with the signed-in `users` and the
    /// waiting messages `pending`: sets the answer, signs a client out where
    /// the command does, and says what is needed from the database.
    pub fn identify_command(&mut self, users: &mut OnlineUsers, pending: &PendingMessages) -> (action:
        Action)
        ensures
            final(self).command_view() == old(self).command_view(),
            final(self).arguments_view() == old(self).arguments_view(),
            final(self).client_view() == old(self).client_view(),
            (final(self).answer_view(), final(users)@, action@) == command_outcome(
                old(self).command_view(),
                old(self).arguments_view(),
                old(self).client_view(),
                old(users)@,
                pending@,
                old(self).answer_view(),
            ),
    {
        if self.is_command("sign_in") {
            self.sign_in(users)
        } else if self.is_command("sign_up") {
            self.sign_up()
        } else if self.is_command("sign_out") {
            self.sign_out(users);
            Action::Done
        } else if self.is_command("reply") {
            self.reply(users)
        } else if self.is_command("send") {
            self.send(users)
        } else if self.is_command("show_past_chat") {
            self.show_past_chat(users)
        } else if self.is_command("show_users") {
            self.show_users(users);
            Action::Done
        } else if self.is_command("check_inbox") {
            self.check_inbox(users, pending)
        } else if self.is_command("exit") {
            self.exit(users);
            Action::Done
        } else {
            self.invalid();
            Action::Done
        }
    }

    fn sign_in(&mut self, users: &OnlineUsers) -> (action: Action)
        ensures
            final(self).command_view() == old(self).command_view(),
            final(self).arguments_view() == old(self).arguments_view(),
            final(self).client_view() == old(self).client_view(),
            (final(self).answer_view(), users@, action@) == sign_in_outcome(
                old(self).arguments_view(),
                old(self).client_view(),
                users@,
                old(self).answer_view(),
            ),
    {
        if self.arguments.len() != 2 {
            self.set_answer("invalid syntax !<sign_in> <username> <password> !");
            return Action::Done;
        }
        if users.is_online(self.user_id) {
            self.set_answer("You are logged in !");
            return Action::Done;
        }
        let username = self.arguments[0].clone();
        let password = self.arguments[1].clone();
        Action::FindLogin(LoginRequest { username, password })
    }

    fn sign_up(&mut self) -> (action: Action)
        ensures
            final(self).command_view() == old(self).command_view(),
            final(self).arguments_view() == old(self).arguments_view(),
            final(self).client_view() == old(self).client_view(),
            (final(self).answer_view(), action@) == ({
                let o = sign_up_outcome(
                    old(self).arguments_view(),
                    Seq::empty(),
                    old(self).answer_view(),
                );
                (o.0, o.2)
            }),
    {
        if self.arguments.len() != 4 {
            self.set_answer(
                "invalid syntax !<sign_up> <first_name> <last_name> <username> <password> !",
            );
            return Action::Done;
        }
        let first_name = self.arguments[0].clone();
        let last_name = self.arguments[1].clone();
        let username = self.arguments[2].clone();
        let password = self.arguments[3].clone();
        Action::CheckUsername(SignUpRequest { first_name, last_name, username, password })
    }

    fn sign_out(&mut self, users: &mut OnlineUsers)
        ensures
            final(self).command_view() == old(self).command_view(),
            final(self).arguments_view() == old(self).arguments_view(),
            final(self).client_view() == old(self).client_view(),
            (final(self).answer_view(), final(users)@, ActionView::Done) == sign_out_outcome(
                old(self).arguments_view(),
                old(self).client_view(),
                old(users)@,
            ),
    {
        if self.arguments.len() != 0 {
            self.set_answer("invalid syntax !<sign_out> !");
            return;
        }
        if !users.is_online(self.user_id) {
            self.set_answer("You are not logged in !");
            return;
        }
        if !users.sign_out(self.user_id) {
            self.set_answer("User is not online !");
            return;
        }
        self.set_answer("Logged out !");
    }

    fn reply(&mut self, users: &OnlineUsers) -> (action: Action)
        ensures
            final(self).command_view() == old(self).command_view(),
            final(self).arguments_view() == old(self).arguments_view(),
            final(self).client_view() == old(self).client_view(),
            (final(self).answer_view(), users@, action@) == reply_outcome(
                old(self).arguments_view(),
                old(self).client_view(),
                users@,
                old(self).answer_view(),
            ),
    {
        if self.arguments.len() != 2 {
            self.set_answer("invalid syntax! Use: <reply> <\"message\"> <message_id>!");
            return Action::Done;
        }
        if !users.is_online(self.user_id) {
            self.set_answer("Sign in first !");
            return Action::Done;
        }
        let message = self.arguments[0].clone();
        let answered_id = parse_i32(self.arguments[1].as_str());
        let message_id = match answered_id {
            Some(id) => id,
            None => {
                self.set_answer("Invalid number format for message id !");
                return Action::Done;
            },
        };
        match users.user_id_of(self.user_id) {
            Some(sender_id) => Action::FindRepliedMessage(
                ReplyRequest { sender_id, message, message_id },
            ),
            None => {
                self.set_answer("You have to sign in !");
                Action::Done
            },
        }
    }

    fn send(&mut self, users: &OnlineUsers) -> (action: Action)
        ensures
            final(self).command_view() == old(self).command_view(),
            final(self).arguments_view() == old(self).arguments_view(),
            final(self).client_view() == old(self).client_view(),
            (final(self).answer_view(), users@, action@) == send_outcome(
                old(self).arguments_view(),
                old(self).client_view(),
                users@,
                old(self).answer_view(),
            ),
    {
        if self.arguments.len() != 2 {
            self.set_answer("invalid syntax !<send> <\"message\"> <receiver> !");
            return Action::Done;
        }
        if !users.is_online(self.user_id) {
            self.set_answer("Sign in first !");
            return Action::Done;
        }
        let sender_id = match users.user_id_of(self.user_id) {
            Some(id) => id,
            None => {
                self.set_answer("User not online !");
                return Action::Done;
            },
        };
        let message = self.arguments[0].clone();
        let username = self.arguments[1].clone();
        Action::FindReceiver(SendRequest { sender_id, message, username })
    }

    fn show_past_chat(&mut self, users: &OnlineUsers) -> (action: Action)
        ensures
            final(self).command_view() == old(self).command_view(),
            final(self).arguments_view() == old(self).arguments_view(),
            final(self).client_view() == old(self).client_view(),
            (final(self).answer_view(), users@, action@) == show_past_chat_outcome(
                old(self).arguments_view(),
                old(self).client_view(),
                users@,
            ),
    {
        if self.arguments.len() != 1 {
            self.set_answer("invalid syntax !<show_past_chat> <user> !");
            return Action::Done;
        }
        if !users.is_online(self.user_id) {
            self.set_answer("Sign in first !");
            return Action::Done;
        }
        let username = self.arguments[0].clone();
        let mut heading = username.clone();
        heading.append("'s chat:\n");
        self.answer = heading;
        let reader_id: i64 = match users.user_id_of(self.user_id) {
            Some(id) => id as i64,
            None => -5,
        };
        Action::LoadChat(ChatRequest { username, reader_id })
    }

    fn show_users(&mut self, users: &OnlineUsers)
        ensures
            final(self).command_view() == old(self).command_view(),
            final(self).arguments_view() == old(self).arguments_view(),
            final(self).client_view() == old(self).client_view(),
            (final(self).answer_view(), users@, ActionView::Done) == show_users_outcome(
                old(self).arguments_view(),
                old(self).client_view(),
                users@,
            ),
    {
        if self.arguments.len() != 0 {
            self.set_answer("invalid syntax !<show_users> !");
            return;
        }
        if !users.is_online(self.user_id) {
            self.set_answer("Sign in first !");
            return;
        }
        let mut text = String::from_str("Online users:\n");
        let list = users.users();
        let ghost start = text@;
        let mut i: usize = 0;
        while i < list.len()
            invariant
                0 <= i <= list@.len(),
                list@.map_values(|u: OnlineUser| online_user_view(u)) == users@,
                text@ == start + names_text(users@.take(i as int)),
            decreases list.len() - i,
        {
            text.append(list[i].2.as_str());
            push_char(&mut text, '\n');
            proof {
                let next = users@.take(i + 1);
                assert(next.drop_last() =~= users@.take(i as int));
                assert(next.last() == users@[i as int]);
                assert(users@[i as int].2 == list@[i as int].2@);
                assert(text@ =~= start + names_text(next));
            }
            i = i + 1;
        }
        assert(users@.take(list.len() as int) =~= users@);
        self.answer = text;
    }

    fn check_inbox(&mut self, users: &OnlineUsers, pending: &PendingMessages) -> (action: Action)
        ensures
            final(self).command_view() == old(self).command_view(),
            final(self).arguments_view() == old(self).arguments_view(),
            final(self).client_view() == old(self).client_view(),
            (final(self).answer_view(), users@, action@) == check_inbox_outcome(
                old(self).arguments_view(),
                old(self).client_view(),
                users@,
                pending@,
            ),
    {
        if self.arguments.len() != 0 {
            self.set_answer("invalid syntax !<check_inbox> !");
            return Action::Done;
        }
        if !users.is_online(self.user_id) {
            self.set_answer("Sign in first !");
            return Action::Done;
        }
        let reader = match users.user_id_of(self.user_id) {
            Some(id) => id,
            None => {
                self.set_answer("User not found !");
                return Action::Done;
            },
        };
        let mut text = String::from_str("Unread messages:\n");
        let rows = inbox(pending, reader, &mut text);
        self.answer = text;
        Action::StoreMessages(rows)
    }

    fn exit(&mut self, users: &mut OnlineUsers)
        ensures
            final(self).command_view() == old(self).command_view(),
            final(self).arguments_view() == old(self).arguments_view(),
            final(self).client_view() == old(self).client_view(),
            (final(self).answer_view(), final(users)@, ActionView::Done) == exit_outcome(
                old(self).client_view(),
                old(users)@,
            ),
    {
        if self.arguments.len() != 0 {
            self.set_answer("This command shouldn't have arguments !");
        }
        if !users.sign_out(self.user_id) {
            self.set_answer("User is not online !");
            return;
        }
        self.set_answer("exit!");
    }

    fn invalid(&mut self)
        ensures
            final(self).command_view() == old(self).command_view(),
            final(self).arguments_view() == old(self).arguments_view(),
            final(self).client_view() == old(self).client_view(),
            final(self).answer_view() == "invalid"@,
    {
        self.set_answer("invalid");
    }

    /// Finishes sign_in with the account looked up for `request` (`None`:
    /// no account has that name). The passwords must match, and the client
    /// must still be signed out; then it is signed in under the account.
    pub fn finish_sign_in(
        &mut self,
        users: &mut OnlineUsers,
        request: &LoginRequest,
        found: Result<Option<UserRecord>, DatabaseError>,
    )
        ensures
            final(self).command_view() == old(self).command_view(),
            final(self).arguments_view() == old(self).arguments_view(),
            final(self).client_view() == old(self).client_view(),
            (final(self).answer_view(), final(users)@) == sign_in_result(
                login_row(found),
                request.username@,
                request.password@,
                old(self).client_view(),
                old(users)@,
            ),
    {
        match found {
            Ok(row) => {
                let (id, pass, name) = match row {
                    Some(r) => (r.user_id, r.password, r.username),
                    None => (0, String::from_str("Couldn't find user !"), String::from_str("idk")),
                };
                if pass == request.password {
                    if users.sign_in(id, self.user_id, name) {
                        let mut greeting = String::from_str("Hello ");
                        greeting.append(request.username.as_str());
                        self.answer = greeting;
                    } else {
                        self.set_answer("You are logged in !");
                    }
                } else {
                    self.set_answer("Mismatched password !");
                }
            },
            Err(_) => {
                self.set_answer("Couldn't execute command");
            },
        }
    }

    /// Goes on with sign_up once it is known whether the name is taken:
    /// creating the account is asked for only where it is free.
    pub fn finish_username_check(&mut self, request: SignUpRequest, taken: Result<bool, DatabaseError>) -> (action: Action)
        ensures
            final(self).command_view() == old(self).command_view(),
            final(self).arguments_view() == old(self).arguments_view(),
            final(self).client_view() == old(self).client_view(),
            taken is Err ==> final(self).answer_view() == "Couldn't execute command !"@
                && action@ == ActionView::Done,
            taken == Result::<bool, DatabaseError>::Ok(true) ==> final(self).answer_view()
                == "User already exists !"@ && action@ == ActionView::Done,
            taken == Result::<bool, DatabaseError>::Ok(false) ==> final(self).answer_view()
                == old(self).answer_view() && action@ == (ActionView::CreateUser {
                first_name: request.first_name@,
                last_name: request.last_name@,
                username: request.username@,
                password: request.password@,
            }),
    {
        match taken {
            Ok(true) => {
                self.set_answer("User already exists !");
                Action::Done
            },
            Ok(false) => Action::CreateUser(request),
            Err(_) => {
                self.set_answer("Couldn't execute command !");
                Action::Done
            },
        }
    }

    /// Finishes sign_up once the account has been written, or has failed to.
    pub fn finish_create_user(&mut self, created: Result<(), DatabaseError>)
        ensures
            final(self).command_view() == old(self).command_view(),
            final(self).arguments_view() == old(self).arguments_view(),
            final(self).client_view() == old(self).client_view(),
            final(self).answer_view() == if created is Ok {
                "User created !"@
            } else {
                "Couldn't execute command !"@
            },
    {
        match created {
            Ok(()) => self.set_answer("User created !"),
            Err(_) => self.set_answer("Couldn't execute command !"),
        }
    }

    /// Finishes reply with the sender of the message replied to (`None`:
    /// there is no such message). The reply waits for delivery from the
    /// replier to that sender.
    pub fn finish_reply(
        &mut self,
        pending: &mut PendingMessages,
        request: ReplyRequest,
        replied_sender: Option<i32>,
    )
        ensures
            final(self).command_view() == old(self).command_view(),
            final(self).arguments_view() == old(self).arguments_view(),
            final(self).client_view() == old(self).client_view(),
            match replied_sender {
                Some(receiver) => final(self).answer_view() == "Reply sent!"@ && final(pending)@
                    == queued(
                    old(pending)@,
                    (request.sender_id, receiver),
                    (request.message@, Some(request.message_id)),
                ),
                None => final(self).answer_view() == "Message you want to reply does not exist !"@
                    && final(pending)@ == old(pending)@,
            },
    {
        match replied_sender {
            Some(receiver_id) => {
                pending.push(
                    (request.sender_id, receiver_id),
                    request.message,
                    Some(request.message_id),
                );
                self.set_answer("Reply sent!");
            },
            None => {
                self.set_answer("Message you want to reply does not exist !");
            },
        }
    }

    /// Finishes send with the receiver's account (`None`: no account has
    /// that name; an account whose id is -5 is taken for none either). The
    /// message waits for delivery from the sender to the receiver.
    pub fn finish_send(&mut self, pending: &mut PendingMessages, request: SendRequest, receiver: Option<i32>)
        ensures
            final(self).command_view() == old(self).command_view(),
            final(self).arguments_view() == old(self).arguments_view(),
            final(self).client_view() == old(self).client_view(),
            ({
                let r: i32 = match receiver {
                    Some(id) => id,
                    None => -5i32,
                };
                if r == -5 {
                    final(self).answer_view() == "User does not exist !"@ && final(pending)@ == old(
                        pending,
                    )@
                } else {
                    final(self).answer_view() == "Message sent !"@ && final(pending)@ == queued(
                        old(pending)@,
                        (request.sender_id, r),
                        (request.message@, None),
                    )
                }
            }),
    {
        let receiver_id: i32 = match receiver {
            Some(id) => id,
            None => -5,
        };
        if receiver_id == -5 {
            self.set_answer("User does not exist !");
            return;
        }
        pending.push((request.sender_id, receiver_id), request.message, None);
        self.set_answer("Message sent !");
    }

    /// Finishes show_past_chat with the messages between the two users:
    /// each becomes a line of the answer.
    pub fn finish_show_past_chat(&mut self, lines: &Vec<ChatLine>)
        ensures
            final(self).command_view() == old(self).command_view(),
            final(self).arguments_view() == old(self).arguments_view(),
            final(self).client_view() == old(self).client_view(),
            final(self).answer_view() == old(self).answer_view() + chat_text(
                chat_line_views(lines@),
            ),
    {
        let ghost start = self.answer@;
        let ghost all = chat_line_views(lines@);
        let mut i: usize = 0;
        while i < lines.len()
            invariant
                0 <= i <= lines@.len(),
                all == chat_line_views(lines@),
                self.answer@ == start + chat_text(all.take(i as int)),
                self.command_view() == old(self).command_view(),
                self.arguments_view() == old(self).arguments_view(),
                self.client_view() == old(self).client_view(),
            decreases lines.len() - i,
        {
            let line = &lines[i];
            let ghost before = self.answer@;
            self.answer.append("Message-id(");
            push_signed_decimal(&mut self.answer, line.message_id);
            match line.reply_to {
                Some(reply) => {
                    self.answer.append(" replied to ");
                    push_signed_decimal(&mut self.answer, reply);
                    self.answer.append("): ");
                },
                None => {
                    self.answer.append("): ");
                },
            }
            self.answer.append(line.content.as_str());
            push_char(&mut self.answer, '\n');
            proof {
                let next = all.take(i + 1);
                assert(next.drop_last() =~= all.take(i as int));
                assert(next.last() == lines@[i as int]@);
                assert(self.answer@ =~= before + chat_line_text(lines@[i as int]@));
                assert(self.answer@ =~= start + chat_text(next));
            }
            i = i + 1;
        }
        assert(all.take(lines@.len() as int) =~= all);
    }

    /// The answer to the command last carried out.
    pub fn get_answer(&self) -> (r: &str)
        ensures
            r@ == self.answer_view(),
    {
        self.answer.as_str()
    }

    /// The command and its arguments as a listing: the command on a line,
    /// each argument followed by `|`, then a line break.
    pub fn listing(&self) -> (r: String)
        ensures
            r@ == listing_text(self.command_view(), self.arguments_view()),
    {
        let mut text = self.command.clone();
        push_char(&mut text, '\n');
        let ghost start = text@;
        let mut i: usize = 0;
        while i < self.arguments.len()
            invariant
                0 <= i <= self.arguments@.len(),
                text@ == start + args_text(self.arguments_view().take(i as int)),
            decreases self.arguments.len() - i,
        {
            text.append(self.arguments[i].as_str());
            push_char(&mut text, '|');
            proof {
                let next = self.arguments_view().take(i + 1);
                assert(next.drop_last() =~= self.arguments_view().take(i as int));
                assert(next.last() == self.arguments@[i as int]@);
                assert(text@ =~= start + args_text(next));
            }
            i = i + 1;
        }
        assert(self.arguments_view().take(self.arguments@.len() as int) =~= self.arguments_view());
        push_char(&mut text, '\n');
        text
    }
}

/// Appends what waits for `reader` to `text`, and gives the rows to store
/// for it.
fn inbox(pending: &PendingMessages, reader: i32, text: &mut String) -> (rows: Vec<StoredMessage>)
    ensures
        final(text)@ == old(text)@ + inbox_text(pending@, reader),
        stored_views(rows@) == inbox_rows(pending@, reader),
{
    let entries = pending.entries();
    let ghost start = text@;
    let ghost all = pending@;
    let mut rows: Vec<StoredMessage> = Vec::new();
    let mut i: usize = 0;
    while i < entries.len()
        invariant
            0 <= i <= entries@.len(),
            entries@.map_values(|c: Conversation| conversation_view(c)) == all,
            text@ == start + inbox_text(all.take(i as int), reader),
            stored_views(rows@) == inbox_rows(all.take(i as int), reader),
        decreases entries.len() - i,
    {
        let entry = &entries[i];
        let ghost rows_before = stored_views(rows@);
        let ghost e = all[i as int];
        assert(e == conversation_view(*entry));
        if entry.0.1 == reader {
            text.append("from ");
            push_signed_decimal(text, entry.0.0 as i64);
            push_char(text, '\n');
            let ghost head = text@;
            let messages = &entry.1;
            let mut j: usize = 0;
            while j < messages.len()
                invariant
                    0 <= j <= messages@.len(),
                    entry.0 == e.0,
                    messages@.map_values(|m: PendingMessage| pending_message_view(m)) == e.1,
                    text@ == head + lines_text(e.1.take(j as int)),
                    stored_views(rows@) == rows_before + message_rows(
                        e.0.0,
                        e.0.1,
                        e.1.take(j as int),
                    ),
                decreases messages.len() - j,
            {
                let ghost rows_mid = rows@;
                text.append(messages[j].0.as_str());
                push_char(text, '\n');
                rows.push(
                    StoredMessage {
                        sender_id: entry.0.0,
                        receiver_id: entry.0.1,
                        content: messages[j].0.clone(),
                        reply_to: messages[j].1,
                    },
                );
                proof {
                    let next = e.1.take(j + 1);
                    assert(next.drop_last() =~= e.1.take(j as int));
                    assert(next.last() == e.1[j as int]);
                    assert(e.1[j as int] == pending_message_view(messages@[j as int]));
                    assert(stored_views(rows@) =~= stored_views(rows_mid).push(
                        rows@[rows@.len() - 1]@,
                    ));
                    assert(text@ =~= head + lines_text(next));
                    assert(stored_views(rows@) =~= rows_before + message_rows(e.0.0, e.0.1, next));
                }
                j = j + 1;
            }
            assert(e.1.take(messages@.len() as int) =~= e.1);
        }
        proof {
            let next = all.take(i + 1);
            assert(next.drop_last() =~= all.take(i as int));
            assert(next.last() == e);
            assert(text@ =~= start + inbox_text(next, reader));
            assert(stored_views(rows@) =~= inbox_rows(next, reader));
        }
        i = i + 1;
    }
    assert(all.take(entries@.len() as int) =~= all);
    rows
}

/// Signing out undoes signing in: a client that was signed out, once signed
/// in, is signed out again by sign_out, and likewise by exit, and the
/// signed-in users are back as they were.
pub proof fn lemma_sign_out_undoes_sign_in(
    users: Seq<OnlineUserView>,
    client: u16,
    account: i32,
    name: Seq<char>,
    username: Seq<char>,
    password: Seq<char>,
)
    requires
        crate::state::clients_distinct(users),
        !client_online(users, client),
    ensures
        sign_in_result(Some((account, password, name)), username, password, client, users) == (
            "Hello "@ + username,
            users.push((account, client, name)),
        ),
        sign_out_outcome(
            Seq::empty(),
            client,
            users.push((account, client, name)),
        ) == finished("Logged out !"@, users),
        exit_outcome(client, users.push((account, client, name))) == finished("exit!"@, users),
{
    let t = users.push((account, client, name));
    let last = users.len() as int;
    assert(t[last].1 == client);
    assert(client_online(t, client));
    let k = client_index(t, client);
    if k != last {
        assert(t[k] == users[k]);
        assert(users[k].1 == client);
    }
    assert(swap_removed(t, last) =~= users);
}

/// A client that is not signed in gets nothing done by the commands that
/// need an account: reply, send, show_past_chat, show_users, check_inbox,
/// sign_out and exit leave the signed-in users as they were and ask
/// nothing of the database; the answer is a refusal.
pub proof fn lemma_signed_out_client_is_refused(
    command: Seq<char>,
    args: Seq<Seq<char>>,
    client: u16,
    users: Seq<OnlineUserView>,
    pending: Seq<ConversationView>,
    answer: Seq<char>,
)
    requires
        !client_online(users, client),
        command == "reply"@ || command == "send"@ || command == "show_past_chat"@ || command
            == "show_users"@ || command == "check_inbox"@ || command == "sign_out"@ || command
            == "exit"@,
    ensures
        command_outcome(command, args, client, users, pending, answer).1 == users,
        command_outcome(command, args, client, users, pending, answer).2 == ActionView::Done,
{
    reveal_strlit("sign_in");
    reveal_strlit("sign_up");
    reveal_strlit("reply");
    reveal_strlit("send");
    reveal_strlit("show_past_chat");
    reveal_strlit("show_users");
    reveal_strlit("check_inbox");
    reveal_strlit("sign_out");
    reveal_strlit("exit");
    assert("reply"@[0] != "sign_in"@[0] && "reply"@[0] != "sign_up"@[0]);
    assert("send"@[1] != "sign_in"@[1] && "send"@[1] != "sign_up"@[1]);
    assert("show_past_chat"@ != "sign_in"@ && "show_past_chat"@ != "sign_up"@);
    assert("show_users"@ != "sign_in"@ && "show_users"@ != "sign_up"@);
    assert("check_inbox"@ != "sign_in"@ && "check_inbox"@ != "sign_up"@);
    assert("sign_out"@[5] != "sign_in"@[5] && "sign_out"@[5] != "sign_up"@[5]);
    assert("exit"@ != "sign_in"@ && "exit"@ != "sign_up"@);
}

/// After exit, and after a well-formed sign_out, the client is no longer
/// signed in, and every other signed-in user still is.
pub proof fn lemma_exit_signs_out(client: u16, users: Seq<OnlineUserView>, other: u16)
    requires
        crate::state::clients_distinct(users),
        other != client,
    ensures
        !client_online(exit_outcome(client, users).1, client),
        !client_online(sign_out_outcome(Seq::empty(), client, users).1, client),
        client_online(exit_outcome(client, users).1, other) == client_online(users, other),
        client_online(sign_out_outcome(Seq::empty(), client, users).1, other) == client_online(
            users,
            other,
        ),
{
    if client_online(users, client) {
        let p = client_index(users, client);
        let t = swap_removed(users, p);
        let last = users.len() - 1;
        assert forall|k: int| 0 <= k < t.len() implies (#[trigger] t[k]).1 != client by {
            let o = if k == p {
                last
            } else {
                k
            };
            assert(t[k] == users[o]);
            assert(o != p);
        }
        if client_online(users, other) {
            let q = choose|q: int| 0 <= q < users.len() && (#[trigger] users[q]).1 == other;
            assert(q != p);
            if q == last {
                assert(t[p] == users[q]);
            } else {
                assert(t[q] == users[q]);
            }
        }
        if client_online(t, other) {
            let k = choose|k: int| 0 <= k < t.len() && (#[trigger] t[k]).1 == other;
            let o = if k == p {
                last
            } else {
                k
            };
            assert(t[k] == users[o]);
        }
    }
}

/// Signing up and then signing in with the same name and password: sign_up
/// asks whether the name is taken (and, if free, to write the account with
/// the four words as given), and sign_in, from a client not signed in yet,
/// asks for the account of that name; given the row that sign_up wrote back
/// from that lookup, with whatever id the database gave it, the answer is
/// "Hello <name>" and the client is signed in last under that account.
pub proof fn lemma_sign_up_then_sign_in(
    first_name: Seq<char>,
    last_name: Seq<char>,
    username: Seq<char>,
    password: Seq<char>,
    account: i32,
    client: u16,
    users: Seq<OnlineUserView>,
    pending: Seq<ConversationView>,
    answer: Seq<char>,
)
    requires
        !client_online(users, client),
    ensures
        command_outcome(
            "sign_up"@,
            seq![first_name, last_name, username, password],
            client,
            users,
            pending,
            answer,
        ) == (
            answer,
            users,
            ActionView::CheckUsername { first_name, last_name, username, password },
        ),
        command_outcome("sign_in"@, seq![username, password], client, users, pending, answer) == (
            answer,
            users,
            ActionView::FindLogin { username, password },
        ),
        sign_in_result(Some((account, password, username)), username, password, client, users) == (
            "Hello "@ + username,
            users.push((account, client, username)),
        ),
{
    reveal_strlit("sign_in");
    reveal_strlit("sign_up");
    assert("sign_up"@[5] != "sign_in"@[5]);
}

/// A past chat shows each row on a line of its own, in the order of the
/// rows, and a row's line depends on that row alone: `Message-id(`, the
/// row's own message id, ` replied to <id>` for a reply, `): `, the text
/// and a line break. Shown for one row, and for a list cut anywhere in two.
pub proof fn lemma_past_chat_lines(l: ChatLineView, a: Seq<ChatLineView>, b: Seq<ChatLineView>)
    ensures
        chat_text(Seq::empty()) == Seq::<char>::empty(),
        chat_text(seq![l]) == "Message-id("@ + signed_decimal(l.0 as int) + match l.2 {
            Some(r) => " replied to "@ + signed_decimal(r as int) + "): "@,
            None => "): "@,
        } + l.1 + seq!['\n'],
        chat_text(a + b) == chat_text(a) + chat_text(b),
    decreases b.len(),
{
    assert(seq![l].drop_last() =~= Seq::<ChatLineView>::empty());
    assert(chat_text(seq![l].drop_last()) == Seq::<char>::empty());
    assert(seq![l].last() == l);
    if b.len() == 0 {
        assert(a + b =~= a);
        assert(chat_text(a) + chat_text(b) =~= chat_text(a));
    } else {
        lemma_past_chat_lines(l, a, b.drop_last());
        assert((a + b).drop_last() =~= a + b.drop_last());
        assert((a + b).last() == b.last());
        assert(chat_text(a) + chat_text(b.drop_last()) + chat_line_text(b.last()) =~= chat_text(a)
            + chat_text(b));
    }
}

/// Under a sender's heading the inbox shows every waiting message, reply
/// or not, as its text on a line of its own, in order: shown for one
/// message, and for messages cut anywhere in two.
pub proof fn lemma_inbox_lines(m: PendingMessageView, a: Seq<PendingMessageView>, b: Seq<
    PendingMessageView,
>)
    ensures
        lines_text(seq![m]) == m.0 + seq!['\n'],
        lines_text(a + b) == lines_text(a) + lines_text(b),
    decreases b.len(),
{
    assert(seq![m].drop_last() =~= Seq::<PendingMessageView>::empty());
    assert(lines_text(seq![m].drop_last()) == Seq::<char>::empty());
    assert(seq![m].last() == m);
    assert(Seq::<char>::empty() + m.0 + seq!['\n'] =~= m.0 + seq!['\n']);
    if b.len() == 0 {
        assert(a + b =~= a);
        assert(lines_text(a) + lines_text(b) =~= lines_text(a));
    } else {
        lemma_inbox_lines(m, a, b.drop_last());
        assert((a + b).drop_last() =~= a + b.drop_last());
        assert((a + b).last() == b.last());
        assert(lines_text(a) + lines_text(b.drop_last()) + b.last().0 + seq!['\n'] =~= lines_text(a)
            + lines_text(b));
    }
}

/// The inbox of `reader` shows each conversation addressed to it as
/// `from <sender>` on a line and then its messages, and nothing of the
/// conversations addressed to others; conversations keep their order.
pub proof fn lemma_inbox_conversations(
    e: ConversationView,
    a: Seq<ConversationView>,
    b: Seq<ConversationView>,
    reader: i32,
)
    ensures
        inbox_text(seq![e], reader) == if e.0.1 == reader {
            "from "@ + signed_decimal(e.0.0 as int) + seq!['\n'] + lines_text(e.1)
        } else {
            Seq::empty()
        },
        inbox_text(a + b, reader) == inbox_text(a, reader) + inbox_text(b, reader),
    decreases b.len(),
{
    assert(seq![e].drop_last() =~= Seq::<ConversationView>::empty());
    assert(inbox_text(seq![e].drop_last(), reader) == Seq::<char>::empty());
    assert(seq![e].last() == e);
    let piece = if e.0.1 == reader {
        "from "@ + signed_decimal(e.0.0 as int) + seq!['\n'] + lines_text(e.1)
    } else {
        Seq::<char>::empty()
    };
    assert(Seq::<char>::empty() + piece =~= piece);
    if b.len() == 0 {
        assert(a + b =~= a);
        assert(inbox_text(a, reader) + inbox_text(b, reader) =~= inbox_text(a, reader));
    } else {
        lemma_inbox_conversations(e, a, b.drop_last(), reader);
        assert((a + b).drop_last() =~= a + b.drop_last());
        assert((a + b).last() == b.last());
        let tail = if b.last().0.1 == reader {
            "from "@ + signed_decimal(b.last().0.0 as int) + seq!['\n'] + lines_text(b.last().1)
        } else {
            Seq::<char>::empty()
        };
        assert(inbox_text(a, reader) + inbox_text(b.drop_last(), reader) + tail =~= inbox_text(
            a,
            reader,
        ) + inbox_text(b, reader));
    }
}

/// The list of names has one line per signed-in user, in order: shown for
/// one user, and for users cut anywhere in two.
pub proof fn lemma_names_lines(u: OnlineUserView, a: Seq<OnlineUserView>, b: Seq<OnlineUserView>)
    ensures
        names_text(seq![u]) == u.2 + seq!['\n'],
        names_text(a + b) == names_text(a) + names_text(b),
    decreases b.len(),
{
    assert(seq![u].drop_last() =~= Seq::<OnlineUserView>::empty());
    assert(names_text(seq![u].drop_last()) == Seq::<char>::empty());
    assert(seq![u].last() == u);
    assert(Seq::<char>::empty() + u.2 + seq!['\n'] =~= u.2 + seq!['\n']);
    if b.len() == 0 {
        assert(a + b =~= a);
        assert(names_text(a) + names_text(b) =~= names_text(a));
    } else {
        lemma_names_lines(u, a, b.drop_last());
        assert((a + b).drop_last() =~= a + b.drop_last());
        assert((a + b).last() == b.last());
        assert(names_text(a) + names_text(b.drop_last()) + b.last().2 + seq!['\n'] =~= names_text(a)
            + names_text(b));
    }
}

/// show_users answers any signed-in asker alike: `Online users:` and then
/// the names of all signed-in users, whoever asks.
pub proof fn lemma_show_users_lists_everyone(
    users: Seq<OnlineUserView>,
    asker: u16,
    other_asker: u16,
)
    requires
        client_online(users, asker),
        client_online(users, other_asker),
    ensures
        show_users_outcome(Seq::empty(), asker, users) == show_users_outcome(
            Seq::empty(),
            other_asker,
            users,
        ),
        show_users_outcome(Seq::empty(), asker, users).0 == "Online users:\n"@ + names_text(users),
        show_users_outcome(Seq::empty(), asker, users).1 == users,
{
}

/// The account a command acts for is the one signed in from the asking
/// client: send and reply are sent by it, show_past_chat and check_inbox
/// read for it.
pub proof fn lemma_commands_act_for_asker(
    args: Seq<Seq<char>>,
    client: u16,
    users: Seq<OnlineUserView>,
    pending: Seq<ConversationView>,
    answer: Seq<char>,
    i: int,
)
    requires
        crate::state::clients_distinct(users),
        0 <= i < users.len(),
        users[i].1 == client,
    ensures
        account_of(users, client) == users[i].0,
        args.len() == 2 ==> send_outcome(args, client, users, answer).2 == (ActionView::FindReceiver {
            sender_id: users[i].0,
            message: args[0],
            username: args[1],
        }),
        args.len() == 2 && parsed_i32(args[1]) is Some ==> reply_outcome(
            args,
            client,
            users,
            answer,
        ).2 == (ActionView::FindRepliedMessage {
            sender_id: users[i].0,
            message: args[0],
            message_id: parsed_i32(args[1])->0,
        }),
        args.len() == 1 ==> show_past_chat_outcome(args, client, users).2 == (ActionView::LoadChat {
            username: args[0],
            reader_id: users[i].0 as i64,
        }),
        args.len() == 0 ==> check_inbox_outcome(args, client, users, pending).0 == "Unread messages:\n"@
            + inbox_text(pending, users[i].0),
{
    assert(client_online(users, client));
    let k = client_index(users, client);
    if k != i {
        assert(users[k].1 != users[i].1);
    }
}

} // verus!
