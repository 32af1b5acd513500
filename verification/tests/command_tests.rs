use chat::{
    Action, ChatLine, CommandManager, DatabaseError, OnlineUsers, PendingMessages, UserRecord,
};

fn run(cm: &mut CommandManager, users: &mut OnlineUsers, pending: &PendingMessages, line: &str, client: u16) -> Action {
    cm.parse_command(line, client);
    cm.identify_command(users, pending)
}

fn record(id: i32, password: &str, name: &str) -> UserRecord {
    UserRecord { user_id: id, password: password.to_string(), username: name.to_string() }
}

/// Signs `name` in from `client` under account `id`.
fn sign_in(cm: &mut CommandManager, users: &mut OnlineUsers, pending: &PendingMessages, name: &str, id: i32, client: u16) {
    let line = format!("sign_in {} pw", name);
    match run(cm, users, pending, &line, client) {
        Action::FindLogin(req) => {
            assert_eq!(req.username, name);
            assert_eq!(req.password, "pw");
            cm.finish_sign_in(users, &req, Ok(Some(record(id, "pw", name))));
        }
        _ => panic!("sign_in should look the account up"),
    }
    assert_eq!(cm.get_answer(), format!("Hello {}", name));
}

#[test]
fn new_manager_is_empty() {
    let cm = CommandManager::new();
    assert_eq!(cm.get_answer(), "");
    assert_eq!(cm.listing(), "\n\n");
}

#[test]
fn parse_command_splits_command_and_arguments() {
    let mut cm = CommandManager::new();
    cm.parse_command("send \"hi there\" bob", 7);
    assert_eq!(cm.listing(), "send\nhi there|bob|\n");
    cm.parse_command("   ", 7);
    assert_eq!(cm.listing(), "\n\n");
}

#[test]
fn unknown_command_is_invalid() {
    let mut cm = CommandManager::new();
    let mut users = OnlineUsers::new();
    let pending = PendingMessages::new();
    assert!(matches!(run(&mut cm, &mut users, &pending, "dance now", 1), Action::Done));
    assert_eq!(cm.get_answer(), "invalid");
    assert!(matches!(run(&mut cm, &mut users, &pending, "", 1), Action::Done));
    assert_eq!(cm.get_answer(), "invalid");
}

#[test]
fn sign_in_syntax_error() {
    let mut cm = CommandManager::new();
    let mut users = OnlineUsers::new();
    let pending = PendingMessages::new();
    assert!(matches!(run(&mut cm, &mut users, &pending, "sign_in alice", 1), Action::Done));
    assert_eq!(cm.get_answer(), "invalid syntax !<sign_in> <username> <password> !");
}

#[test]
fn sign_in_then_again_is_refused() {
    let mut cm = CommandManager::new();
    let mut users = OnlineUsers::new();
    let pending = PendingMessages::new();
    sign_in(&mut cm, &mut users, &pending, "alice", 3, 1000);
    assert_eq!(users.users().len(), 1);
    assert_eq!(users.users()[0], (3, 1000, "alice".to_string()));
    assert!(matches!(run(&mut cm, &mut users, &pending, "sign_in alice pw", 1000), Action::Done));
    assert_eq!(cm.get_answer(), "You are logged in !");
    assert_eq!(users.users().len(), 1);
}

#[test]
fn sign_in_wrong_password() {
    let mut cm = CommandManager::new();
    let mut users = OnlineUsers::new();
    let pending = PendingMessages::new();
    match run(&mut cm, &mut users, &pending, "sign_in alice nope", 1) {
        Action::FindLogin(req) => cm.finish_sign_in(&mut users, &req, Ok(Some(record(3, "pw", "alice")))),
        _ => panic!(),
    }
    assert_eq!(cm.get_answer(), "Mismatched password !");
    assert!(users.users().is_empty());
}

#[test]
fn sign_in_unknown_user_and_failure() {
    let mut cm = CommandManager::new();
    let mut users = OnlineUsers::new();
    let pending = PendingMessages::new();
    match run(&mut cm, &mut users, &pending, "sign_in ghost pw", 1) {
        Action::FindLogin(req) => {
            cm.finish_sign_in(&mut users, &req, Ok(None));
            assert_eq!(cm.get_answer(), "Mismatched password !");
            cm.finish_sign_in(&mut users, &req, Err(DatabaseError));
            assert_eq!(cm.get_answer(), "Couldn't execute command");
        }
        _ => panic!(),
    }
    assert!(users.users().is_empty());
}

#[test]
fn sign_in_missing_user_with_stand_in_password() {
    // An unknown name is looked up as account 0 named "idk" whose password
    // is "Couldn't find user !".
    let mut cm = CommandManager::new();
    let mut users = OnlineUsers::new();
    let pending = PendingMessages::new();
    match run(&mut cm, &mut users, &pending, "sign_in ghost \"Couldn't find user !\"", 4) {
        Action::FindLogin(req) => cm.finish_sign_in(&mut users, &req, Ok(None)),
        _ => panic!(),
    }
    assert_eq!(cm.get_answer(), "Hello ghost");
    assert_eq!(users.users()[0], (0, 4, "idk".to_string()));
}

#[test]
fn sign_up_flow() {
    let mut cm = CommandManager::new();
    let mut users = OnlineUsers::new();
    let pending = PendingMessages::new();
    assert!(matches!(run(&mut cm, &mut users, &pending, "sign_up a b c", 1), Action::Done));
    assert_eq!(cm.get_answer(), "invalid syntax !<sign_up> <first_name> <last_name> <username> <password> !");
    let req = match run(&mut cm, &mut users, &pending, "sign_up Ann Lee ann pw", 1) {
        Action::CheckUsername(req) => req,
        _ => panic!(),
    };
    assert_eq!((req.first_name.as_str(), req.last_name.as_str(), req.username.as_str(), req.password.as_str()), ("Ann", "Lee", "ann", "pw"));
    let again = SignUpCopy::of(&req);
    match cm.finish_username_check(req, Ok(false)) {
        Action::CreateUser(r) => assert_eq!(r.username, "ann"),
        _ => panic!(),
    }
    cm.finish_create_user(Ok(()));
    assert_eq!(cm.get_answer(), "User created !");
    assert!(matches!(cm.finish_username_check(again.make(), Ok(true)), Action::Done));
    assert_eq!(cm.get_answer(), "User already exists !");
    assert!(matches!(cm.finish_username_check(again.make(), Err(DatabaseError)), Action::Done));
    assert_eq!(cm.get_answer(), "Couldn't execute command !");
    cm.finish_create_user(Err(DatabaseError));
    assert_eq!(cm.get_answer(), "Couldn't execute command !");
}

struct SignUpCopy(String, String, String, String);

impl SignUpCopy {
    fn of(r: &chat::SignUpRequest) -> Self {
        SignUpCopy(r.first_name.clone(), r.last_name.clone(), r.username.clone(), r.password.clone())
    }
    fn make(&self) -> chat::SignUpRequest {
        chat::SignUpRequest {
            first_name: self.0.clone(),
            last_name: self.1.clone(),
            username: self.2.clone(),
            password: self.3.clone(),
        }
    }
}

#[test]
fn signed_out_client_is_refused() {
    let mut cm = CommandManager::new();
    let mut users = OnlineUsers::new();
    let pending = PendingMessages::new();
    for line in ["reply \"hi\" 3", "send hi bob", "show_past_chat bob", "show_users", "check_inbox"] {
        assert!(matches!(run(&mut cm, &mut users, &pending, line, 9), Action::Done));
        assert_eq!(cm.get_answer(), "Sign in first !", "line {}", line);
    }
    assert!(matches!(run(&mut cm, &mut users, &pending, "sign_out", 9), Action::Done));
    assert_eq!(cm.get_answer(), "You are not logged in !");
    assert!(matches!(run(&mut cm, &mut users, &pending, "exit", 9), Action::Done));
    assert_eq!(cm.get_answer(), "User is not online !");
    assert!(users.users().is_empty());
}

#[test]
fn syntax_errors() {
    let mut cm = CommandManager::new();
    let mut users = OnlineUsers::new();
    let pending = PendingMessages::new();
    let cases = [
        ("sign_out now", "invalid syntax !<sign_out> !"),
        ("reply x", "invalid syntax! Use: <reply> <\"message\"> <message_id>!"),
        ("send x", "invalid syntax !<send> <\"message\"> <receiver> !"),
        ("show_past_chat", "invalid syntax !<show_past_chat> <user> !"),
        ("show_users x", "invalid syntax !<show_users> !"),
        ("check_inbox x", "invalid syntax !<check_inbox> !"),
    ];
    for (line, answer) in cases {
        assert!(matches!(run(&mut cm, &mut users, &pending, line, 2), Action::Done));
        assert_eq!(cm.get_answer(), answer);
    }
}

#[test]
fn sign_out_undoes_sign_in() {
    let mut cm = CommandManager::new();
    let mut users = OnlineUsers::new();
    let pending = PendingMessages::new();
    sign_in(&mut cm, &mut users, &pending, "bob", 2, 20);
    sign_in(&mut cm, &mut users, &pending, "carol", 5, 30);
    assert!(matches!(run(&mut cm, &mut users, &pending, "sign_out", 30), Action::Done));
    assert_eq!(cm.get_answer(), "Logged out !");
    assert_eq!(users.users(), &vec![(2, 20, "bob".to_string())]);
}

#[test]
fn sign_out_moves_last_into_gap() {
    let mut cm = CommandManager::new();
    let mut users = OnlineUsers::new();
    let pending = PendingMessages::new();
    sign_in(&mut cm, &mut users, &pending, "a", 1, 10);
    sign_in(&mut cm, &mut users, &pending, "b", 2, 20);
    sign_in(&mut cm, &mut users, &pending, "c", 3, 30);
    assert!(matches!(run(&mut cm, &mut users, &pending, "exit with args", 10), Action::Done));
    assert_eq!(cm.get_answer(), "exit!");
    assert_eq!(users.users(), &vec![(3, 30, "c".to_string()), (2, 20, "b".to_string())]);
}

#[test]
fn show_users_lists_names() {
    let mut cm = CommandManager::new();
    let mut users = OnlineUsers::new();
    let pending = PendingMessages::new();
    sign_in(&mut cm, &mut users, &pending, "a", 1, 10);
    sign_in(&mut cm, &mut users, &pending, "b", 2, 20);
    assert!(matches!(run(&mut cm, &mut users, &pending, "show_users", 20), Action::Done));
    assert_eq!(cm.get_answer(), "Online users:\na\nb\n");
}

#[test]
fn send_and_check_inbox() {
    let mut cm = CommandManager::new();
    let mut users = OnlineUsers::new();
    let mut pending = PendingMessages::new();
    sign_in(&mut cm, &mut users, &pending, "a", 1, 10);
    sign_in(&mut cm, &mut users, &pending, "b", 2, 20);
    let req = match run(&mut cm, &mut users, &pending, "send \"hi b\" b", 10) {
        Action::FindReceiver(req) => req,
        _ => panic!(),
    };
    assert_eq!((req.sender_id, req.message.as_str(), req.username.as_str()), (1, "hi b", "b"));
    cm.finish_send(&mut pending, req, Some(2));
    assert_eq!(cm.get_answer(), "Message sent !");
    match run(&mut cm, &mut users, &pending, "send again b", 10) {
        Action::FindReceiver(req) => cm.finish_send(&mut pending, req, Some(2)),
        _ => panic!(),
    }
    assert_eq!(pending.entries().len(), 1);
    assert_eq!(pending.entries()[0].0, (1, 2));
    assert_eq!(pending.entries()[0].1, vec![("hi b".to_string(), None), ("again".to_string(), None)]);
    match run(&mut cm, &mut users, &pending, "check_inbox", 20) {
        Action::StoreMessages(rows) => {
            assert_eq!(rows.len(), 2);
            assert_eq!((rows[0].sender_id, rows[0].receiver_id, rows[0].content.as_str(), rows[0].reply_to), (1, 2, "hi b", None));
            assert_eq!(rows[1].content, "again");
        }
        _ => panic!(),
    }
    assert_eq!(cm.get_answer(), "Unread messages:\nfrom 1\nhi b\nagain\n");
    // The inbox is shown, not emptied.
    assert_eq!(pending.entries().len(), 1);
    match run(&mut cm, &mut users, &pending, "check_inbox", 10) {
        Action::StoreMessages(rows) => assert!(rows.is_empty()),
        _ => panic!(),
    }
    assert_eq!(cm.get_answer(), "Unread messages:\n");
}

#[test]
fn send_to_unknown_user() {
    let mut cm = CommandManager::new();
    let mut users = OnlineUsers::new();
    let mut pending = PendingMessages::new();
    sign_in(&mut cm, &mut users, &pending, "a", 1, 10);
    match run(&mut cm, &mut users, &pending, "send hi nobody", 10) {
        Action::FindReceiver(req) => cm.finish_send(&mut pending, req, None),
        _ => panic!(),
    }
    assert_eq!(cm.get_answer(), "User does not exist !");
    match run(&mut cm, &mut users, &pending, "send hi minus", 10) {
        Action::FindReceiver(req) => cm.finish_send(&mut pending, req, Some(-5)),
        _ => panic!(),
    }
    assert_eq!(cm.get_answer(), "User does not exist !");
    assert!(pending.entries().is_empty());
}

#[test]
fn reply_flow() {
    let mut cm = CommandManager::new();
    let mut users = OnlineUsers::new();
    let mut pending = PendingMessages::new();
    sign_in(&mut cm, &mut users, &pending, "a", 1, 10);
    assert!(matches!(run(&mut cm, &mut users, &pending, "reply \"ok\" x7", 10), Action::Done));
    assert_eq!(cm.get_answer(), "Invalid number format for message id !");
    let req = match run(&mut cm, &mut users, &pending, "reply \"ok then\" 7", 10) {
        Action::FindRepliedMessage(req) => req,
        _ => panic!(),
    };
    assert_eq!((req.sender_id, req.message.as_str(), req.message_id), (1, "ok then", 7));
    cm.finish_reply(&mut pending, req, Some(4));
    assert_eq!(cm.get_answer(), "Reply sent!");
    assert_eq!(pending.entries()[0].0, (1, 4));
    assert_eq!(pending.entries()[0].1, vec![("ok then".to_string(), Some(7))]);
    match run(&mut cm, &mut users, &pending, "reply x -3", 10) {
        Action::FindRepliedMessage(req) => {
            assert_eq!(req.message_id, -3);
            cm.finish_reply(&mut pending, req, None);
        }
        _ => panic!(),
    }
    assert_eq!(cm.get_answer(), "Message you want to reply does not exist !");
    assert_eq!(pending.entries().len(), 1);
}

#[test]
fn show_past_chat_flow() {
    let mut cm = CommandManager::new();
    let mut users = OnlineUsers::new();
    let pending = PendingMessages::new();
    sign_in(&mut cm, &mut users, &pending, "a", 11, 10);
    match run(&mut cm, &mut users, &pending, "show_past_chat bob", 10) {
        Action::LoadChat(req) => {
            assert_eq!(req.username, "bob");
            assert_eq!(req.reader_id, 11);
        }
        _ => panic!(),
    }
    assert_eq!(cm.get_answer(), "bob's chat:\n");
    let lines = vec![
        ChatLine { message_id: 1, content: "hi".to_string(), reply_to: None },
        ChatLine { message_id: 2, content: "hello".to_string(), reply_to: Some(1) },
    ];
    cm.finish_show_past_chat(&lines);
    assert_eq!(cm.get_answer(), "bob's chat:\nMessage-id(1): hi\nMessage-id(2 replied to 1): hello\n");
}

#[test]
fn exit_signs_out_only_that_client() {
    let mut cm = CommandManager::new();
    let mut users = OnlineUsers::new();
    let pending = PendingMessages::new();
    sign_in(&mut cm, &mut users, &pending, "a", 1, 10);
    sign_in(&mut cm, &mut users, &pending, "b", 2, 20);
    assert!(matches!(run(&mut cm, &mut users, &pending, "exit", 20), Action::Done));
    assert_eq!(cm.get_answer(), "exit!");
    assert!(!users.is_online(20));
    assert!(users.is_online(10));
}

#[test]
fn sign_up_then_sign_in() {
    let mut cm = CommandManager::new();
    let mut users = OnlineUsers::new();
    let pending = PendingMessages::new();
    let req = match run(&mut cm, &mut users, &pending, "sign_up Ann Lee ann pw", 6) {
        Action::CheckUsername(req) => req,
        _ => panic!(),
    };
    let create = match cm.finish_username_check(req, Ok(false)) {
        Action::CreateUser(r) => r,
        _ => panic!(),
    };
    cm.finish_create_user(Ok(()));
    assert_eq!(cm.get_answer(), "User created !");
    match run(&mut cm, &mut users, &pending, "sign_in ann pw", 6) {
        Action::FindLogin(req) => {
            let row = UserRecord { user_id: 12, password: create.password.clone(), username: create.username.clone() };
            cm.finish_sign_in(&mut users, &req, Ok(Some(row)));
        }
        _ => panic!(),
    }
    assert_eq!(cm.get_answer(), "Hello ann");
    assert_eq!(users.users().last(), Some(&(12, 6, "ann".to_string())));
}
