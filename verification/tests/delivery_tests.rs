use chat::{deliver_pending, OnlineUsers, PendingMessages};

fn users_with(list: &[(i32, u16, &str)]) -> OnlineUsers {
    let mut users = OnlineUsers::new();
    for (id, client, name) in list {
        assert!(users.sign_in(*id, *client, name.to_string()));
    }
    users
}

#[test]
fn sign_in_refuses_a_client_twice() {
    let mut users = users_with(&[(1, 10, "a")]);
    assert!(!users.sign_in(2, 10, "b".to_string()));
    assert!(users.is_online(10));
    assert!(!users.is_online(11));
    assert_eq!(users.user_id_of(10), Some(1));
    assert_eq!(users.user_id_of(11), None);
    assert!(users.sign_out(10));
    assert!(!users.sign_out(10));
    assert!(users.users().is_empty());
}

#[test]
fn client_of_user_takes_the_first() {
    let users = users_with(&[(1, 10, "a"), (2, 20, "b"), (1, 30, "a")]);
    assert_eq!(users.client_of_user(1), Some(10));
    assert_eq!(users.client_of_user(2), Some(20));
    assert_eq!(users.client_of_user(3), None);
}

#[test]
fn queuing_groups_by_pair() {
    let mut pending = PendingMessages::new();
    pending.push((1, 2), "x".to_string(), None);
    pending.push((3, 2), "y".to_string(), Some(9));
    pending.push((1, 2), "z".to_string(), None);
    let e = pending.entries();
    assert_eq!(e.len(), 2);
    assert_eq!(e[0], ((1, 2), vec![("x".to_string(), None), ("z".to_string(), None)]));
    assert_eq!(e[1], ((3, 2), vec![("y".to_string(), Some(9))]));
}

#[test]
fn tick_delivers_to_open_sender_clients() {
    let users = users_with(&[(1, 10, "a"), (3, 30, "c")]);
    let mut pending = PendingMessages::new();
    pending.push((1, 2), "hi".to_string(), None);
    pending.push((3, 2), "yes".to_string(), Some(5));
    pending.push((4, 2), "nobody online".to_string(), None);
    pending.push((1, 2), "again".to_string(), None);
    let out = deliver_pending(&users, &mut pending, &vec![10, 99]);
    assert_eq!(out.len(), 1);
    assert_eq!(out[0].client, 10);
    assert_eq!(out[0].text, "Message from 1:\nhi\nagain\n");
    assert_eq!(out[0].rows.len(), 2);
    assert_eq!((out[0].rows[1].sender_id, out[0].rows[1].receiver_id, out[0].rows[1].content.as_str()), (1, 2, "again"));
    // (3, 2) waits: client 30 has no open channel; (4, 2) waits: nobody.
    let e = pending.entries();
    assert_eq!(e.len(), 2);
    assert_eq!(e[0].0, (3, 2));
    assert_eq!(e[1].0, (4, 2));
    let out = deliver_pending(&users, &mut pending, &vec![30]);
    assert_eq!(out.len(), 1);
    assert_eq!(out[0].client, 30);
    assert_eq!(out[0].text, "Message from 3:\nreplied to 5: yes\n");
    assert_eq!(out[0].rows[0].reply_to, Some(5));
    assert_eq!(pending.entries().len(), 1);
}

#[test]
fn tick_with_nothing_open_keeps_all() {
    let users = users_with(&[(1, 10, "a")]);
    let mut pending = PendingMessages::new();
    pending.push((1, 2), "hi".to_string(), None);
    let out = deliver_pending(&users, &mut pending, &vec![]);
    assert!(out.is_empty());
    assert_eq!(pending.entries().len(), 1);
}
