use fluxy::presence::{ChatServer, GetConnectedUsers, JoinChat, LeaveChat, UserConnected};

fn join(reg: &mut ChatServer, addr: u64, user_id: i64, server_id: i64, channel_id: i64) {
    reg.join_chat(JoinChat { addr, server_id, channel_id, user_id });
}

#[test]
fn join_then_leave_restores_count() {
    let mut reg = ChatServer::new();
    join(&mut reg, 1, 7, 10, 20);
    let before = reg.session_count(7);
    join(&mut reg, 2, 7, 10, 21);
    assert_eq!(reg.session_count(7), before + 1);
    reg.leave_chat(LeaveChat { user_id: 7, addr: Some(2) });
    assert_eq!(reg.session_count(7), before);
    assert!(reg.is_connected(7));
    reg.leave_chat(LeaveChat { user_id: 7, addr: Some(1) });
    assert_eq!(reg.session_count(7), 0);
    assert!(!reg.is_connected(7));
    assert_eq!(reg.session_total(), 0);
}

#[test]
fn join_then_leave_from_zero_disconnects() {
    let mut reg = ChatServer::new();
    reg.user_connected(UserConnected { user_id: 3 });
    assert!(reg.is_connected(3));
    join(&mut reg, 9, 3, 1, 1);
    assert_eq!(reg.session_count(3), 1);
    reg.leave_chat(LeaveChat { user_id: 3, addr: Some(9) });
    assert_eq!(reg.session_count(3), 0);
    assert!(!reg.is_connected(3));
}

#[test]
fn login_only_join_marks_connected_without_session() {
    let mut reg = ChatServer::new();
    join(&mut reg, 5, 4, 0, 0);
    assert!(reg.is_connected(4));
    assert_eq!(reg.session_count(4), 0);
    assert_eq!(reg.session_total(), 0);
}

#[test]
fn broadcast_reaches_only_matching_sessions() {
    let mut reg = ChatServer::new();
    join(&mut reg, 1, 100, 10, 20);
    join(&mut reg, 2, 101, 10, 21);
    join(&mut reg, 3, 102, 11, 20);
    join(&mut reg, 4, 103, 10, 20);
    assert_eq!(reg.send_to_channel(10, 20), vec![1, 4]);
    assert_eq!(reg.send_to_channel(10, 21), vec![2]);
    assert_eq!(reg.send_to_channel(11, 21), Vec::<u64>::new());
}

#[test]
fn user_connected_twice_same_as_once() {
    let mut once = ChatServer::new();
    once.user_connected(UserConnected { user_id: 8 });
    let mut twice = ChatServer::new();
    twice.user_connected(UserConnected { user_id: 8 });
    twice.user_connected(UserConnected { user_id: 8 });
    assert_eq!(once.get_connected_users(GetConnectedUsers), twice.get_connected_users(GetConnectedUsers));
    assert_eq!(once.session_count(8), twice.session_count(8));
}

#[test]
fn user_connected_keeps_session_count() {
    let mut reg = ChatServer::new();
    join(&mut reg, 1, 8, 2, 3);
    reg.user_connected(UserConnected { user_id: 8 });
    assert_eq!(reg.session_count(8), 1);
}

#[test]
fn logout_drops_user_regardless_of_sessions() {
    let mut reg = ChatServer::new();
    join(&mut reg, 1, 6, 2, 3);
    join(&mut reg, 2, 6, 2, 4);
    reg.leave_chat(LeaveChat { user_id: 6, addr: None });
    assert!(!reg.is_connected(6));
    assert_eq!(reg.session_count(6), 0);
    assert_eq!(reg.session_total(), 2);
}

#[test]
fn leave_of_unknown_user_changes_nothing_else() {
    let mut reg = ChatServer::new();
    join(&mut reg, 1, 6, 2, 3);
    reg.leave_chat(LeaveChat { user_id: 99, addr: Some(7) });
    assert!(reg.is_connected(6));
    assert_eq!(reg.session_total(), 1);
}

#[test]
fn connected_users_snapshot() {
    let mut reg = ChatServer::new();
    join(&mut reg, 1, 1, 2, 3);
    join(&mut reg, 2, 2, 0, 0);
    reg.user_connected(UserConnected { user_id: 3 });
    let mut users = reg.get_connected_users(GetConnectedUsers);
    users.sort();
    assert_eq!(users, vec![1, 2, 3]);
}
