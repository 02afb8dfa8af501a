use fluxy::mutation::{InviteError, InviteOutcome, JoinError, KickError, LeaveError, RoleError};
use fluxy::presence::{ChatServer, GetConnectedUsers, JoinChat};
use fluxy::roster::Role;
use fluxy::store::{Collection, Store};

const OWNER: i64 = 200;
const ADMIN: i64 = 150;
const MEMBER: i64 = 111;

/// A server owned by `OWNER` with an admin, a member and one channel.
fn setup() -> (Store, i64, i64) {
    let mut store = Store::new();
    let sid = store.set_server(OWNER, "test", None);
    assert!(store.set_channel(sid, "general", OWNER));
    let cid = store.get_channels_of_server(sid)[0].id;
    store.add_member_to_server(sid, ADMIN);
    store.add_member_to_server(sid, MEMBER);
    assert!(store.add_admin_to_server(sid, OWNER, ADMIN));
    (store, sid, cid)
}

fn members(store: &Store, sid: i64) -> Vec<i64> {
    store.get_server(sid).unwrap().member_ids
}

fn admins(store: &Store, sid: i64) -> Vec<i64> {
    store.get_server(sid).unwrap().admin_ids
}

#[test]
fn create_post_and_delete_scenario() {
    let mut store = Store::new();
    let sid = store.set_server(OWNER, "server", None);
    assert!(store.set_channel(sid, "general", OWNER));
    let cid = store.get_channels_of_server(sid)[0].id;
    store.add_member_to_server(sid, MEMBER);
    assert!(store.set_message(sid, cid, "hi", MEMBER));

    let mut reg = ChatServer::new();
    reg.join_chat(JoinChat { addr: 1, server_id: sid, channel_id: cid, user_id: MEMBER });
    assert!(reg.get_connected_users(GetConnectedUsers).contains(&MEMBER));

    let msgs = store.get_messages_of_channel(cid);
    assert_eq!(msgs.len(), 1);
    assert_eq!(msgs[0].user, MEMBER);
    assert_eq!(msgs[0].content, "hi");
    assert!(msgs[0].time.contains('T'));
    let before = msgs.len();
    assert!(store.delete_message(msgs[0].id, OWNER));
    assert_eq!(store.get_messages_of_channel(cid).len(), before - 1);
}

#[test]
fn invite_code_scenario() {
    let (mut store, sid, _) = setup();
    let code = store.create_link_one_use(sid, OWNER).expect("owner may issue a code");
    assert_eq!(code.len(), 9);
    assert!(code.chars().all(|c| c.is_ascii_alphanumeric()));
    assert!(store.verify_link_exist(&code));
    assert!(store.join_by_link(&code, 300));
    assert!(members(&store, sid).contains(&300));
    let before = members(&store, sid);
    assert!(!store.join_by_link("zzz", 301));
    assert_eq!(members(&store, sid), before);
    store.delete_link(&code);
    assert!(!store.verify_link_exist(&code));
    assert!(!store.join_by_link(&code, 302));
    assert!(!members(&store, sid).contains(&302));
}

#[test]
fn invite_code_needs_role() {
    let (mut store, sid, _) = setup();
    assert!(matches!(store.create_link_one_use(sid, MEMBER), Err(InviteError::Denied)));
    assert!(store.create_link_one_use(sid, ADMIN).is_ok());
    let code = "abc".to_string();
    assert!(matches!(store.create_link_with_code(sid, MEMBER, &code), InviteOutcome::Denied));
    assert!(matches!(store.create_link_with_code(sid, OWNER, &code), InviteOutcome::Issued));
    let other = store.set_server(OWNER, "other", None);
    assert!(matches!(store.create_link_with_code(other, OWNER, &code), InviteOutcome::Taken));
    assert_eq!(store.get_server(sid).unwrap().link, Some("abc".to_string()));
}

#[test]
fn kick_scenario() {
    let (mut store, sid, _) = setup();
    assert!(matches!(store.kick_member(sid, MEMBER, ADMIN), Err(KickError::NotPermitted)));
    assert!(members(&store, sid).contains(&ADMIN));
    assert!(matches!(store.kick_member(sid, OWNER, ADMIN), Ok(true)));
    assert!(!members(&store, sid).contains(&ADMIN));
    assert!(!admins(&store, sid).contains(&ADMIN));
}

#[test]
fn kick_refusals() {
    let (mut store, sid, _) = setup();
    store.add_member_to_server(sid, 151);
    assert!(store.add_admin_to_server(sid, OWNER, 151));
    assert!(matches!(store.kick_member(sid, ADMIN, OWNER), Err(KickError::TargetIsOwner)));
    assert!(matches!(store.kick_member(sid, ADMIN, 151), Err(KickError::TargetIsAdmin)));
    assert!(matches!(store.kick_member(sid, ADMIN, MEMBER), Ok(true)));
    assert!(!members(&store, sid).contains(&MEMBER));
}

#[test]
fn member_removal_rules() {
    let (mut store, sid, _) = setup();
    store.add_member_to_server(sid, 112);
    assert!(!store.delete_member(sid, MEMBER, 112));
    assert!(!store.delete_member(sid, OWNER, OWNER));
    assert!(!store.delete_member(sid, ADMIN, OWNER));
    assert!(store.delete_member(sid, MEMBER, MEMBER));
    assert!(store.delete_member(sid, ADMIN, ADMIN));
    assert_eq!(members(&store, sid), vec![OWNER, 112]);
    assert!(admins(&store, sid).is_empty());
}

#[test]
fn leave_and_join_by_id() {
    let (mut store, sid, _) = setup();
    assert!(matches!(store.leave_server(sid, OWNER), Err(LeaveError::OwnerCannotLeave)));
    assert!(matches!(store.leave_server(sid, MEMBER), Ok(true)));
    assert!(matches!(store.join_server(sid, MEMBER), Ok(())));
    assert!(matches!(store.join_server(sid, MEMBER), Err(JoinError::AlreadyMember)));
    assert!(matches!(store.join_server(sid + 50, MEMBER), Err(JoinError::NotFound)));
}

#[test]
fn rename_channel_needs_role() {
    let (mut store, sid, cid) = setup();
    assert!(!store.update_channel_name(cid, "by member", MEMBER));
    assert_eq!(store.get_channel_by_id(cid).unwrap().name, "general");
    assert!(store.update_channel_name(cid, "by admin", ADMIN));
    assert_eq!(store.get_channel_by_id(cid).unwrap().name, "by admin");
    assert!(store.update_channel_name(cid, "by owner", OWNER));
    assert_eq!(store.get_channel_by_id(cid).unwrap().name, "by owner");
    assert!(!store.update_channel_name(cid + 40, "nothing", OWNER));
    assert_eq!(store.get_server_id_by_channel_id(cid), sid);
}

#[test]
fn demote_needs_owner() {
    let (mut store, sid, _) = setup();
    store.add_member_to_server(sid, 151);
    assert!(store.add_admin_to_server(sid, OWNER, 151));
    assert!(matches!(store.update_member_role(sid, 151, "membre", ADMIN), Err(RoleError::PermissionDenied)));
    assert!(store.is_admin(sid, 151) && store.is_admin(sid, ADMIN));
    assert!(!store.delete_admin(sid, ADMIN, 151));
    assert!(store.is_admin(sid, 151));
    assert!(matches!(store.update_member_role(sid, 151, "membre", OWNER), Ok(())));
    assert!(!store.is_admin(sid, 151));
    assert!(matches!(store.update_member_role(sid, 151, "chef", OWNER), Err(RoleError::InvalidInput)));
    assert!(matches!(store.update_member_role(sid, MEMBER, "admin", OWNER), Ok(())));
    assert!(store.is_admin(sid, MEMBER));
    assert!(store.delete_admin(sid, OWNER, MEMBER));
    assert!(!store.is_admin(sid, MEMBER));
}

#[test]
fn promote_needs_membership() {
    let (mut store, sid, _) = setup();
    assert!(!store.add_admin_to_server(sid, OWNER, 999));
    assert!(!store.add_admin_to_server(sid, ADMIN, MEMBER));
    assert!(!store.is_admin(sid, MEMBER));
}

#[test]
fn delete_server_cascades() {
    let (mut store, sid, cid) = setup();
    assert!(store.set_channel(sid, "second", ADMIN));
    let cid2 = store.get_channels_of_server(sid)[1].id;
    let other = store.set_server(300, "other", None);
    assert!(store.set_channel(other, "elsewhere", 300));
    let ocid = store.get_channels_of_server(other)[0].id;
    assert!(store.set_message(sid, cid, "one", MEMBER));
    assert!(store.set_message(sid, cid2, "two", OWNER));
    assert!(store.set_message(sid, cid2, "three", ADMIN));
    assert!(store.set_message(other, ocid, "kept", 300));

    assert!(!store.delete_server(sid, ADMIN));
    assert_eq!(store.get_channels_of_server(sid).len(), 2);
    assert!(store.delete_server(sid, OWNER));
    assert!(store.get_server(sid).is_none());
    assert!(store.get_channels_of_server(sid).is_empty());
    assert!(store.get_messages_of_channel(cid).is_empty());
    assert!(store.get_messages_of_channel(cid2).is_empty());
    assert_eq!(store.get_messages_of_channel(ocid).len(), 1);
    assert!(store.get_server(other).is_some());
}

#[test]
fn delete_channel_cascades() {
    let (mut store, sid, cid) = setup();
    assert!(store.set_message(sid, cid, "one", MEMBER));
    assert!(!store.delete_channel(cid, MEMBER));
    assert_eq!(store.get_messages_of_channel(cid).len(), 1);
    assert!(store.delete_channel(cid, ADMIN));
    assert!(store.get_channel_by_id(cid).is_none());
    assert!(store.get_messages_of_channel(cid).is_empty());
}

#[test]
fn transfer_then_retry_fails() {
    let (mut store, sid, _) = setup();
    assert!(store.switch_owner(sid, OWNER, MEMBER));
    assert!(store.is_owner(sid, MEMBER));
    assert!(!store.is_owner(sid, OWNER));
    assert!(!store.switch_owner(sid, OWNER, ADMIN));
    assert!(store.is_owner(sid, MEMBER));
    assert!(store.is_member(sid, OWNER));
    assert_eq!(store.get_servers_by_owner(MEMBER).len(), 1);
    assert!(store.get_servers_by_owner(OWNER).is_empty());
}

#[test]
fn ids_and_positions() {
    let mut store = Store::new();
    assert_eq!(store.get_last_id(Collection::Server), 0);
    let a = store.set_server(1, "a", Some("   ".to_string()));
    let b = store.set_server(1, "b", Some(" pic.png ".to_string()));
    assert_eq!((a, b), (1, 2));
    assert_eq!(store.get_server(a).unwrap().image, None);
    assert_eq!(store.get_server(b).unwrap().image, Some(" pic.png ".to_string()));
    assert_eq!(store.get_server(b).unwrap().member_ids, vec![1]);
    assert!(store.set_channel(a, "x", 1));
    assert!(store.set_channel(b, "y", 1));
    assert!(store.set_channel(a, "z", 1));
    let chans = store.get_channels_of_server(a);
    assert_eq!(chans.iter().map(|c| (c.id, c.position)).collect::<Vec<_>>(), vec![(1, 1), (3, 2)]);
    assert!(!store.set_channel(a, "w", 2));
    assert_eq!(store.get_last_id(Collection::Channel), 3);
}

#[test]
fn messages_need_membership_and_channel() {
    let (mut store, sid, cid) = setup();
    assert!(!store.set_message(sid, cid, "intruder", 999));
    assert!(!store.set_message(sid, cid + 7, "nowhere", MEMBER));
    assert!(store.set_message_at(sid, cid, "hello", MEMBER, "2024-01-01T00:00:00+00:00".to_string()));
    let m = &store.get_messages_of_channel(cid)[0];
    assert_eq!(m.time, "2024-01-01T00:00:00+00:00");
    assert_eq!(store.get_server_id_by_message_id(m.id), sid);
    assert_eq!(store.get_server_id_by_message_id(m.id + 9), 0);
}

#[test]
fn edit_and_delete_messages() {
    let (mut store, sid, cid) = setup();
    assert!(store.set_message(sid, cid, "member", MEMBER));
    assert!(store.set_message(sid, cid, "admin", ADMIN));
    let ids: Vec<i64> = store.get_messages_of_channel(cid).iter().map(|m| m.id).collect();
    assert!(!store.update_message(ids[0], "edited by owner", OWNER));
    assert!(store.update_message(ids[0], "edited", MEMBER));
    assert_eq!(store.get_message_by_id(ids[0]).unwrap().content, "edited");
    assert!(!store.delete_message(ids[1], MEMBER));
    assert!(store.delete_message(ids[1], ADMIN));
    assert!(store.delete_message(ids[0], MEMBER));
    assert!(store.get_messages_of_channel(cid).is_empty());
}

#[test]
fn update_server_fields() {
    let (mut store, sid, _) = setup();
    assert!(!store.update_server(sid, Some("new"), None, MEMBER));
    assert!(!store.update_server(sid, Some("  "), None, OWNER));
    assert!(!store.update_server(sid, None, None, OWNER));
    assert!(store.update_server(sid, Some("  "), Some(""), ADMIN));
    let s = store.get_server(sid).unwrap();
    assert_eq!((s.name.as_str(), s.image), ("test", Some(String::new())));
    assert!(store.update_server(sid, Some("renamed"), None, OWNER));
    assert_eq!(store.get_server(sid).unwrap().name, "renamed");
    assert!(!store.update_server_name(sid, "nope", MEMBER));
    assert!(store.update_server_name(sid, "final", ADMIN));
    assert_eq!(store.get_server(sid).unwrap().name, "final");
}

#[test]
fn roster_lists_each_user_once() {
    let (mut store, sid, _) = setup();
    store.add_member_to_server(sid, ADMIN);
    let roster = store.server_members(sid, &vec![ADMIN, 7]).unwrap();
    let lines: Vec<(i64, Role, bool)> = roster.iter().map(|e| (e.user_id, e.role, e.online)).collect();
    assert!(lines == vec![(OWNER, Role::Owner, false), (ADMIN, Role::Admin, true), (MEMBER, Role::Member, false)]);
    assert_eq!(Role::Owner.label(), "fondateur");
    assert_eq!(Role::Member.label(), "membre");
    assert!(store.server_members(sid + 1, &vec![]).is_none());
}

#[test]
fn user_servers_show_standing() {
    let (mut store, sid, _) = setup();
    let other = store.set_server(ADMIN, "mine", Some("me.png".to_string()));
    let list = store.user_servers(ADMIN);
    assert_eq!(list.len(), 2);
    assert_eq!((list[0].id, list[0].is_owner, list[0].is_admin), (sid, false, true));
    assert_eq!(list[0].image, "/logo_fluxy.png");
    assert_eq!((list[1].id, list[1].is_owner, list[1].is_admin), (other, true, false));
    assert_eq!(list[1].image, "me.png");
    assert_eq!(store.get_servers_by_member(MEMBER).len(), 1);
}

#[test]
fn channel_messages_carry_names() {
    let (mut store, sid, cid) = setup();
    assert!(store.set_message(sid, cid, "a", MEMBER));
    assert!(!store.set_message(sid, cid, "b", 999));
    let users = vec![(MEMBER, "old".to_string()), (MEMBER, "bob".to_string())];
    let served = store.channel_messages(cid, &users);
    assert_eq!(served.len(), 1);
    assert_eq!(served[0].username, Some("bob".to_string()));
    assert_eq!(served[0].message, "a");
    store.add_member_to_server(sid, 999);
    assert!(store.set_message(sid, cid, "c", 999));
    let served = store.channel_messages(cid, &users);
    assert_eq!(served[1].username, None);
}

#[test]
fn promotion_needs_membership() {
    let (mut store, sid, _) = setup();
    assert!(matches!(store.update_member_role(sid, 999, "admin", OWNER), Ok(())));
    assert!(!store.is_admin(sid, 999));
    assert_eq!(admins(&store, sid), vec![ADMIN]);
    assert!(matches!(store.update_member_role(sid, MEMBER, "admin", OWNER), Ok(())));
    assert!(store.is_admin(sid, MEMBER));
}

#[test]
fn owner_listed_as_admin_still_removes_admins() {
    let (mut store, sid, _) = setup();
    assert!(matches!(store.update_member_role(sid, OWNER, "admin", OWNER), Ok(())));
    assert!(store.is_admin(sid, OWNER));
    assert!(matches!(store.kick_member(sid, OWNER, ADMIN), Ok(true)));
    assert!(!members(&store, sid).contains(&ADMIN));
    assert!(!admins(&store, sid).contains(&ADMIN));
    store.add_member_to_server(sid, ADMIN);
    assert!(store.add_admin_to_server(sid, OWNER, ADMIN));
    assert!(store.delete_member(sid, OWNER, ADMIN));
    assert!(!store.is_member(sid, ADMIN) && !store.is_admin(sid, ADMIN));
}

#[test]
fn first_invite_code_is_always_issued() {
    let (mut store, sid, _) = setup();
    let code = store.create_link_one_use(sid, ADMIN).expect("no code is held yet");
    assert_eq!(store.get_server(sid).unwrap().link, Some(code));
}

#[test]
fn known_roles() {
    assert!(fluxy::mutation::is_known_role("admin"));
    assert!(fluxy::mutation::is_known_role("membre"));
    assert!(!fluxy::mutation::is_known_role("member"));
    assert!(!fluxy::mutation::is_known_role(""));
}

#[test]
fn codes_spell_their_draws() {
    assert_eq!(fluxy::mutation::code_from_draws(&vec![b'a', b'B', b'7']), "aB7");
    assert_eq!(fluxy::mutation::code_from_draws(&vec![]), "");
    let code = fluxy::mutation::random_string();
    assert_eq!(code.len(), 9);
    assert!(code.chars().all(|c| c.is_ascii_alphanumeric()));
}
