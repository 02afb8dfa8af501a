use fluxy::mutation::InviteError;
use fluxy::store::{Collection, Store};

const DEFAULT_OWNER: i64 = 200;
const DEFAULT_NEW_MEMBER: i64 = 111;
const DEFAULT_NEW_MEMBER2: i64 = 222;
const DEFAULT_NEW_MEMBER3: i64 = 333;
const DEFAULT_NEW_MEMBER4: i64 = 444;
const DEFAULT_NEW_MEMBER5: i64 = 555;

#[test]
fn test_mongo_server_set_up() {
    let mut store = Store::new();
    let number_of_server = store.collection_len(Collection::Server);
    store.set_server(DEFAULT_OWNER, "test de création de serveur", None);
    let id = store.get_last_id(Collection::Server);
    assert!(id != 0);
    assert!(store.collection_len(Collection::Server) > number_of_server);
    store.delete_server(id, DEFAULT_OWNER);
    assert!(store.collection_len(Collection::Server) == number_of_server);
}

#[test]
fn test_mongo_channel_set_up() {
    let mut store = Store::new();
    let number_of_channel = store.collection_len(Collection::Channel);
    store.set_server(DEFAULT_OWNER, "test de création de channel", None);
    let server_id = store.get_last_id(Collection::Server);
    store.set_channel(server_id, "premier channel crée", DEFAULT_OWNER);
    let channel_id = store.get_last_id(Collection::Channel);
    assert!(server_id != 0);
    assert!(channel_id != 0);
    assert!(store.is_channel_of_server(server_id, channel_id));
    assert!(number_of_channel != store.collection_len(Collection::Channel));
    store.delete_server(server_id, DEFAULT_OWNER);
    assert!(number_of_channel == store.collection_len(Collection::Channel));
}

#[test]
fn test_mongo_message_set_up() {
    let mut store = Store::new();
    let number_of_message = store.collection_len(Collection::Message);
    store.set_server(DEFAULT_OWNER, "test de création de channel", None);
    let server_id = store.get_last_id(Collection::Server);
    store.set_channel(server_id, "premier channel crée", DEFAULT_OWNER);
    let channel_id = store.get_last_id(Collection::Channel);
    assert!(store.is_member(server_id, DEFAULT_OWNER), "L'utilisateur devrait être membre du serveur");
    assert!(store.is_channel_of_server(server_id, channel_id), "Le channel devrait appartenir au serveur");
    store.set_message(server_id, channel_id, "premier message écrit", DEFAULT_OWNER);
    let message_id = store.get_last_id(Collection::Message);
    assert!(message_id != 0, "Le message devrait avoir un ID");
    assert!(server_id != 0);
    assert!(store.collection_len(Collection::Message) > number_of_message);
    store.delete_server(server_id, DEFAULT_OWNER);
    assert!(store.collection_len(Collection::Message) <= number_of_message);
}

#[test]
fn test_mongo_manipulation_member() {
    let mut store = Store::new();
    store.set_server(DEFAULT_OWNER, "test de création de channel", None);
    let sid = store.get_last_id(Collection::Server);
    for m in [DEFAULT_NEW_MEMBER, DEFAULT_NEW_MEMBER2, DEFAULT_NEW_MEMBER3, DEFAULT_NEW_MEMBER4] {
        store.add_member_to_server(sid, m);
        assert!(store.is_member(sid, m));
    }
    store.add_admin_to_server(sid, DEFAULT_OWNER, DEFAULT_NEW_MEMBER2);
    assert!(store.is_admin(sid, DEFAULT_NEW_MEMBER2));
    store.add_admin_to_server(sid, DEFAULT_NEW_MEMBER2, DEFAULT_NEW_MEMBER3);
    assert!(!store.is_admin(sid, DEFAULT_NEW_MEMBER3));
    store.add_admin_to_server(sid, DEFAULT_NEW_MEMBER3, DEFAULT_NEW_MEMBER4);
    assert!(!store.is_admin(sid, DEFAULT_NEW_MEMBER4));
    store.add_admin_to_server(sid, DEFAULT_OWNER, DEFAULT_NEW_MEMBER3);
    assert!(store.is_admin(sid, DEFAULT_NEW_MEMBER3));
    store.delete_admin(sid, DEFAULT_NEW_MEMBER4, DEFAULT_NEW_MEMBER3);
    assert!(store.is_admin(sid, DEFAULT_NEW_MEMBER3));
    store.delete_admin(sid, DEFAULT_NEW_MEMBER2, DEFAULT_NEW_MEMBER3);
    assert!(store.is_admin(sid, DEFAULT_NEW_MEMBER3));
    store.delete_admin(sid, DEFAULT_OWNER, DEFAULT_NEW_MEMBER2);
    assert!(!store.is_admin(sid, DEFAULT_NEW_MEMBER2));
    store.delete_member(sid, DEFAULT_NEW_MEMBER4, DEFAULT_NEW_MEMBER2);
    assert!(store.is_member(sid, DEFAULT_NEW_MEMBER2), "Un membre ne devrait pas pouvoir supprimer un autre membre");
    store.delete_member(sid, DEFAULT_NEW_MEMBER3, DEFAULT_NEW_MEMBER2);
    assert!(!store.is_member(sid, DEFAULT_NEW_MEMBER2));
    store.delete_member(sid, DEFAULT_OWNER, DEFAULT_NEW_MEMBER4);
    assert!(!store.is_member(sid, DEFAULT_NEW_MEMBER4));
    store.add_member_to_server(sid, DEFAULT_NEW_MEMBER2);
    store.add_member_to_server(sid, DEFAULT_NEW_MEMBER4);
    assert!(store.is_member(sid, DEFAULT_NEW_MEMBER2));
    assert!(store.is_member(sid, DEFAULT_NEW_MEMBER4));
    store.add_admin_to_server(sid, DEFAULT_OWNER, DEFAULT_NEW_MEMBER2);
    assert!(store.is_admin(sid, DEFAULT_NEW_MEMBER2));
    store.delete_member(sid, DEFAULT_NEW_MEMBER4, DEFAULT_NEW_MEMBER2);
    assert!(store.is_member(sid, DEFAULT_NEW_MEMBER2));
    store.delete_member(sid, DEFAULT_NEW_MEMBER3, DEFAULT_NEW_MEMBER2);
    assert!(store.is_member(sid, DEFAULT_NEW_MEMBER2));
    store.delete_member(sid, DEFAULT_OWNER, DEFAULT_NEW_MEMBER2);
    assert!(!store.is_member(sid, DEFAULT_NEW_MEMBER2));
    store.delete_member(sid, DEFAULT_NEW_MEMBER4, DEFAULT_NEW_MEMBER4);
    assert!(!store.is_member(sid, DEFAULT_NEW_MEMBER4));
    store.delete_member(sid, DEFAULT_NEW_MEMBER3, DEFAULT_NEW_MEMBER3);
    assert!(!store.is_member(sid, DEFAULT_NEW_MEMBER3));
    store.delete_member(sid, DEFAULT_OWNER, DEFAULT_OWNER);
    assert!(store.is_member(sid, DEFAULT_OWNER));
    store.add_member_to_server(sid, DEFAULT_NEW_MEMBER3);
    store.add_member_to_server(sid, DEFAULT_NEW_MEMBER4);
    assert!(store.is_member(sid, DEFAULT_NEW_MEMBER3));
    assert!(store.is_member(sid, DEFAULT_NEW_MEMBER4));
    store.switch_owner(sid, DEFAULT_NEW_MEMBER4, DEFAULT_NEW_MEMBER3);
    assert!(!store.is_owner(sid, DEFAULT_NEW_MEMBER3));
    store.switch_owner(sid, DEFAULT_NEW_MEMBER2, DEFAULT_NEW_MEMBER3);
    assert!(!store.is_owner(sid, DEFAULT_NEW_MEMBER3));
    store.switch_owner(sid, DEFAULT_OWNER, DEFAULT_NEW_MEMBER3);
    assert!(store.is_owner(sid, DEFAULT_NEW_MEMBER3));
    assert!(!store.is_owner(sid, DEFAULT_OWNER));
    assert!(store.delete_server(sid, DEFAULT_NEW_MEMBER3));
}

#[test]
fn test_mongo_link() {
    let mut store = Store::new();
    let number_of_server = store.collection_len(Collection::Server);
    store.set_server(DEFAULT_OWNER, "test de création de serveur", None);
    let sid = store.get_last_id(Collection::Server);
    assert!(sid != 0);
    assert!(number_of_server != store.collection_len(Collection::Server));
    store.add_member_to_server(sid, DEFAULT_NEW_MEMBER2);
    store.add_member_to_server(sid, DEFAULT_NEW_MEMBER3);
    assert!(store.is_member(sid, DEFAULT_NEW_MEMBER2));
    assert!(store.is_member(sid, DEFAULT_NEW_MEMBER3));
    store.add_admin_to_server(sid, DEFAULT_OWNER, DEFAULT_NEW_MEMBER2);
    assert!(store.is_admin(sid, DEFAULT_NEW_MEMBER2));
    assert!(matches!(store.create_link_one_use(sid, DEFAULT_NEW_MEMBER3), Err(InviteError::Denied)));
    let link = store.create_link_one_use(sid, DEFAULT_NEW_MEMBER2).unwrap();
    assert!(store.verify_link_exist(&link));
    let link = store.create_link_one_use(sid, DEFAULT_OWNER).unwrap();
    assert!(store.verify_link_exist(&link));
    store.join_by_link("a", DEFAULT_NEW_MEMBER4);
    assert!(!store.is_member(sid, DEFAULT_NEW_MEMBER4));
    store.join_by_link(&link, DEFAULT_NEW_MEMBER4);
    assert!(store.is_member(sid, DEFAULT_NEW_MEMBER4));
    store.delete_link(&link);
    assert!(!store.verify_link_exist(&link));
    store.join_by_link(&link, DEFAULT_NEW_MEMBER5);
    assert!(!store.is_member(sid, DEFAULT_NEW_MEMBER5));
    store.delete_server(sid, DEFAULT_OWNER);
}

fn content_of(store: &Store, id: i64) -> Option<String> {
    store.get_message_by_id(id).map(|m| m.content)
}

#[test]
fn test_message_update() {
    let mut store = Store::new();
    let number_of_channel = store.collection_len(Collection::Channel);
    store.set_server(DEFAULT_OWNER, "test de création de channel", None);
    let sid = store.get_last_id(Collection::Server);
    store.set_channel(sid, "premier channel crée", DEFAULT_OWNER);
    let cid = store.get_last_id(Collection::Channel);
    assert!(sid != 0 && cid != 0);
    assert!(store.is_channel_of_server(sid, cid));
    assert!(number_of_channel != store.collection_len(Collection::Channel));
    store.add_member_to_server(sid, DEFAULT_NEW_MEMBER2);
    store.add_member_to_server(sid, DEFAULT_NEW_MEMBER3);
    store.add_admin_to_server(sid, DEFAULT_OWNER, DEFAULT_NEW_MEMBER2);
    assert!(store.is_admin(sid, DEFAULT_NEW_MEMBER2));
    let mut number_of_message = store.collection_len(Collection::Message);
    store.set_message(sid, cid, "je suis le message de membre", DEFAULT_NEW_MEMBER3);
    let member_msg = store.get_last_id(Collection::Message);
    assert!(store.collection_len(Collection::Message) > number_of_message);
    number_of_message = store.collection_len(Collection::Message);
    store.set_message(sid, cid, "je suis le message d'admin", DEFAULT_NEW_MEMBER2);
    let admin_msg = store.get_last_id(Collection::Message);
    assert!(store.collection_len(Collection::Message) > number_of_message);
    number_of_message = store.collection_len(Collection::Message);
    store.set_message(sid, cid, "je suis le message de owner", DEFAULT_OWNER);
    let owner_msg = store.get_last_id(Collection::Message);
    assert!(store.collection_len(Collection::Message) > number_of_message);
    number_of_message = store.collection_len(Collection::Message);

    let of_member = content_of(&store, member_msg);
    store.update_message(member_msg, "je suis le text modifier", DEFAULT_NEW_MEMBER3);
    assert!(of_member != content_of(&store, member_msg));
    let of_admin = content_of(&store, admin_msg);
    store.update_message(admin_msg, "je suis le text modifier", DEFAULT_NEW_MEMBER2);
    assert!(of_admin != content_of(&store, admin_msg));
    let of_owner = content_of(&store, owner_msg);
    store.update_message(owner_msg, "je suis le text modifier", DEFAULT_OWNER);
    assert!(of_owner != content_of(&store, owner_msg));
    store.update_message(admin_msg, "je suis le message d'admin", DEFAULT_NEW_MEMBER3);
    assert!(of_admin != content_of(&store, admin_msg));
    store.update_message(owner_msg, "je suis le message de owner", DEFAULT_NEW_MEMBER3);
    assert!(of_owner != content_of(&store, owner_msg));
    store.update_message(member_msg, "je suis le message de membre", DEFAULT_NEW_MEMBER2);
    assert!(of_member != content_of(&store, member_msg));
    store.update_message(owner_msg, "je suis le message de owner", DEFAULT_NEW_MEMBER2);
    assert!(of_owner != content_of(&store, owner_msg));
    store.update_message(member_msg, "je suis le message de membre", DEFAULT_OWNER);
    assert!(of_member != content_of(&store, member_msg));
    store.update_message(admin_msg, "je suis le message d'admin", DEFAULT_OWNER);
    assert!(of_admin != content_of(&store, admin_msg));
    assert!(number_of_message == store.collection_len(Collection::Message));

    store.delete_message(member_msg, DEFAULT_NEW_MEMBER3);
    assert!(number_of_message != store.collection_len(Collection::Message));
    number_of_message -= 1;
    store.delete_message(admin_msg, DEFAULT_NEW_MEMBER3);
    assert!(number_of_message == store.collection_len(Collection::Message));
    store.delete_message(owner_msg, DEFAULT_NEW_MEMBER3);
    assert!(number_of_message == store.collection_len(Collection::Message));
    store.delete_message(owner_msg, DEFAULT_NEW_MEMBER2);
    assert!(number_of_message != store.collection_len(Collection::Message));
    number_of_message -= 1;
    store.delete_message(admin_msg, DEFAULT_OWNER);
    assert!(number_of_message != store.collection_len(Collection::Message));
    store.delete_server(sid, DEFAULT_OWNER);
}

fn channel_name(store: &Store, id: i64) -> Option<String> {
    store.get_channel_by_id(id).map(|c| c.name)
}

#[test]
fn test_channel_update() {
    let mut store = Store::new();
    let number_of_channel = store.collection_len(Collection::Channel);
    store.set_server(DEFAULT_OWNER, "test de création de channel", None);
    let sid = store.get_last_id(Collection::Server);
    store.set_channel(sid, "premier channel crée", DEFAULT_OWNER);
    let cid = store.get_last_id(Collection::Channel);
    assert!(sid != 0 && cid != 0);
    assert!(store.is_channel_of_server(sid, cid));
    assert!(number_of_channel != store.collection_len(Collection::Channel));
    store.add_member_to_server(sid, DEFAULT_NEW_MEMBER2);
    store.add_member_to_server(sid, DEFAULT_NEW_MEMBER3);
    store.add_admin_to_server(sid, DEFAULT_OWNER, DEFAULT_NEW_MEMBER2);
    assert!(store.is_admin(sid, DEFAULT_NEW_MEMBER2));
    let mut name = channel_name(&store, cid);
    store.update_channel_name(cid, "nouveau nom de channel par membre", DEFAULT_NEW_MEMBER3);
    assert!(name == channel_name(&store, cid), "Un membre ne devrait pas pouvoir modifier un channel");
    store.update_channel_name(cid, "nouveau nom de channel par admin", DEFAULT_NEW_MEMBER2);
    assert!(name != channel_name(&store, cid), "Un admin devrait pouvoir modifier un channel");
    name = channel_name(&store, cid);
    store.update_channel_name(cid, "nouveau nom de channel par owner", DEFAULT_OWNER);
    assert!(name != channel_name(&store, cid), "Un owner devrait pouvoir modifier un channel");
    store.delete_server(sid, DEFAULT_OWNER);
}

fn server_name(store: &Store, id: i64) -> Option<String> {
    store.get_server(id).map(|s| s.name)
}

#[test]
fn test_server_update() {
    let mut store = Store::new();
    store.set_server(DEFAULT_OWNER, "test de création de channel", None);
    let sid = store.get_last_id(Collection::Server);
    assert!(sid != 0);
    store.add_member_to_server(sid, DEFAULT_NEW_MEMBER2);
    store.add_member_to_server(sid, DEFAULT_NEW_MEMBER3);
    store.add_admin_to_server(sid, DEFAULT_OWNER, DEFAULT_NEW_MEMBER2);
    assert!(store.is_admin(sid, DEFAULT_NEW_MEMBER2));
    let mut name = server_name(&store, sid);
    store.update_server_name(sid, "nouveau nom de server par membre", DEFAULT_NEW_MEMBER3);
    assert!(name == server_name(&store, sid));
    store.update_server_name(sid, "nouveau nom de server par admin", DEFAULT_NEW_MEMBER2);
    assert!(name != server_name(&store, sid));
    name = server_name(&store, sid);
    store.update_server_name(sid, "nouveau nom de server par owner", DEFAULT_OWNER);
    assert!(name != server_name(&store, sid));
    store.delete_server(sid, DEFAULT_OWNER);
}

#[test]
fn test_get_element() {
    let mut store = Store::new();
    let base_owner = store.get_servers_by_member(DEFAULT_OWNER).len();
    let base_member2 = store.get_servers_by_member(DEFAULT_NEW_MEMBER2).len();
    let base_member3 = store.get_servers_by_member(DEFAULT_NEW_MEMBER3).len();
    let s1 = store.set_server(DEFAULT_OWNER, "test de création de channel", None);
    store.add_member_to_server(s1, DEFAULT_NEW_MEMBER2);
    store.add_member_to_server(s1, DEFAULT_NEW_MEMBER3);
    assert!(store.is_member(s1, DEFAULT_OWNER) && store.is_member(s1, DEFAULT_NEW_MEMBER2) && store.is_member(s1, DEFAULT_NEW_MEMBER3));
    let s2 = store.set_server(DEFAULT_OWNER, "test de création de channel", None);
    store.add_member_to_server(s2, DEFAULT_NEW_MEMBER2);
    assert!(store.is_member(s2, DEFAULT_OWNER) && store.is_member(s2, DEFAULT_NEW_MEMBER2) && !store.is_member(s2, DEFAULT_NEW_MEMBER3));
    let s3 = store.set_server(DEFAULT_OWNER, "test de création de channel", None);
    store.add_member_to_server(s3, DEFAULT_NEW_MEMBER3);
    assert!(store.is_member(s3, DEFAULT_OWNER) && !store.is_member(s3, DEFAULT_NEW_MEMBER2) && store.is_member(s3, DEFAULT_NEW_MEMBER3));
    let s4 = store.set_server(DEFAULT_OWNER, "test de création de channel", None);
    assert!(store.is_member(s4, DEFAULT_OWNER) && !store.is_member(s4, DEFAULT_NEW_MEMBER2) && !store.is_member(s4, DEFAULT_NEW_MEMBER3));
    assert!(store.get_servers_by_member(DEFAULT_OWNER).len() >= base_owner + 4);
    assert!(store.get_servers_by_member(DEFAULT_NEW_MEMBER2).len() >= base_member2 + 2);
    assert!(store.get_servers_by_member(DEFAULT_NEW_MEMBER3).len() >= base_member3 + 2);
    store.set_channel(s1, "premier chat", DEFAULT_OWNER);
    let c1 = store.get_last_id(Collection::Channel);
    store.set_channel(s1, "second chat", DEFAULT_OWNER);
    let c2 = store.get_last_id(Collection::Channel);
    for text in ["message 1 ", "message 2 ", "message 3 ", "message 4 ", "message 5 "] {
        store.set_message(s1, c1, text, DEFAULT_OWNER);
    }
    store.set_message(s1, c2, "message 1 ", DEFAULT_OWNER);
    store.set_message(s1, c2, "message 2 ", DEFAULT_OWNER);
    assert!(store.get_messages_of_channel(c1).len() == 5);
    assert!(store.get_messages_of_channel(c2).len() == 2);
    for s in [s1, s2, s3, s4] {
        store.delete_server(s, DEFAULT_OWNER);
    }
}
