use async_std::sync::RwLock;
use async_std::task;
use edoras::handlers::{handle_health_check_failure, handle_message, is_valid_username};
use edoras::{AppData, Message, MessageBuilder, MessageType, Session, User};
use std::sync::Arc;

fn register_msg(name: &[u8]) -> Message {
    MessageBuilder::new().with_type(MessageType::Register).with_field(name.to_vec()).build()
}

fn login_msg(name: &[u8]) -> Message {
    MessageBuilder::new().with_type(MessageType::Login).with_field(name.to_vec()).build()
}

fn plain_msg(mtype: MessageType) -> Message {
    MessageBuilder::new().with_type(mtype).build()
}

fn new_session(app: &mut AppData) -> u128 {
    let session = Session::new();
    let sid = session.id();
    app.insert_session(sid, session);
    sid
}

#[test]
fn registration_binds_user_and_session() {
    let mut app = AppData::new();
    let sid = new_session(&mut app);
    let o = handle_message(&mut app, sid, &register_msg(b"alice"));
    assert!(o.reply.is_none());
    assert!(o.removed.is_none());
    assert!(app.user_exists(&b"alice".to_vec()));
    assert_eq!(app.get_user_session(&b"alice".to_vec()), Some(sid));
    let session = app.get_session(sid).expect("session stays");
    assert_eq!(session.user().map(|u| u.clone()), Some(b"alice".to_vec()));
    assert!(!session.closed());
}

#[test]
fn registration_unique_second_register_ignored() {
    let mut app = AppData::new();
    let sid_a = new_session(&mut app);
    let sid_b = new_session(&mut app);
    handle_message(&mut app, sid_a, &register_msg(b"alice"));
    handle_message(&mut app, sid_b, &register_msg(b"alice"));
    assert_eq!(app.get_user_session(&b"alice".to_vec()), Some(sid_a));
    let session_b = app.get_session(sid_b).expect("b stays");
    assert!(session_b.user().is_none());
}

#[test]
fn register_needs_exactly_one_field() {
    let mut app = AppData::new();
    let sid = new_session(&mut app);
    let none = plain_msg(MessageType::Register);
    handle_message(&mut app, sid, &none);
    assert!(!app.user_exists(&Vec::new()));
    let two = MessageBuilder::new()
        .with_type(MessageType::Register)
        .with_field(b"a".to_vec())
        .with_field(b"b".to_vec())
        .build();
    handle_message(&mut app, sid, &two);
    assert!(!app.user_exists(&b"a".to_vec()));
}

#[test]
fn register_rejects_invalid_utf8() {
    assert!(is_valid_username(&b"alice".to_vec()));
    assert!(!is_valid_username(&vec![0xff, 0xfe]));
    let mut app = AppData::new();
    let sid = new_session(&mut app);
    handle_message(&mut app, sid, &register_msg(&[0xff, 0xfe]));
    assert!(!app.user_exists(&vec![0xffu8, 0xfe]));
    assert!(app.get_session(sid).expect("stays").user().is_none());
}

#[test]
fn bound_session_cannot_register_again() {
    let mut app = AppData::new();
    let sid = new_session(&mut app);
    handle_message(&mut app, sid, &register_msg(b"alice"));
    handle_message(&mut app, sid, &register_msg(b"carol"));
    assert!(!app.user_exists(&b"carol".to_vec()));
    let session = app.get_session(sid).expect("stays");
    assert_eq!(session.user().map(|u| u.clone()), Some(b"alice".to_vec()));
}

#[test]
fn login_rebinds_user_to_new_session() {
    let mut app = AppData::new();
    let sid_a = new_session(&mut app);
    let sid_b = new_session(&mut app);
    handle_message(&mut app, sid_a, &register_msg(b"alice"));
    handle_message(&mut app, sid_b, &login_msg(b"alice"));
    assert_eq!(app.get_user_session(&b"alice".to_vec()), Some(sid_b));
    let session_a = app.get_session(sid_a).expect("a not closed by rebinding");
    assert!(!session_a.closed());
    let session_b = app.get_session(sid_b).expect("b stays");
    assert_eq!(session_b.user().map(|u| u.clone()), Some(b"alice".to_vec()));
}

#[test]
fn login_unknown_user_ignored() {
    let mut app = AppData::new();
    let sid = new_session(&mut app);
    handle_message(&mut app, sid, &login_msg(b"ghost"));
    assert!(app.get_session(sid).expect("stays").user().is_none());
    assert!(!app.user_exists(&b"ghost".to_vec()));
}

#[test]
fn disconnect_cleans_up() {
    let mut app = AppData::new();
    let sid = new_session(&mut app);
    handle_message(&mut app, sid, &register_msg(b"bob"));
    let o = handle_message(&mut app, sid, &plain_msg(MessageType::Disconnect));
    let removed = o.removed.expect("session handed back");
    assert_eq!(removed.id(), sid);
    assert!(removed.closed());
    assert!(app.get_session(sid).is_none());
    assert!(app.user_exists(&b"bob".to_vec()));
    assert_eq!(app.get_user_session(&b"bob".to_vec()), None);
}

#[test]
fn disconnect_unbound_session_is_safe() {
    let mut app = AppData::new();
    let sid = new_session(&mut app);
    let o = handle_message(&mut app, sid, &plain_msg(MessageType::Disconnect));
    assert!(o.removed.expect("handed back").closed());
    assert!(app.get_session(sid).is_none());
}

#[test]
fn health_check_failure_acts_like_disconnect() {
    let mut app = AppData::new();
    let sid = new_session(&mut app);
    handle_message(&mut app, sid, &register_msg(b"carol"));
    let o = handle_health_check_failure(&mut app, sid);
    assert!(o.reply.is_none());
    let removed = o.removed.expect("session handed back");
    assert_eq!(removed.id(), sid);
    assert!(removed.closed());
    assert!(app.get_session(sid).is_none());
    assert_eq!(app.get_user_session(&b"carol".to_vec()), None);
}

#[test]
fn ping_earns_pong_and_mutates_nothing() {
    let mut app = AppData::new();
    let sid = new_session(&mut app);
    let o = handle_message(&mut app, sid, &plain_msg(MessageType::Ping));
    let reply = o.reply.expect("pong owed");
    assert_eq!(reply.mtype().to_code(), 0x3e);
    assert_eq!(reply.field_count(), 0);
    assert!(o.removed.is_none());
    assert!(app.get_session(sid).is_some());
}

#[test]
fn reserved_types_are_no_ops() {
    let mut app = AppData::new();
    let sid = new_session(&mut app);
    for mtype in [MessageType::Empty, MessageType::Pong, MessageType::Okay, MessageType::Error] {
        let o = handle_message(&mut app, sid, &plain_msg(mtype));
        assert!(o.reply.is_none());
        assert!(o.removed.is_none());
    }
    assert!(app.get_session(sid).is_some());
    assert!(app.get_session(sid).unwrap().user().is_none());
}

#[test]
fn user_accessors() {
    let mut user = User::new(b"dave".to_vec());
    assert_eq!(user.username(), &b"dave".to_vec());
    assert_eq!(user.session(), None);
    user.set_session(7);
    assert_eq!(user.session(), Some(7));
    user.clear_session();
    assert_eq!(user.session(), None);
}

#[test]
fn session_user_set_at_most_once() {
    let mut session = Session::new();
    assert!(!session.closed());
    session.set_user(b"first".to_vec());
    session.set_user(b"second".to_vec());
    assert_eq!(session.user().map(|u| u.clone()), Some(b"first".to_vec()));
    session.remove_user();
    assert!(session.user().is_none());
    session.close();
    assert!(session.closed());
    session.close();
    assert!(session.closed());
}

#[test]
fn registry_insert_and_remove() {
    let mut app = AppData::new();
    let mut user = User::new(b"erin".to_vec());
    user.set_session(3);
    assert!(app.insert_user(b"erin".to_vec(), user).is_none());
    let replacement = User::new(b"erin".to_vec());
    let prev = app.insert_user(b"erin".to_vec(), replacement).expect("replaced");
    assert_eq!(prev.session(), Some(3));
    assert_eq!(app.get_user_session(&b"erin".to_vec()), None);
    let removed = app.remove_user(&b"erin".to_vec()).expect("removed");
    assert_eq!(removed.username(), &b"erin".to_vec());
    assert!(!app.user_exists(&b"erin".to_vec()));
    assert!(app.remove_user(&b"erin".to_vec()).is_none());
}

#[test]
fn concurrent_registrations_all_succeed() {
    let app = Arc::new(RwLock::new(AppData::new()));
    let mut sids: Vec<u128> = Vec::new();
    task::block_on(async {
        for i in 0..8u8 {
            let mut guard = app.write().await;
            let session = Session::new();
            let sid = session.id();
            guard.insert_session(sid, session);
            drop(guard);
            sids.push(sid);
            let _ = i;
        }
        let mut handles = Vec::new();
        for (i, sid) in sids.iter().enumerate() {
            let app = Arc::clone(&app);
            let sid = *sid;
            handles.push(task::spawn(async move {
                let name = format!("user{}", i).into_bytes();
                let mut guard = app.write().await;
                handle_message(&mut guard, sid, &register_msg(&name));
            }));
        }
        for handle in handles {
            handle.await;
        }
        let guard = app.read().await;
        for (i, sid) in sids.iter().enumerate() {
            let name = format!("user{}", i).into_bytes();
            assert!(guard.user_exists(&name));
            assert_eq!(guard.get_user_session(&name), Some(*sid));
            assert!(guard.get_session(*sid).is_some());
        }
    });
}
