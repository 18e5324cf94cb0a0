//! Interpretation of decoded messages against the registry: the dispatch
//! table for Register, Login, Ping and Disconnect.
//!
//! A handler that finds its preconditions unmet ignores the message and
//! mutates nothing; it never fails and never panics.

use crate::application::{AppData, SessionView};
use crate::message::{copy_bytes, Message, MessageBuilder, MessageType};
use crate::session::Session;
use crate::user::User;
use vstd::prelude::*;
use vstd::utf8::valid_utf8;

verus! {

/// Relies on std's `str::from_utf8`: whether the bytes are valid UTF-8,
/// stated against vstd's UTF-8 specification.
#[verifier::external_body]
fn utf8_valid(bytes: &Vec<u8>) -> (r: bool)
    ensures
        r == valid_utf8(bytes@),
{
    core::str::from_utf8(bytes.as_slice()).is_ok()
}

/// The default username validation policy: any valid UTF-8.
pub open spec fn spec_valid_username(name: Seq<u8>) -> bool {
    valid_utf8(name)
}

/// Whether the bytes form an acceptable username under the default
/// policy.
pub fn is_valid_username(username: &Vec<u8>) -> (r: bool)
    ensures
        r == spec_valid_username(username@),
{
    utf8_valid(username)
}

/// What a handled message asks the caller to do besides the registry
/// mutation itself: send a reply, and tear down the session that was
/// disconnected.
pub struct Outcome {
    pub reply: Option<Message>,
    pub removed: Option<Session>,
}

/// The registry is unchanged: both of its maps are what they were.
pub open spec fn unchanged(pre: AppData, post: AppData) -> bool {
    &&& post.users_map() == pre.users_map()
    &&& post.sessions_map() == pre.sessions_map()
}

/// A Register applies when the sending session is live and not yet bound
/// to a user, the message carries exactly one field, that field is a
/// valid username, and the username is not yet registered.
pub open spec fn register_applies(pre: AppData, sid: u128, fields: Seq<Seq<u8>>) -> bool {
    &&& pre.sessions_map().contains_key(sid)
    &&& pre.sessions_map()[sid].user is None
    &&& fields.len() == 1
    &&& spec_valid_username(fields[0])
    &&& !pre.users_map().contains_key(fields[0])
}

/// A successful Register creates the user bound to the session, and binds
/// the session to the username.
pub open spec fn register_effect(pre: AppData, post: AppData, sid: u128, fields: Seq<Seq<u8>>) -> bool {
    &&& post.users_map() == pre.users_map().insert(fields[0], Some(sid))
    &&& post.sessions_map() == pre.sessions_map().insert(
        sid,
        SessionView { user: Some(fields[0]), closed: pre.sessions_map()[sid].closed },
    )
}

/// One Register step: the effect where it applies, no change otherwise.
pub open spec fn register_step(pre: AppData, post: AppData, sid: u128, fields: Seq<Seq<u8>>) -> bool {
    if register_applies(pre, sid, fields) {
        register_effect(pre, post, sid, fields)
    } else {
        unchanged(pre, post)
    }
}

/// A Login applies when the sending session is live and not yet bound,
/// the message carries exactly one field holding a valid username, and
/// that username is registered.
pub open spec fn login_applies(pre: AppData, sid: u128, fields: Seq<Seq<u8>>) -> bool {
    &&& pre.sessions_map().contains_key(sid)
    &&& pre.sessions_map()[sid].user is None
    &&& fields.len() == 1
    &&& spec_valid_username(fields[0])
    &&& pre.users_map().contains_key(fields[0])
}

/// A successful Login binds the session to the username and rebinds the
/// user to this session, evicting any prior binding.
pub open spec fn login_effect(pre: AppData, post: AppData, sid: u128, fields: Seq<Seq<u8>>) -> bool {
    &&& post.users_map() == pre.users_map().insert(fields[0], Some(sid))
    &&& post.sessions_map() == pre.sessions_map().insert(
        sid,
        SessionView { user: Some(fields[0]), closed: pre.sessions_map()[sid].closed },
    )
}

/// One Login step: the effect where it applies, no change otherwise.
pub open spec fn login_step(pre: AppData, post: AppData, sid: u128, fields: Seq<Seq<u8>>) -> bool {
    if login_applies(pre, sid, fields) {
        login_effect(pre, post, sid, fields)
    } else {
        unchanged(pre, post)
    }
}

/// One Disconnect step: the session leaves the registry and the user
/// bound to it, if registered, is left offline; a session the registry
/// does not hold changes nothing.
pub open spec fn disconnect_step(pre: AppData, post: AppData, sid: u128) -> bool {
    if pre.sessions_map().contains_key(sid) {
        &&& post.sessions_map() == pre.sessions_map().remove(sid)
        &&& match pre.sessions_map()[sid].user {
            Some(name) => if pre.users_map().contains_key(name) {
                post.users_map() == pre.users_map().insert(name, None)
            } else {
                post.users_map() == pre.users_map()
            },
            None => post.users_map() == pre.users_map(),
        }
    } else {
        unchanged(pre, post)
    }
}

/// The torn-down session handed back by a Disconnect: the registry's
/// entry for the identifier, now closed, exactly when the registry held
/// one.
pub open spec fn disconnect_removed(pre: AppData, sid: u128, removed: Option<Session>) -> bool {
    match removed {
        Some(s) => {
            &&& pre.sessions_map().contains_key(sid)
            &&& s.spec_id() == sid
            &&& s.spec_closed()
            &&& s.spec_user() == pre.sessions_map()[sid].user
        },
        None => !pre.sessions_map().contains_key(sid),
    }
}

/// Handle a Register request from the session with this identifier.
pub fn handle_register(app: &mut AppData, session_id: u128, message: &Message)
    requires
        old(app).wf(),
        message.wf(),
    ensures
        final(app).wf(),
        register_step(*old(app), *final(app), session_id, message.spec_fields()),
{
    let mut session_ready = false;
    match app.get_session(session_id) {
        Some(s) => {
            if s.user().is_none() {
                session_ready = true;
            }
        },
        None => {},
    }
    if !session_ready {
        return ;
    }
    if message.field_count() != 1 {
        return ;
    }
    let mut fields = message.data();
    let username = fields.remove(0);
    proof {
        assert(username@ == message.spec_fields()[0]);
    }
    if !is_valid_username(&username) {
        return ;
    }
    if app.user_exists(&username) {
        return ;
    }
    let mut user = User::new(copy_bytes(&username));
    user.set_session(session_id);
    app.set_session_user(session_id, copy_bytes(&username));
    app.insert_user(username, user);
}

/// Handle a Login request from the session with this identifier.
pub fn handle_login(app: &mut AppData, session_id: u128, message: &Message)
    requires
        old(app).wf(),
        message.wf(),
    ensures
        final(app).wf(),
        login_step(*old(app), *final(app), session_id, message.spec_fields()),
{
    let mut session_ready = false;
    match app.get_session(session_id) {
        Some(s) => {
            if s.user().is_none() {
                session_ready = true;
            }
        },
        None => {},
    }
    if !session_ready {
        return ;
    }
    if message.field_count() != 1 {
        return ;
    }
    let mut fields = message.data();
    let username = fields.remove(0);
    proof {
        assert(username@ == message.spec_fields()[0]);
    }
    if !is_valid_username(&username) {
        return ;
    }
    if !app.user_exists(&username) {
        return ;
    }
    app.set_session_user(session_id, copy_bytes(&username));
    app.set_user_session(&username, session_id);
}

/// Tear the session with this identifier down: remove it from the
/// registry, leave its bound user offline, and hand the closed session
/// back.
fn handle_disconnect(app: &mut AppData, session_id: u128) -> (o: Outcome)
    requires
        old(app).wf(),
    ensures
        final(app).wf(),
        disconnect_step(*old(app), *final(app), session_id),
        disconnect_removed(*old(app), session_id, o.removed),
        o.reply is None,
{
    match app.remove_session(session_id) {
        Some(mut session) => {
            let name = match session.user() {
                Some(n) => Some(copy_bytes(n)),
                None => None,
            };
            match name {
                Some(n) => {
                    app.clear_user_session(&n);
                },
                None => {},
            }
            session.close();
            Outcome { reply: None, removed: Some(session) }
        },
        None => Outcome { reply: None, removed: None },
    }
}

/// Route one decoded message to its handler.
///
/// Register, Login and Disconnect mutate the registry as their step
/// relations say; Ping asks for a Pong reply and changes nothing; every
/// other type is a no-op reserved for future use.
pub fn handle_message(app: &mut AppData, session_id: u128, message: &Message) -> (o: Outcome)
    requires
        old(app).wf(),
        message.wf(),
    ensures
        final(app).wf(),
        match message.spec_mtype() {
            MessageType::Ping => {
                &&& unchanged(*old(app), *final(app))
                &&& o.removed is None
                &&& match o.reply {
                    Some(r) => r.wf() && r.spec_mtype() == MessageType::Pong
                        && r.spec_fields().len() == 0,
                    None => false,
                }
            },
            MessageType::Disconnect => {
                &&& disconnect_step(*old(app), *final(app), session_id)
                &&& disconnect_removed(*old(app), session_id, o.removed)
                &&& o.reply is None
            },
            MessageType::Register => {
                &&& register_step(*old(app), *final(app), session_id, message.spec_fields())
                &&& o.reply is None
                &&& o.removed is None
            },
            MessageType::Login => {
                &&& login_step(*old(app), *final(app), session_id, message.spec_fields())
                &&& o.reply is None
                &&& o.removed is None
            },
            _ => {
                &&& unchanged(*old(app), *final(app))
                &&& o.reply is None
                &&& o.removed is None
            },
        },
{
    match message.mtype() {
        MessageType::Ping => {
            let reply = MessageBuilder::new().with_type(MessageType::Pong).build();
            Outcome { reply: Some(reply), removed: None }
        },
        MessageType::Disconnect => handle_disconnect(app, session_id),
        MessageType::Register => {
            handle_register(app, session_id, message);
            Outcome { reply: None, removed: None }
        },
        MessageType::Login => {
            handle_login(app, session_id, message);
            Outcome { reply: None, removed: None }
        },
        _ => Outcome { reply: None, removed: None },
    }
}

/// A failed liveness probe tears the session down through the same path a
/// client-sent Disconnect takes: the registry ends exactly as if the
/// session had sent Disconnect itself.
pub fn handle_health_check_failure(app: &mut AppData, session_id: u128) -> (o: Outcome)
    requires
        old(app).wf(),
    ensures
        final(app).wf(),
        disconnect_step(*old(app), *final(app), session_id),
        disconnect_removed(*old(app), session_id, o.removed),
        o.reply is None,
{
    let message = MessageBuilder::new().with_type(MessageType::Disconnect).build();
    handle_message(app, session_id, &message)
}

/// The registry invariant: every user bound to a session identifier
/// points at a session the registry holds, and that session is bound to
/// this very username.
pub open spec fn registry_linked(app: AppData) -> bool {
    forall|name: Seq<u8>| #[trigger] app.users_map().contains_key(name) ==> match app.users_map()[name] {
        Some(sid) => app.sessions_map().contains_key(sid) && app.sessions_map()[sid].user == Some(
            name,
        ),
        None => true,
    }
}

/// A Register step preserves the registry invariant.
pub proof fn lemma_register_preserves_links(pre: AppData, post: AppData, sid: u128, fields: Seq<Seq<u8>>)
    requires
        registry_linked(pre),
        register_step(pre, post, sid, fields),
    ensures
        registry_linked(post),
{
    if register_applies(pre, sid, fields) {
        let name = fields[0];
        assert forall|n: Seq<u8>| #[trigger] post.users_map().contains_key(n) implies match post.users_map()[n] {
            Some(s) => post.sessions_map().contains_key(s) && post.sessions_map()[s].user == Some(
                n,
            ),
            None => true,
        } by {
            if n != name {
                assert(pre.users_map().contains_key(n));
                match pre.users_map()[n] {
                    Some(s) => {
                        if s == sid {
                            assert(pre.sessions_map()[sid].user == Some(n));
                            assert(false);
                        }
                    },
                    None => {},
                }
            }
        }
    }
}

/// A Login step preserves the registry invariant.
pub proof fn lemma_login_preserves_links(pre: AppData, post: AppData, sid: u128, fields: Seq<Seq<u8>>)
    requires
        registry_linked(pre),
        login_step(pre, post, sid, fields),
    ensures
        registry_linked(post),
{
    if login_applies(pre, sid, fields) {
        let name = fields[0];
        assert forall|n: Seq<u8>| #[trigger] post.users_map().contains_key(n) implies match post.users_map()[n] {
            Some(s) => post.sessions_map().contains_key(s) && post.sessions_map()[s].user == Some(
                n,
            ),
            None => true,
        } by {
            if n != name {
                assert(pre.users_map().contains_key(n));
                match pre.users_map()[n] {
                    Some(s) => {
                        if s == sid {
                            assert(pre.sessions_map()[sid].user == Some(n));
                            assert(false);
                        }
                    },
                    None => {},
                }
            }
        }
    }
}

/// A Disconnect step preserves the registry invariant.
pub proof fn lemma_disconnect_preserves_links(pre: AppData, post: AppData, sid: u128)
    requires
        registry_linked(pre),
        disconnect_step(pre, post, sid),
    ensures
        registry_linked(post),
{
    if pre.sessions_map().contains_key(sid) {
        assert forall|n: Seq<u8>| #[trigger] post.users_map().contains_key(n) implies match post.users_map()[n] {
            Some(s) => post.sessions_map().contains_key(s) && post.sessions_map()[s].user == Some(
                n,
            ),
            None => true,
        } by {
            match pre.sessions_map()[sid].user {
                Some(name) => {
                    if n != name {
                        assert(pre.users_map().contains_key(n));
                        match pre.users_map()[n] {
                            Some(s) => {
                                if s == sid {
                                    assert(pre.sessions_map()[sid].user == Some(n));
                                    assert(false);
                                }
                            },
                            None => {},
                        }
                    }
                },
                None => {
                    assert(pre.users_map().contains_key(n));
                    match pre.users_map()[n] {
                        Some(s) => {
                            if s == sid {
                                assert(pre.sessions_map()[sid].user == Some(n));
                                assert(false);
                            }
                        },
                        None => {},
                    }
                },
            }
        }
    }
}

/// Every dispatch step preserves the registry invariant: whatever message
/// a session sends, a bound user keeps pointing at a live session bound
/// back to it.
pub proof fn lemma_dispatch_preserves_links(
    pre: AppData,
    post: AppData,
    sid: u128,
    mtype: MessageType,
    fields: Seq<Seq<u8>>,
)
    requires
        registry_linked(pre),
        match mtype {
            MessageType::Disconnect => disconnect_step(pre, post, sid),
            MessageType::Register => register_step(pre, post, sid, fields),
            MessageType::Login => login_step(pre, post, sid, fields),
            _ => unchanged(pre, post),
        },
    ensures
        registry_linked(post),
{
    match mtype {
        MessageType::Disconnect => lemma_disconnect_preserves_links(pre, post, sid),
        MessageType::Register => lemma_register_preserves_links(pre, post, sid, fields),
        MessageType::Login => lemma_login_preserves_links(pre, post, sid, fields),
        _ => {},
    }
}

/// Registration uniqueness: once a username is registered from one
/// session, a Register for the same username from any session no longer
/// applies, so a second Register step leaves the registry unchanged and
/// the name stays bound to the first session.
pub proof fn lemma_registration_unique(
    pre: AppData,
    mid: AppData,
    post: AppData,
    first_sid: u128,
    second_sid: u128,
    fields: Seq<Seq<u8>>,
)
    requires
        register_applies(pre, first_sid, fields),
        register_step(pre, mid, first_sid, fields),
        register_step(mid, post, second_sid, fields),
    ensures
        !register_applies(mid, second_sid, fields),
        mid.users_map()[fields[0]] == Some(first_sid),
        unchanged(mid, post),
        post.users_map()[fields[0]] == Some(first_sid),
{
}

/// Login rebinding: after a username is registered from one session, a
/// Login for it from a different, still unbound session applies and
/// rebinds the user to that session; the first session stays in the
/// registry untouched, neither closed nor removed by the rebinding.
pub proof fn lemma_login_rebinds(
    pre: AppData,
    mid: AppData,
    post: AppData,
    first_sid: u128,
    second_sid: u128,
    fields: Seq<Seq<u8>>,
)
    requires
        register_applies(pre, first_sid, fields),
        register_step(pre, mid, first_sid, fields),
        login_step(mid, post, second_sid, fields),
        second_sid != first_sid,
        mid.sessions_map().contains_key(second_sid),
        mid.sessions_map()[second_sid].user is None,
    ensures
        login_applies(mid, second_sid, fields),
        post.users_map()[fields[0]] == Some(second_sid),
        post.sessions_map().contains_key(first_sid),
        post.sessions_map()[first_sid] == mid.sessions_map()[first_sid],
{
}

/// Independent registrations do not interfere: a Register that applies
/// before an unrelated Register step (different username, different
/// session) still applies after it, and the step adds exactly its own
/// entry; so any number of distinct registrations all succeed.
pub proof fn lemma_register_independent(
    pre: AppData,
    mid: AppData,
    sid_a: u128,
    sid_b: u128,
    fields_a: Seq<Seq<u8>>,
    fields_b: Seq<Seq<u8>>,
)
    requires
        register_applies(pre, sid_a, fields_a),
        register_step(pre, mid, sid_a, fields_a),
        register_applies(pre, sid_b, fields_b),
        fields_a[0] != fields_b[0],
        sid_a != sid_b,
    ensures
        register_applies(mid, sid_b, fields_b),
        mid.users_map().contains_key(fields_a[0]),
        mid.users_map()[fields_a[0]] == Some(sid_a),
{
}

proof fn lemma_distinct_registrations_from(
    states: Seq<AppData>,
    sids: Seq<u128>,
    names: Seq<Seq<u8>>,
    k: int,
)
    requires
        states.len() == names.len() + 1,
        sids.len() == names.len(),
        0 <= k <= names.len(),
        forall|i: int, j: int| 0 <= i < j < names.len() ==> names[i] != names[j],
        forall|i: int, j: int| 0 <= i < j < sids.len() ==> sids[i] != sids[j],
        forall|i: int|
            k <= i < names.len() ==> #[trigger] register_applies(
                states[k],
                sids[i],
                seq![names[i]],
            ),
        forall|i: int|
            0 <= i < k ==> states[k].users_map().contains_key(#[trigger] names[i])
                && states[k].users_map()[names[i]] == Some(sids[i]),
        forall|i: int|
            k <= i < names.len() ==> #[trigger] register_step(
                states[i],
                states[i + 1],
                sids[i],
                seq![names[i]],
            ),
    ensures
        forall|i: int|
            0 <= i < names.len() ==> states[names.len() as int].users_map().contains_key(
                #[trigger] names[i],
            ) && states[names.len() as int].users_map()[names[i]] == Some(sids[i]),
    decreases names.len() - k,
{
    let n = names.len() as int;
    if k < n {
        let pre = states[k];
        let post = states[k + 1];
        assert(register_applies(pre, sids[k], seq![names[k]]));
        assert(register_step(pre, post, sids[k], seq![names[k]]));
        assert(seq![names[k]][0] == names[k]);
        assert forall|i: int|
            0 <= i < k + 1 implies post.users_map().contains_key(#[trigger] names[i])
            && post.users_map()[names[i]] == Some(sids[i]) by {
            if i < k {
                assert(names[i] != names[k]);
            }
        }
        assert forall|i: int|
            k + 1 <= i < n implies #[trigger] register_applies(post, sids[i], seq![names[i]]) by {
            assert(register_applies(pre, sids[i], seq![names[i]]));
            assert(sids[i] != sids[k]);
            assert(names[i] != names[k]);
            assert(seq![names[i]][0] == names[i]);
        }
        lemma_distinct_registrations_from(states, sids, names, k + 1);
    }
}

/// All distinct registrations succeed: when every username is fresh and
/// every session is live and unbound, the register steps taken one after
/// the other, in any order they were scheduled, leave each username
/// registered and bound to its own session.
pub proof fn lemma_distinct_registrations(states: Seq<AppData>, sids: Seq<u128>, names: Seq<Seq<u8>>)
    requires
        states.len() == names.len() + 1,
        sids.len() == names.len(),
        forall|i: int, j: int| 0 <= i < j < names.len() ==> names[i] != names[j],
        forall|i: int, j: int| 0 <= i < j < sids.len() ==> sids[i] != sids[j],
        forall|i: int|
            0 <= i < names.len() ==> #[trigger] register_applies(
                states[0],
                sids[i],
                seq![names[i]],
            ),
        forall|i: int|
            0 <= i < names.len() ==> #[trigger] register_step(
                states[i],
                states[i + 1],
                sids[i],
                seq![names[i]],
            ),
    ensures
        forall|i: int|
            0 <= i < names.len() ==> states[names.len() as int].users_map().contains_key(
                #[trigger] names[i],
            ) && states[names.len() as int].users_map()[names[i]] == Some(sids[i]),
{
    lemma_distinct_registrations_from(states, sids, names, 0);
}

} // verus!
