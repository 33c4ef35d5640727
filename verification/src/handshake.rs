//! The registration handshake: the state machine a connection walks
//! before it is admitted into the registered pool. A connection first
//! offers a nick, then confirms with its user details; only the
//! insertion into the user directory decides uniqueness, the check at
//! nick time being advisory alone. Until it is registered, every other
//! command is ignored silently; a malformed line is answered by the
//! parser outside the core.

use vstd::prelude::*;

use crate::directory::Directory;
use crate::model::{is_user, register_accepted, register_effect, wf, DirView, ErrorKind, ReplyV};
use crate::reply::Reply;

verus! {

/// The handshake state of one connection: nothing offered yet, a
/// candidate nick offered, or admitted under a confirmed nick.
#[derive(Clone, Debug)]
pub enum Session {
    Unauthenticated,
    NickProvided { nick: String },
    Registered { nick: String },
}

/// Spec-level image of `Session`.
#[verifier::ext_equal]
pub ghost enum SessionV {
    Unauthenticated,
    NickProvided { nick: Seq<char> },
    Registered { nick: Seq<char> },
}

impl View for Session {
    type V = SessionV;

    open spec fn view(&self) -> SessionV {
        match self {
            Session::Unauthenticated => SessionV::Unauthenticated,
            Session::NickProvided { nick } => SessionV::NickProvided { nick: nick@ },
            Session::Registered { nick } => SessionV::Registered { nick: nick@ },
        }
    }
}

/// The session after a NICK command offering `candidate`, with the
/// reply owed to the connection itself: a collision error when the
/// candidate is already registered (state unchanged), else no reply
/// and the candidate stored.
pub open spec fn nick_step(d: DirView, s: SessionV, candidate: Seq<char>) -> (SessionV, Option<
    ReplyV,
>) {
    if is_user(d, candidate) {
        (s, Some(ReplyV::ErrorReply { kind: ErrorKind::NickCollision }))
    } else {
        (SessionV::NickProvided { nick: candidate }, None)
    }
}

/// The directory, session and owed reply after a USER command. Only a
/// session that has offered a nick can register; the insertion into
/// the user directory is the single source of truth for uniqueness, so
/// a race lost at this point is a collision even though the nick
/// looked free at NICK time.
pub open spec fn user_step(d: DirView, s: SessionV, real_name: Seq<char>) -> (DirView, SessionV, Option<ReplyV>) {
    match s {
        SessionV::NickProvided { nick } => {
            if is_user(d, nick) {
                (d, s, Some(ReplyV::ErrorReply { kind: ErrorKind::NickCollision }))
            } else {
                (
                    register_effect(d, nick),
                    SessionV::Registered { nick: nick },
                    Some(ReplyV::Welcome { nick: nick, real_name: real_name }),
                )
            }
        },
        _ => (d, s, None),
    }
}

/// Handle a NICK command before registration. The reply, when any, is
/// owed to this connection itself, which has no directory entry yet.
pub fn handle_nick(d: &Directory, session: Session, candidate: &String) -> (r: (
    Session,
    Option<Reply>,
))
    ensures
        r.0@ == nick_step(d@, session@, candidate@).0,
        r.1.deep_view() == nick_step(d@, session@, candidate@).1,
{
    if d.is_registered(candidate) {
        (session, Some(Reply::ErrorReply { kind: ErrorKind::NickCollision }))
    } else {
        (Session::NickProvided { nick: candidate.clone() }, None)
    }
}

/// Handle a USER command: attempt the directory insertion that admits
/// the connection. The reply, when any, is owed to this connection
/// itself; the welcome is owed exactly when the session becomes
/// registered.
pub fn register_user(d: &mut Directory, session: Session, real_name: &String) -> (r: (
    Session,
    Option<Reply>,
))
    requires
        wf(old(d)@),
    ensures
        final(d)@ == user_step(old(d)@, session@, real_name@).0,
        r.0@ == user_step(old(d)@, session@, real_name@).1,
        r.1.deep_view() == user_step(old(d)@, session@, real_name@).2,
        wf(final(d)@),
        r.0 is Registered <==> (session@ is Registered || (session@ is NickProvided
            && register_accepted(old(d)@, session@->NickProvided_nick))),
{
    match session {
        Session::NickProvided { nick } => {
            if d.register_nick(&nick) {
                let welcome = Reply::Welcome { nick: nick.clone(), real_name: real_name.clone() };
                (Session::Registered { nick }, Some(welcome))
            } else {
                (
                    Session::NickProvided { nick },
                    Some(Reply::ErrorReply { kind: ErrorKind::NickCollision }),
                )
            }
        },
        other => (other, None),
    }
}

} // verus!
