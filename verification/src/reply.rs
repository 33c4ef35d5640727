//! The typed replies, deliveries and commands the core exchanges with
//! the outside of the library. Each value is plain data; rendering a
//! reply as one line of wire text happens outside the library.

use vstd::prelude::*;

use crate::model::{CommandV, DeliveryV, ErrorKind, ReplyV};

verus! {

/// One typed reply or notice, mirrored in specifications by `ReplyV`.
#[derive(Clone, Debug)]
pub enum Reply {
    Welcome { nick: String, real_name: String },
    JoinNotice { channel: String, sender: String },
    PartNotice { channel: String, sender: String },
    QuitNotice { reason: String, sender: String },
    ChannelMsg { channel: String, text: String, sender: String },
    UserMsg { target: String, text: String, sender: String },
    Pong { payload: String },
    ErrorReply { kind: ErrorKind },
}

impl View for Reply {
    type V = ReplyV;

    open spec fn view(&self) -> ReplyV {
        match self {
            Reply::Welcome { nick, real_name } => ReplyV::Welcome {
                nick: nick@,
                real_name: real_name@,
            },
            Reply::JoinNotice { channel, sender } => ReplyV::JoinNotice {
                channel: channel@,
                sender: sender@,
            },
            Reply::PartNotice { channel, sender } => ReplyV::PartNotice {
                channel: channel@,
                sender: sender@,
            },
            Reply::QuitNotice { reason, sender } => ReplyV::QuitNotice {
                reason: reason@,
                sender: sender@,
            },
            Reply::ChannelMsg { channel, text, sender } => ReplyV::ChannelMsg {
                channel: channel@,
                text: text@,
                sender: sender@,
            },
            Reply::UserMsg { target, text, sender } => ReplyV::UserMsg {
                target: target@,
                text: text@,
                sender: sender@,
            },
            Reply::Pong { payload } => ReplyV::Pong { payload: payload@ },
            Reply::ErrorReply { kind } => ReplyV::ErrorReply { kind: *kind },
        }
    }
}

impl DeepView for Reply {
    type V = ReplyV;

    open spec fn deep_view(&self) -> ReplyV {
        self.view()
    }
}

/// One delivery owed by the core: one typed reply to one recipient,
/// addressed by nick.
#[derive(Clone, Debug)]
pub struct Delivery {
    pub to: String,
    pub reply: Reply,
}

impl View for Delivery {
    type V = DeliveryV;

    open spec fn view(&self) -> DeliveryV {
        DeliveryV { to: self.to@, reply: self.reply@ }
    }
}

impl DeepView for Delivery {
    type V = DeliveryV;

    open spec fn deep_view(&self) -> DeliveryV {
        self.view()
    }
}

/// One typed command a registered connection may issue, mirrored in
/// specifications by `CommandV`. A line that fails to parse never
/// becomes a command: the parser's own error reply goes back to the
/// sender and the directories stay untouched.
#[derive(Clone, Debug)]
pub enum Command {
    PrivMsgChannel { channel: String, text: String },
    PrivMsgUser { target: String, text: String },
    Ping { payload: String },
    Join { channel: String },
    Part { channel: String },
    Quit { reason: Option<String> },
}

impl View for Command {
    type V = CommandV;

    open spec fn view(&self) -> CommandV {
        match self {
            Command::PrivMsgChannel { channel, text } => CommandV::PrivMsgChannel {
                channel: channel@,
                text: text@,
            },
            Command::PrivMsgUser { target, text } => CommandV::PrivMsgUser {
                target: target@,
                text: text@,
            },
            Command::Ping { payload } => CommandV::Ping { payload: payload@ },
            Command::Join { channel } => CommandV::Join { channel: channel@ },
            Command::Part { channel } => CommandV::Part { channel: channel@ },
            Command::Quit { reason } => CommandV::Quit {
                reason: match reason {
                    Some(r) => Some(r@),
                    None => None,
                },
            },
        }
    }
}

} // verus!
