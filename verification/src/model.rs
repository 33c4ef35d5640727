//! The mathematical model of the server core.
//!
//! Every executable operation on the shared directories is specified
//! against the types and functions here: `DirView` is the image of the
//! two registries (registered users, channel membership), and for each
//! command there is one function giving the directory after the command
//! and one giving the ordered list of deliveries it produces.

use vstd::prelude::*;

verus! {

/// Image of one channel: its name and its ordered, duplicate-free
/// member list.
#[verifier::ext_equal]
pub ghost struct ChanView {
    pub name: Seq<char>,
    pub members: Seq<Seq<char>>,
}

/// Image of the two shared registries: the registered nicks and the
/// channels in creation order.
#[verifier::ext_equal]
pub ghost struct DirView {
    pub users: Seq<Seq<char>>,
    pub channels: Seq<ChanView>,
}

/// The error replies the core itself produces. A malformed line is
/// reported by the parser outside the core and never reaches it.
#[derive(Clone, Copy, PartialEq, Eq, Structural, Debug)]
pub enum ErrorKind {
    NickCollision,
    NoSuchNick,
    NoSuchChannel,
}

/// Image of one typed reply or notice. Who receives it and when is the
/// core's decision; how it is rendered as wire text is not.
#[verifier::ext_equal]
pub ghost enum ReplyV {
    Welcome { nick: Seq<char>, real_name: Seq<char> },
    JoinNotice { channel: Seq<char>, sender: Seq<char> },
    PartNotice { channel: Seq<char>, sender: Seq<char> },
    QuitNotice { reason: Seq<char>, sender: Seq<char> },
    ChannelMsg { channel: Seq<char>, text: Seq<char>, sender: Seq<char> },
    UserMsg { target: Seq<char>, text: Seq<char>, sender: Seq<char> },
    Pong { payload: Seq<char> },
    ErrorReply { kind: ErrorKind },
}

/// Image of one delivery: one typed reply owed to one recipient.
#[verifier::ext_equal]
pub ghost struct DeliveryV {
    pub to: Seq<char>,
    pub reply: ReplyV,
}

/// The names of the channels, in directory order.
pub open spec fn chan_names(d: DirView) -> Seq<Seq<char>> {
    d.channels.map_values(|c: ChanView| c.name)
}

/// True when `nick` is registered.
pub open spec fn is_user(d: DirView, nick: Seq<char>) -> bool {
    d.users.contains(nick)
}

/// True when a channel of this name exists.
pub open spec fn has_chan(d: DirView, name: Seq<char>) -> bool {
    exists|i: int| 0 <= i < d.channels.len() && (#[trigger] d.channels[i]).name == name
}

/// The index of the channel of this name; meaningful only when
/// `has_chan` holds and channel names are distinct.
pub open spec fn chan_idx(d: DirView, name: Seq<char>) -> int {
    choose|i: int| 0 <= i < d.channels.len() && (#[trigger] d.channels[i]).name == name
}

/// The member list of the channel of this name, in join order.
pub open spec fn members_of(d: DirView, name: Seq<char>) -> Seq<Seq<char>> {
    d.channels[chan_idx(d, name)].members
}

/// True when `nick` is currently a member of the channel `name`.
pub open spec fn is_member(d: DirView, name: Seq<char>, nick: Seq<char>) -> bool {
    has_chan(d, name) && members_of(d, name).contains(nick)
}

/// Every listed member of every channel is a registered user.
pub open spec fn members_registered(d: DirView) -> bool {
    forall|i: int, j: int|
        0 <= i < d.channels.len() && 0 <= j < d.channels[i].members.len()
            ==> d.users.contains(#[trigger] d.channels[i].members[j])
}

/// The directory invariant: nicks are unique, channel names are unique,
/// no member list holds a nick twice, and members are registered.
pub open spec fn wf(d: DirView) -> bool {
    &&& d.users.no_duplicates()
    &&& chan_names(d).no_duplicates()
    &&& (forall|i: int|
        0 <= i < d.channels.len() ==> (#[trigger] d.channels[i]).members.no_duplicates())
    &&& members_registered(d)
}

/// One delivery of the same reply to each listed recipient, in list
/// order.
pub open spec fn fanout(recipients: Seq<Seq<char>>, reply: ReplyV) -> Seq<DeliveryV> {
    recipients.map_values(|r: Seq<char>| DeliveryV { to: r, reply: reply })
}

/// Exactly one delivery, to one recipient.
pub open spec fn only_to(to: Seq<char>, reply: ReplyV) -> Seq<DeliveryV> {
    seq![DeliveryV { to: to, reply: reply }]
}

/// The directory after a registration attempt of `nick`: inserted when
/// free, unchanged when taken. Insertion is the single source of truth
/// for nick uniqueness.
pub open spec fn register_effect(d: DirView, nick: Seq<char>) -> DirView {
    if is_user(d, nick) {
        d
    } else {
        DirView { users: d.users.push(nick), channels: d.channels }
    }
}

/// True when a registration attempt of `nick` is admitted.
pub open spec fn register_accepted(d: DirView, nick: Seq<char>) -> bool {
    !is_user(d, nick)
}

/// The directory after `sender` joins `channel`: appended to the member
/// list when absent, a no-op when already a member, a new one-member
/// channel when the name is unknown.
pub open spec fn join_effect(d: DirView, sender: Seq<char>, channel: Seq<char>) -> DirView {
    if has_chan(d, channel) {
        let i = chan_idx(d, channel);
        if d.channels[i].members.contains(sender) {
            d
        } else {
            DirView {
                users: d.users,
                channels: d.channels.update(
                    i,
                    ChanView { name: d.channels[i].name, members: d.channels[i].members.push(sender) },
                ),
            }
        }
    } else {
        DirView {
            users: d.users,
            channels: d.channels.push(ChanView { name: channel, members: seq![sender] }),
        }
    }
}

/// The deliveries a join produces: the notice to every member in
/// post-append order, nothing when the join was a no-op, the notice to
/// the sender alone when the channel is newly created.
pub open spec fn join_replies(d: DirView, sender: Seq<char>, channel: Seq<char>) -> Seq<
    DeliveryV,
> {
    let notice = ReplyV::JoinNotice { channel: channel, sender: sender };
    if has_chan(d, channel) {
        if members_of(d, channel).contains(sender) {
            Seq::empty()
        } else {
            fanout(members_of(d, channel).push(sender), notice)
        }
    } else {
        only_to(sender, notice)
    }
}

/// The directory after `sender` parts `channel`: removed from the
/// member list when present, otherwise unchanged. A channel left empty
/// is retained, so that its name stays known to the directory.
pub open spec fn part_effect(d: DirView, sender: Seq<char>, channel: Seq<char>) -> DirView {
    if is_member(d, channel, sender) {
        let i = chan_idx(d, channel);
        DirView {
            users: d.users,
            channels: d.channels.update(
                i,
                ChanView {
                    name: d.channels[i].name,
                    members: d.channels[i].members.remove_value(sender),
                },
            ),
        }
    } else {
        d
    }
}

/// The deliveries a part produces: the notice to every member in
/// pre-removal order when the sender is a member, nothing when not,
/// one error to the sender when the channel is unknown.
pub open spec fn part_replies(d: DirView, sender: Seq<char>, channel: Seq<char>) -> Seq<
    DeliveryV,
> {
    if has_chan(d, channel) {
        if members_of(d, channel).contains(sender) {
            fanout(members_of(d, channel), ReplyV::PartNotice { channel: channel, sender: sender })
        } else {
            Seq::empty()
        }
    } else {
        only_to(sender, ReplyV::ErrorReply { kind: ErrorKind::NoSuchChannel })
    }
}

/// The deliveries a channel message produces: the tagged message to
/// every member in list order, the sender included, or one error to the
/// sender when the channel is unknown.
pub open spec fn privmsg_channel_replies(
    d: DirView,
    sender: Seq<char>,
    channel: Seq<char>,
    text: Seq<char>,
) -> Seq<DeliveryV> {
    if has_chan(d, channel) {
        fanout(
            members_of(d, channel),
            ReplyV::ChannelMsg { channel: channel, text: text, sender: sender },
        )
    } else {
        only_to(sender, ReplyV::ErrorReply { kind: ErrorKind::NoSuchChannel })
    }
}

/// The deliveries a user-directed message produces: the tagged message
/// to the target alone, or one error to the sender when the target is
/// not registered.
pub open spec fn privmsg_user_replies(
    d: DirView,
    sender: Seq<char>,
    target: Seq<char>,
    text: Seq<char>,
) -> Seq<DeliveryV> {
    if is_user(d, target) {
        only_to(target, ReplyV::UserMsg { target: target, text: text, sender: sender })
    } else {
        only_to(sender, ReplyV::ErrorReply { kind: ErrorKind::NoSuchNick })
    }
}

/// One channel with `nick` taken out of its member list.
pub open spec fn strip_member(c: ChanView, nick: Seq<char>) -> ChanView {
    ChanView { name: c.name, members: c.members.remove_value(nick) }
}

/// The directory after `nick` quits: taken out of every member list and
/// out of the registered users.
pub open spec fn quit_effect(d: DirView, nick: Seq<char>) -> DirView {
    DirView {
        users: d.users.remove_value(nick),
        channels: d.channels.map_values(|c: ChanView| strip_member(c, nick)),
    }
}

/// The quit deliveries owed for one channel: the notice to the members
/// that remain after the sender is taken out, and nothing for a channel
/// the sender was not in.
pub open spec fn chan_quit_replies(c: ChanView, nick: Seq<char>, reason: Seq<char>) -> Seq<
    DeliveryV,
> {
    if c.members.contains(nick) {
        fanout(c.members.remove_value(nick), ReplyV::QuitNotice { reason: reason, sender: nick })
    } else {
        Seq::empty()
    }
}

/// The deliveries a quit produces: the per-channel notices concatenated
/// in directory order.
pub open spec fn quit_replies(channels: Seq<ChanView>, nick: Seq<char>, reason: Seq<char>) -> Seq<
    DeliveryV,
>
    decreases channels.len(),
{
    if channels.len() == 0 {
        Seq::empty()
    } else {
        quit_replies(channels.drop_last(), nick, reason) + chan_quit_replies(
            channels.last(),
            nick,
            reason,
        )
    }
}

/// Image of one typed command a registered connection may issue.
#[verifier::ext_equal]
pub ghost enum CommandV {
    PrivMsgChannel { channel: Seq<char>, text: Seq<char> },
    PrivMsgUser { target: Seq<char>, text: Seq<char> },
    Ping { payload: Seq<char> },
    Join { channel: Seq<char> },
    Part { channel: Seq<char> },
    Quit { reason: Option<Seq<char>> },
}

/// The reason carried by a quit notice: the given one, or the
/// sender's own nick when none was given.
pub open spec fn quit_reason(sender: Seq<char>, reason: Option<Seq<char>>) -> Seq<char> {
    match reason {
        Some(r) => r,
        None => sender,
    }
}

/// True when the command ends the sender's session.
pub open spec fn session_ends(cmd: CommandV) -> bool {
    cmd is Quit
}

/// The directory after `sender` issues `cmd`: only joins, parts and
/// quits touch it.
pub open spec fn dispatch_effect(d: DirView, sender: Seq<char>, cmd: CommandV) -> DirView {
    match cmd {
        CommandV::Join { channel } => join_effect(d, sender, channel),
        CommandV::Part { channel } => part_effect(d, sender, channel),
        CommandV::Quit { reason } => quit_effect(d, sender),
        _ => d,
    }
}

/// The ordered deliveries owed after `sender` issues `cmd`.
pub open spec fn dispatch_replies(d: DirView, sender: Seq<char>, cmd: CommandV) -> Seq<DeliveryV> {
    match cmd {
        CommandV::PrivMsgChannel { channel, text } => privmsg_channel_replies(
            d,
            sender,
            channel,
            text,
        ),
        CommandV::PrivMsgUser { target, text } => privmsg_user_replies(d, sender, target, text),
        CommandV::Ping { payload } => only_to(sender, ReplyV::Pong { payload: payload }),
        CommandV::Join { channel } => join_replies(d, sender, channel),
        CommandV::Part { channel } => part_replies(d, sender, channel),
        CommandV::Quit { reason } => quit_replies(d.channels, sender, quit_reason(sender, reason)),
    }
}

} // verus!
