//! The command dispatcher: given the directory pair and a sender that
//! has completed registration, each operation mutates the directories
//! as the command demands and returns the ordered list of deliveries
//! owed, the recipients addressed by nick. Performing the deliveries —
//! rendering each typed reply as wire text and writing it to the
//! recipient's connection — happens outside the library.

use vstd::prelude::*;

use crate::directory::{lemma_chan_idx_is, nick_index, ChannelEntry, Directory};
use crate::lemmas::{
    lemma_fanout_step, lemma_first_index, lemma_quit_replies_step, lemma_remove_keeps_others,
};
use crate::model::{
    chan_names, chan_quit_replies, dispatch_effect, dispatch_replies, fanout, is_user,
    join_effect, join_replies, only_to, part_effect, part_replies, privmsg_channel_replies,
    privmsg_user_replies, quit_effect, quit_replies, session_ends, strip_member, wf, ChanView,
    DeliveryV, ErrorKind, ReplyV,
};
use crate::reply::{Command, Delivery, Reply};

verus! {

/// Join `channel` as `sender`: append the sender to the member list
/// when absent (notifying every member in post-append order), do
/// nothing when the sender is already a member, or create the channel
/// with the sender as sole member (notifying the sender alone).
pub fn join_channel(d: &mut Directory, sender: &String, channel: &String) -> (out: Vec<Delivery>)
    requires
        wf(old(d)@),
        is_user(old(d)@, sender@),
    ensures
        final(d)@ == join_effect(old(d)@, sender@, channel@),
        out.deep_view() == join_replies(old(d)@, sender@, channel@),
        wf(final(d)@),
        final(d)@.users == old(d)@.users,
{
    let ghost d0 = d@;
    let ghost notice = ReplyV::JoinNotice { channel: channel@, sender: sender@ };
    let idx = d.channel_index(channel);
    match idx {
        Some(i) => {
            proof {
                lemma_chan_idx_is(d0, i as int);
            }
            let member = nick_index(&d.channels[i].members, sender);
            if member.is_some() {
                let out: Vec<Delivery> = Vec::new();
                proof {
                    assert(d@ =~= join_effect(d0, sender@, channel@));
                    assert(out.deep_view() =~= join_replies(d0, sender@, channel@));
                }
                out
            } else {
                d.channels[i].members.push(sender.clone());
                proof {
                    let d1 = d@;
                    let m0 = d0.channels[i as int].members;
                    let m1 = d1.channels[i as int].members;
                    assert(m1 =~= m0.push(sender@));
                    assert(d1.channels =~= d0.channels.update(
                        i as int,
                        ChanView { name: d0.channels[i as int].name, members: m0.push(sender@) },
                    ));
                    assert(d1 =~= join_effect(d0, sender@, channel@));
                    assert(chan_names(d1) =~= chan_names(d0));
                    assert(m1.no_duplicates()) by {
                        assert(forall|j: int| 0 <= j < m0.len() ==> m0[j] != sender@);
                    }
                    assert forall|a: int, b: int|
                        0 <= a < d1.channels.len() && 0 <= b < d1.channels[a].members.len()
                            implies d1.users.contains(
                        #[trigger] d1.channels[a].members[b],
                    ) by {
                        if a == i as int && b == m0.len() {
                            assert(d1.channels[a].members[b] == sender@);
                        } else {
                            assert(d1.channels[a].members[b] == d0.channels[a].members[b]);
                        }
                    }
                    assert(wf(d1));
                }
                let n = d.channels[i].members.len();
                let mut out: Vec<Delivery> = Vec::new();
                #[verifier::loop_isolation(false)]
                for k in 0..n
                    invariant
                        n == d@.channels[i as int].members.len(),
                        out.deep_view() =~= fanout(
                            d@.channels[i as int].members.take(k as int),
                            notice,
                        ),
                {
                    out.push(
                        Delivery {
                            to: d.channels[i].members[k].clone(),
                            reply: Reply::JoinNotice {
                                channel: channel.clone(),
                                sender: sender.clone(),
                            },
                        },
                    );
                    proof {
                        lemma_fanout_step(d@.channels[i as int].members, notice, k as int);
                    }
                }
                proof {
                    assert(d@.channels[i as int].members.take(n as int) =~= d@.channels[
                        i as int
                    ].members);
                    assert(out.deep_view() == join_replies(d0, sender@, channel@));
                }
                out
            }
        },
        None => {
            let mut first: Vec<String> = Vec::new();
            first.push(sender.clone());
            let entry = ChannelEntry { name: channel.clone(), members: first };
            d.channels.push(entry);
            let mut out: Vec<Delivery> = Vec::new();
            out.push(
                Delivery {
                    to: sender.clone(),
                    reply: Reply::JoinNotice { channel: channel.clone(), sender: sender.clone() },
                },
            );
            proof {
                let d1 = d@;
                assert(d1.channels =~~= d0.channels.push(
                    ChanView { name: channel@, members: seq![sender@] },
                ));
                assert(d1 =~= join_effect(d0, sender@, channel@));
                assert(out.deep_view() =~= only_to(sender@, notice));
                assert(chan_names(d1) =~= chan_names(d0).push(channel@));
                assert(chan_names(d1).no_duplicates()) by {
                    assert(forall|j: int|
                        0 <= j < d0.channels.len() ==> (#[trigger] d0.channels[j]).name
                            != channel@);
                    assert(forall|j: int|
                        0 <= j < chan_names(d0).len() ==> chan_names(d0)[j] != channel@);
                }
                assert forall|a: int, b: int|
                    0 <= a < d1.channels.len() && 0 <= b < d1.channels[a].members.len()
                        implies d1.users.contains(#[trigger] d1.channels[a].members[b]) by {
                    if a == d0.channels.len() {
                        assert(d1.channels[a].members[b] == sender@);
                    } else {
                        assert(d1.channels[a].members[b] == d0.channels[a].members[b]);
                    }
                }
                assert(wf(d1));
            }
            out
        },
    }
}

/// Message the channel `channel` as `sender`: the tagged message to
/// every current member in list order, the sender included, or one
/// `NoSuchChannel` error to the sender alone when the channel is
/// unknown. The directories are read, never changed.
pub fn private_msg_channel(
    d: &Directory,
    sender: &String,
    channel: &String,
    text: &String,
) -> (out: Vec<Delivery>)
    requires
        wf(d@),
        is_user(d@, sender@),
    ensures
        out.deep_view() == privmsg_channel_replies(d@, sender@, channel@, text@),
{
    let ghost msg = ReplyV::ChannelMsg { channel: channel@, text: text@, sender: sender@ };
    match d.channel_index(channel) {
        Some(i) => {
            proof {
                lemma_chan_idx_is(d@, i as int);
            }
            let n = d.channels[i].members.len();
            let mut out: Vec<Delivery> = Vec::new();
            #[verifier::loop_isolation(false)]
            for k in 0..n
                invariant
                    out.deep_view() =~= fanout(d@.channels[i as int].members.take(k as int), msg),
            {
                out.push(
                    Delivery {
                        to: d.channels[i].members[k].clone(),
                        reply: Reply::ChannelMsg {
                            channel: channel.clone(),
                            text: text.clone(),
                            sender: sender.clone(),
                        },
                    },
                );
                proof {
                    lemma_fanout_step(d@.channels[i as int].members, msg, k as int);
                }
            }
            proof {
                assert(d@.channels[i as int].members.take(n as int) =~= d@.channels[
                    i as int
                ].members);
                assert(out.deep_view() == privmsg_channel_replies(d@, sender@, channel@, text@));
            }
            out
        },
        None => {
            let mut out: Vec<Delivery> = Vec::new();
            out.push(
                Delivery {
                    to: sender.clone(),
                    reply: Reply::ErrorReply { kind: ErrorKind::NoSuchChannel },
                },
            );
            proof {
                assert(out.deep_view() =~= only_to(
                    sender@,
                    ReplyV::ErrorReply { kind: ErrorKind::NoSuchChannel },
                ));
            }
            out
        },
    }
}

/// Message the user `target` as `sender`: the tagged message to the
/// target alone, or one `NoSuchNick` error to the sender when the
/// target is not registered. The directories are read, never changed.
pub fn private_msg_user(
    d: &Directory,
    sender: &String,
    target: &String,
    text: &String,
) -> (out: Vec<Delivery>)
    requires
        wf(d@),
        is_user(d@, sender@),
    ensures
        out.deep_view() == privmsg_user_replies(d@, sender@, target@, text@),
{
    let mut out: Vec<Delivery> = Vec::new();
    if d.is_registered(target) {
        out.push(
            Delivery {
                to: target.clone(),
                reply: Reply::UserMsg {
                    target: target.clone(),
                    text: text.clone(),
                    sender: sender.clone(),
                },
            },
        );
        proof {
            assert(out.deep_view() =~= only_to(
                target@,
                ReplyV::UserMsg { target: target@, text: text@, sender: sender@ },
            ));
        }
    } else {
        out.push(
            Delivery { to: sender.clone(), reply: Reply::ErrorReply { kind: ErrorKind::NoSuchNick } },
        );
        proof {
            assert(out.deep_view() =~= only_to(
                sender@,
                ReplyV::ErrorReply { kind: ErrorKind::NoSuchNick },
            ));
        }
    }
    out
}

/// Part `channel` as `sender`: notify every member in pre-removal
/// order and then take the sender out of the list, do nothing when the
/// sender is not a member, or send one `NoSuchChannel` error when the
/// channel is unknown. A channel left with no member is retained.
pub fn part_channel(d: &mut Directory, sender: &String, channel: &String) -> (out: Vec<Delivery>)
    requires
        wf(old(d)@),
        is_user(old(d)@, sender@),
    ensures
        final(d)@ == part_effect(old(d)@, sender@, channel@),
        out.deep_view() == part_replies(old(d)@, sender@, channel@),
        wf(final(d)@),
        final(d)@.users == old(d)@.users,
{
    let ghost d0 = d@;
    let ghost notice = ReplyV::PartNotice { channel: channel@, sender: sender@ };
    match d.channel_index(channel) {
        Some(i) => {
            proof {
                lemma_chan_idx_is(d0, i as int);
            }
            let member = nick_index(&d.channels[i].members, sender);
            match member {
                Some(j) => {
                    let n = d.channels[i].members.len();
                    let mut out: Vec<Delivery> = Vec::new();
                    #[verifier::loop_isolation(false)]
                    for k in 0..n
                        invariant
                            out.deep_view() =~= fanout(
                                d@.channels[i as int].members.take(k as int),
                                notice,
                            ),
                    {
                        out.push(
                            Delivery {
                                to: d.channels[i].members[k].clone(),
                                reply: Reply::PartNotice {
                                    channel: channel.clone(),
                                    sender: sender.clone(),
                                },
                            },
                        );
                        proof {
                            lemma_fanout_step(d@.channels[i as int].members, notice, k as int);
                        }
                    }
                    d.channels[i].members.remove(j);
                    proof {
                        let d1 = d@;
                        let m0 = d0.channels[i as int].members;
                        let m1 = d1.channels[i as int].members;
                        lemma_first_index(m0, sender@, j as int);
                        assert(m1 =~= m0.remove(j as int));
                        assert(d1.channels =~= d0.channels.update(
                            i as int,
                            ChanView {
                                name: d0.channels[i as int].name,
                                members: m0.remove_value(sender@),
                            },
                        ));
                        assert(d1 =~= part_effect(d0, sender@, channel@));
                        assert(m0.take(n as int) =~= m0);
                        assert(out.deep_view() == part_replies(d0, sender@, channel@));
                        assert(chan_names(d1) =~= chan_names(d0));
                        lemma_remove_keeps_others(m0, j as int);
                        assert forall|a: int, b: int|
                            0 <= a < d1.channels.len() && 0 <= b < d1.channels[a].members.len()
                                implies d1.users.contains(
                            #[trigger] d1.channels[a].members[b],
                        ) by {
                            if a == i as int {
                                let b1: int = if b < j as int {
                                    b
                                } else {
                                    b + 1
                                };
                                assert(d1.channels[a].members[b] == d0.channels[a].members[b1]);
                            } else {
                                assert(d1.channels[a].members[b] == d0.channels[a].members[b]);
                            }
                        }
                        assert(wf(d1));
                    }
                    out
                },
                None => {
                    let out: Vec<Delivery> = Vec::new();
                    proof {
                        assert(d@ =~= part_effect(d0, sender@, channel@));
                        assert(out.deep_view() =~= part_replies(d0, sender@, channel@));
                    }
                    out
                },
            }
        },
        None => {
            let mut out: Vec<Delivery> = Vec::new();
            out.push(
                Delivery {
                    to: sender.clone(),
                    reply: Reply::ErrorReply { kind: ErrorKind::NoSuchChannel },
                },
            );
            proof {
                assert(d@ =~= part_effect(d0, sender@, channel@));
                assert(out.deep_view() =~= only_to(
                    sender@,
                    ReplyV::ErrorReply { kind: ErrorKind::NoSuchChannel },
                ));
            }
            out
        },
    }
}

/// Quit the server as `sender`: for every channel the sender belongs
/// to, take the sender out of its member list and notify the members
/// that remain, in that channel's order; then remove the sender from
/// the user directory, freeing the nick for reuse at once.
pub fn quit_server(d: &mut Directory, sender: &String, reason: &String) -> (out: Vec<Delivery>)
    requires
        wf(old(d)@),
        is_user(old(d)@, sender@),
    ensures
        final(d)@ == quit_effect(old(d)@, sender@),
        out.deep_view() == quit_replies(old(d)@.channels, sender@, reason@),
        wf(final(d)@),
        !is_user(final(d)@, sender@),
{
    let ghost d0 = d@;
    let ghost notice = ReplyV::QuitNotice { reason: reason@, sender: sender@ };
    let mut out: Vec<Delivery> = Vec::new();
    let n = d.channels.len();
    #[verifier::loop_isolation(false)]
    for i in 0..n
        invariant
            d@.users == d0.users,
            d@.channels.len() == d0.channels.len(),
            forall|k: int|
                0 <= k < i ==> d@.channels[k] == strip_member(#[trigger] d0.channels[k], sender@),
            forall|k: int| i <= k < d0.channels.len() ==> d@.channels[k] == #[trigger] d0.channels[k],
            out.deep_view() =~= quit_replies(d0.channels.take(i as int), sender@, reason@),
    {
        let ghost qpre = quit_replies(d0.channels.take(i as int), sender@, reason@);
        let member = nick_index(&d.channels[i].members, sender);
        match member {
            Some(j) => {
                d.channels[i].members.remove(j);
                proof {
                    let m0 = d0.channels[i as int].members;
                    let m1 = d@.channels[i as int].members;
                    lemma_first_index(m0, sender@, j as int);
                    assert(m1 =~= m0.remove(j as int));
                    assert(d@.channels[i as int] =~= strip_member(d0.channels[i as int], sender@));
                    assert(chan_quit_replies(d0.channels[i as int], sender@, reason@) == fanout(
                        m1,
                        notice,
                    ));
                }
                let m = d.channels[i].members.len();
                #[verifier::loop_isolation(false)]
                for t in 0..m
                    invariant
                        out.deep_view() =~= qpre + fanout(
                            d@.channels[i as int].members.take(t as int),
                            notice,
                        ),
                {
                    out.push(
                        Delivery {
                            to: d.channels[i].members[t].clone(),
                            reply: Reply::QuitNotice {
                                reason: reason.clone(),
                                sender: sender.clone(),
                            },
                        },
                    );
                    proof {
                        let ms = d@.channels[i as int].members;
                        let xv = DeliveryV { to: ms[t as int], reply: notice };
                        assert(out.deep_view() =~= (qpre + fanout(ms.take(t as int), notice)).push(
                            xv,
                        ));
                        assert((qpre + fanout(ms.take(t as int), notice)).push(xv) =~= qpre
                            + fanout(ms.take(t as int), notice).push(xv));
                        lemma_fanout_step(ms, notice, t as int);
                        assert(out.deep_view() =~= qpre + fanout(ms.take(t as int + 1), notice));
                    }
                }
                proof {
                    assert(d@.channels[i as int].members.take(m as int) =~= d@.channels[
                        i as int
                    ].members);
                    lemma_quit_replies_step(d0.channels, sender@, reason@, i as int);
                    assert(out.deep_view() =~= quit_replies(
                        d0.channels.take(i as int + 1),
                        sender@,
                        reason@,
                    ));
                }
            },
            None => {
                proof {
                    let m0 = d0.channels[i as int].members;
                    m0.index_of_first_ensures(sender@);
                    assert(m0.remove_value(sender@) == m0);
                    assert(d@.channels[i as int] =~= strip_member(d0.channels[i as int], sender@));
                    assert(chan_quit_replies(d0.channels[i as int], sender@, reason@)
                        == Seq::<DeliveryV>::empty());
                    lemma_quit_replies_step(d0.channels, sender@, reason@, i as int);
                    assert(out.deep_view() + Seq::<DeliveryV>::empty() =~= out.deep_view());
                    assert(out.deep_view() =~= quit_replies(
                        d0.channels.take(i as int + 1),
                        sender@,
                        reason@,
                    ));
                }
            },
        }
    }
    proof {
        assert(d0.channels.take(n as int) =~= d0.channels);
        assert(d@.channels =~= d0.channels.map_values(
            |c: ChanView| strip_member(c, sender@),
        ));
        assert(out.deep_view() == quit_replies(d0.channels, sender@, reason@));
    }
    let uidx = nick_index(&d.users, sender);
    let j: usize = match uidx {
        Some(j) => j,
        None => {
            proof {
                assert(false);
            }
            0
        },
    };
    d.users.remove(j);
    proof {
        let d1 = d@;
        lemma_first_index(d0.users, sender@, j as int);
        assert(d1.users =~= d0.users.remove(j as int));
        assert(d1 =~= quit_effect(d0, sender@));
        lemma_remove_keeps_others(d0.users, j as int);
        assert(d1.users.no_duplicates());
        assert(!d1.users.contains(sender@));
        assert(chan_names(d1) =~= chan_names(d0));
        assert forall|k: int|
            0 <= k < d1.channels.len() implies (#[trigger] d1.channels[k]).members.no_duplicates()
        by {
            let c = d0.channels[k];
            c.members.index_of_first_ensures(sender@);
            if c.members.contains(sender@) {
                let idx = c.members.index_of_first(sender@)->Some_0;
                lemma_remove_keeps_others(c.members, idx);
            }
        }
        assert forall|a: int, b: int|
            0 <= a < d1.channels.len() && 0 <= b < d1.channels[a].members.len()
                implies d1.users.contains(#[trigger] d1.channels[a].members[b]) by {
            let c = d0.channels[a];
            let y = d1.channels[a].members[b];
            c.members.index_of_first_ensures(sender@);
            if c.members.contains(sender@) {
                let idx = c.members.index_of_first(sender@)->Some_0;
                lemma_remove_keeps_others(c.members, idx);
                assert(d1.channels[a].members == c.members.remove(idx));
                assert(c.members.remove(idx).contains(y));
                assert(c.members.contains(y));
                assert(y != sender@);
            } else {
                assert(d1.channels[a].members == c.members);
                assert(c.members.contains(y));
                assert(y != sender@);
            }
            assert(d0.users.contains(y));
            assert(d1.users.contains(y));
        }
        assert(wf(d1));
    }
    out
}

/// Dispatch one typed command for a registered sender: mutate the
/// directories as the command demands and return the deliveries owed,
/// in order. Every command but Quit leaves the sender registered; a
/// Quit removes it from every channel and from the user directory.
pub fn dispatch(d: &mut Directory, sender: &String, cmd: Command) -> (out: Vec<Delivery>)
    requires
        wf(old(d)@),
        is_user(old(d)@, sender@),
    ensures
        final(d)@ == dispatch_effect(old(d)@, sender@, cmd@),
        out.deep_view() == dispatch_replies(old(d)@, sender@, cmd@),
        wf(final(d)@),
        !session_ends(cmd@) ==> is_user(final(d)@, sender@),
        session_ends(cmd@) ==> !is_user(final(d)@, sender@),
{
    match cmd {
        Command::PrivMsgChannel { channel, text } => private_msg_channel(
            d,
            sender,
            &channel,
            &text,
        ),
        Command::PrivMsgUser { target, text } => private_msg_user(d, sender, &target, &text),
        Command::Ping { payload } => {
            let ghost pong = ReplyV::Pong { payload: payload@ };
            let mut out: Vec<Delivery> = Vec::new();
            out.push(Delivery { to: sender.clone(), reply: Reply::Pong { payload: payload } });
            proof {
                assert(out.deep_view() =~= only_to(sender@, pong));
            }
            out
        },
        Command::Join { channel } => join_channel(d, sender, &channel),
        Command::Part { channel } => part_channel(d, sender, &channel),
        Command::Quit { reason } => {
            let text: String = match reason {
                Some(m) => m,
                None => sender.clone(),
            };
            quit_server(d, sender, &text)
        },
    }
}

} // verus!
