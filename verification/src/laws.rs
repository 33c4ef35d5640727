//! The laws of the server core, stated over the model and proved from
//! it: what registration, repeated joins and parts, misdirected
//! messages, quits and concurrent joins are bound to do, for every
//! directory state the invariant admits.

use vstd::prelude::*;

use crate::lemmas::{lemma_join_effect, lemma_part_effect, lemma_quit_effect};
use crate::model::{
    chan_names, chan_quit_replies, fanout, has_chan, is_member, is_user, join_effect,
    join_replies, members_of, part_effect, part_replies, privmsg_channel_replies, quit_effect,
    register_accepted, register_effect, wf, DeliveryV, DirView, ErrorKind, ReplyV,
};

verus! {

/// Two distinct nicks that both complete registration both stand in
/// the user directory, and a third registration attempt of the first
/// nick is refused, leaving the directory unchanged.
pub proof fn lemma_registration_pair(d: DirView, n1: Seq<char>, n2: Seq<char>)
    requires
        wf(d),
        n1 != n2,
        !is_user(d, n1),
        !is_user(d, n2),
    ensures
        ({
            let d2 = register_effect(register_effect(d, n1), n2);
            &&& is_user(d2, n1)
            &&& is_user(d2, n2)
            &&& !register_accepted(d2, n1)
            &&& register_effect(d2, n1) == d2
        }),
{
    let d1 = register_effect(d, n1);
    assert(d1.users == d.users.push(n1));
    assert(d1.users[d.users.len() as int] == n1);
    assert(d1.users.contains(n1));
    assert(!d1.users.contains(n2)) by {
        assert(forall|j: int| 0 <= j < d.users.len() ==> d.users[j] != n2);
        assert(forall|j: int| 0 <= j < d1.users.len() ==> d1.users[j] != n2);
    }
    let d2 = register_effect(d1, n2);
    assert(d2.users == d1.users.push(n2));
    assert(d2.users[d1.users.len() as int] == n2);
    assert(d2.users.contains(n2));
    assert(d2.users[d.users.len() as int] == n1);
    assert(d2.users.contains(n1));
}

/// A join issued twice by the same nick is idempotent: the second
/// issuance changes nothing and broadcasts nothing, and the nick
/// stands in the member list exactly once (the list stays
/// duplicate-free).
pub proof fn lemma_join_idempotent(d: DirView, s: Seq<char>, c: Seq<char>)
    requires
        wf(d),
        is_user(d, s),
    ensures
        ({
            let d1 = join_effect(d, s, c);
            &&& join_effect(d1, s, c) == d1
            &&& join_replies(d1, s, c) == Seq::<DeliveryV>::empty()
            &&& is_member(d1, c, s)
            &&& members_of(d1, c).no_duplicates()
            &&& wf(d1)
        }),
{
    let d1 = join_effect(d, s, c);
    lemma_join_effect(d, s, c);
    assert(is_member(d1, c, s));
    assert(join_effect(d1, s, c) == d1);
    assert(members_of(d1, c).no_duplicates()) by {
        let i = crate::model::chan_idx(d1, c);
        assert(0 <= i < d1.channels.len() && d1.channels[i].name == c);
    }
}

/// A part issued twice by the same nick: the first takes the nick out
/// of the member list; the second changes nothing and produces neither
/// a broadcast nor an error.
pub proof fn lemma_part_idempotent(d: DirView, s: Seq<char>, c: Seq<char>)
    requires
        wf(d),
        has_chan(d, c),
    ensures
        ({
            let d1 = part_effect(d, s, c);
            &&& !is_member(d1, c, s)
            &&& part_effect(d1, s, c) == d1
            &&& part_replies(d1, s, c) == Seq::<DeliveryV>::empty()
            &&& wf(d1)
        }),
{
    let d1 = part_effect(d, s, c);
    lemma_part_effect(d, s, c);
    assert(has_chan(d1, c)) by {
        let i = crate::model::chan_idx(d, c);
        assert(0 <= i < d.channels.len() && d.channels[i].name == c);
        assert(chan_names(d1)[i] == c);
        assert(d1.channels[i].name == c);
    }
    assert(!is_member(d1, c, s));
    lemma_part_effect(d1, s, c);
    assert(part_effect(d1, s, c) == d1);
    assert(part_replies(d1, s, c) == Seq::<DeliveryV>::empty());
}

/// A message to a channel the directory does not know produces exactly
/// one `NoSuchChannel` reply, to the sender alone, and no broadcast;
/// the directory itself is never touched by a message.
pub proof fn lemma_privmsg_unknown_channel(
    d: DirView,
    s: Seq<char>,
    c: Seq<char>,
    text: Seq<char>,
)
    requires
        !has_chan(d, c),
    ensures
        privmsg_channel_replies(d, s, c, text).len() == 1,
        privmsg_channel_replies(d, s, c, text)[0].to == s,
        privmsg_channel_replies(d, s, c, text)[0].reply == (ReplyV::ErrorReply {
            kind: ErrorKind::NoSuchChannel,
        }),
{
}

/// A quit removes the nick from every channel and from the user
/// directory, frees the nick for reuse at once, and owes exactly one
/// quit notice per channel the nick belonged to: one delivery to each
/// remaining member, in that channel's order, and none for the others.
pub proof fn lemma_quit(d: DirView, s: Seq<char>, reason: Seq<char>)
    requires
        wf(d),
        is_user(d, s),
    ensures
        ({
            let d1 = quit_effect(d, s);
            &&& wf(d1)
            &&& !is_user(d1, s)
            &&& register_accepted(d1, s)
            &&& forall|k: int|
                0 <= k < d1.channels.len() ==> !(#[trigger] d1.channels[k]).members.contains(s)
            &&& forall|k: int|
                0 <= k < d.channels.len() && (#[trigger] d.channels[k]).members.contains(s)
                    ==> chan_quit_replies(d.channels[k], s, reason) == fanout(
                    quit_effect(d, s).channels[k].members,
                    ReplyV::QuitNotice { reason: reason, sender: s },
                )
            &&& forall|k: int|
                0 <= k < d.channels.len() && (#[trigger] d.channels[k]).members.contains(s)
                    ==> chan_quit_replies(d.channels[k], s, reason).len() == d.channels[
                    k
                ].members.len() - 1
            &&& forall|k: int|
                0 <= k < d.channels.len() && !(#[trigger] d.channels[k]).members.contains(s)
                    ==> chan_quit_replies(d.channels[k], s, reason) == Seq::<DeliveryV>::empty()
        }),
{
    let d1 = quit_effect(d, s);
    lemma_quit_effect(d, s);
    assert forall|k: int|
        0 <= k < d.channels.len() && (#[trigger] d.channels[k]).members.contains(s)
            implies chan_quit_replies(d.channels[k], s, reason) == fanout(
        d1.channels[k].members,
        ReplyV::QuitNotice { reason: reason, sender: s },
    ) && chan_quit_replies(d.channels[k], s, reason).len() == d.channels[k].members.len()
        - 1 by {
        let m0 = d.channels[k].members;
        m0.index_of_first_ensures(s);
        assert(d1.channels[k].members == m0.remove_value(s));
    }
}

/// Sequential joins of one channel by each of a list of nicks, in any
/// arrival order: the model of N workers whose joins are serialized by
/// the channel's critical section.
pub open spec fn join_all(d: DirView, nicks: Seq<Seq<char>>, c: Seq<char>) -> DirView
    decreases nicks.len(),
{
    if nicks.len() == 0 {
        d
    } else {
        join_all(join_effect(d, nicks[0], c), nicks.drop_first(), c)
    }
}

/// Joining an existing channel in sequence: the invariant holds
/// throughout, the users and the channel names are untouched, and the
/// channel's final membership is exactly the old membership together
/// with the joining nicks, each nick at most once.
pub proof fn lemma_join_all(d: DirView, nicks: Seq<Seq<char>>, c: Seq<char>)
    requires
        wf(d),
        has_chan(d, c),
        forall|i: int| 0 <= i < nicks.len() ==> is_user(d, #[trigger] nicks[i]),
    ensures
        wf(join_all(d, nicks, c)),
        join_all(d, nicks, c).users == d.users,
        chan_names(join_all(d, nicks, c)) == chan_names(d),
        has_chan(join_all(d, nicks, c), c),
        members_of(join_all(d, nicks, c), c).no_duplicates(),
        forall|x: Seq<char>|
            #[trigger] members_of(join_all(d, nicks, c), c).contains(x) <==> (members_of(
                d,
                c,
            ).contains(x) || nicks.contains(x)),
    decreases nicks.len(),
{
    let df = join_all(d, nicks, c);
    if nicks.len() == 0 {
        assert(join_all(d, nicks, c) == d);
        assert(members_of(df, c).no_duplicates()) by {
            let i = crate::model::chan_idx(d, c);
            assert(0 <= i < d.channels.len() && d.channels[i].name == c);
        }
        assert forall|x: Seq<char>|
            #[trigger] members_of(join_all(d, nicks, c), c).contains(x) <==> (members_of(
                d,
                c,
            ).contains(x) || nicks.contains(x)) by {
            assert(!nicks.contains(x));
        }
    } else {
        let s0 = nicks[0];
        let d1 = join_effect(d, s0, c);
        lemma_join_effect(d, s0, c);
        assert forall|i: int|
            0 <= i < nicks.drop_first().len() implies is_user(
            d1,
            #[trigger] nicks.drop_first()[i],
        ) by {
            assert(nicks.drop_first()[i] == nicks[i + 1]);
        }
        lemma_join_all(d1, nicks.drop_first(), c);
        assert(join_all(d1, nicks.drop_first(), c) == df);
        assert forall|x: Seq<char>|
            #[trigger] members_of(join_all(d, nicks, c), c).contains(x) <==> (members_of(
                d,
                c,
            ).contains(x) || nicks.contains(x)) by {
            assert(members_of(join_all(d1, nicks.drop_first(), c), c).contains(x) <==> (
            members_of(d1, c).contains(x) || nicks.drop_first().contains(x)));
            assert(members_of(d1, c).contains(x) <==> (members_of(d, c).contains(x) || x == s0))
                by {
                if is_member(d, c, s0) {
                    assert(members_of(d1, c) == members_of(d, c));
                } else {
                    assert(members_of(d1, c) == members_of(d, c).push(s0));
                    if members_of(d1, c).contains(x) {
                        let j = choose|j: int|
                            0 <= j < members_of(d1, c).len() && members_of(d1, c)[j] == x;
                        if j < members_of(d, c).len() {
                            assert(members_of(d, c)[j] == x);
                        }
                    }
                    if members_of(d, c).contains(x) {
                        let j = choose|j: int|
                            0 <= j < members_of(d, c).len() && members_of(d, c)[j] == x;
                        assert(members_of(d1, c)[j] == x);
                    }
                    assert(members_of(d1, c)[members_of(d, c).len() as int] == s0);
                }
            }
            assert(nicks.contains(x) <==> (x == s0 || nicks.drop_first().contains(x))) by {
                if nicks.contains(x) {
                    let j = choose|j: int| 0 <= j < nicks.len() && nicks[j] == x;
                    if j > 0 {
                        assert(nicks.drop_first()[j - 1] == x);
                    }
                }
                if nicks.drop_first().contains(x) {
                    let j = choose|j: int|
                        0 <= j < nicks.drop_first().len() && nicks.drop_first()[j] == x;
                    assert(nicks[j + 1] == x);
                }
                assert(nicks[0] == s0);
            }
        }
    }
}

/// N connections race to join a channel that does not yet exist: once
/// their joins are serialized, exactly one channel of that name
/// stands, and its membership is exactly the N nicks, each exactly
/// once, whatever the arrival order was.
pub proof fn lemma_concurrent_join(d: DirView, nicks: Seq<Seq<char>>, c: Seq<char>)
    requires
        wf(d),
        !has_chan(d, c),
        nicks.len() > 0,
        forall|i: int| 0 <= i < nicks.len() ==> is_user(d, #[trigger] nicks[i]),
    ensures
        wf(join_all(d, nicks, c)),
        join_all(d, nicks, c).users == d.users,
        has_chan(join_all(d, nicks, c), c),
        chan_names(join_all(d, nicks, c)) == chan_names(d).push(c),
        members_of(join_all(d, nicks, c), c).no_duplicates(),
        forall|x: Seq<char>|
            #[trigger] members_of(join_all(d, nicks, c), c).contains(x) <==> nicks.contains(x),
{
    let s0 = nicks[0];
    let d1 = join_effect(d, s0, c);
    lemma_join_effect(d, s0, c);
    assert(members_of(d1, c) == seq![s0]);
    assert(members_of(d1, c).len() == 1);
    assert forall|i: int|
        0 <= i < nicks.drop_first().len() implies is_user(d1, #[trigger] nicks.drop_first()[i]) by {
        assert(nicks.drop_first()[i] == nicks[i + 1]);
    }
    lemma_join_all(d1, nicks.drop_first(), c);
    let df = join_all(d, nicks, c);
    assert(join_all(d1, nicks.drop_first(), c) == df);
    assert forall|x: Seq<char>|
        #[trigger] members_of(join_all(d, nicks, c), c).contains(x) <==> nicks.contains(x) by {
        assert(members_of(join_all(d1, nicks.drop_first(), c), c).contains(x) <==> (
        members_of(d1, c).contains(x) || nicks.drop_first().contains(x)));
        assert(members_of(d1, c).contains(x) <==> x == s0) by {
            if members_of(d1, c).contains(x) {
                let j = choose|j: int|
                    0 <= j < members_of(d1, c).len() && members_of(d1, c)[j] == x;
                assert(j == 0);
            }
            assert(members_of(d1, c)[0] == s0);
        }
        assert(nicks.contains(x) <==> (x == s0 || nicks.drop_first().contains(x))) by {
            if nicks.contains(x) {
                let j = choose|j: int| 0 <= j < nicks.len() && nicks[j] == x;
                if j > 0 {
                    assert(nicks.drop_first()[j - 1] == x);
                }
            }
            if nicks.drop_first().contains(x) {
                let j = choose|j: int|
                    0 <= j < nicks.drop_first().len() && nicks.drop_first()[j] == x;
                assert(nicks[j + 1] == x);
            }
            assert(nicks[0] == s0);
        }
    }
}

} // verus!
