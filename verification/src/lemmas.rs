//! Facts the verified operations and the stated laws lean on: how a
//! linear scan relates to `index_of_first`, what removing one element
//! leaves behind, and what each directory mutation preserves.

use vstd::prelude::*;

use crate::model::{
    chan_idx, chan_names, has_chan, is_member, is_user, join_effect, members_of, part_effect,
    quit_effect, wf, DirView,
};

verus! {

/// A position whose predecessors all differ from `x` is the one
/// `index_of_first` picks, so removing there is `remove_value`.
pub proof fn lemma_first_index<A>(s: Seq<A>, x: A, i: int)
    requires
        0 <= i < s.len(),
        s[i] == x,
        forall|j: int| 0 <= j < i ==> s[j] != x,
    ensures
        s.index_of_first(x) == Some(i),
        s.remove_value(x) == s.remove(i),
{
    s.index_of_first_ensures(x);
    assert(s.contains(x));
    let k = s.index_of_first(x)->Some_0;
    if k < i {
        assert(s[k] != x);
    }
}

/// Removing the element at `i` keeps every other occurrence, keeps
/// distinctness, and, when `s` is duplicate-free, removes `s[i]` for
/// good.
pub proof fn lemma_remove_keeps_others<A>(s: Seq<A>, i: int)
    requires
        0 <= i < s.len(),
    ensures
        forall|y: A| s.contains(y) && y != s[i] ==> #[trigger] s.remove(i).contains(y),
        s.no_duplicates() ==> s.remove(i).no_duplicates(),
        s.no_duplicates() ==> !s.remove(i).contains(s[i]),
        forall|y: A| s.remove(i).contains(y) ==> #[trigger] s.contains(y),
{
    s.remove_ensures(i);
    let r = s.remove(i);
    assert forall|y: A| s.contains(y) && y != s[i] implies #[trigger] r.contains(y) by {
        let k = choose|k: int| 0 <= k < s.len() && s[k] == y;
        if k < i {
            assert(r[k] == y);
        } else {
            assert(r[k - 1] == y);
        }
    }
    if s.no_duplicates() {
        assert forall|p: int, q: int|
            0 <= p < r.len() && 0 <= q < r.len() && p != q implies r[p] != r[q] by {
            let p1: int = if p < i { p } else { p + 1 };
            let q1: int = if q < i { q } else { q + 1 };
            assert(r[p] == s[p1] && r[q] == s[q1]);
        }
        assert forall|j: int| 0 <= j < r.len() implies r[j] != s[i] by {
            let j1: int = if j < i { j } else { j + 1 };
            assert(r[j] == s[j1] && j1 != i);
        }
    }
    assert forall|y: A| r.contains(y) implies #[trigger] s.contains(y) by {
        let k = choose|k: int| 0 <= k < r.len() && r[k] == y;
        let k1: int = if k < i { k } else { k + 1 };
        assert(s[k1] == y);
    }
}

/// `fanout` of one more recipient appends one more delivery.
pub proof fn lemma_fanout_step(
    recipients: Seq<Seq<char>>,
    reply: crate::model::ReplyV,
    k: int,
)
    requires
        0 <= k < recipients.len(),
    ensures
        crate::model::fanout(recipients.take(k + 1), reply) == crate::model::fanout(
            recipients.take(k),
            reply,
        ).push(crate::model::DeliveryV { to: recipients[k], reply: reply }),
{
    assert(crate::model::fanout(recipients.take(k + 1), reply) =~= crate::model::fanout(
        recipients.take(k),
        reply,
    ).push(crate::model::DeliveryV { to: recipients[k], reply: reply }));
}

/// The quit deliveries of one more channel extend the concatenation by
/// that channel's own notices.
pub proof fn lemma_quit_replies_step(
    channels: Seq<crate::model::ChanView>,
    nick: Seq<char>,
    reason: Seq<char>,
    i: int,
)
    requires
        0 <= i < channels.len(),
    ensures
        crate::model::quit_replies(channels.take(i + 1), nick, reason) == crate::model::quit_replies(
            channels.take(i),
            nick,
            reason,
        ) + crate::model::chan_quit_replies(channels[i], nick, reason),
{
    assert(channels.take(i + 1).drop_last() =~= channels.take(i));
    assert(channels.take(i + 1).last() == channels[i]);
}

/// What a join does to the directory, at the level of the model: the
/// invariant is preserved, the users are untouched, the channel then
/// exists, and its member list is the old one, the old one with the
/// sender appended, or the sender alone.
pub proof fn lemma_join_effect(d: DirView, s: Seq<char>, c: Seq<char>)
    requires
        wf(d),
        is_user(d, s),
    ensures
        wf(join_effect(d, s, c)),
        join_effect(d, s, c).users == d.users,
        has_chan(join_effect(d, s, c), c),
        members_of(join_effect(d, s, c), c) == (if is_member(d, c, s) {
            members_of(d, c)
        } else if has_chan(d, c) {
            members_of(d, c).push(s)
        } else {
            seq![s]
        }),
        is_member(join_effect(d, s, c), c, s),
        chan_names(join_effect(d, s, c)) == (if has_chan(d, c) {
            chan_names(d)
        } else {
            chan_names(d).push(c)
        }),
{
    let d1 = join_effect(d, s, c);
    if has_chan(d, c) {
        let i = chan_idx(d, c);
        assert(0 <= i < d.channels.len() && d.channels[i].name == c);
        if d.channels[i].members.contains(s) {
            assert(d1 == d);
            assert(members_of(d, c).contains(s));
        } else {
            let m0 = d.channels[i].members;
            assert(chan_names(d1) =~= chan_names(d));
            crate::directory::lemma_chan_idx_is(d1, i);
            assert(members_of(d1, c) == m0.push(s));
            assert(members_of(d1, c)[m0.len() as int] == s);
            assert(members_of(d1, c).contains(s));
            assert(m0.push(s).no_duplicates()) by {
                assert(forall|j: int| 0 <= j < m0.len() ==> m0[j] != s);
            }
            assert forall|a: int|
                0 <= a < d1.channels.len() implies (#[trigger] d1.channels[a]).members.no_duplicates()
            by {
                if a != i {
                    assert(d1.channels[a] == d.channels[a]);
                }
            }
            assert forall|a: int, b: int|
                0 <= a < d1.channels.len() && 0 <= b < d1.channels[a].members.len()
                    implies d1.users.contains(#[trigger] d1.channels[a].members[b]) by {
                if a == i && b == m0.len() {
                    assert(d1.channels[a].members[b] == s);
                } else {
                    assert(d1.channels[a].members[b] == d.channels[a].members[b]);
                }
            }
            assert(wf(d1));
        }
    } else {
        let n = d.channels.len();
        assert(d1.channels[n as int].name == c);
        assert(chan_names(d1) =~= chan_names(d).push(c));
        assert(chan_names(d1).no_duplicates()) by {
            assert(forall|j: int| 0 <= j < n ==> (#[trigger] d.channels[j]).name != c);
            assert(forall|j: int| 0 <= j < chan_names(d).len() ==> chan_names(d)[j] != c);
        }
        crate::directory::lemma_chan_idx_is(d1, n as int);
        assert(members_of(d1, c) =~= seq![s]);
        assert(members_of(d1, c)[0] == s);
        assert(members_of(d1, c).contains(s));
        assert forall|a: int|
            0 <= a < d1.channels.len() implies (#[trigger] d1.channels[a]).members.no_duplicates()
        by {
            if a != n as int {
                assert(d1.channels[a] == d.channels[a]);
            }
        }
        assert forall|a: int, b: int|
            0 <= a < d1.channels.len() && 0 <= b < d1.channels[a].members.len()
                implies d1.users.contains(#[trigger] d1.channels[a].members[b]) by {
            if a == n as int {
                assert(d1.channels[a].members[b] == s);
            } else {
                assert(d1.channels[a].members[b] == d.channels[a].members[b]);
            }
        }
        assert(wf(d1));
    }
}

/// What a part does to the directory: the invariant is preserved, the
/// users and the channel names are untouched, and the channel's member
/// list loses the sender (for good, the lists being duplicate-free)
/// while every other nick stays.
pub proof fn lemma_part_effect(d: DirView, s: Seq<char>, c: Seq<char>)
    requires
        wf(d),
    ensures
        wf(part_effect(d, s, c)),
        part_effect(d, s, c).users == d.users,
        chan_names(part_effect(d, s, c)) == chan_names(d),
        has_chan(d, c) ==> !is_member(part_effect(d, s, c), c, s),
        has_chan(d, c) ==> forall|x: Seq<char>|
            members_of(d, c).contains(x) && x != s ==> #[trigger] members_of(
                part_effect(d, s, c),
                c,
            ).contains(x),
        !is_member(d, c, s) ==> part_effect(d, s, c) == d,
{
    let d1 = part_effect(d, s, c);
    if is_member(d, c, s) {
        let i = chan_idx(d, c);
        assert(0 <= i < d.channels.len() && d.channels[i].name == c);
        let m0 = d.channels[i].members;
        m0.index_of_first_ensures(s);
        let j = m0.index_of_first(s)->Some_0;
        lemma_remove_keeps_others(m0, j);
        assert(chan_names(d1) =~= chan_names(d));
        crate::directory::lemma_chan_idx_is(d1, i);
        assert(members_of(d1, c) == m0.remove(j));
        assert(!members_of(d1, c).contains(s));
        assert forall|a: int|
            0 <= a < d1.channels.len() implies (#[trigger] d1.channels[a]).members.no_duplicates()
        by {
            if a != i {
                assert(d1.channels[a] == d.channels[a]);
            }
        }
        assert forall|a: int, b: int|
            0 <= a < d1.channels.len() && 0 <= b < d1.channels[a].members.len()
                implies d1.users.contains(#[trigger] d1.channels[a].members[b]) by {
            if a == i {
                let b1: int = if b < j {
                    b
                } else {
                    b + 1
                };
                assert(d1.channels[a].members[b] == d.channels[a].members[b1]);
            } else {
                assert(d1.channels[a].members[b] == d.channels[a].members[b]);
            }
        }
        assert(wf(d1));
    } else {
        assert(d1 == d);
        if has_chan(d, c) {
            assert(!members_of(d1, c).contains(s));
        }
    }
}

/// What a quit does to the directory: the invariant is preserved, the
/// channel names are untouched, the sender is in no member list and no
/// longer registered, so the nick is free for a new registration; all
/// other memberships stay.
pub proof fn lemma_quit_effect(d: DirView, s: Seq<char>)
    requires
        wf(d),
        is_user(d, s),
    ensures
        wf(quit_effect(d, s)),
        !is_user(quit_effect(d, s), s),
        crate::model::register_accepted(quit_effect(d, s), s),
        chan_names(quit_effect(d, s)) == chan_names(d),
        forall|k: int|
            0 <= k < quit_effect(d, s).channels.len() ==> !(#[trigger] quit_effect(
                d,
                s,
            ).channels[k]).members.contains(s),
        forall|k: int, x: Seq<char>|
            0 <= k < d.channels.len() && #[trigger] d.channels[k].members.contains(x) && x != s
                ==> quit_effect(d, s).channels[k].members.contains(x),
{
    let d1 = quit_effect(d, s);
    d.users.index_of_first_ensures(s);
    let j = d.users.index_of_first(s)->Some_0;
    lemma_remove_keeps_others(d.users, j);
    assert(d1.users == d.users.remove(j));
    assert(!d1.users.contains(s));
    assert(chan_names(d1) =~= chan_names(d));
    assert forall|k: int|
        0 <= k < d1.channels.len() implies !(#[trigger] d1.channels[k]).members.contains(s)
            && d1.channels[k].members.no_duplicates() by {
        let m0 = d.channels[k].members;
        m0.index_of_first_ensures(s);
        if m0.contains(s) {
            let t = m0.index_of_first(s)->Some_0;
            lemma_remove_keeps_others(m0, t);
            assert(d1.channels[k].members == m0.remove(t));
        } else {
            assert(d1.channels[k].members == m0);
        }
    }
    assert forall|k: int, x: Seq<char>|
        0 <= k < d.channels.len() && #[trigger] d.channels[k].members.contains(x) && x != s
            implies d1.channels[k].members.contains(x) by {
        let m0 = d.channels[k].members;
        m0.index_of_first_ensures(s);
        if m0.contains(s) {
            let t = m0.index_of_first(s)->Some_0;
            lemma_remove_keeps_others(m0, t);
            assert(d1.channels[k].members == m0.remove(t));
        } else {
            assert(d1.channels[k].members == m0);
        }
    }
    assert forall|a: int, b: int|
        0 <= a < d1.channels.len() && 0 <= b < d1.channels[a].members.len()
            implies d1.users.contains(#[trigger] d1.channels[a].members[b]) by {
        let y = d1.channels[a].members[b];
        assert(d1.channels[a].members.contains(y));
        let m0 = d.channels[a].members;
        m0.index_of_first_ensures(s);
        if m0.contains(s) {
            let t = m0.index_of_first(s)->Some_0;
            lemma_remove_keeps_others(m0, t);
            assert(d1.channels[a].members == m0.remove(t));
            assert(m0.contains(y));
        } else {
            assert(d1.channels[a].members == m0);
            assert(m0.contains(y));
        }
        assert(y != s);
        assert(d.users.contains(y));
        assert(d.users[j] == s);
        assert(d1.users.contains(y));
    }
    assert(wf(d1));
}

} // verus!
