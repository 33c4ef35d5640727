//! The executable directory pair: registered users and channel
//! membership. Workers share one value of `Directory` behind mutual
//! exclusion that lives outside the library; every mutation is one of
//! the verified operations, so the invariant `wf` holds between any
//! two of them.

use vstd::prelude::*;

use crate::model::{
    chan_idx, chan_names, has_chan, is_user, register_accepted, register_effect, wf, ChanView,
    DirView,
};

verus! {

/// One channel: its name and its member list in join order.
#[derive(Clone, Debug)]
pub struct ChannelEntry {
    pub name: String,
    pub members: Vec<String>,
}

impl View for ChannelEntry {
    type V = ChanView;

    open spec fn view(&self) -> ChanView {
        ChanView { name: self.name@, members: self.members.deep_view() }
    }
}

impl DeepView for ChannelEntry {
    type V = ChanView;

    open spec fn deep_view(&self) -> ChanView {
        self.view()
    }
}

/// The two registries of the server core.
#[derive(Debug)]
pub struct Directory {
    pub users: Vec<String>,
    pub channels: Vec<ChannelEntry>,
}

impl View for Directory {
    type V = DirView;

    open spec fn view(&self) -> DirView {
        DirView { users: self.users.deep_view(), channels: self.channels.deep_view() }
    }
}

/// In a directory with distinct channel names, the index of a channel
/// entry is the one `chan_idx` picks for its name.
pub proof fn lemma_chan_idx_is(d: DirView, i: int)
    requires
        chan_names(d).no_duplicates(),
        0 <= i < d.channels.len(),
    ensures
        has_chan(d, d.channels[i].name),
        chan_idx(d, d.channels[i].name) == i,
{
    assert(has_chan(d, d.channels[i].name));
    let j = chan_idx(d, d.channels[i].name);
    assert(0 <= j < d.channels.len() && d.channels[j].name == d.channels[i].name);
    if i != j {
        assert(chan_names(d)[i] == chan_names(d)[j]);
        assert(false);
    }
}

/// The first position of `nick` in `list`, or `None` when absent.
pub(crate) fn nick_index(list: &Vec<String>, nick: &String) -> (r: Option<usize>)
    ensures
        match r {
            Some(i) => {
                &&& i < list@.len()
                &&& list.deep_view()[i as int] == nick@
                &&& list.deep_view().contains(nick@)
                &&& forall|j: int| 0 <= j < i ==> list.deep_view()[j] != nick@
            },
            None => !list.deep_view().contains(nick@),
        },
{
    let n = list.len();
    for i in 0..n
        invariant
            n == list@.len(),
            forall|j: int| 0 <= j < i ==> list.deep_view()[j] != nick@,
    {
        if list[i] == *nick {
            proof {
                assert(list.deep_view()[i as int] == nick@);
                assert(list.deep_view().contains(nick@));
                assert(forall|j: int| 0 <= j < i ==> list.deep_view()[j] != nick@);
            }
            return Some(i);
        }
    }
    None
}

impl Directory {
    /// A directory with no registered user and no channel.
    pub fn new() -> (d: Directory)
        ensures
            d@.users == Seq::<Seq<char>>::empty(),
            d@.channels == Seq::<ChanView>::empty(),
            wf(d@),
    {
        let d = Directory { users: Vec::new(), channels: Vec::new() };
        proof {
            assert(d@.users =~= Seq::<Seq<char>>::empty());
            assert(d@.channels =~= Seq::<ChanView>::empty());
            assert(chan_names(d@) =~= Seq::<Seq<char>>::empty());
        }
        d
    }

    /// True when `nick` has completed registration and not yet quit.
    pub fn is_registered(&self, nick: &String) -> (r: bool)
        ensures
            r == is_user(self@, nick@),
    {
        let found = nick_index(&self.users, nick);
        found.is_some()
    }

    /// The position of the channel named `name`, or `None` when no
    /// such channel exists.
    pub(crate) fn channel_index(&self, name: &String) -> (r: Option<usize>)
        ensures
            match r {
                Some(i) => i < self.channels@.len() && self@.channels[i as int].name == name@
                    && has_chan(self@, name@),
                None => !has_chan(self@, name@),
            },
    {
        let n = self.channels.len();
        for i in 0..n
            invariant
                n == self.channels@.len(),
                forall|j: int| 0 <= j < i ==> self@.channels[j].name != name@,
        {
            if self.channels[i].name == *name {
                return Some(i);
            }
        }
        None
    }

    /// Registration at the directory itself: the single source of
    /// truth for nick uniqueness. Inserts `nick` and reports success,
    /// or reports a collision and changes nothing.
    pub fn register_nick(&mut self, nick: &String) -> (r: bool)
        requires
            wf(old(self)@),
        ensures
            r == register_accepted(old(self)@, nick@),
            final(self)@ == register_effect(old(self)@, nick@),
            wf(final(self)@),
            r ==> is_user(final(self)@, nick@),
    {
        let found = nick_index(&self.users, nick);
        if found.is_some() {
            proof {
                assert(self@ =~= register_effect(old(self)@, nick@));
            }
            false
        } else {
            self.users.push(nick.clone());
            proof {
                let d0 = old(self)@;
                let d1 = self@;
                assert(d1.users =~= d0.users.push(nick@));
                assert(d1.channels =~= d0.channels);
                assert(d1 =~= register_effect(d0, nick@));
                assert(chan_names(d1) =~= chan_names(d0));
                assert(d1.users[d0.users.len() as int] == nick@);
                assert(d1.users.contains(nick@));
                assert(d1.users.no_duplicates()) by {
                    assert(forall|j: int| 0 <= j < d0.users.len() ==> d0.users[j] != nick@);
                }
                assert forall|i: int, j: int|
                    0 <= i < d1.channels.len() && 0 <= j < d1.channels[i].members.len()
                        implies d1.users.contains(#[trigger] d1.channels[i].members[j]) by {
                    let m = d1.channels[i].members[j];
                    assert(d0.users.contains(m));
                    let k = choose|k: int| 0 <= k < d0.users.len() && d0.users[k] == m;
                    assert(d1.users[k] == m);
                }
            }
            true
        }
    }
}

} // verus!
