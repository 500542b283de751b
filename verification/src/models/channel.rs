//! Channels, their members, and the entries of a JOIN command.

use itertools::EitherOrBoth;
use itertools::Itertools;
use vstd::prelude::*;
use vstd::string::*;

verus! {

#[derive(Debug, Clone, PartialEq, Eq)]
pub enum ChannelMode {
    Op { nickname: String },
    HalfOp { nickname: String },
}

pub enum ChannelModeView {
    Op { nickname: Seq<char> },
    HalfOp { nickname: Seq<char> },
}

impl View for ChannelMode {
    type V = ChannelModeView;

    open spec fn view(&self) -> ChannelModeView {
        match self {
            ChannelMode::Op { nickname } => ChannelModeView::Op { nickname: nickname@ },
            ChannelMode::HalfOp { nickname } => ChannelModeView::HalfOp { nickname: nickname@ },
        }
    }
}

/// A channel name starts with `#` or `&`.
pub open spec fn is_channel_name(name: Seq<char>) -> bool {
    name.len() > 0 && (name[0] == '#' || name[0] == '&')
}

/// Whether `name` can name a channel.
pub fn check_channel_name(name: &str) -> (r: bool)
    ensures
        r == is_channel_name(name@),
{
    crate::text::starts_with_char(name, '#') || crate::text::starts_with_char(name, '&')
}

#[derive(Debug, Clone, PartialEq, Eq)]
pub struct Channel {
    name: String,
    topic: String,
    clients: Vec<u64>,
    modes: Vec<ChannelMode>,
}

pub struct ChannelView {
    pub name: Seq<char>,
    pub topic: Seq<char>,
    /// The members, in the order in which they joined.
    pub clients: Seq<u64>,
    pub modes: Seq<ChannelModeView>,
}

impl ChannelView {
    /// The name is a channel name and no client is a member twice.
    pub open spec fn wf(self) -> bool {
        &&& is_channel_name(self.name)
        &&& self.clients.no_duplicates()
    }

    /// The channel after `client_id` has joined: appended, unless it is a
    /// member already.
    pub open spec fn joined(self, client_id: u64) -> ChannelView {
        if self.clients.contains(client_id) {
            self
        } else {
            ChannelView { clients: self.clients.push(client_id), ..self }
        }
    }

    /// The channel after `client_id` has left.
    pub open spec fn parted(self, client_id: u64) -> ChannelView {
        ChannelView { clients: without(self.clients, client_id), ..self }
    }
}

impl View for Channel {
    type V = ChannelView;

    closed spec fn view(&self) -> ChannelView {
        ChannelView {
            name: self.name@,
            topic: self.topic@,
            clients: self.clients@,
            modes: self.modes@.map_values(|mode: ChannelMode| mode@),
        }
    }
}

impl Channel {
    pub fn new(name: String) -> (channel: Self)
        requires
            is_channel_name(name@),
        ensures
            channel@ == (ChannelView {
                name: name@,
                topic: Seq::<char>::empty(),
                clients: Seq::<u64>::empty(),
                modes: Seq::<ChannelModeView>::empty(),
            }),
            channel@.wf(),
    {
        let channel = Self { name, topic: String::new(), clients: Vec::new(), modes: Vec::new() };
        assert(channel@.modes =~= Seq::<ChannelModeView>::empty());
        channel
    }

    pub fn name(&self) -> (name: &str)
        ensures
            name@ == self@.name,
    {
        self.name.as_str()
    }

    pub fn topic(&self) -> (topic: &str)
        ensures
            topic@ == self@.topic,
    {
        self.topic.as_str()
    }

    pub fn clients(&self) -> (clients: &[u64])
        ensures
            clients@ == self@.clients,
    {
        self.clients.as_slice()
    }

    /// Whether `client_id` is a member.
    pub fn has_client(&self, client_id: u64) -> (r: bool)
        ensures
            r == self@.clients.contains(client_id),
    {
        let mut i: usize = 0;
        while i < self.clients.len()
            invariant
                i <= self.clients.len(),
                forall|k: int| 0 <= k < i ==> self.clients@[k] != client_id,
            decreases self.clients.len() - i,
        {
            if self.clients[i] == client_id {
                return true;
            }
            i = i + 1;
        }
        false
    }

    /// Adds `client_id` behind the members that are there, unless it is a
    /// member already.
    pub fn join_user(&mut self, client_id: u64)
        requires
            old(self)@.wf(),
        ensures
            final(self)@ == old(self)@.joined(client_id),
            final(self)@.wf(),
    {
        if !self.has_client(client_id) {
            self.clients.push(client_id);
            proof {
                let before = old(self)@.clients;
                let after = self@.clients;
                assert forall|i: int, j: int|
                    0 <= i < after.len() && 0 <= j < after.len() && i != j implies after[i]
                    != after[j] by {
                    if i == before.len() {
                        assert(before.contains(before[j]));
                    } else if j == before.len() {
                        assert(before.contains(before[i]));
                    }
                }
            }
        }
    }

    /// Removes `client_id` from the members and keeps the order of the rest.
    pub fn remove_user(&mut self, client_id: u64)
        requires
            old(self)@.wf(),
        ensures
            final(self)@ == old(self)@.parted(client_id),
            final(self)@.wf(),
    {
        let mut kept: Vec<u64> = Vec::new();
        let mut i: usize = 0;
        proof {
            reveal(Seq::filter);
            assert(without(self.clients@.take(0), client_id) =~= Seq::<u64>::empty());
        }
        while i < self.clients.len()
            invariant
                i <= self.clients.len(),
                kept@ == without(self.clients@.take(i as int), client_id),
            decreases self.clients.len() - i,
        {
            proof {
                let next = self.clients@.take(i as int + 1);
                assert(next.drop_last() =~= self.clients@.take(i as int));
                lemma_without_step(next, client_id);
            }
            if self.clients[i] != client_id {
                kept.push(self.clients[i]);
            }
            i = i + 1;
        }
        proof {
            assert(self.clients@.take(i as int) =~= self.clients@);
            lemma_without_no_duplicates(self.clients@, client_id);
        }
        self.clients = kept;
    }
}

/// The members other than `client_id`, in order.
pub open spec fn without(clients: Seq<u64>, client_id: u64) -> Seq<u64> {
    clients.filter(|c: u64| c != client_id)
}

/// How `without` treats the last member.
pub proof fn lemma_without_step(clients: Seq<u64>, client_id: u64)
    requires
        clients.len() > 0,
    ensures
        without(clients, client_id) == if clients.last() != client_id {
            without(clients.drop_last(), client_id).push(clients.last())
        } else {
            without(clients.drop_last(), client_id)
        },
{
    reveal(Seq::filter);
}

/// A member of a list with one more item is that item or a member of the
/// list before.
pub proof fn lemma_push_contains<A>(s: Seq<A>, x: A, c: A)
    ensures
        s.push(x).contains(c) <==> (s.contains(c) || c == x),
{
    if s.contains(c) {
        let k = choose|k: int| 0 <= k < s.len() && s[k] == c;
        assert(s.push(x)[k] == c);
    }
    if c == x {
        assert(s.push(x)[s.len() as int] == c);
    }
    if s.push(x).contains(c) {
        let k = choose|k: int| 0 <= k < s.push(x).len() && s.push(x)[k] == c;
        if k < s.len() {
            assert(s[k] == c);
        }
    }
}

/// Removing one client leaves exactly the other members.
pub proof fn lemma_without_contains(clients: Seq<u64>, client_id: u64, c: u64)
    ensures
        without(clients, client_id).contains(c) <==> (c != client_id && clients.contains(c)),
    decreases clients.len(),
{
    if clients.len() == 0 {
        reveal(Seq::filter);
        assert(without(clients, client_id) =~= Seq::<u64>::empty());
    } else {
        let init = clients.drop_last();
        lemma_without_step(clients, client_id);
        lemma_without_contains(init, client_id, c);
        assert(clients =~= init.push(clients.last()));
        lemma_push_contains(init, clients.last(), c);
        lemma_push_contains(without(init, client_id), clients.last(), c);
    }
}

/// Removing one client from a list without repetitions leaves a list
/// without repetitions.
pub proof fn lemma_without_no_duplicates(clients: Seq<u64>, client_id: u64)
    requires
        clients.no_duplicates(),
    ensures
        without(clients, client_id).no_duplicates(),
    decreases clients.len(),
{
    if clients.len() == 0 {
        reveal(Seq::filter);
        assert(without(clients, client_id) =~= Seq::<u64>::empty());
    } else {
        let init = clients.drop_last();
        let last = clients.last();
        lemma_without_step(clients, client_id);
        lemma_without_no_duplicates(init, client_id);
        if last != client_id {
            let sub = without(init, client_id);
            lemma_without_contains(init, client_id, last);
            assert(!init.contains(last)) by {
                if init.contains(last) {
                    let k = choose|k: int| 0 <= k < init.len() && init[k] == last;
                    assert(clients[k] == clients[clients.len() - 1]);
                }
            }
            let all = sub.push(last);
            assert forall|i: int, j: int|
                0 <= i < all.len() && 0 <= j < all.len() && i != j implies all[i] != all[j] by {
                if i == sub.len() {
                    assert(sub.contains(sub[j]));
                } else if j == sub.len() {
                    assert(sub.contains(sub[i]));
                }
            }
        }
    }
}

/// One entry of a JOIN command: a channel name and, where given, its key.
#[derive(Debug, Clone, PartialEq, Eq)]
pub struct ChannelRef {
    pub name: String,
    pub key: Option<String>,
}

pub struct ChannelRefView {
    pub name: Seq<char>,
    pub key: Option<Seq<char>>,
}

impl View for ChannelRef {
    type V = ChannelRefView;

    open spec fn view(&self) -> ChannelRefView {
        ChannelRefView { name: self.name@, key: self.key.deep_view() }
    }
}

impl DeepView for ChannelRef {
    type V = ChannelRefView;

    open spec fn deep_view(&self) -> ChannelRefView {
        self@
    }
}

/// Two lists paired position by position, as far as the longer one goes.
pub open spec fn zip_longest_spec(left: Seq<Seq<char>>, right: Seq<Seq<char>>) -> Seq<
    (Option<Seq<char>>, Option<Seq<char>>),
> {
    Seq::new(
        if left.len() >= right.len() {
            left.len()
        } else {
            right.len()
        },
        |i: int|
            (
                if i < left.len() {
                    Some(left[i])
                } else {
                    None
                },
                if i < right.len() {
                    Some(right[i])
                } else {
                    None
                },
            ),
    )
}

/// Pairs two lists with `itertools::Itertools::zip_longest` and turns each
/// `EitherOrBoth` into a pair of options. The contract restates the method's
/// documentation: both items while both lists last, then the items of the
/// longer list alone.
#[verifier::external_body]
pub(crate) fn zip_longest(left: &Vec<String>, right: &Vec<String>) -> (pairs: Vec<
    (Option<String>, Option<String>),
>)
    ensures
        pairs.deep_view() == zip_longest_spec(left.deep_view(), right.deep_view()),
{
    left.iter().zip_longest(right.iter()).map(
        |pair|
            match pair {
                EitherOrBoth::Both(a, b) => (Some(a.clone()), Some(b.clone())),
                EitherOrBoth::Left(a) => (Some(a.clone()), None),
                EitherOrBoth::Right(b) => (None, Some(b.clone())),
            },
    ).collect()
}

impl ChannelRef {
    /// The entry that a pair of the zipped lists stands for: none where a
    /// key came without a channel name.
    pub open spec fn from_pair_spec(pair: (Option<Seq<char>>, Option<Seq<char>>)) -> Option<
        ChannelRefView,
    > {
        match pair.0 {
            Some(name) => Some(ChannelRefView { name, key: pair.1 }),
            None => None,
        }
    }

    /// The entry for a channel name and, where there is one, its key; none
    /// for a key that came without a channel name.
    pub fn from_pair(name: Option<&str>, key: Option<&str>) -> (r: Option<ChannelRef>)
        ensures
            r.deep_view() == Self::from_pair_spec((name.deep_view(), key.deep_view())),
    {
        match name {
            Some(name) => Some(
                ChannelRef {
                    name: name.to_owned(),
                    key: match key {
                        Some(key) => Some(key.to_owned()),
                        None => None,
                    },
                },
            ),
            None => None,
        }
    }
}

} // verus!
