//! Every change that the event loop makes to the server state keeps the
//! state well formed.

use crate::casemap::nick_key;
use crate::models::channel::is_channel_name;
use crate::models::channel::lemma_without_contains;
use crate::models::channel::lemma_without_no_duplicates;
use crate::models::channel::without;
use crate::models::ChannelView;
use crate::models::UserView;
use crate::server::ServerView;
use vstd::prelude::*;

verus! {

/// In a table without repeated ids, the record at position `i` is the
/// record of its client.
pub proof fn lemma_user_at(state: ServerView, i: int)
    requires
        state.user_ids().no_duplicates(),
        0 <= i < state.users.len(),
    ensures
        state.user_ids().index_of_first(state.users[i].client_id) == Some(i),
        state.find_user(state.users[i].client_id) == Some(state.users[i]),
        state.user(state.users[i].client_id) == state.users[i],
        state.has_user(state.users[i].client_id),
{
    let ids = state.user_ids();
    let id = state.users[i].client_id;
    assert(ids[i] == id);
    ids.index_of_first_ensures(id);
}

/// A client that is in the table has a position there.
pub proof fn lemma_user_position(state: ServerView, client_id: u64) -> (i: int)
    requires
        state.has_user(client_id),
    ensures
        0 <= i < state.users.len(),
        state.user_ids().index_of_first(client_id) == Some(i),
        state.users[i].client_id == client_id,
        state.user(client_id) == state.users[i],
{
    let ids = state.user_ids();
    ids.index_of_first_ensures(client_id);
    let i = ids.index_of_first(client_id)->0;
    assert(ids[i] == client_id);
    i
}

/// A client has a nickname exactly if its record has one.
pub proof fn lemma_has_nick(state: ServerView, client_id: u64)
    requires
        state.user_ids().no_duplicates(),
    ensures
        state.has_nick(client_id) <==> (state.has_user(client_id) && state.user(
            client_id,
        ).nickname is Some),
{
    if state.has_nick(client_id) {
        let j = choose|j: int|
            0 <= j < state.users.len() && (#[trigger] state.users[j]).client_id == client_id
                && state.users[j].nickname is Some;
        lemma_user_at(state, j);
    }
    if state.has_user(client_id) && state.user(client_id).nickname is Some {
        let i = lemma_user_position(state, client_id);
        assert(state.users[i].client_id == client_id);
    }
}

/// In a well-formed state no channel has a member that is not in the user
/// table.
pub proof fn lemma_members_exist(state: ServerView)
    requires
        state.wf(),
    ensures
        state.members_exist(),
{
    assert forall|i: int, k: int|
        0 <= i < state.channels.len() && 0 <= k
            < state.channels[i].clients.len() implies state.has_user(
        #[trigger] state.channels[i].clients[k],
    ) by {
        let member = state.channels[i].clients[k];
        assert(state.has_nick(member));
        lemma_has_nick(state, member);
    }
}

/// A connecting client leaves the state well formed.
pub proof fn lemma_connected_wf(state: ServerView, client_id: u64, host: Seq<char>)
    requires
        state.wf(),
    ensures
        state.connected(client_id, host).wf(),
{
    let after = state.connected(client_id, host);
    if !(state.has_user(client_id) || host.len() == 0) {
        let n = state.users.len() as int;
        assert forall|i: int| 0 <= i < after.users.len() implies (#[trigger] after.users[i]).wf() by {
            if i < n {
                assert(after.users[i] == state.users[i]);
            }
        }
        assert forall|i: int, j: int|
            0 <= i < after.user_ids().len() && 0 <= j < after.user_ids().len() && i
                != j implies after.user_ids()[i] != after.user_ids()[j] by {
            if i < n {
                assert(state.user_ids()[i] == after.user_ids()[i]);
                assert(state.user_ids().contains(state.user_ids()[i]));
            }
            if j < n {
                assert(state.user_ids()[j] == after.user_ids()[j]);
                assert(state.user_ids().contains(state.user_ids()[j]));
            }
        }
        assert forall|i: int, j: int|
            0 <= i < after.users.len() && 0 <= j < after.users.len() && i != j && (
            #[trigger] after.users[i]).nickname is Some && (#[trigger] after.users[j]).nickname
                is Some implies nick_key(after.config.feat_casemap, after.users[i].nickname->0)
            != nick_key(after.config.feat_casemap, after.users[j].nickname->0) by {
            assert(after.users[i] == state.users[i]);
            assert(after.users[j] == state.users[j]);
        }
        assert forall|i: int, k: int|
            0 <= i < after.channels.len() && 0 <= k
                < after.channels[i].clients.len() implies after.has_nick(
            #[trigger] after.channels[i].clients[k],
        ) by {
            let member = state.channels[i].clients[k];
            assert(state.has_nick(member));
            let j = choose|j: int|
                0 <= j < state.users.len() && (#[trigger] state.users[j]).client_id == member
                    && state.users[j].nickname is Some;
            assert(after.users[j] == state.users[j]);
        }
    }
}

/// A leaving client leaves the state well formed, and only that client
/// leaves the user table.
pub proof fn lemma_without_client_wf(state: ServerView, client_id: u64)
    requires
        state.wf(),
    ensures
        state.without_client(client_id).wf(),
        !state.without_client(client_id).has_user(client_id),
        forall|other: u64|
            other != client_id ==> (state.without_client(client_id).has_user(other)
                <==> state.has_user(other)),
        forall|other: u64|
            other != client_id && state.has_user(other) ==> #[trigger] state.without_client(
                client_id,
            ).user(other) == state.user(other),
{
    let after = state.without_client(client_id);
    let ids = state.user_ids();
    ids.index_of_first_ensures(client_id);
    let at = ids.index_of_first(client_id);
    // how positions in the table after map to positions before
    let back = |j: int|
        match at {
            Some(i) => if j < i {
                j
            } else {
                j + 1
            },
            None => j,
        };
    assert forall|j: int| 0 <= j < after.users.len() implies 0 <= back(j) < state.users.len()
        && #[trigger] after.users[j] == state.users[back(j)] by {}
    assert forall|j: int| 0 <= j < after.users.len() implies (#[trigger] after.users[j]).wf() by {
        assert(after.users[j] == state.users[back(j)]);
    }
    assert forall|i: int, j: int|
        0 <= i < after.user_ids().len() && 0 <= j < after.user_ids().len() && i
            != j implies after.user_ids()[i] != after.user_ids()[j] by {
        assert(after.users[i] == state.users[back(i)]);
        assert(after.users[j] == state.users[back(j)]);
        assert(ids[back(i)] != ids[back(j)]);
    }
    assert forall|i: int, j: int|
        0 <= i < after.users.len() && 0 <= j < after.users.len() && i != j && (
        #[trigger] after.users[i]).nickname is Some && (#[trigger] after.users[j]).nickname
            is Some implies nick_key(after.config.feat_casemap, after.users[i].nickname->0)
        != nick_key(after.config.feat_casemap, after.users[j].nickname->0) by {
        assert(after.users[i] == state.users[back(i)]);
        assert(after.users[j] == state.users[back(j)]);
    }
    // who is in the table afterwards
    assert forall|other: u64| other != client_id && state.has_user(other) implies after.has_user(
        other,
    ) && #[trigger] after.user(other) == state.user(other) by {
        let k = lemma_user_position(state, other);
        let j = match at {
            Some(i) => if k < i {
                k
            } else {
                k - 1
            },
            None => k,
        };
        assert(ids[k] == other);
        assert(back(j) == k);
        assert(after.users[j] == state.users[k]);
        lemma_user_at(after, j);
    }
    assert forall|other: u64| #[trigger] after.has_user(other) implies other != client_id
        && state.has_user(other) by {
        let j = lemma_user_position(after, other);
        assert(after.users[j] == state.users[back(j)]);
        assert(ids[back(j)] == other);
        if other == client_id {
            assert(ids[at->0] == client_id);
        }
    }
    assert forall|other: u64| other != client_id implies (after.has_user(other) <==> state.has_user(
        other,
    )) by {
        if state.has_user(other) {
            assert(after.user(other) == state.user(other));
        }
    }
    // channels
    assert forall|i: int| 0 <= i < after.channels.len() implies (#[trigger] after.channels[i]).wf() by {
        assert(after.channels[i] == state.channels[i].parted(client_id));
        assert(state.channels[i].wf());
        lemma_without_no_duplicates(state.channels[i].clients, client_id);
    }
    assert(after.channel_names() =~= state.channel_names());
    assert forall|i: int, k: int|
        0 <= i < after.channels.len() && 0 <= k < after.channels[i].clients.len() implies after.has_nick(
        #[trigger] after.channels[i].clients[k],
    ) by {
        let member = after.channels[i].clients[k];
        let before = state.channels[i].clients;
        assert(after.channels[i].clients == without(before, client_id));
        assert(without(before, client_id).contains(member));
        lemma_without_contains(before, client_id, member);
        let m = choose|m: int| 0 <= m < before.len() && before[m] == member;
        assert(state.has_nick(state.channels[i].clients[m]));
        lemma_has_nick(state, member);
        lemma_has_nick(after, member);
    }
}

/// Replacing the record of a client leaves the state well formed, if the
/// new record is well formed, keeps the client's id, holds no nickname
/// that collides with another client's, and gives up no nickname.
pub proof fn lemma_with_user_wf(state: ServerView, client_id: u64, user: UserView)
    requires
        state.wf(),
        state.has_user(client_id),
        user.wf(),
        user.client_id == client_id,
        user.nickname matches Some(nickname) ==> !state.nickname_taken(client_id, nickname),
        state.user(client_id).nickname is Some ==> user.nickname is Some,
    ensures
        state.with_user(client_id, user).wf(),
        state.with_user(client_id, user).user_ids() == state.user_ids(),
        state.with_user(client_id, user).user(client_id) == user,
        state.with_user(client_id, user).users.len() == state.users.len(),
        forall|other: u64|
            state.with_user(client_id, user).has_user(other) <==> state.has_user(other),
        forall|other: u64|
            other != client_id && state.has_user(other) ==> #[trigger] state.with_user(
                client_id,
                user,
            ).user(other) == state.user(other),
{
    let after = state.with_user(client_id, user);
    let at = lemma_user_position(state, client_id);
    assert(after.users == state.users.update(at, user));
    assert(after.user_ids() =~= state.user_ids());
    lemma_user_at(after, at);
    assert forall|i: int| 0 <= i < after.users.len() implies (#[trigger] after.users[i]).wf() by {
        if i != at {
            assert(after.users[i] == state.users[i]);
        }
    }
    assert forall|i: int, j: int|
        0 <= i < after.users.len() && 0 <= j < after.users.len() && i != j && (
        #[trigger] after.users[i]).nickname is Some && (#[trigger] after.users[j]).nickname
            is Some implies nick_key(after.config.feat_casemap, after.users[i].nickname->0)
        != nick_key(after.config.feat_casemap, after.users[j].nickname->0) by {
        if i == at {
            assert(after.users[j] == state.users[j]);
            assert(state.user_ids()[j] != state.user_ids()[at]);
            assert(state.users[j].client_id != client_id);
        } else if j == at {
            assert(after.users[i] == state.users[i]);
            assert(state.user_ids()[i] != state.user_ids()[at]);
            assert(state.users[i].client_id != client_id);
        } else {
            assert(after.users[i] == state.users[i]);
            assert(after.users[j] == state.users[j]);
        }
    }
    assert forall|other: u64| other != client_id && state.has_user(other) implies #[trigger] after.user(
        other,
    ) == state.user(other) by {
        let k = lemma_user_position(state, other);
        assert(after.users[k] == state.users[k]);
        lemma_user_at(after, k);
    }
    assert forall|i: int, k: int|
        0 <= i < after.channels.len() && 0 <= k < after.channels[i].clients.len() implies after.has_nick(
        #[trigger] after.channels[i].clients[k],
    ) by {
        let member = state.channels[i].clients[k];
        assert(state.has_nick(member));
        let j = choose|j: int|
            0 <= j < state.users.len() && (#[trigger] state.users[j]).client_id == member
                && state.users[j].nickname is Some;
        if j == at {
            assert(after.users[j] == user);
        } else {
            assert(after.users[j] == state.users[j]);
        }
    }
}

/// A client with a nickname that joins a channel leaves the state well
/// formed, and afterwards the channel exists.
pub proof fn lemma_with_member_wf(state: ServerView, name: Seq<char>, client_id: u64)
    requires
        state.wf(),
        is_channel_name(name),
        state.has_nick(client_id),
    ensures
        state.with_member(name, client_id).wf(),
        state.with_member(name, client_id).users == state.users,
        state.with_member(name, client_id).config == state.config,
        state.with_member(name, client_id).find_channel(name) == Some(
            match state.find_channel(name) {
                Some(channel) => channel.joined(client_id),
                None => ChannelView {
                    name,
                    topic: Seq::<char>::empty(),
                    clients: seq![client_id],
                    modes: Seq::empty(),
                },
            },
        ),
        state.with_member(name, client_id).find_channel(name)->0.name == name,
        state.with_member(name, client_id).find_channel(name)->0.clients.contains(client_id),
{
    let after = state.with_member(name, client_id);
    let names = state.channel_names();
    names.index_of_first_ensures(name);
    match names.index_of_first(name) {
        Some(at) => {
            let joined = state.channels[at].joined(client_id);
            assert(names[at] == name);
            assert(state.channels[at].wf());
            assert(joined.wf() && joined.clients.contains(client_id)) by {
                let before = state.channels[at].clients;
                if !before.contains(client_id) {
                    let list = before.push(client_id);
                    assert(list[before.len() as int] == client_id);
                    assert forall|i: int, j: int|
                        0 <= i < list.len() && 0 <= j < list.len() && i != j implies list[i]
                        != list[j] by {
                        if i == before.len() {
                            assert(before.contains(before[j]));
                        } else if j == before.len() {
                            assert(before.contains(before[i]));
                        }
                    }
                }
            }
            assert(after.channel_names() =~= names);
            after.channel_names().index_of_first_ensures(name);
            crate::server::lemma_first_index(after.channel_names(), name, at);
            assert forall|i: int| 0 <= i < after.channels.len() implies (
            #[trigger] after.channels[i]).wf() by {
                if i != at {
                    assert(after.channels[i] == state.channels[i]);
                }
            }
            assert forall|i: int, k: int|
                0 <= i < after.channels.len() && 0 <= k
                    < after.channels[i].clients.len() implies after.has_nick(
                #[trigger] after.channels[i].clients[k],
            ) by {
                if i != at {
                    assert(after.channels[i] == state.channels[i]);
                    assert(state.has_nick(state.channels[i].clients[k]));
                } else if k < state.channels[at].clients.len() {
                    assert(state.has_nick(state.channels[at].clients[k]));
                }
            }
        },
        None => {
            let n = state.channels.len() as int;
            let fresh = ChannelView {
                name,
                topic: Seq::<char>::empty(),
                clients: seq![client_id],
                modes: Seq::empty(),
            };
            assert(after.channels == state.channels.push(fresh));
            assert(fresh.clients[0] == client_id);
            assert(after.channel_names() =~= names.push(name));
            assert forall|j: int| 0 <= j < n implies after.channel_names()[j] != name by {
                assert(names[j] == after.channel_names()[j]);
                assert(names.contains(names[j]));
            }
            crate::server::lemma_first_index(after.channel_names(), name, n);
            assert forall|i: int| 0 <= i < after.channels.len() implies (
            #[trigger] after.channels[i]).wf() by {
                if i < n {
                    assert(after.channels[i] == state.channels[i]);
                }
            }
            assert forall|i: int, j: int|
                0 <= i < after.channel_names().len() && 0 <= j < after.channel_names().len() && i
                    != j implies after.channel_names()[i] != after.channel_names()[j] by {
                if i < n && j < n {
                    assert(names[i] != names[j]);
                }
            }
            assert forall|i: int, k: int|
                0 <= i < after.channels.len() && 0 <= k
                    < after.channels[i].clients.len() implies after.has_nick(
                #[trigger] after.channels[i].clients[k],
            ) by {
                if i < n {
                    assert(after.channels[i] == state.channels[i]);
                    assert(state.has_nick(state.channels[i].clients[k]));
                }
            }
        },
    }
}

} // verus!
