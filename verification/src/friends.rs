//! The symmetric friend graph: an edge list over unordered user pairs.

use vstd::prelude::*;

verus! {

/// A request to connect two users.
#[derive(Clone, Debug)]
pub struct MakeFriendsRequest {
    pub user1: String,
    pub user2: String,
}

/// A request to disconnect two users.
#[derive(Debug)]
pub struct DelFriendsRequest {
    pub user1: String,
    pub user2: String,
}

/// The unordered pair (a, b) is present in the edge list, in either
/// orientation.
pub open spec fn edge_in(fs: Seq<(String, String)>, a: Seq<char>, b: Seq<char>) -> bool {
    exists|i: int|
        0 <= i < fs.len() && ((fs[i].0@ == a && fs[i].1@ == b) || (fs[i].0@ == b && fs[i].1@
            == a))
}

/// The edge list after a make-friends command: unchanged when the
/// unordered pair is already present, otherwise the pair is appended.
pub open spec fn add_edge(fs: Seq<(String, String)>, e: (String, String)) -> Seq<
    (String, String),
> {
    if edge_in(fs, e.0@, e.1@) {
        fs
    } else {
        fs.push(e)
    }
}

/// An edge survives deleting the unordered pair (a, b).
pub open spec fn keeps_edge(e: (String, String), a: Seq<char>, b: Seq<char>) -> bool {
    (e.0@ != a || e.1@ != b) && (e.0@ != b || e.1@ != a)
}

/// The edge list after a delete-friends command: every edge that is the
/// unordered pair (a, b) is removed, the rest keep their order.
pub open spec fn remove_edge(fs: Seq<(String, String)>, a: Seq<char>, b: Seq<char>) -> Seq<
    (String, String),
>
    decreases fs.len(),
{
    if fs.len() == 0 {
        Seq::empty()
    } else {
        let rest = remove_edge(fs.drop_last(), a, b);
        if keeps_edge(fs.last(), a, b) {
            rest.push(fs.last())
        } else {
            rest
        }
    }
}

/// The recipients of a broadcast from `u`: for each stored edge in
/// order, the other end whenever `u` is one end (both ends for a
/// self-edge).
pub open spec fn friend_list(fs: Seq<(String, String)>, u: Seq<char>) -> Seq<Seq<char>>
    decreases fs.len(),
{
    if fs.len() == 0 {
        Seq::empty()
    } else {
        let rest = friend_list(fs.drop_last(), u);
        let rest2 = if fs.last().0@ == u {
            rest.push(fs.last().1@)
        } else {
            rest
        };
        if fs.last().1@ == u {
            rest2.push(fs.last().0@)
        } else {
            rest2
        }
    }
}

/// True iff the two users are friends (the unordered pair is stored, in
/// either orientation).
pub fn has_edge(friends: &Vec<(String, String)>, a: &String, b: &String) -> (r: bool)
    ensures
        r == edge_in(friends@, a@, b@),
{
    let mut i: usize = 0;
    while i < friends.len()
        invariant
            i <= friends.len(),
            forall|j: int|
                0 <= j < i ==> !((friends@[j].0@ == a@ && friends@[j].1@ == b@) || (
                friends@[j].0@ == b@ && friends@[j].1@ == a@)),
        decreases friends.len() - i,
    {
        if (friends[i].0 == *a && friends[i].1 == *b) || (friends[i].0 == *b && friends[i].1
            == *a) {
            return true;
        }
        i = i + 1;
    }
    false
}

/// Make two users friends; a no-op when they already are, in either
/// orientation.
pub fn make_friends(make_friends_req: MakeFriendsRequest, friends: &mut Vec<(String, String)>)
    ensures
        final(friends)@ == add_edge(
            old(friends)@,
            (make_friends_req.user1, make_friends_req.user2),
        ),
{
    let user1 = make_friends_req.user1.clone();
    let user2 = make_friends_req.user2.clone();
    if has_edge(friends, &user1, &user2) {
        return;
    }
    friends.push((user1, user2));
}

/// Remove the friendship between two users, whichever orientation it is
/// stored in; a no-op when they are not friends.
pub fn del_friends(del_friends_req: DelFriendsRequest, friends: &mut Vec<(String, String)>)
    ensures
        final(friends)@ == remove_edge(
            old(friends)@,
            del_friends_req.user1@,
            del_friends_req.user2@,
        ),
{
    let ghost a = del_friends_req.user1@;
    let ghost b = del_friends_req.user2@;
    let mut kept: Vec<(String, String)> = Vec::new();
    let mut i: usize = 0;
    while i < friends.len()
        invariant
            i <= friends.len(),
            a == del_friends_req.user1@,
            b == del_friends_req.user2@,
            kept@ == remove_edge(friends@.take(i as int), a, b),
        decreases friends.len() - i,
    {
        proof {
            assert(friends@.take(i as int + 1).drop_last() =~= friends@.take(i as int));
            assert(friends@.take(i as int + 1).last() == friends@[i as int]);
        }
        let keep = (friends[i].0 != del_friends_req.user1 || friends[i].1
            != del_friends_req.user2) && (friends[i].0 != del_friends_req.user2 || friends[i].1
            != del_friends_req.user1);
        if keep {
            kept.push((friends[i].0.clone(), friends[i].1.clone()));
            proof {
                assert(kept@.last() == friends@[i as int]);
            }
        }
        i = i + 1;
    }
    proof {
        assert(friends@.take(friends@.len() as int) =~= friends@);
    }
    *friends = kept;
}

/// Collect the broadcast recipients for `user` from the edge list.
pub fn friends_of(friends: &Vec<(String, String)>, user: &String) -> (r: Vec<String>)
    ensures
        r.deep_view() == friend_list(friends@, user@),
{
    let mut r: Vec<String> = Vec::new();
    let mut i: usize = 0;
    while i < friends.len()
        invariant
            i <= friends.len(),
            r.deep_view() == friend_list(friends@.take(i as int), user@),
        decreases friends.len() - i,
    {
        proof {
            assert(friends@.take(i as int + 1).drop_last() =~= friends@.take(i as int));
            assert(friends@.take(i as int + 1).last() == friends@[i as int]);
        }
        if friends[i].0 == *user {
            let ghost before = r.deep_view();
            r.push(friends[i].1.clone());
            proof {
                assert(r.deep_view() =~= before.push(friends@[i as int].1@));
            }
        }
        if friends[i].1 == *user {
            let ghost before = r.deep_view();
            r.push(friends[i].0.clone());
            proof {
                assert(r.deep_view() =~= before.push(friends@[i as int].0@));
            }
        }
        i = i + 1;
    }
    proof {
        assert(friends@.take(friends@.len() as int) =~= friends@);
    }
    r
}

/// Friendship is symmetric, and making friends is idempotent: adding an
/// already-present unordered pair changes nothing, a fresh pair adds
/// exactly one edge.
pub proof fn lemma_friend_symmetry(fs: Seq<(String, String)>, e: (String, String))
    ensures
        edge_in(add_edge(fs, e), e.0@, e.1@),
        edge_in(add_edge(fs, e), e.1@, e.0@),
        add_edge(add_edge(fs, e), e) == add_edge(fs, e),
        !edge_in(fs, e.0@, e.1@) ==> add_edge(fs, e).len() == fs.len() + 1,
        edge_in(fs, e.0@, e.1@) ==> add_edge(fs, e) == fs,
{
    if !edge_in(fs, e.0@, e.1@) {
        assert(add_edge(fs, e)[fs.len() as int] == e);
    }
}

} // verus!
