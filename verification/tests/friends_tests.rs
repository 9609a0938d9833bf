use updater::friends::{
    del_friends, has_edge, make_friends, DelFriendsRequest, MakeFriendsRequest,
};

#[test]
fn cant_make_duplicate_friends() {
    let friend_req = MakeFriendsRequest {
        user1: "a".to_string(),
        user2: "b".to_string(),
    };
    let friends: &mut Vec<(String, String)> = &mut Vec::new();
    make_friends(friend_req.clone(), friends);
    make_friends(friend_req.clone(), friends);
    assert!(friends.len() == 1)
}

#[test]
fn removing_friends_from_empty_list_is_okay() {
    let friends: &mut Vec<(String, String)> = &mut Vec::new();
    let del_req = DelFriendsRequest {
        user1: "a".to_string(),
        user2: "b".to_string(),
    };
    del_friends(del_req, friends);
    assert!(friends.len() == 0)
}

#[test]
fn friendship_is_symmetric() {
    let friends: &mut Vec<(String, String)> = &mut Vec::new();
    make_friends(
        MakeFriendsRequest {
            user1: "a".to_string(),
            user2: "b".to_string(),
        },
        friends,
    );
    assert!(has_edge(friends, &"b".to_string(), &"a".to_string()));
    assert!(has_edge(friends, &"a".to_string(), &"b".to_string()));
}

#[test]
fn reversed_pair_is_a_duplicate() {
    let friends: &mut Vec<(String, String)> = &mut Vec::new();
    make_friends(
        MakeFriendsRequest {
            user1: "a".to_string(),
            user2: "b".to_string(),
        },
        friends,
    );
    make_friends(
        MakeFriendsRequest {
            user1: "b".to_string(),
            user2: "a".to_string(),
        },
        friends,
    );
    assert_eq!(friends.len(), 1);
}

#[test]
fn del_friends_removes_either_orientation() {
    let friends: &mut Vec<(String, String)> = &mut Vec::new();
    make_friends(
        MakeFriendsRequest {
            user1: "a".to_string(),
            user2: "b".to_string(),
        },
        friends,
    );
    make_friends(
        MakeFriendsRequest {
            user1: "a".to_string(),
            user2: "c".to_string(),
        },
        friends,
    );
    del_friends(
        DelFriendsRequest {
            user1: "b".to_string(),
            user2: "a".to_string(),
        },
        friends,
    );
    assert_eq!(friends.len(), 1);
    assert_eq!(friends[0].0, "a".to_string());
    assert_eq!(friends[0].1, "c".to_string());
    assert!(!has_edge(friends, &"a".to_string(), &"b".to_string()));
}
