use updater::state::UpdateRequest;
use updater::table::{apply_update, find_user, new_table, run_commands, UserState};

fn req(user: &str, ts: i64, fields: &[(&str, &str)]) -> UpdateRequest {
    UpdateRequest {
        user: user.to_string(),
        timestamp: ts,
        values: fields
            .iter()
            .map(|(n, v)| (n.to_string(), v.to_string()))
            .collect(),
    }
}

#[test]
fn preseeded_table_has_empty_states() {
    let users = vec!["ab".to_string(), "bc".to_string(), "cd".to_string()];
    let table = new_table(&users);
    assert_eq!(table.len(), 3);
    for (i, entry) in table.iter().enumerate() {
        assert_eq!(entry.name, users[i]);
        assert!(entry.values.is_empty());
    }
}

#[test]
fn unknown_user_is_not_found() {
    let table = new_table(&vec!["ab".to_string()]);
    assert!(find_user(&table, &"zz".to_string()).is_none());
    assert_eq!(find_user(&table, &"ab".to_string()), Some(0));
}

#[test]
fn update_creates_a_user_lazily() {
    let mut table: Vec<UserState> = Vec::new();
    apply_update(&mut table, &req("a", 1, &[("x", "1")]));
    assert_eq!(table.len(), 1);
    assert_eq!(table[0].name, "a".to_string());
    assert_eq!(table[0].values.len(), 1);
    assert_eq!(table[0].values[0].value, "1".to_string());
    // A second update for the same user reuses the entry.
    apply_update(&mut table, &req("a", 2, &[("x", "2")]));
    assert_eq!(table.len(), 1);
    assert_eq!(table[0].values[0].value, "2".to_string());
    assert_eq!(table[0].values[0].timestamp, 2);
}

#[test]
fn shard_order_does_not_change_the_converged_table() {
    // The same four commands dealt out differently must converge to the
    // same table contents.
    let commands = || {
        vec![
            req("a", 1, &[("x", "1")]),
            req("b", 2, &[("y", "hi")]),
            req("a", 3, &[("x", "3")]),
            req("a", 2, &[("x", "2")]),
        ]
    };
    let orders: [[usize; 4]; 3] = [[0, 1, 2, 3], [3, 2, 1, 0], [1, 3, 0, 2]];
    for order in orders {
        let all = commands();
        let shard: Vec<UpdateRequest> = order
            .iter()
            .map(|&i| {
                let c = &all[i];
                UpdateRequest {
                    user: c.user.clone(),
                    timestamp: c.timestamp,
                    values: c.values.clone(),
                }
            })
            .collect();
        let mut table: Vec<UserState> = Vec::new();
        run_commands(&mut table, &shard);
        let ia = find_user(&table, &"a".to_string()).unwrap();
        let ib = find_user(&table, &"b".to_string()).unwrap();
        assert_eq!(table[ia].values[0].value, "3".to_string());
        assert_eq!(table[ia].values[0].timestamp, 3);
        assert_eq!(table[ib].values[0].value, "hi".to_string());
    }
}

#[test]
fn users_do_not_disturb_each_other() {
    let mut table: Vec<UserState> = Vec::new();
    apply_update(&mut table, &req("a", 5, &[("x", "a1")]));
    apply_update(&mut table, &req("b", 1, &[("x", "b1")]));
    // A stale write to "a" must leave "b" alone and vice versa.
    apply_update(&mut table, &req("a", 5, &[("x", "a2")]));
    apply_update(&mut table, &req("b", 2, &[("x", "b2")]));
    let ia = find_user(&table, &"a".to_string()).unwrap();
    let ib = find_user(&table, &"b".to_string()).unwrap();
    assert_eq!(table[ia].values[0].value, "a1".to_string());
    assert_eq!(table[ib].values[0].value, "b2".to_string());
}
