use updater::state::{
    check_if_req_is_old, has_unique_fields, snapshot, update, update_user_state, UpdateRequest,
    ValueAndTimestamp,
};

fn req(user: &str, ts: i64, fields: &[(&str, &str)]) -> UpdateRequest {
    UpdateRequest {
        user: user.to_string(),
        timestamp: ts,
        values: fields
            .iter()
            .map(|(n, v)| (n.to_string(), v.to_string()))
            .collect(),
    }
}

fn field_of(state: &Vec<ValueAndTimestamp>, name: &str) -> Option<(String, i64)> {
    state
        .iter()
        .find(|f| f.name == name)
        .map(|f| (f.value.clone(), f.timestamp))
}

#[test]
fn strictly_newer_write_is_accepted() {
    let mut state: Vec<ValueAndTimestamp> = Vec::new();
    update_user_state(&req("a", 1, &[("x", "1")]), &mut state);
    update_user_state(&req("a", 2, &[("x", "2")]), &mut state);
    assert_eq!(field_of(&state, "x"), Some(("2".to_string(), 2)));
}

#[test]
fn equal_timestamp_write_is_rejected() {
    let mut state: Vec<ValueAndTimestamp> = Vec::new();
    update_user_state(&req("a", 5, &[("x", "first")]), &mut state);
    update_user_state(&req("a", 5, &[("x", "second")]), &mut state);
    assert_eq!(field_of(&state, "x"), Some(("first".to_string(), 5)));
}

#[test]
fn older_write_is_rejected() {
    let mut state: Vec<ValueAndTimestamp> = Vec::new();
    update_user_state(&req("a", 5, &[("x", "new")]), &mut state);
    update_user_state(&req("a", 3, &[("x", "old")]), &mut state);
    assert_eq!(field_of(&state, "x"), Some(("new".to_string(), 5)));
}

#[test]
fn applying_a_command_twice_equals_once() {
    let command = req("a", 7, &[("x", "1"), ("y", "2")]);
    let mut once: Vec<ValueAndTimestamp> = Vec::new();
    update(&req("a", 3, &[("x", "0")]), &mut once);
    update(&command, &mut once);
    let mut twice: Vec<ValueAndTimestamp> = Vec::new();
    update(&req("a", 3, &[("x", "0")]), &mut twice);
    update(&command, &mut twice);
    update(&command, &mut twice);
    assert_eq!(once.len(), twice.len());
    for f in &once {
        assert_eq!(
            field_of(&twice, &f.name),
            Some((f.value.clone(), f.timestamp))
        );
    }
}

#[test]
fn converged_state_is_order_independent() {
    // Three commands for one user, with distinct timestamps; whatever
    // the application order, field x must converge to the ts = 3 value.
    let commands = [
        req("a", 1, &[("x", "1")]),
        req("a", 3, &[("x", "3")]),
        req("a", 2, &[("x", "2")]),
    ];
    let orders: [[usize; 3]; 6] = [
        [0, 1, 2],
        [0, 2, 1],
        [1, 0, 2],
        [1, 2, 0],
        [2, 0, 1],
        [2, 1, 0],
    ];
    for order in orders {
        let mut state: Vec<ValueAndTimestamp> = Vec::new();
        for i in order {
            update(&commands[i], &mut state);
        }
        assert_eq!(field_of(&state, "x"), Some(("3".to_string(), 3)));
        assert_eq!(state.len(), 1);
    }
}

#[test]
fn staleness_check_spots_a_no_op() {
    let mut state: Vec<ValueAndTimestamp> = Vec::new();
    update_user_state(&req("a", 5, &[("x", "1"), ("y", "2")]), &mut state);
    // Every field equal-or-older: guaranteed no-op.
    assert!(check_if_req_is_old(
        &req("a", 5, &[("x", "9"), ("y", "9")]),
        snapshot(&state)
    ));
    assert!(check_if_req_is_old(
        &req("a", 4, &[("x", "9")]),
        snapshot(&state)
    ));
    // A newer field, or an absent one, means work to do.
    assert!(!check_if_req_is_old(
        &req("a", 6, &[("x", "9")]),
        snapshot(&state)
    ));
    assert!(!check_if_req_is_old(
        &req("a", 5, &[("z", "9")]),
        snapshot(&state)
    ));
}

#[test]
fn snapshot_copies_the_state() {
    let mut state: Vec<ValueAndTimestamp> = Vec::new();
    update_user_state(&req("a", 5, &[("x", "1")]), &mut state);
    let copy = snapshot(&state);
    assert_eq!(copy.len(), 1);
    assert_eq!(copy[0].name, "x".to_string());
    assert_eq!(copy[0].value, "1".to_string());
    assert_eq!(copy[0].timestamp, 5);
}

#[test]
fn field_values_drop_the_timestamps() {
    let mut state: Vec<ValueAndTimestamp> = Vec::new();
    update_user_state(&req("a", 5, &[("x", "1"), ("y", "2")]), &mut state);
    let fields = updater::state::field_values(&state);
    assert_eq!(
        fields,
        vec![
            ("x".to_string(), "1".to_string()),
            ("y".to_string(), "2".to_string())
        ]
    );
}

#[test]
fn duplicate_field_names_are_detected() {
    assert!(has_unique_fields(&req("a", 1, &[("x", "1"), ("y", "2")])));
    assert!(!has_unique_fields(&req("a", 1, &[("x", "1"), ("x", "2")])));
    assert!(has_unique_fields(&req("a", 1, &[])));
}
