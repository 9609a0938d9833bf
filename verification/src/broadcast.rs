//! Sequential-mode update: merge a command and emit a broadcast record
//! to the acting user's friends when something actually changed.

use vstd::prelude::*;

use crate::friends::{friend_list, friends_of};
use crate::state::{
    accepted_fields, fields_map, find_field, merged, state_map, wf_state, lemma_fields_map_dom,
    lemma_fields_map_take_step, lemma_merged_insert, lemma_state_map_absent,
    lemma_state_map_index, lemma_state_map_push, lemma_state_map_update, UpdateRequest,
    ValueAndTimestamp,
};

verus! {

/// One broadcast record: the fields an accepted update actually changed,
/// addressed to the acting user's current friends.
#[derive(Debug)]
pub struct Broadcast {
    pub broadcast: Vec<String>,
    pub user: String,
    pub timestamp: i64,
    pub values: Vec<(String, String)>,
}

/// Merge one command into the user's field collection and report the
/// broadcast: `None` when no field changed or the user has no friend,
/// otherwise the changed fields addressed to the user's friends.
pub fn update(
    update_req: UpdateRequest,
    friends: Vec<(String, String)>,
    user_values: &mut Vec<ValueAndTimestamp>,
) -> (r: Option<Broadcast>)
    requires
        wf_state(old(user_values)@),
        update_req.wf(),
    ensures
        wf_state(final(user_values)@),
        state_map(final(user_values)@) == merged(
            state_map(old(user_values)@),
            update_req.fields(),
            update_req.ts(),
        ),
        r is Some <==> (accepted_fields(
            update_req.values@,
            state_map(old(user_values)@),
            update_req.ts(),
        ).len() > 0 && friend_list(friends@, update_req.user@).len() > 0),
        r is Some ==> {
            let rec = r->Some_0;
            &&& rec.broadcast.deep_view() == friend_list(friends@, update_req.user@)
            &&& rec.user@ == update_req.user@
            &&& rec.timestamp == update_req.timestamp
            &&& rec.values@ == accepted_fields(
                update_req.values@,
                state_map(old(user_values)@),
                update_req.ts(),
            )
        },
{
    let ghost m0 = state_map(user_values@);
    let ghost ts = update_req.timestamp as int;
    let mut send = false;
    let mut updated_values: Vec<(String, String)> = Vec::new();
    let mut idx: usize = 0;
    while idx < update_req.values.len()
        invariant
            idx <= update_req.values.len(),
            update_req.wf(),
            ts == update_req.timestamp as int,
            m0 == state_map(old(user_values)@),
            wf_state(user_values@),
            state_map(user_values@) == merged(
                m0,
                fields_map(update_req.values@.take(idx as int)),
                ts,
            ),
            updated_values@ == accepted_fields(update_req.values@.take(idx as int), m0, ts),
            send == (updated_values@.len() > 0),
        decreases update_req.values.len() - idx,
    {
        let name: &String = &update_req.values[idx].0;
        let value: &String = &update_req.values[idx].1;
        let ghost fpre = fields_map(update_req.values@.take(idx as int));
        let ghost k = name@;
        proof {
            if fpre.dom().contains(k) {
                lemma_fields_map_dom(update_req.values@.take(idx as int), k);
                let j = choose|j: int|
                    0 <= j < update_req.values@.take(idx as int).len()
                        && update_req.values@.take(idx as int)[j].0@ == k;
                assert(update_req.values@[j].0@ == update_req.values@[idx as int].0@);
                assert(false);
            }
            lemma_fields_map_take_step(update_req.values@, idx as int);
            lemma_merged_insert(m0, fpre, ts, k, value@);
            assert(update_req.values@.take(idx as int + 1).drop_last() =~= update_req.values@.take(
                idx as int,
            ));
            assert(update_req.values@.take(idx as int + 1).last() == update_req.values@[idx as int]);
        }
        match find_field(user_values, name) {
            Some(i) => {
                proof {
                    lemma_state_map_index(user_values@, i as int);
                }
                if user_values[i].timestamp >= update_req.timestamp {
                    idx = idx + 1;
                    continue ;
                }
                let nv = ValueAndTimestamp {
                    name: name.clone(),
                    value: value.clone(),
                    timestamp: update_req.timestamp,
                };
                proof {
                    lemma_state_map_update(user_values@, i as int, nv);
                }
                user_values[i] = nv;
                send = true;
                updated_values.push((name.clone(), value.clone()));
                proof {
                    assert(updated_values@.last() == update_req.values@[idx as int]);
                }
            },
            None => {
                proof {
                    lemma_state_map_absent(user_values@, k);
                }
                let nv = ValueAndTimestamp {
                    name: name.clone(),
                    value: value.clone(),
                    timestamp: update_req.timestamp,
                };
                proof {
                    lemma_state_map_push(user_values@, nv);
                }
                user_values.push(nv);
                send = true;
                updated_values.push((name.clone(), value.clone()));
                proof {
                    assert(updated_values@.last() == update_req.values@[idx as int]);
                }
            },
        }
        idx = idx + 1;
    }
    proof {
        assert(update_req.values@.take(update_req.values@.len() as int) =~= update_req.values@);
    }
    if !send {
        return None;
    }
    let users_friends = friends_of(&friends, &update_req.user);
    if users_friends.len() == 0 {
        return None;
    }
    Some(
        Broadcast {
            broadcast: users_friends,
            user: update_req.user,
            timestamp: update_req.timestamp,
            values: updated_values,
        },
    )
}

} // verus!
