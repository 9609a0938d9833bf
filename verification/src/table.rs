//! The user state table: one independently usable field collection per
//! user, keyed by user identifier.

use vstd::map::*;
use vstd::prelude::*;

use crate::state::{
    merged, snapshot, state_map, update_user_state, wf_state, lemma_merge_commutes,
    UpdateRequest, ValueAndTimestamp,
};

verus! {

/// One user's entry in the table: the identifier and its field
/// collection.
#[derive(Debug)]
pub struct UserState {
    pub name: String,
    pub values: Vec<ValueAndTimestamp>,
}

/// User identifiers in a table are pairwise distinct and every entry's
/// field collection is well formed.
pub open spec fn wf_table(t: Seq<UserState>) -> bool {
    (forall|i: int, j: int| 0 <= i < j < t.len() ==> t[i].name@ != t[j].name@) && (forall|i: int|
        0 <= i < t.len() ==> wf_state(t[i].values@))
}

/// The mathematical content of a table: user identifier to that user's
/// state map.
pub open spec fn table_map(t: Seq<UserState>) -> Map<
    Seq<char>,
    Map<Seq<char>, (Seq<char>, int)>,
>
    decreases t.len(),
{
    if t.len() == 0 {
        Map::empty()
    } else {
        table_map(t.drop_last()).insert(t.last().name@, state_map(t.last().values@))
    }
}

/// The state stored for user `u`, or the empty state when the user is
/// unknown.
pub open spec fn table_get(
    tm: Map<Seq<char>, Map<Seq<char>, (Seq<char>, int)>>,
    u: Seq<char>,
) -> Map<Seq<char>, (Seq<char>, int)> {
    if tm.dom().contains(u) {
        tm[u]
    } else {
        Map::empty()
    }
}

/// One table-level update step: user `u`'s state (empty when unknown)
/// merged with fields `f` written at time `ts`.
pub open spec fn table_apply(
    tm: Map<Seq<char>, Map<Seq<char>, (Seq<char>, int)>>,
    u: Seq<char>,
    f: Map<Seq<char>, Seq<char>>,
    ts: int,
) -> Map<Seq<char>, Map<Seq<char>, (Seq<char>, int)>> {
    tm.insert(u, merged(table_get(tm, u), f, ts))
}

/// In a well-formed table, the entry at index `i` is exactly what the
/// table map stores under its user identifier.
pub proof fn lemma_table_map_index(t: Seq<UserState>, i: int)
    requires
        wf_table(t),
        0 <= i < t.len(),
    ensures
        table_map(t).dom().contains(t[i].name@),
        table_map(t)[t[i].name@] == state_map(t[i].values@),
    decreases t.len(),
{
    if i < t.len() - 1 {
        assert(wf_table(t.drop_last())) by {
            assert(forall|x: int|
                0 <= x < t.len() - 1 ==> t.drop_last()[x] == t[x]);
        }
        lemma_table_map_index(t.drop_last(), i);
        assert(t.drop_last()[i] == t[i]);
        assert(t[t.len() - 1].name@ != t[i].name@);
    }
}

/// A user identifier that appears at no index is absent from the table
/// map.
pub proof fn lemma_table_map_absent(t: Seq<UserState>, u: Seq<char>)
    requires
        forall|i: int| 0 <= i < t.len() ==> t[i].name@ != u,
    ensures
        !table_map(t).dom().contains(u),
    decreases t.len(),
{
    if t.len() > 0 {
        assert(forall|i: int| 0 <= i < t.len() - 1 ==> t.drop_last()[i] == t[i]);
        lemma_table_map_absent(t.drop_last(), u);
    }
}

/// Replacing the entry at index `i` by one for the same user inserts the
/// new state under that user and preserves well-formedness.
pub proof fn lemma_table_map_update(t: Seq<UserState>, i: int, nu: UserState)
    requires
        wf_table(t),
        0 <= i < t.len(),
        nu.name@ == t[i].name@,
        wf_state(nu.values@),
    ensures
        wf_table(t.update(i, nu)),
        table_map(t.update(i, nu)) == table_map(t).insert(nu.name@, state_map(nu.values@)),
    decreases t.len(),
{
    let tu = t.update(i, nu);
    assert(forall|j: int| 0 <= j < t.len() ==> tu[j].name@ == t[j].name@);
    if i == t.len() - 1 {
        assert(tu.drop_last() =~= t.drop_last());
        assert(tu.last() == nu);
        assert_maps_equal!(
            table_map(t.drop_last()).insert(nu.name@, state_map(nu.values@)),
            table_map(t).insert(nu.name@, state_map(nu.values@))
        );
    } else {
        assert(wf_table(t.drop_last())) by {
            assert(forall|x: int|
                0 <= x < t.len() - 1 ==> t.drop_last()[x] == t[x]);
        }
        lemma_table_map_update(t.drop_last(), i, nu);
        assert(tu.drop_last() =~= t.drop_last().update(i, nu));
        assert(tu.last() == t.last());
        assert(t.last().name@ != nu.name@);
        assert_maps_equal!(
            table_map(t.drop_last())
                .insert(nu.name@, state_map(nu.values@))
                .insert(t.last().name@, state_map(t.last().values@)),
            table_map(t).insert(nu.name@, state_map(nu.values@))
        );
    }
}

/// Appending an entry for a fresh user inserts its state into the table
/// map and preserves well-formedness.
pub proof fn lemma_table_map_push(t: Seq<UserState>, nu: UserState)
    requires
        wf_table(t),
        wf_state(nu.values@),
        forall|i: int| 0 <= i < t.len() ==> t[i].name@ != nu.name@,
    ensures
        wf_table(t.push(nu)),
        table_map(t.push(nu)) == table_map(t).insert(nu.name@, state_map(nu.values@)),
{
    assert(t.push(nu).drop_last() =~= t);
    assert(t.push(nu).last() == nu);
    assert(forall|j: int| 0 <= j < t.len() ==> t.push(nu)[j] == t[j]);
}

/// The index of the entry for user `name`, if any.
pub fn find_user(table: &Vec<UserState>, name: &String) -> (r: Option<usize>)
    ensures
        match r {
            Some(i) => i < table.len() && table@[i as int].name@ == name@,
            None => forall|j: int| 0 <= j < table@.len() ==> table@[j].name@ != name@,
        },
{
    let mut i: usize = 0;
    while i < table.len()
        invariant
            i <= table.len(),
            forall|j: int| 0 <= j < i ==> table@[j].name@ != name@,
        decreases table.len() - i,
    {
        if table[i].name == *name {
            return Some(i);
        }
        i = i + 1;
    }
    None
}

/// A table pre-seeded with an empty state for each of a fixed, known
/// set of user identifiers, so that no entry need be created later.
pub fn new_table(users: &Vec<String>) -> (r: Vec<UserState>)
    requires
        forall|i: int, j: int| 0 <= i < j < users@.len() ==> users@[i]@ != users@[j]@,
    ensures
        wf_table(r@),
        r@.len() == users@.len(),
        forall|i: int|
            0 <= i < r@.len() ==> r@[i].name@ == users@[i]@ && r@[i].values@.len() == 0,
{
    let mut r: Vec<UserState> = Vec::new();
    let mut i: usize = 0;
    while i < users.len()
        invariant
            i <= users.len(),
            forall|x: int, y: int| 0 <= x < y < users@.len() ==> users@[x]@ != users@[y]@,
            r@.len() == i,
            forall|x: int|
                0 <= x < i ==> (#[trigger] r@[x]).name@ == users@[x]@ && r@[x].values@.len()
                    == 0,
            wf_table(r@),
        decreases users.len() - i,
    {
        let entry = UserState { name: users[i].clone(), values: Vec::new() };
        let ghost e = entry;
        let ghost r0 = r@;
        r.push(entry);
        proof {
            assert(e.name@ == users@[i as int]@);
            assert(e.values@.len() == 0);
            assert forall|x: int|
                0 <= x < r@.len() implies (#[trigger] r@[x]).name@ == users@[x]@
                    && r@[x].values@.len() == 0 by {
                if x < r0.len() {
                    assert(r0[x].name@ == users@[x]@ && r0[x].values@.len() == 0);
                    assert(r@[x] == r0[x]);
                } else {
                    assert(r@[x] == e);
                }
            }
            assert forall|x: int, y: int|
                0 <= x < y < r@.len() implies (#[trigger] r@[x]).name@ != (
                #[trigger] r@[y]).name@ by {
                assert(r@[x].name@ == users@[x]@);
                assert(r@[y].name@ == users@[y]@);
            }
            assert forall|x: int| 0 <= x < r@.len() implies wf_state(
                (#[trigger] r@[x]).values@,
            ) by {
                assert(r@[x].values@.len() == 0);
            }
        }
        i = i + 1;
    }
    r
}

/// Sequential-mode table update: the user's state is created empty on
/// first reference, then the command is merged into it.
pub fn apply_update(table: &mut Vec<UserState>, req: &UpdateRequest)
    requires
        wf_table(old(table)@),
        req.wf(),
    ensures
        wf_table(final(table)@),
        table_map(final(table)@) == table_apply(
            table_map(old(table)@),
            req.user@,
            req.fields(),
            req.ts(),
        ),
{
    match find_user(table, &req.user) {
        Some(i) => {
            proof {
                lemma_table_map_index(table@, i as int);
            }
            let mut vals = snapshot(&table[i].values);
            update_user_state(req, &mut vals);
            let nu = UserState { name: req.user.clone(), values: vals };
            proof {
                lemma_table_map_update(table@, i as int, nu);
            }
            table[i] = nu;
        },
        None => {
            proof {
                lemma_table_map_absent(table@, req.user@);
            }
            let mut vals: Vec<ValueAndTimestamp> = Vec::new();
            update_user_state(req, &mut vals);
            let nu = UserState { name: req.user.clone(), values: vals };
            proof {
                lemma_table_map_push(table@, nu);
            }
            table.push(nu);
        },
    }
}

/// Order independence at the table: two commands applied in either
/// order converge to the same table, provided that commands to the same
/// user never write a shared field at the same timestamp.  Commands to
/// different users commute unconditionally.
pub proof fn lemma_table_apply_commutes(
    tm: Map<Seq<char>, Map<Seq<char>, (Seq<char>, int)>>,
    u1: Seq<char>,
    f1: Map<Seq<char>, Seq<char>>,
    t1: int,
    u2: Seq<char>,
    f2: Map<Seq<char>, Seq<char>>,
    t2: int,
)
    requires
        u1 == u2 ==> (forall|k: Seq<char>|
            #![trigger f1.dom().contains(k), f2.dom().contains(k)]
            f1.dom().contains(k) && f2.dom().contains(k) ==> t1 != t2),
    ensures
        table_apply(table_apply(tm, u1, f1, t1), u2, f2, t2) == table_apply(
            table_apply(tm, u2, f2, t2),
            u1,
            f1,
            t1,
        ),
{
    if u1 == u2 {
        lemma_merge_commutes(table_get(tm, u1), f1, t1, f2, t2);
        assert_maps_equal!(
            table_apply(table_apply(tm, u1, f1, t1), u2, f2, t2),
            table_apply(table_apply(tm, u2, f2, t2), u1, f1, t1)
        );
    } else {
        assert_maps_equal!(
            table_apply(table_apply(tm, u1, f1, t1), u2, f2, t2),
            table_apply(table_apply(tm, u2, f2, t2), u1, f1, t1)
        );
    }
}

/// Two commands never write a shared field of the same user at the same
/// timestamp.  Commands for different users are always compatible.
pub open spec fn compatible(c1: UpdateRequest, c2: UpdateRequest) -> bool {
    c1.user@ == c2.user@ ==> (forall|k: Seq<char>|
        #![trigger c1.fields().dom().contains(k), c2.fields().dom().contains(k)]
        c1.fields().dom().contains(k) && c2.fields().dom().contains(k) ==> c1.ts() != c2.ts())
}

/// The table after applying a whole command sequence, in order.
pub open spec fn table_apply_all(
    tm: Map<Seq<char>, Map<Seq<char>, (Seq<char>, int)>>,
    cmds: Seq<UpdateRequest>,
) -> Map<Seq<char>, Map<Seq<char>, (Seq<char>, int)>>
    decreases cmds.len(),
{
    if cmds.len() == 0 {
        tm
    } else {
        table_apply(
            table_apply_all(tm, cmds.drop_last()),
            cmds.last().user@,
            cmds.last().fields(),
            cmds.last().ts(),
        )
    }
}

/// Apply a command sequence to the table, in order.  One worker's whole
/// run over its shard is exactly this fold, so together with the
/// exchange lemma below the converged table is independent of how
/// compatible commands were dealt out.
pub fn run_commands(table: &mut Vec<UserState>, cmds: &Vec<UpdateRequest>)
    requires
        wf_table(old(table)@),
        forall|i: int| 0 <= i < cmds@.len() ==> (#[trigger] cmds@[i]).wf(),
    ensures
        wf_table(final(table)@),
        table_map(final(table)@) == table_apply_all(table_map(old(table)@), cmds@),
{
    let mut idx: usize = 0;
    while idx < cmds.len()
        invariant
            idx <= cmds.len(),
            forall|i: int| 0 <= i < cmds@.len() ==> (#[trigger] cmds@[i]).wf(),
            wf_table(table@),
            table_map(table@) == table_apply_all(
                table_map(old(table)@),
                cmds@.take(idx as int),
            ),
        decreases cmds.len() - idx,
    {
        proof {
            assert(cmds@.take(idx as int + 1).drop_last() =~= cmds@.take(idx as int));
            assert(cmds@.take(idx as int + 1).last() == cmds@[idx as int]);
        }
        apply_update(table, &cmds[idx]);
        idx = idx + 1;
    }
    proof {
        assert(cmds@.take(cmds@.len() as int) =~= cmds@);
    }
}

/// Order independence of the converged table: exchanging two adjacent
/// compatible commands leaves the converged table unchanged.  Every
/// redistribution of compatible commands over workers is a chain of such
/// exchanges, so the converged state depends only on which commands ran,
/// not on how they were interleaved.
pub proof fn lemma_table_apply_all_swap(
    tm: Map<Seq<char>, Map<Seq<char>, (Seq<char>, int)>>,
    cmds: Seq<UpdateRequest>,
    i: int,
)
    requires
        0 <= i,
        i + 1 < cmds.len(),
        compatible(cmds[i], cmds[i + 1]),
    ensures
        table_apply_all(tm, cmds.update(i, cmds[i + 1]).update(i + 1, cmds[i]))
            == table_apply_all(tm, cmds),
    decreases cmds.len(),
{
    let sw = cmds.update(i, cmds[i + 1]).update(i + 1, cmds[i]);
    let c1 = cmds[i];
    let c2 = cmds[i + 1];
    if i + 1 == cmds.len() - 1 {
        // The exchanged commands are the last two: unfold both folds down
        // to the shared prefix and commute the two table steps.
        let prefix = cmds.drop_last().drop_last();
        let p = table_apply_all(tm, prefix);
        assert(cmds.last() == c2);
        assert(cmds.drop_last().last() == c1);
        assert(table_apply_all(tm, cmds.drop_last()) == table_apply(
            p,
            c1.user@,
            c1.fields(),
            c1.ts(),
        ));
        assert(table_apply_all(tm, cmds) == table_apply(
            table_apply(p, c1.user@, c1.fields(), c1.ts()),
            c2.user@,
            c2.fields(),
            c2.ts(),
        ));
        let swp = cmds.drop_last().update(i, c2);
        assert(sw.drop_last() =~= swp);
        assert(swp.drop_last() =~= prefix);
        assert(swp.last() == c2);
        assert(sw.last() == c1);
        assert(table_apply_all(tm, swp) == table_apply(p, c2.user@, c2.fields(), c2.ts()));
        assert(table_apply_all(tm, sw) == table_apply(
            table_apply(p, c2.user@, c2.fields(), c2.ts()),
            c1.user@,
            c1.fields(),
            c1.ts(),
        ));
        lemma_table_apply_commutes(
            p,
            c1.user@,
            c1.fields(),
            c1.ts(),
            c2.user@,
            c2.fields(),
            c2.ts(),
        );
    } else {
        // The exchange happens strictly before the last command: the last
        // step is the same on both sides, recurse on the prefix.
        let c = cmds.last();
        assert(sw.last() == c);
        let inner = cmds.drop_last().update(i, c2).update(i + 1, c1);
        assert(sw.drop_last() =~= inner);
        assert(cmds.drop_last()[i] == c1);
        assert(cmds.drop_last()[i + 1] == c2);
        lemma_table_apply_all_swap(tm, cmds.drop_last(), i);
        assert(table_apply_all(tm, cmds) == table_apply(
            table_apply_all(tm, cmds.drop_last()),
            c.user@,
            c.fields(),
            c.ts(),
        ));
        assert(table_apply_all(tm, sw) == table_apply(
            table_apply_all(tm, inner),
            c.user@,
            c.fields(),
            c.ts(),
        ));
    }
}

} // verus!
