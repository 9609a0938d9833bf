//! The per-user field state and the last-write-wins merge.

use vstd::map::*;
use vstd::prelude::*;

verus! {

/// One named field of a user's state, together with the logical
/// timestamp of the write that set it.
#[derive(Debug)]
pub struct ValueAndTimestamp {
    pub name: String,
    pub value: String,
    pub timestamp: i64,
}

/// One parsed update command: every listed field of `user` is to be
/// written at logical time `timestamp`.
#[derive(Debug)]
pub struct UpdateRequest {
    pub user: String,
    pub timestamp: i64,
    pub values: Vec<(String, String)>,
}

/// The mathematical content of a field collection: field name to
/// (value, timestamp of the accepted write).
pub open spec fn state_map(s: Seq<ValueAndTimestamp>) -> Map<Seq<char>, (Seq<char>, int)>
    decreases s.len(),
{
    if s.len() == 0 {
        Map::empty()
    } else {
        state_map(s.drop_last()).insert(
            s.last().name@,
            (s.last().value@, s.last().timestamp as int),
        )
    }
}

/// The mathematical content of a command's field list: name to value.
pub open spec fn fields_map(vs: Seq<(String, String)>) -> Map<Seq<char>, Seq<char>>
    decreases vs.len(),
{
    if vs.len() == 0 {
        Map::empty()
    } else {
        fields_map(vs.drop_last()).insert(vs.last().0@, vs.last().1@)
    }
}

/// Field names within one user's collection are pairwise distinct.
pub open spec fn wf_state(s: Seq<ValueAndTimestamp>) -> bool {
    forall|i: int, j: int| 0 <= i < j < s.len() ==> s[i].name@ != s[j].name@
}

/// Field names within one command are pairwise distinct.
pub open spec fn wf_fields(vs: Seq<(String, String)>) -> bool {
    forall|i: int, j: int| 0 <= i < j < vs.len() ==> vs[i].0@ != vs[j].0@
}

impl UpdateRequest {
    /// A command is well formed when its field names are pairwise distinct.
    pub open spec fn wf(self) -> bool {
        wf_fields(self.values@)
    }

    /// The command's fields as a map from name to value.
    pub open spec fn fields(self) -> Map<Seq<char>, Seq<char>> {
        fields_map(self.values@)
    }

    /// The command's timestamp as a mathematical integer.
    pub open spec fn ts(self) -> int {
        self.timestamp as int
    }
}

/// A write at time `ts` to field `k` is accepted iff the field is absent
/// or its stored timestamp is strictly older (ties lose).
pub open spec fn accepts(m: Map<Seq<char>, (Seq<char>, int)>, k: Seq<char>, ts: int) -> bool {
    !m.dom().contains(k) || m[k].1 < ts
}

/// The state after merging fields `f` written at time `ts` into state
/// `m`: an accepted field is replaced wholesale, a rejected one is kept.
pub open spec fn merged(
    m: Map<Seq<char>, (Seq<char>, int)>,
    f: Map<Seq<char>, Seq<char>>,
    ts: int,
) -> Map<Seq<char>, (Seq<char>, int)> {
    Map::new(
        |k: Seq<char>| m.dom().contains(k) || f.dom().contains(k),
        |k: Seq<char>| if f.dom().contains(k) && accepts(m, k, ts) {
            (f[k], ts)
        } else {
            m[k]
        },
    )
}

/// Every field of the command is already stored with an equal-or-newer
/// timestamp, so the whole command is guaranteed to be a no-op.
pub open spec fn is_stale(
    m: Map<Seq<char>, (Seq<char>, int)>,
    f: Map<Seq<char>, Seq<char>>,
    ts: int,
) -> bool {
    forall|k: Seq<char>| f.dom().contains(k) ==> !accepts(m, k, ts)
}

/// In a well-formed collection, the register at index `i` is exactly
/// what the state map stores under its name.
pub proof fn lemma_state_map_index(s: Seq<ValueAndTimestamp>, i: int)
    requires
        wf_state(s),
        0 <= i < s.len(),
    ensures
        state_map(s).dom().contains(s[i].name@),
        state_map(s)[s[i].name@] == (s[i].value@, s[i].timestamp as int),
    decreases s.len(),
{
    if i < s.len() - 1 {
        assert(wf_state(s.drop_last())) by {
            assert(forall|x: int, y: int|
                0 <= x < y < s.len() - 1 ==> s.drop_last()[x] == s[x] && s.drop_last()[y] == s[y]);
        }
        lemma_state_map_index(s.drop_last(), i);
        assert(s.drop_last()[i] == s[i]);
        assert(s[s.len() - 1].name@ != s[i].name@);
    }
}

/// A name that appears at no index is absent from the state map.
pub proof fn lemma_state_map_absent(s: Seq<ValueAndTimestamp>, k: Seq<char>)
    requires
        forall|i: int| 0 <= i < s.len() ==> s[i].name@ != k,
    ensures
        !state_map(s).dom().contains(k),
    decreases s.len(),
{
    if s.len() > 0 {
        assert(forall|i: int| 0 <= i < s.len() - 1 ==> s.drop_last()[i] == s[i]);
        lemma_state_map_absent(s.drop_last(), k);
    }
}

/// Replacing the register at index `i` by one of the same name inserts
/// the new value under that name and preserves well-formedness.
pub proof fn lemma_state_map_update(s: Seq<ValueAndTimestamp>, i: int, v: ValueAndTimestamp)
    requires
        wf_state(s),
        0 <= i < s.len(),
        v.name@ == s[i].name@,
    ensures
        wf_state(s.update(i, v)),
        state_map(s.update(i, v)) == state_map(s).insert(
            v.name@,
            (v.value@, v.timestamp as int),
        ),
    decreases s.len(),
{
    let su = s.update(i, v);
    assert(forall|j: int| 0 <= j < s.len() ==> su[j].name@ == s[j].name@);
    if i == s.len() - 1 {
        assert(su.drop_last() =~= s.drop_last());
        assert(su.last() == v);
        assert_maps_equal!(
            state_map(s.drop_last()).insert(v.name@, (v.value@, v.timestamp as int)),
            state_map(s).insert(v.name@, (v.value@, v.timestamp as int))
        );
    } else {
        assert(wf_state(s.drop_last())) by {
            assert(forall|x: int, y: int|
                0 <= x < y < s.len() - 1 ==> s.drop_last()[x] == s[x] && s.drop_last()[y] == s[y]);
        }
        lemma_state_map_update(s.drop_last(), i, v);
        assert(su.drop_last() =~= s.drop_last().update(i, v));
        assert(su.last() == s.last());
        assert(s.last().name@ != v.name@);
        assert_maps_equal!(
            state_map(s.drop_last())
                .insert(v.name@, (v.value@, v.timestamp as int))
                .insert(s.last().name@, (s.last().value@, s.last().timestamp as int)),
            state_map(s)
                .insert(v.name@, (v.value@, v.timestamp as int))
        );
    }
}

/// Appending a register with a fresh name inserts it into the state map
/// and preserves well-formedness.
pub proof fn lemma_state_map_push(s: Seq<ValueAndTimestamp>, v: ValueAndTimestamp)
    requires
        wf_state(s),
        forall|i: int| 0 <= i < s.len() ==> s[i].name@ != v.name@,
    ensures
        wf_state(s.push(v)),
        state_map(s.push(v)) == state_map(s).insert(v.name@, (v.value@, v.timestamp as int)),
{
    assert(s.push(v).drop_last() =~= s);
    assert(s.push(v).last() == v);
    assert(forall|j: int| 0 <= j < s.len() ==> s.push(v)[j] == s[j]);
}

/// Every field name in a command's list is in its field map.
pub proof fn lemma_fields_map_contains(vs: Seq<(String, String)>, i: int)
    requires
        0 <= i < vs.len(),
    ensures
        fields_map(vs).dom().contains(vs[i].0@),
    decreases vs.len(),
{
    if i < vs.len() - 1 {
        assert(vs.drop_last()[i] == vs[i]);
        lemma_fields_map_contains(vs.drop_last(), i);
    }
}

/// Every name in a command's field map appears at some index of its list.
pub proof fn lemma_fields_map_dom(vs: Seq<(String, String)>, k: Seq<char>)
    requires
        fields_map(vs).dom().contains(k),
    ensures
        exists|i: int| 0 <= i < vs.len() && vs[i].0@ == k,
    decreases vs.len(),
{
    if vs.len() > 0 {
        if vs.last().0@ == k {
            assert(vs[vs.len() - 1].0@ == k);
        } else {
            lemma_fields_map_dom(vs.drop_last(), k);
            let i = choose|i: int| 0 <= i < vs.drop_last().len() && vs.drop_last()[i].0@ == k;
            assert(vs[i].0@ == k);
        }
    }
}

/// Extending the processed prefix of a field list by one entry inserts
/// that entry into the prefix's field map.
pub proof fn lemma_fields_map_take_step(vs: Seq<(String, String)>, i: int)
    requires
        0 <= i < vs.len(),
    ensures
        fields_map(vs.take(i + 1)) == fields_map(vs.take(i)).insert(vs[i].0@, vs[i].1@),
{
    assert(vs.take(i + 1).drop_last() =~= vs.take(i));
    assert(vs.take(i + 1).last() == vs[i]);
}

/// Merging one more field with a name not yet merged either inserts the
/// accepted write or leaves the merge result unchanged.
pub proof fn lemma_merged_insert(
    m: Map<Seq<char>, (Seq<char>, int)>,
    f: Map<Seq<char>, Seq<char>>,
    ts: int,
    k: Seq<char>,
    v: Seq<char>,
)
    requires
        !f.dom().contains(k),
    ensures
        accepts(m, k, ts) ==> merged(m, f.insert(k, v), ts) == merged(m, f, ts).insert(
            k,
            (v, ts),
        ),
        !accepts(m, k, ts) ==> merged(m, f.insert(k, v), ts) == merged(m, f, ts),
{
    if accepts(m, k, ts) {
        assert_maps_equal!(
            merged(m, f.insert(k, v), ts),
            merged(m, f, ts).insert(k, (v, ts))
        );
    } else {
        assert_maps_equal!(merged(m, f.insert(k, v), ts), merged(m, f, ts));
    }
}

/// The index of the register named `name`, if any.
pub(crate) fn find_field(state: &Vec<ValueAndTimestamp>, name: &String) -> (r: Option<usize>)
    ensures
        match r {
            Some(i) => i < state.len() && state@[i as int].name@ == name@,
            None => forall|j: int| 0 <= j < state@.len() ==> state@[j].name@ != name@,
        },
{
    let mut i: usize = 0;
    while i < state.len()
        invariant
            i <= state.len(),
            forall|j: int| 0 <= j < i ==> state@[j].name@ != name@,
        decreases state.len() - i,
    {
        if state[i].name == *name {
            return Some(i);
        }
        i = i + 1;
    }
    None
}

/// Merge one command into a user's field collection: per field, accept
/// and overwrite iff the command's timestamp is strictly newer than the
/// stored one, creating absent fields.  Each field's stored timestamp is
/// read again here, under whatever exclusion the caller provides.
pub fn update_user_state(update_req: &UpdateRequest, current_state: &mut Vec<ValueAndTimestamp>)
    requires
        wf_state(old(current_state)@),
        update_req.wf(),
    ensures
        wf_state(final(current_state)@),
        state_map(final(current_state)@) == merged(
            state_map(old(current_state)@),
            update_req.fields(),
            update_req.ts(),
        ),
{
    let ghost m0 = state_map(current_state@);
    let ghost ts = update_req.timestamp as int;
    let mut idx: usize = 0;
    while idx < update_req.values.len()
        invariant
            idx <= update_req.values.len(),
            update_req.wf(),
            ts == update_req.timestamp as int,
            m0 == state_map(old(current_state)@),
            wf_state(current_state@),
            state_map(current_state@) == merged(
                m0,
                fields_map(update_req.values@.take(idx as int)),
                ts,
            ),
        decreases update_req.values.len() - idx,
    {
        let name: &String = &update_req.values[idx].0;
        let value: &String = &update_req.values[idx].1;
        let ghost fpre = fields_map(update_req.values@.take(idx as int));
        let ghost k = name@;
        proof {
            if fpre.dom().contains(k) {
                lemma_fields_map_dom(update_req.values@.take(idx as int), k);
                let j = choose|j: int|
                    0 <= j < update_req.values@.take(idx as int).len()
                        && update_req.values@.take(idx as int)[j].0@ == k;
                assert(update_req.values@[j].0@ == update_req.values@[idx as int].0@);
                assert(false);
            }
            lemma_fields_map_take_step(update_req.values@, idx as int);
            lemma_merged_insert(m0, fpre, ts, k, value@);
        }
        match find_field(current_state, name) {
            Some(i) => {
                proof {
                    lemma_state_map_index(current_state@, i as int);
                }
                if current_state[i].timestamp < update_req.timestamp {
                    let nv = ValueAndTimestamp {
                        name: name.clone(),
                        value: value.clone(),
                        timestamp: update_req.timestamp,
                    };
                    proof {
                        lemma_state_map_update(current_state@, i as int, nv);
                    }
                    current_state[i] = nv;
                }
            },
            None => {
                proof {
                    lemma_state_map_absent(current_state@, k);
                }
                let nv = ValueAndTimestamp {
                    name: name.clone(),
                    value: value.clone(),
                    timestamp: update_req.timestamp,
                };
                proof {
                    lemma_state_map_push(current_state@, nv);
                }
                current_state.push(nv);
            },
        }
        idx = idx + 1;
    }
    proof {
        assert(update_req.values@.take(update_req.values@.len() as int) =~= update_req.values@);
    }
}

/// The advisory staleness check: true iff every field named by the
/// command is already stored with an equal-or-newer timestamp, so the
/// command is guaranteed to merge to a no-op.
pub fn check_if_req_is_old(req: &UpdateRequest, current_state: Vec<ValueAndTimestamp>) -> (r:
    bool)
    requires
        wf_state(current_state@),
    ensures
        r == is_stale(state_map(current_state@), fields_map(req.values@), req.timestamp as int),
{
    let ghost m = state_map(current_state@);
    let ghost ts = req.timestamp as int;
    let mut return_check = true;
    let mut idx: usize = 0;
    while idx < req.values.len()
        invariant
            idx <= req.values.len(),
            wf_state(current_state@),
            m == state_map(current_state@),
            ts == req.timestamp as int,
            return_check <==> (forall|j: int|
                0 <= j < idx ==> !accepts(m, req.values@[j].0@, ts)),
        decreases req.values.len() - idx,
    {
        let name: &String = &req.values[idx].0;
        match find_field(&current_state, name) {
            Some(i) => {
                proof {
                    lemma_state_map_index(current_state@, i as int);
                }
                if current_state[i].timestamp < req.timestamp {
                    return_check = false;
                }
            },
            None => {
                proof {
                    lemma_state_map_absent(current_state@, name@);
                }
                return_check = false;
            },
        }
        idx = idx + 1;
    }
    proof {
        if return_check {
            assert forall|k: Seq<char>|
                fields_map(req.values@).dom().contains(k) implies !accepts(m, k, ts) by {
                lemma_fields_map_dom(req.values@, k);
            }
        } else {
            let j = choose|j: int|
                0 <= j < req.values@.len() && accepts(m, req.values@[j].0@, ts);
            lemma_fields_map_contains(req.values@, j);
        }
    }
    return_check
}

/// A stale command merges to exactly the old state.
pub proof fn lemma_stale_no_op(
    m: Map<Seq<char>, (Seq<char>, int)>,
    f: Map<Seq<char>, Seq<char>>,
    ts: int,
)
    requires
        is_stale(m, f, ts),
    ensures
        merged(m, f, ts) == m,
{
    assert_maps_equal!(merged(m, f, ts), m);
}

/// A consistent copy of one user's field collection.
pub fn snapshot(state: &Vec<ValueAndTimestamp>) -> (r: Vec<ValueAndTimestamp>)
    ensures
        r@ == state@,
{
    let mut r: Vec<ValueAndTimestamp> = Vec::new();
    let mut i: usize = 0;
    while i < state.len()
        invariant
            i <= state.len(),
            r@ == state@.take(i as int),
        decreases state.len() - i,
    {
        r.push(
            ValueAndTimestamp {
                name: state[i].name.clone(),
                value: state[i].value.clone(),
                timestamp: state[i].timestamp,
            },
        );
        proof {
            assert(r@.last() == state@[i as int]);
            assert(r@ =~= state@.take(i as int + 1));
        }
        i = i + 1;
    }
    proof {
        assert(state@.take(state@.len() as int) =~= state@);
    }
    r
}

/// Check-then-apply: take a cheap snapshot, drop the command when the
/// snapshot already proves it a no-op, and otherwise merge it with the
/// per-field timestamps re-validated inside `update_user_state`.
pub fn update(update_req: &UpdateRequest, user_values: &mut Vec<ValueAndTimestamp>)
    requires
        wf_state(old(user_values)@),
        update_req.wf(),
    ensures
        wf_state(final(user_values)@),
        state_map(final(user_values)@) == merged(
            state_map(old(user_values)@),
            update_req.fields(),
            update_req.ts(),
        ),
{
    let current_state = snapshot(user_values);
    if check_if_req_is_old(update_req, current_state) {
        proof {
            lemma_stale_no_op(
                state_map(user_values@),
                update_req.fields(),
                update_req.ts(),
            );
        }
        return;
    }
    update_user_state(update_req, user_values);
}

/// The (name, value) pairs of a field collection, in storage order,
/// with the timestamps dropped: what a serialized state snapshot shows.
pub fn field_values(state: &Vec<ValueAndTimestamp>) -> (r: Vec<(String, String)>)
    ensures
        r@.len() == state@.len(),
        forall|i: int|
            0 <= i < state@.len() ==> r@[i].0@ == state@[i].name@ && r@[i].1@
                == state@[i].value@,
{
    let mut r: Vec<(String, String)> = Vec::new();
    let mut i: usize = 0;
    while i < state.len()
        invariant
            i <= state.len(),
            r@.len() == i,
            forall|j: int|
                0 <= j < i ==> (#[trigger] r@[j]).0@ == state@[j].name@ && r@[j].1@
                    == state@[j].value@,
        decreases state.len() - i,
    {
        r.push((state[i].name.clone(), state[i].value.clone()));
        i = i + 1;
    }
    r
}

/// Idempotence: merging the same command twice yields the state of
/// merging it once.
pub proof fn lemma_merge_idempotent(
    m: Map<Seq<char>, (Seq<char>, int)>,
    f: Map<Seq<char>, Seq<char>>,
    ts: int,
)
    ensures
        merged(merged(m, f, ts), f, ts) == merged(m, f, ts),
{
    assert_maps_equal!(merged(merged(m, f, ts), f, ts), merged(m, f, ts));
}

/// Order independence: two commands merge to the same state in either
/// order, provided no field they share is written at the same timestamp.
pub proof fn lemma_merge_commutes(
    m: Map<Seq<char>, (Seq<char>, int)>,
    f1: Map<Seq<char>, Seq<char>>,
    t1: int,
    f2: Map<Seq<char>, Seq<char>>,
    t2: int,
)
    requires
        forall|k: Seq<char>|
            #![trigger f1.dom().contains(k), f2.dom().contains(k)]
            f1.dom().contains(k) && f2.dom().contains(k) ==> t1 != t2,
    ensures
        merged(merged(m, f1, t1), f2, t2) == merged(merged(m, f2, t2), f1, t1),
{
    let a = merged(merged(m, f1, t1), f2, t2);
    let b = merged(merged(m, f2, t2), f1, t1);
    assert forall|k: Seq<char>| a.dom().contains(k) implies b.dom().contains(k) && a[k]
        == b[k] by {
        assert(f1.dom().contains(k) && f2.dom().contains(k) ==> t1 != t2);
    }
    assert_maps_equal!(a, b);
}

/// Strict timestamp gating: an equal-or-older write never changes a
/// stored field, and a strictly newer write always replaces it.
pub proof fn lemma_strict_gating(
    m: Map<Seq<char>, (Seq<char>, int)>,
    f: Map<Seq<char>, Seq<char>>,
    ts: int,
    k: Seq<char>,
)
    requires
        f.dom().contains(k),
    ensures
        m.dom().contains(k) && m[k].1 >= ts ==> merged(m, f, ts)[k] == m[k],
        m.dom().contains(k) && m[k].1 < ts ==> merged(m, f, ts)[k] == (f[k], ts),
        !m.dom().contains(k) ==> merged(m, f, ts)[k] == (f[k], ts),
{
}

/// The sub-sequence of a command's field list that a merge against `m`
/// at time `ts` accepts, in list order.
pub open spec fn accepted_fields(
    vs: Seq<(String, String)>,
    m: Map<Seq<char>, (Seq<char>, int)>,
    ts: int,
) -> Seq<(String, String)>
    decreases vs.len(),
{
    if vs.len() == 0 {
        Seq::empty()
    } else {
        let rest = accepted_fields(vs.drop_last(), m, ts);
        if accepts(m, vs.last().0@, ts) {
            rest.push(vs.last())
        } else {
            rest
        }
    }
}

/// A stale command has no accepted field at all.
pub proof fn lemma_stale_nothing_accepted(
    vs: Seq<(String, String)>,
    m: Map<Seq<char>, (Seq<char>, int)>,
    ts: int,
)
    requires
        is_stale(m, fields_map(vs), ts),
    ensures
        accepted_fields(vs, m, ts).len() == 0,
    decreases vs.len(),
{
    if vs.len() > 0 {
        assert(is_stale(m, fields_map(vs.drop_last()), ts)) by {
            assert forall|k: Seq<char>|
                fields_map(vs.drop_last()).dom().contains(k) implies !accepts(m, k, ts) by {
                lemma_fields_map_dom(vs.drop_last(), k);
                let i = choose|i: int|
                    0 <= i < vs.drop_last().len() && vs.drop_last()[i].0@ == k;
                lemma_fields_map_contains(vs, i);
                assert(vs[i].0@ == k);
            }
        }
        lemma_stale_nothing_accepted(vs.drop_last(), m, ts);
        lemma_fields_map_contains(vs, vs.len() - 1);
    }
}

/// True iff the command's field names are pairwise distinct, i.e. the
/// command is well formed.
pub fn has_unique_fields(req: &UpdateRequest) -> (r: bool)
    ensures
        r == req.wf(),
{
    let mut i: usize = 0;
    while i < req.values.len()
        invariant
            i <= req.values.len(),
            forall|x: int, y: int| 0 <= x < y < i ==> req.values@[x].0@ != req.values@[y].0@,
        decreases req.values.len() - i,
    {
        let mut j: usize = 0;
        while j < i
            invariant
                j <= i,
                i < req.values.len(),
                forall|y: int| 0 <= y < j ==> req.values@[y].0@ != req.values@[i as int].0@,
            decreases i - j,
        {
            if req.values[j].0 == req.values[i].0 {
                return false;
            }
            j = j + 1;
        }
        i = i + 1;
    }
    true
}

} // verus!
