use vstd::prelude::*;
use crate::entity::{has_state, state_index, state_names_distinct, EntityView};
use crate::project::{
    category_check, entity_check, entity_index, has_entity, project_wf, ProjectView,
};
use crate::rows::{
    category_position, category_rows_of, entity_rows_of, frame_row_at, frame_rows_of,
    frame_slots, frame_slots_upto, replay_categories, replay_entities, replay_frames,
    replay_rows, replay_states, rows_of, state_at, state_row_at, state_rows_of, state_slots,
    state_slots_upto, valid_slot, LoadError,
};
use crate::state::StateView;

verus! {

/// The states with their frames left out.
pub open spec fn strip_frames(ss: Seq<StateView>) -> Seq<StateView> {
    ss.map_values(|s: StateView| StateView { name: s.name, frames: Seq::empty() })
}

/// `p` after its category rows are replayed.
pub open spec fn after_categories(p: ProjectView, k: int) -> ProjectView {
    ProjectView { name: p.name, categories: p.categories.take(k), entities: Seq::empty() }
}

/// `p` after its category rows and its first `j` entity rows are replayed.
pub open spec fn after_entities(p: ProjectView, j: int) -> ProjectView {
    ProjectView {
        name: p.name,
        categories: p.categories,
        entities: Seq::new(
            j as nat,
            |x: int|
                EntityView {
                    name: p.entities[x].name,
                    category: p.entities[x].category,
                    states: Seq::empty(),
                },
        ),
    }
}

/// `p` after the states of its first `j` entities, and the first `i` states
/// of entity `j`, are replayed.
pub open spec fn after_states(p: ProjectView, j: int, i: int) -> ProjectView {
    ProjectView {
        name: p.name,
        categories: p.categories,
        entities: Seq::new(
            p.entities.len(),
            |x: int|
                EntityView {
                    name: p.entities[x].name,
                    category: p.entities[x].category,
                    states: if x < j {
                        strip_frames(p.entities[x].states)
                    } else if x == j {
                        strip_frames(p.entities[x].states.take(i))
                    } else {
                        Seq::empty()
                    },
                },
        ),
    }
}

/// The row position of the state at (`x`, `y`).
pub open spec fn slot_index(p: ProjectView, x: int, y: int) -> int {
    state_slots_upto(p, x).len() + y
}

/// `p` after the frames of its first `k` state rows, and the first `f`
/// frames of state row `k`, are replayed.
pub open spec fn after_frames(p: ProjectView, k: int, f: int) -> ProjectView {
    ProjectView {
        name: p.name,
        categories: p.categories,
        entities: Seq::new(
            p.entities.len(),
            |x: int|
                EntityView {
                    name: p.entities[x].name,
                    category: p.entities[x].category,
                    states: Seq::new(
                        p.entities[x].states.len(),
                        |y: int|
                            StateView {
                                name: p.entities[x].states[y].name,
                                frames: if slot_index(p, x, y) < k {
                                    p.entities[x].states[y].frames
                                } else if slot_index(p, x, y) == k {
                                    p.entities[x].states[y].frames.take(f)
                                } else {
                                    Seq::empty()
                                },
                            },
                    ),
                },
        ),
    }
}

proof fn lemma_categories(p: ProjectView, k: int)
    requires
        project_wf(p),
        0 <= k <= p.categories.len(),
    ensures
        replay_categories(after_categories(p, 0), category_rows_of(p).take(k)) == Ok::<
            ProjectView,
            LoadError,
        >(after_categories(p, k)),
    decreases k,
{
    let start = after_categories(p, 0);
    if k == 0 {
        assert(category_rows_of(p).take(0) =~= Seq::empty());
        assert(p.categories.take(0) =~= Seq::empty());
    } else {
        lemma_categories(p, k - 1);
        let rows = category_rows_of(p).take(k);
        assert(rows.drop_last() =~= category_rows_of(p).take(k - 1));
        let q = after_categories(p, k - 1);
        let name = p.categories[k - 1];
        assert(!q.categories.contains(name)) by {
            if q.categories.contains(name) {
                let x = choose|x: int| 0 <= x < q.categories.len() && q.categories[x] == name;
                assert(p.categories[x] == p.categories[k - 1]);
            }
        }
        assert(category_check(q, name) is Ok);
        assert(q.categories.push(name) =~= p.categories.take(k));
        assert(crate::project::with_category(q, name) =~= after_categories(p, k));
    }
}

proof fn lemma_entities(p: ProjectView, j: int)
    requires
        project_wf(p),
        0 <= j <= p.entities.len(),
    ensures
        replay_entities(after_categories(p, p.categories.len() as int), entity_rows_of(p).take(j))
            == Ok::<ProjectView, LoadError>(after_entities(p, j)),
    decreases j,
{
    let cats_done = after_categories(p, p.categories.len() as int);
    assert(p.categories.take(p.categories.len() as int) =~= p.categories);
    if j == 0 {
        assert(entity_rows_of(p).take(0) =~= Seq::empty());
        assert(after_entities(p, 0).entities =~= Seq::empty());
        assert(cats_done =~= after_entities(p, 0));
    } else {
        lemma_entities(p, j - 1);
        let rows = entity_rows_of(p).take(j);
        assert(rows.drop_last() =~= entity_rows_of(p).take(j - 1));
        let q = after_entities(p, j - 1);
        let e = p.entities[j - 1];
        assert(p.categories.contains(e.category));
        let c = category_position(p.categories, e.category);
        assert(0 <= c < p.categories.len() && p.categories[c] == e.category);
        assert(!has_entity(q.entities, e.name)) by {
            if has_entity(q.entities, e.name) {
                let x = choose|x: int| 0 <= x < q.entities.len() && #[trigger] q.entities[x].name == e.name;
                assert(p.entities[x].name == p.entities[j - 1].name);
            }
        }
        assert(entity_check(q, q.categories[c], e.name) is Ok);
        assert(crate::project::with_entity(q, q.categories[c], e.name) =~= after_entities(p, j));
    }
}

proof fn lemma_upto_step(p: ProjectView, j: int)
    requires
        0 <= j < p.entities.len(),
    ensures
        state_slots_upto(p, j + 1) == state_slots_upto(p, j) + Seq::new(
            p.entities[j].states.len(),
            |i: int| (j, i),
        ),
{
    let g = |j: int| Seq::new(p.entities[j].states.len(), |i: int| (j, i));
    assert(Seq::new((j + 1) as nat, g) =~= Seq::new(j as nat, g).push(g(j)));
    Seq::new(j as nat, g).lemma_flatten_push(g(j));
}

/// Facts on the state slots of the first `j` entities: each slot is valid,
/// belongs to an entity before `j`, and sits at its slot index; and each state
/// of those entities has its slot there.
proof fn lemma_upto(p: ProjectView, j: int)
    requires
        0 <= j <= p.entities.len(),
    ensures
        forall|k: int| 0 <= k < state_slots_upto(p, j).len() ==> {
            let s = #[trigger] state_slots_upto(p, j)[k];
            &&& valid_slot(p, s)
            &&& s.0 < j
            &&& slot_index(p, s.0, s.1) == k
        },
        forall|x: int, y: int|
            0 <= x < j && 0 <= y < p.entities[x].states.len() ==> #[trigger] slot_index(p, x, y)
                < state_slots_upto(p, j).len() && state_slots_upto(p, j)[slot_index(p, x, y)] == (
                x,
                y,
            ),
    decreases j,
{
    if j == 0 {
        assert(Seq::new(0, |j: int| Seq::new(p.entities[j].states.len(), |i: int| (j, i)))
            =~= Seq::empty());
        assert(state_slots_upto(p, 0) =~= Seq::empty());
    } else {
        lemma_upto(p, j - 1);
        lemma_upto_step(p, j - 1);
        let prev = state_slots_upto(p, j - 1);
        let cur = state_slots_upto(p, j);
        assert forall|k: int| 0 <= k < cur.len() implies {
            let s = #[trigger] cur[k];
            &&& valid_slot(p, s)
            &&& s.0 < j
            &&& slot_index(p, s.0, s.1) == k
        } by {
            if k < prev.len() {
                assert(cur[k] == prev[k]);
            } else {
                assert(cur[k] == (j - 1, k - prev.len()));
            }
        }
        assert forall|x: int, y: int|
            0 <= x < j && 0 <= y < p.entities[x].states.len() implies #[trigger] slot_index(p, x, y)
                < cur.len() && cur[slot_index(p, x, y)] == (x, y) by {
            if x < j - 1 {
                assert(cur[slot_index(p, x, y)] == prev[slot_index(p, x, y)]);
            } else {
                assert(slot_index(p, x, y) == prev.len() + y);
            }
        }
    }
}


proof fn lemma_states(p: ProjectView, j: int, i: int)
    requires
        project_wf(p),
        0 <= j <= p.entities.len(),
        j < p.entities.len() ==> 0 <= i <= p.entities[j].states.len(),
        j == p.entities.len() ==> i == 0,
    ensures
        replay_states(after_entities(p, p.entities.len() as int), state_rows_of(p).take(slot_index(p, j, i)))
            == Ok::<ProjectView, LoadError>(after_states(p, j, i)),
    decreases j, i,
{
    let n = p.entities.len() as int;
    let ents_done = after_entities(p, n);
    if j == 0 && i == 0 {
        assert(Seq::new(0, |j: int| Seq::new(p.entities[j].states.len(), |i: int| (j, i)))
            =~= Seq::empty());
        assert(state_slots_upto(p, 0) =~= Seq::empty());
        assert(state_rows_of(p).take(0) =~= Seq::empty());
        assert forall|x: int| 0 <= x < n implies #[trigger] after_states(p, 0, 0).entities[x] =~= ents_done.entities[x] by {
            if x == 0 {
                assert(strip_frames(p.entities[x].states.take(0)) =~= Seq::empty());
            }
        }
        assert(after_states(p, 0, 0) =~= ents_done);
    } else if i == 0 {
        let len = p.entities[j - 1].states.len() as int;
        lemma_states(p, j - 1, len);
        lemma_upto_step(p, j - 1);
        assert(slot_index(p, j - 1, len) == slot_index(p, j, 0));
        assert forall|x: int| 0 <= x < n implies #[trigger] after_states(p, j - 1, len).entities[x]
            =~= after_states(p, j, 0).entities[x] by {
            if x == j - 1 {
                assert(p.entities[x].states.take(len) =~= p.entities[x].states);
            }
            if x == j {
                assert(strip_frames(p.entities[x].states.take(0)) =~= Seq::empty());
            }
        }
        assert(after_states(p, j - 1, len) =~= after_states(p, j, 0));
    } else {
        lemma_states(p, j, i - 1);
        lemma_upto(p, n);
        let k = slot_index(p, j, i - 1);
        let sl = state_slots(p);
        assert(sl[k] == (j, i - 1));
        assert(slot_index(p, j, i) == k + 1);
        let rows = state_rows_of(p).take(k + 1);
        assert(rows.drop_last() =~= state_rows_of(p).take(k));
        assert(rows.last() == state_row_at(p, (j, i - 1), k));
        let q = after_states(p, j, i - 1);
        let e = p.entities[j];
        let sname = e.states[i - 1].name;
        assert(q.entities[j].name == e.name);
        assert(has_entity(q.entities, e.name));
        let m = entity_index(q.entities, e.name);
        assert(m == j) by {
            assert(q.entities[m].name == p.entities[m].name);
            if m != j {
                assert(p.entities[m].name != p.entities[j].name);
            }
        }
        assert(state_names_distinct(e.states));
        assert(!has_state(q.entities[j].states, sname)) by {
            if has_state(q.entities[j].states, sname) {
                let y = choose|y: int| 0 <= y < q.entities[j].states.len() && #[trigger] q.entities[j].states[y].name == sname;
                assert(q.entities[j].states[y].name == e.states[y].name);
                assert(e.states[y].name != e.states[i - 1].name);
            }
        }
        assert(crate::project::state_check(q, e.name, sname) is Ok);
        let r = crate::project::with_state(q, e.name, sname);
        assert(strip_frames(e.states.take(i)) =~= strip_frames(e.states.take(i - 1)).push(
            StateView { name: sname, frames: Seq::empty() },
        ));
        assert forall|x: int| 0 <= x < n implies #[trigger] r.entities[x] =~= after_states(p, j, i).entities[x] by {
        }
        assert(r =~= after_states(p, j, i));
    }
}


proof fn lemma_fupto_step(p: ProjectView, k: int)
    requires
        0 <= k < state_slots(p).len(),
    ensures
        frame_slots_upto(p, k + 1) == frame_slots_upto(p, k) + Seq::new(
            state_at(p, state_slots(p)[k]).frames.len(),
            |f: int| (k, f),
        ),
{
    let sl = state_slots(p);
    let g = |k: int| Seq::new(state_at(p, sl[k]).frames.len(), |f: int| (k, f));
    assert(Seq::new((k + 1) as nat, g) =~= Seq::new(k as nat, g).push(g(k)));
    Seq::new(k as nat, g).lemma_flatten_push(g(k));
}

proof fn lemma_fupto_index(p: ProjectView, n: int, k: int, f: int)
    requires
        0 <= k < n <= state_slots(p).len(),
        0 <= f < state_at(p, state_slots(p)[k]).frames.len(),
    ensures
        frame_slots_upto(p, k).len() + f < frame_slots_upto(p, n).len(),
        frame_slots_upto(p, n)[frame_slots_upto(p, k).len() + f] == (k, f),
    decreases n,
{
    lemma_fupto_step(p, n - 1);
    if k < n - 1 {
        lemma_fupto_index(p, n - 1, k, f);
    }
}

proof fn lemma_frames(p: ProjectView, k: int, f: int)
    requires
        project_wf(p),
        0 <= k <= state_slots(p).len(),
        k < state_slots(p).len() ==> 0 <= f <= state_at(p, state_slots(p)[k]).frames.len(),
        k == state_slots(p).len() ==> f == 0,
    ensures
        replay_frames(
            after_states(p, p.entities.len() as int, 0),
            state_rows_of(p),
            frame_rows_of(p).take(frame_slots_upto(p, k).len() + f),
        ) == Ok::<ProjectView, LoadError>(after_frames(p, k, f)),
    decreases k, f,
{
    let n = p.entities.len() as int;
    let states_done = after_states(p, n, 0);
    let sl = state_slots(p);
    lemma_upto(p, n);
    if k == 0 && f == 0 {
        assert(Seq::new(0, |k: int| Seq::new(state_at(p, sl[k]).frames.len(), |f: int| (k, f)))
            =~= Seq::empty());
        assert(frame_slots_upto(p, 0) =~= Seq::empty());
        assert(frame_rows_of(p).take(0) =~= Seq::empty());
        assert forall|x: int| 0 <= x < n implies #[trigger] after_frames(p, 0, 0).entities[x] =~= states_done.entities[x] by {
            assert forall|y: int| 0 <= y < p.entities[x].states.len() implies #[trigger] after_frames(p, 0, 0).entities[x].states[y]
                =~= states_done.entities[x].states[y] by {
                assert(p.entities[x].states[y].frames.take(0) =~= Seq::empty());
            }
        }
        assert(after_frames(p, 0, 0) =~= states_done);
    } else if f == 0 {
        let len = state_at(p, sl[k - 1]).frames.len() as int;
        lemma_frames(p, k - 1, len);
        lemma_fupto_step(p, k - 1);
        assert forall|x: int| 0 <= x < n implies #[trigger] after_frames(p, k - 1, len).entities[x]
            =~= after_frames(p, k, 0).entities[x] by {
            assert forall|y: int| 0 <= y < p.entities[x].states.len() implies #[trigger] after_frames(p, k - 1, len).entities[x].states[y]
                =~= after_frames(p, k, 0).entities[x].states[y] by {
                if slot_index(p, x, y) == k - 1 {
                    assert(sl[slot_index(p, x, y)] == (x, y));
                    assert(p.entities[x].states[y].frames.take(len) =~= p.entities[x].states[y].frames);
                }
                if slot_index(p, x, y) == k {
                    assert(p.entities[x].states[y].frames.take(0) =~= Seq::empty());
                }
            }
        }
        assert(after_frames(p, k - 1, len) =~= after_frames(p, k, 0));
    } else {
        lemma_frames(p, k, f - 1);
        lemma_fupto_index(p, sl.len() as int, k, f - 1);
        let m = frame_slots_upto(p, k).len() + f - 1;
        let fs = frame_slots(p);
        assert(fs[m] == (k, f - 1));
        let rows = frame_rows_of(p).take(m + 1);
        assert(rows.drop_last() =~= frame_rows_of(p).take(m));
        let row = frame_row_at(p, (k, f - 1), m);
        assert(rows.last() == row);
        let (x, y) = sl[k];
        assert(valid_slot(p, sl[k]));
        assert(slot_index(p, x, y) == k);
        let srow = state_rows_of(p)[k];
        assert(srow == state_row_at(p, (x, y), k));
        let q = after_frames(p, k, f - 1);
        let e = p.entities[x];
        let st = e.states[y];
        assert(q.entities[x].name == e.name);
        assert(has_entity(q.entities, e.name));
        let mi = entity_index(q.entities, e.name);
        assert(mi == x) by {
            assert(q.entities[mi].name == p.entities[mi].name);
            if mi != x {
                assert(p.entities[mi].name != p.entities[x].name);
            }
        }
        let qs = q.entities[x].states;
        assert(qs[y].name == st.name);
        assert(has_state(qs, st.name));
        assert(state_names_distinct(e.states));
        let si = state_index(qs, st.name);
        assert(si == y) by {
            assert(qs[si].name == e.states[si].name);
            if si != y {
                assert(e.states[si].name != e.states[y].name);
            }
        }
        assert(crate::project::frame_check(q, e.name, st.name) is Ok);
        assert(crate::project::states_of(q, e.name) == qs);
        assert(qs[y].frames =~= st.frames.take(f - 1));
        let r = crate::project::with_frame(q, e.name, st.name, row.frame);
        assert(row.frame == st.frames[f - 1]);
        assert forall|a: int| 0 <= a < n implies #[trigger] r.entities[a] =~= after_frames(p, k, f).entities[a] by {
            assert forall|b: int| 0 <= b < p.entities[a].states.len() implies #[trigger] r.entities[a].states[b]
                =~= after_frames(p, k, f).entities[a].states[b] by {
                if a == x && b == y {
                    assert(st.frames.take(f) =~= st.frames.take(f - 1).push(st.frames[f - 1]));
                } else if slot_index(p, a, b) == k {
                    assert(sl[slot_index(p, a, b)] == (a, b));
                }
            }
        }
        assert(r =~= after_frames(p, k, f));
    }
}

/// Saving a project and loading it back under its name rebuilds the same
/// tree: the same categories in the same order, the same entities with their
/// categories, the same states, and the same frames in the same order.
pub proof fn lemma_round_trip(p: ProjectView)
    requires
        project_wf(p),
    ensures
        replay_rows(p.name, rows_of(p)) == Ok::<ProjectView, LoadError>(p),
{
    let n = p.entities.len() as int;
    let sl = state_slots(p);
    lemma_categories(p, p.categories.len() as int);
    assert(category_rows_of(p).take(p.categories.len() as int) =~= category_rows_of(p));
    assert(after_categories(p, 0) =~= (ProjectView {
        name: p.name,
        categories: Seq::empty(),
        entities: Seq::empty(),
    }));
    lemma_entities(p, n);
    assert(entity_rows_of(p).take(n) =~= entity_rows_of(p));
    assert(p.categories.take(p.categories.len() as int) =~= p.categories);
    lemma_states(p, n, 0);
    assert(slot_index(p, n, 0) == sl.len());
    assert(state_rows_of(p).take(sl.len() as int) =~= state_rows_of(p));
    lemma_frames(p, sl.len() as int, 0);
    assert(frame_rows_of(p).take(frame_slots(p).len() as int) =~= frame_rows_of(p));
    lemma_upto(p, n);
    assert forall|x: int| 0 <= x < n implies #[trigger] after_frames(p, sl.len() as int, 0).entities[x] =~= p.entities[x] by {
        assert forall|y: int| 0 <= y < p.entities[x].states.len() implies #[trigger] after_frames(p, sl.len() as int, 0).entities[x].states[y]
            =~= p.entities[x].states[y] by {
            assert(slot_index(p, x, y) < sl.len());
        }
    }
    assert(after_frames(p, sl.len() as int, 0) =~= p);
}

} // verus!
