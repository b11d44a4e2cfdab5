use vstd::prelude::*;
use crate::entity::{has_state, state_index};
use crate::category::EntityCategory;
use crate::frame::{Frame, FrameView};
use crate::state::StateView;
use crate::project::{
    category_check, entity_check, frame_check, names_distinct, state_check, states_of,
    with_category, with_entity, with_frame, with_state, Project, ProjectView,
};

verus! {

/// Why a set of rows does not describe a project.
#[derive(Debug, Clone, Copy, PartialEq, Eq, Structural)]
pub enum LoadError {
    /// A row's id is not one more than the number of rows before it in its table.
    RowId,
    /// A row refers to a parent row that does not exist.
    MissingParent,
    /// A row repeats a name that must be unique, or names a category that is
    /// not registered.
    Conflict,
    /// A frame's position is not the number of frames its state already has.
    FrameOrder,
}

/// A row of the `category` table.
#[derive(Debug, Clone)]
pub struct CategoryRow {
    pub id: u64,
    pub name: String,
}

/// A row of the `entity` table.
#[derive(Debug, Clone)]
pub struct EntityRow {
    pub id: u64,
    pub category_id: u64,
    pub name: String,
}

/// A row of the `state` table.
#[derive(Debug, Clone)]
pub struct StateRow {
    pub id: u64,
    pub entity_id: u64,
    pub name: String,
}

/// A row of the `frame` table; `position` is the frame's place in its
/// state's playback order.
#[derive(Debug)]
pub struct FrameRow {
    pub id: u64,
    pub state_id: u64,
    pub position: u64,
    pub frame: Frame,
}

/// The four tables of a saved project, each in id order.
#[derive(Debug)]
pub struct ProjectRows {
    pub categories: Vec<CategoryRow>,
    pub entities: Vec<EntityRow>,
    pub states: Vec<StateRow>,
    pub frames: Vec<FrameRow>,
}

pub struct CategoryRowView {
    pub id: int,
    pub name: Seq<char>,
}

pub struct EntityRowView {
    pub id: int,
    pub category_id: int,
    pub name: Seq<char>,
}

pub struct StateRowView {
    pub id: int,
    pub entity_id: int,
    pub name: Seq<char>,
}

pub struct FrameRowView {
    pub id: int,
    pub state_id: int,
    pub position: int,
    pub frame: FrameView,
}

#[verifier::ext_equal]
pub struct RowsView {
    pub categories: Seq<CategoryRowView>,
    pub entities: Seq<EntityRowView>,
    pub states: Seq<StateRowView>,
    pub frames: Seq<FrameRowView>,
}

impl View for CategoryRow {
    type V = CategoryRowView;

    open spec fn view(&self) -> CategoryRowView {
        CategoryRowView { id: self.id as int, name: self.name@ }
    }
}

impl View for EntityRow {
    type V = EntityRowView;

    open spec fn view(&self) -> EntityRowView {
        EntityRowView { id: self.id as int, category_id: self.category_id as int, name: self.name@ }
    }
}

impl View for StateRow {
    type V = StateRowView;

    open spec fn view(&self) -> StateRowView {
        StateRowView { id: self.id as int, entity_id: self.entity_id as int, name: self.name@ }
    }
}

impl View for FrameRow {
    type V = FrameRowView;

    open spec fn view(&self) -> FrameRowView {
        FrameRowView {
            id: self.id as int,
            state_id: self.state_id as int,
            position: self.position as int,
            frame: self.frame@,
        }
    }
}

impl View for ProjectRows {
    type V = RowsView;

    open spec fn view(&self) -> RowsView {
        RowsView {
            categories: self.categories@.map_values(|r: CategoryRow| r@),
            entities: self.entities@.map_values(|r: EntityRow| r@),
            states: self.states@.map_values(|r: StateRow| r@),
            frames: self.frames@.map_values(|r: FrameRow| r@),
        }
    }
}

// Loading replays the rows, table by table and in id order, as the project
// operations that created them.

/// The project that the category rows build on `p`.
pub open spec fn replay_categories(p: ProjectView, rows: Seq<CategoryRowView>) -> Result<ProjectView, LoadError>
    decreases rows.len(),
{
    if rows.len() == 0 {
        Ok(p)
    } else {
        match replay_categories(p, rows.drop_last()) {
            Err(e) => Err(e),
            Ok(q) => {
                let r = rows.last();
                if r.id != rows.len() {
                    Err(LoadError::RowId)
                } else if category_check(q, r.name) is Err {
                    Err(LoadError::Conflict)
                } else {
                    Ok(with_category(q, r.name))
                }
            },
        }
    }
}

/// The project that the entity rows build on `p`; an entity row names its
/// category by the id of the category row, which is its position plus one.
pub open spec fn replay_entities(p: ProjectView, rows: Seq<EntityRowView>) -> Result<ProjectView, LoadError>
    decreases rows.len(),
{
    if rows.len() == 0 {
        Ok(p)
    } else {
        match replay_entities(p, rows.drop_last()) {
            Err(e) => Err(e),
            Ok(q) => {
                let r = rows.last();
                if r.id != rows.len() {
                    Err(LoadError::RowId)
                } else if !(1 <= r.category_id <= q.categories.len()) {
                    Err(LoadError::MissingParent)
                } else if entity_check(q, q.categories[r.category_id - 1], r.name) is Err {
                    Err(LoadError::Conflict)
                } else {
                    Ok(with_entity(q, q.categories[r.category_id - 1], r.name))
                }
            },
        }
    }
}

/// The project that the state rows build on `p`.
pub open spec fn replay_states(p: ProjectView, rows: Seq<StateRowView>) -> Result<ProjectView, LoadError>
    decreases rows.len(),
{
    if rows.len() == 0 {
        Ok(p)
    } else {
        match replay_states(p, rows.drop_last()) {
            Err(e) => Err(e),
            Ok(q) => {
                let r = rows.last();
                if r.id != rows.len() {
                    Err(LoadError::RowId)
                } else if !(1 <= r.entity_id <= q.entities.len()) {
                    Err(LoadError::MissingParent)
                } else if state_check(q, q.entities[r.entity_id - 1].name, r.name) is Err {
                    Err(LoadError::Conflict)
                } else {
                    Ok(with_state(q, q.entities[r.entity_id - 1].name, r.name))
                }
            },
        }
    }
}

/// The project that the frame rows build on `p`, given the state rows.
pub open spec fn replay_frames(
    p: ProjectView,
    states: Seq<StateRowView>,
    rows: Seq<FrameRowView>,
) -> Result<ProjectView, LoadError>
    decreases rows.len(),
{
    if rows.len() == 0 {
        Ok(p)
    } else {
        match replay_frames(p, states, rows.drop_last()) {
            Err(e) => Err(e),
            Ok(q) => {
                let r = rows.last();
                if r.id != rows.len() {
                    Err(LoadError::RowId)
                } else if !(1 <= r.state_id <= states.len()) {
                    Err(LoadError::MissingParent)
                } else {
                    let s = states[r.state_id - 1];
                    if !(1 <= s.entity_id <= q.entities.len()) {
                        Err(LoadError::MissingParent)
                    } else {
                        let e = q.entities[s.entity_id - 1].name;
                        if frame_check(q, e, s.name) is Err {
                            Err(LoadError::MissingParent)
                        } else if r.position != states_of(q, e)[state_index(
                            states_of(q, e),
                            s.name,
                        )].frames.len() {
                            Err(LoadError::FrameOrder)
                        } else {
                            Ok(with_frame(q, e, s.name, r.frame))
                        }
                    }
                }
            },
        }
    }
}

/// The project that the rows describe, under the given name.
pub open spec fn replay_rows(name: Seq<char>, rows: RowsView) -> Result<ProjectView, LoadError> {
    let start = ProjectView { name, categories: Seq::empty(), entities: Seq::empty() };
    match replay_categories(start, rows.categories) {
        Err(e) => Err(e),
        Ok(cats_done) => match replay_entities(cats_done, rows.entities) {
            Err(e) => Err(e),
            Ok(ents_done) => match replay_states(ents_done, rows.states) {
                Err(e) => Err(e),
                Ok(states_done) => replay_frames(states_done, rows.states, rows.frames),
            },
        },
    }
}


proof fn lemma_categories_stop(p: ProjectView, rows: Seq<CategoryRowView>, k: int)
    requires
        0 <= k <= rows.len(),
        replay_categories(p, rows.take(k)) is Err,
    ensures
        replay_categories(p, rows) == replay_categories(p, rows.take(k)),
    decreases rows.len() - k,
{
    if k < rows.len() {
        assert(rows.take(k + 1).drop_last() =~= rows.take(k));
        lemma_categories_stop(p, rows, k + 1);
    } else {
        assert(rows.take(k) =~= rows);
    }
}

proof fn lemma_entities_stop(p: ProjectView, rows: Seq<EntityRowView>, k: int)
    requires
        0 <= k <= rows.len(),
        replay_entities(p, rows.take(k)) is Err,
    ensures
        replay_entities(p, rows) == replay_entities(p, rows.take(k)),
    decreases rows.len() - k,
{
    if k < rows.len() {
        assert(rows.take(k + 1).drop_last() =~= rows.take(k));
        lemma_entities_stop(p, rows, k + 1);
    } else {
        assert(rows.take(k) =~= rows);
    }
}

proof fn lemma_states_stop(p: ProjectView, rows: Seq<StateRowView>, k: int)
    requires
        0 <= k <= rows.len(),
        replay_states(p, rows.take(k)) is Err,
    ensures
        replay_states(p, rows) == replay_states(p, rows.take(k)),
    decreases rows.len() - k,
{
    if k < rows.len() {
        assert(rows.take(k + 1).drop_last() =~= rows.take(k));
        lemma_states_stop(p, rows, k + 1);
    } else {
        assert(rows.take(k) =~= rows);
    }
}

proof fn lemma_frames_stop(
    p: ProjectView,
    states: Seq<StateRowView>,
    rows: Seq<FrameRowView>,
    k: int,
)
    requires
        0 <= k <= rows.len(),
        replay_frames(p, states, rows.take(k)) is Err,
    ensures
        replay_frames(p, states, rows) == replay_frames(p, states, rows.take(k)),
    decreases rows.len() - k,
{
    if k < rows.len() {
        assert(rows.take(k + 1).drop_last() =~= rows.take(k));
        lemma_frames_stop(p, states, rows, k + 1);
    } else {
        assert(rows.take(k) =~= rows);
    }
}

/// Rebuilds a project from its rows by replaying them, table by table and in
/// id order, as the operations that created them.
pub fn from_rows(name: String, rows: &ProjectRows) -> (r: Result<Project, LoadError>)
    ensures
        match replay_rows(name@, rows@) {
            Ok(v) => r matches Ok(p) && p@ == v && p.wf(),
            Err(e) => r == Err::<Project, LoadError>(e),
        },
{
    let ghost start = ProjectView { name: name@, categories: Seq::empty(), entities: Seq::empty() };
    let mut project = Project::empty(name);
    let ghost rv = rows@;
    // categories
    let mut k: usize = 0;
    while k < rows.categories.len()
        invariant
            0 <= k <= rows.categories.len(),
            rv == rows@,
            start == (ProjectView { name: name@, categories: Seq::empty(), entities: Seq::empty() }),
            project.wf(),
            replay_categories(start, rv.categories.take(k as int)) == Ok::<ProjectView, LoadError>(project@),
        decreases rows.categories.len() - k,
    {
        let row = &rows.categories[k];
        assert(rv.categories.take(k + 1).drop_last() =~= rv.categories.take(k as int));
        assert(rv.categories.take(k + 1).last() == row@);
        if row.id != k as u64 + 1 {
            proof {
                assert(replay_categories(start, rv.categories.take(k + 1)) == Err::<ProjectView, LoadError>(LoadError::RowId));
                lemma_categories_stop(start, rv.categories, k + 1);
                assert(replay_categories(start, rv.categories) == Err::<ProjectView, LoadError>(LoadError::RowId));
                assert(replay_rows(name@, rows@) == Err::<ProjectView, LoadError>(LoadError::RowId));
            }
            return Err(LoadError::RowId);
        }
        match project.add_category(row.name.as_str()) {
            Ok(()) => {},
            Err(_) => {
                proof {
                    assert(replay_categories(start, rv.categories.take(k + 1)) == Err::<ProjectView, LoadError>(LoadError::Conflict));
                    lemma_categories_stop(start, rv.categories, k + 1);
                    assert(replay_categories(start, rv.categories) == Err::<ProjectView, LoadError>(LoadError::Conflict));
                    assert(replay_rows(name@, rows@) == Err::<ProjectView, LoadError>(LoadError::Conflict));
                }
                return Err(LoadError::Conflict);
            },
        }
        k = k + 1;
    }
    assert(rv.categories.take(k as int) =~= rv.categories);
    let ghost cats_done = project@;
    // entities
    let mut k: usize = 0;
    while k < rows.entities.len()
        invariant
            0 <= k <= rows.entities.len(),
            rv == rows@,
            start == (ProjectView { name: name@, categories: Seq::empty(), entities: Seq::empty() }),
            project.wf(),
            replay_categories(start, rv.categories) == Ok::<ProjectView, LoadError>(cats_done),
            replay_entities(cats_done, rv.entities.take(k as int)) == Ok::<ProjectView, LoadError>(project@),
        decreases rows.entities.len() - k,
    {
        let row = &rows.entities[k];
        assert(rv.entities.take(k + 1).drop_last() =~= rv.entities.take(k as int));
        assert(rv.entities.take(k + 1).last() == row@);
        if row.id != k as u64 + 1 {
            proof {
                assert(replay_entities(cats_done, rv.entities.take(k + 1)) == Err::<ProjectView, LoadError>(LoadError::RowId));
                lemma_entities_stop(cats_done, rv.entities, k + 1);
                assert(replay_entities(cats_done, rv.entities) == Err::<ProjectView, LoadError>(LoadError::RowId));
                assert(replay_rows(name@, rows@) == Err::<ProjectView, LoadError>(LoadError::RowId));
            }
            return Err(LoadError::RowId);
        }
        if row.category_id < 1 || row.category_id > project.categories().len() as u64 {
            proof {
                assert(replay_entities(cats_done, rv.entities.take(k + 1)) == Err::<ProjectView, LoadError>(LoadError::MissingParent));
                lemma_entities_stop(cats_done, rv.entities, k + 1);
                assert(replay_entities(cats_done, rv.entities) == Err::<ProjectView, LoadError>(LoadError::MissingParent));
                assert(replay_rows(name@, rows@) == Err::<ProjectView, LoadError>(LoadError::MissingParent));
            }
            return Err(LoadError::MissingParent);
        }
        let category = project.categories()[(row.category_id - 1) as usize].duplicate();
        assert(category@ == project@.categories[row.category_id - 1]);
        match project.add_entity(&category, row.name.as_str()) {
            Ok(()) => {},
            Err(_) => {
                proof {
                    assert(replay_entities(cats_done, rv.entities.take(k + 1)) == Err::<ProjectView, LoadError>(LoadError::Conflict));
                    lemma_entities_stop(cats_done, rv.entities, k + 1);
                    assert(replay_entities(cats_done, rv.entities) == Err::<ProjectView, LoadError>(LoadError::Conflict));
                    assert(replay_rows(name@, rows@) == Err::<ProjectView, LoadError>(LoadError::Conflict));
                }
                return Err(LoadError::Conflict);
            },
        }
        k = k + 1;
    }
    assert(rv.entities.take(k as int) =~= rv.entities);
    let ghost ents_done = project@;
    // states
    let mut k: usize = 0;
    while k < rows.states.len()
        invariant
            0 <= k <= rows.states.len(),
            rv == rows@,
            start == (ProjectView { name: name@, categories: Seq::empty(), entities: Seq::empty() }),
            project.wf(),
            replay_categories(start, rv.categories) == Ok::<ProjectView, LoadError>(cats_done),
            replay_entities(cats_done, rv.entities) == Ok::<ProjectView, LoadError>(ents_done),
            replay_states(ents_done, rv.states.take(k as int)) == Ok::<ProjectView, LoadError>(project@),
        decreases rows.states.len() - k,
    {
        let row = &rows.states[k];
        assert(rv.states.take(k + 1).drop_last() =~= rv.states.take(k as int));
        assert(rv.states.take(k + 1).last() == row@);
        if row.id != k as u64 + 1 {
            proof {
                assert(replay_states(ents_done, rv.states.take(k + 1)) == Err::<ProjectView, LoadError>(LoadError::RowId));
                lemma_states_stop(ents_done, rv.states, k + 1);
                assert(replay_states(ents_done, rv.states) == Err::<ProjectView, LoadError>(LoadError::RowId));
                assert(replay_rows(name@, rows@) == Err::<ProjectView, LoadError>(LoadError::RowId));
            }
            return Err(LoadError::RowId);
        }
        if row.entity_id < 1 || row.entity_id > project.entities().len() as u64 {
            proof {
                assert(replay_states(ents_done, rv.states.take(k + 1)) == Err::<ProjectView, LoadError>(LoadError::MissingParent));
                lemma_states_stop(ents_done, rv.states, k + 1);
                assert(replay_states(ents_done, rv.states) == Err::<ProjectView, LoadError>(LoadError::MissingParent));
                assert(replay_rows(name@, rows@) == Err::<ProjectView, LoadError>(LoadError::MissingParent));
            }
            return Err(LoadError::MissingParent);
        }
        let entity_name = project.entities()[(row.entity_id - 1) as usize].name.clone();
        assert(entity_name@ == project@.entities[row.entity_id - 1].name);
        match project.add_entity_state(entity_name.as_str(), row.name.as_str()) {
            Ok(()) => {},
            Err(_) => {
                proof {
                    assert(replay_states(ents_done, rv.states.take(k + 1)) == Err::<ProjectView, LoadError>(LoadError::Conflict));
                    lemma_states_stop(ents_done, rv.states, k + 1);
                    assert(replay_states(ents_done, rv.states) == Err::<ProjectView, LoadError>(LoadError::Conflict));
                    assert(replay_rows(name@, rows@) == Err::<ProjectView, LoadError>(LoadError::Conflict));
                }
                return Err(LoadError::Conflict);
            },
        }
        k = k + 1;
    }
    assert(rv.states.take(k as int) =~= rv.states);
    let ghost states_done = project@;
    // frames
    let mut k: usize = 0;
    while k < rows.frames.len()
        invariant
            0 <= k <= rows.frames.len(),
            rv == rows@,
            start == (ProjectView { name: name@, categories: Seq::empty(), entities: Seq::empty() }),
            project.wf(),
            replay_categories(start, rv.categories) == Ok::<ProjectView, LoadError>(cats_done),
            replay_entities(cats_done, rv.entities) == Ok::<ProjectView, LoadError>(ents_done),
            replay_states(ents_done, rv.states) == Ok::<ProjectView, LoadError>(states_done),
            replay_frames(states_done, rv.states, rv.frames.take(k as int)) == Ok::<ProjectView, LoadError>(project@),
        decreases rows.frames.len() - k,
    {
        let row = &rows.frames[k];
        assert(rv.frames.take(k + 1).drop_last() =~= rv.frames.take(k as int));
        assert(rv.frames.take(k + 1).last() == row@);
        if row.id != k as u64 + 1 {
            proof {
                assert(replay_frames(states_done, rv.states, rv.frames.take(k + 1)) == Err::<ProjectView, LoadError>(LoadError::RowId));
                lemma_frames_stop(states_done, rv.states, rv.frames, k + 1);
                assert(replay_frames(states_done, rv.states, rv.frames) == Err::<ProjectView, LoadError>(LoadError::RowId));
                assert(replay_rows(name@, rows@) == Err::<ProjectView, LoadError>(LoadError::RowId));
            }
            return Err(LoadError::RowId);
        }
        if row.state_id < 1 || row.state_id > rows.states.len() as u64 {
            proof {
                assert(replay_frames(states_done, rv.states, rv.frames.take(k + 1)) == Err::<ProjectView, LoadError>(LoadError::MissingParent));
                lemma_frames_stop(states_done, rv.states, rv.frames, k + 1);
                assert(replay_frames(states_done, rv.states, rv.frames) == Err::<ProjectView, LoadError>(LoadError::MissingParent));
                assert(replay_rows(name@, rows@) == Err::<ProjectView, LoadError>(LoadError::MissingParent));
            }
            return Err(LoadError::MissingParent);
        }
        let srow = &rows.states[(row.state_id - 1) as usize];
        assert(srow@ == rv.states[row.state_id - 1]);
        if srow.entity_id < 1 || srow.entity_id > project.entities().len() as u64 {
            proof {
                assert(replay_frames(states_done, rv.states, rv.frames.take(k + 1)) == Err::<ProjectView, LoadError>(LoadError::MissingParent));
                lemma_frames_stop(states_done, rv.states, rv.frames, k + 1);
                assert(replay_frames(states_done, rv.states, rv.frames) == Err::<ProjectView, LoadError>(LoadError::MissingParent));
                assert(replay_rows(name@, rows@) == Err::<ProjectView, LoadError>(LoadError::MissingParent));
            }
            return Err(LoadError::MissingParent);
        }
        let ei: usize = (srow.entity_id - 1) as usize;
        let entity_name = project.entities()[ei].name.clone();
        assert(entity_name@ == project@.entities[ei as int].name);
        let found = project.find_entity(entity_name.as_str());
        assert(found is Some);
        let i = found.unwrap();
        let ents = project.entities();
        assert(project@.entities[i as int] == ents@[i as int]@);
        let j = match ents[i].find_state(srow.name.as_str()) {
            Some(j) => j,
            None => {
                proof {
                    assert(replay_frames(states_done, rv.states, rv.frames.take(k + 1)) == Err::<ProjectView, LoadError>(LoadError::MissingParent));
                    lemma_frames_stop(states_done, rv.states, rv.frames, k + 1);
                    assert(replay_frames(states_done, rv.states, rv.frames) == Err::<ProjectView, LoadError>(LoadError::MissingParent));
                    assert(replay_rows(name@, rows@) == Err::<ProjectView, LoadError>(LoadError::MissingParent));
                }
                return Err(LoadError::MissingParent);
            },
        };
        proof {
            let ss = project@.entities[i as int].states;
            assert(has_state(ss, srow.name@));
            let m = state_index(ss, srow.name@);
            assert(ss[m].name == srow.name@);
            assert(crate::entity::state_names_distinct(ss));
            assert(m == j) by {
                if m != j {
                    assert(ss[m].name != ss[j as int].name);
                }
            }
            assert(states_of(project@, entity_name@) == ss);
        }
        assert(ents@[i as int]@.states[j as int] == ents@[i as int].states@[j as int]@);
        if row.position != ents[i].states[j].frames.len() as u64 {
            proof {
                assert(replay_frames(states_done, rv.states, rv.frames.take(k + 1)) == Err::<ProjectView, LoadError>(LoadError::FrameOrder));
                lemma_frames_stop(states_done, rv.states, rv.frames, k + 1);
                assert(replay_frames(states_done, rv.states, rv.frames) == Err::<ProjectView, LoadError>(LoadError::FrameOrder));
                assert(replay_rows(name@, rows@) == Err::<ProjectView, LoadError>(LoadError::FrameOrder));
            }
            return Err(LoadError::FrameOrder);
        }
        let added = project.add_frame(entity_name.as_str(), srow.name.as_str(), row.frame.duplicate());
        assert(added is Ok);
        k = k + 1;
    }
    assert(rv.frames.take(k as int) =~= rv.frames);
    Ok(project)
}


// Saving writes each table in creation order: categories, entities, then the
// states of each entity in turn, then the frames of each state in turn.

/// The category rows of `p`: one per category, numbered from one.
pub open spec fn category_rows_of(p: ProjectView) -> Seq<CategoryRowView> {
    Seq::new(p.categories.len(), |k: int| CategoryRowView { id: k + 1, name: p.categories[k] })
}

/// The position of the category named `name`, where there is one.
pub open spec fn category_position(categories: Seq<Seq<char>>, name: Seq<char>) -> int {
    choose|k: int| 0 <= k < categories.len() && categories[k] == name
}

/// The entity rows of `p`: one per entity, numbered from one, each naming
/// the row of its category.
pub open spec fn entity_rows_of(p: ProjectView) -> Seq<EntityRowView> {
    Seq::new(
        p.entities.len(),
        |j: int|
            EntityRowView {
                id: j + 1,
                category_id: category_position(p.categories, p.entities[j].category) + 1,
                name: p.entities[j].name,
            },
    )
}

/// The slots (entity position, state position) of the entities' first `n`
/// entries, entity by entity.
pub open spec fn state_slots_upto(p: ProjectView, n: int) -> Seq<(int, int)> {
    Seq::new(
        n as nat,
        |j: int| Seq::new(p.entities[j].states.len(), |i: int| (j, i)),
    ).flatten()
}

/// The slots (entity position, state position) of all states of `p`, entity
/// by entity; a state's row is its slot's position plus one.
pub open spec fn state_slots(p: ProjectView) -> Seq<(int, int)> {
    state_slots_upto(p, p.entities.len() as int)
}

/// The state at a slot.
pub open spec fn state_at(p: ProjectView, slot: (int, int)) -> StateView {
    p.entities[slot.0].states[slot.1]
}

/// The row of the state at slot `slot`, the `k`-th of the table.
pub open spec fn state_row_at(p: ProjectView, slot: (int, int), k: int) -> StateRowView {
    StateRowView { id: k + 1, entity_id: slot.0 + 1, name: state_at(p, slot).name }
}

/// The state rows of `p`.
pub open spec fn state_rows_of(p: ProjectView) -> Seq<StateRowView> {
    let sl = state_slots(p);
    Seq::new(sl.len(), |k: int| state_row_at(p, sl[k], k))
}

/// The slots (state row position, frame position) of the frames of the
/// first `n` state slots, state by state.
pub open spec fn frame_slots_upto(p: ProjectView, n: int) -> Seq<(int, int)> {
    let sl = state_slots(p);
    Seq::new(
        n as nat,
        |k: int| Seq::new(state_at(p, sl[k]).frames.len(), |f: int| (k, f)),
    ).flatten()
}

/// The slots of all frames of `p`.
pub open spec fn frame_slots(p: ProjectView) -> Seq<(int, int)> {
    frame_slots_upto(p, state_slots(p).len() as int)
}

/// The row of the frame at slot `slot`, the `m`-th of the table.
pub open spec fn frame_row_at(p: ProjectView, slot: (int, int), m: int) -> FrameRowView {
    FrameRowView {
        id: m + 1,
        state_id: slot.0 + 1,
        position: slot.1,
        frame: state_at(p, state_slots(p)[slot.0]).frames[slot.1],
    }
}

/// The frame rows of `p`.
pub open spec fn frame_rows_of(p: ProjectView) -> Seq<FrameRowView> {
    let fs = frame_slots(p);
    Seq::new(fs.len(), |m: int| frame_row_at(p, fs[m], m))
}

/// The rows that saving `p` writes.
pub open spec fn rows_of(p: ProjectView) -> RowsView {
    RowsView {
        categories: category_rows_of(p),
        entities: entity_rows_of(p),
        states: state_rows_of(p),
        frames: frame_rows_of(p),
    }
}

proof fn lemma_flatten_prefix_len<A>(s: Seq<Seq<A>>, k: int)
    requires
        0 <= k <= s.len(),
    ensures
        s.take(k).flatten().len() <= s.flatten().len(),
        k < s.len() ==> s.take(k).flatten().len() + s[k].len() <= s.flatten().len(),
        k < s.len() ==> s.take(k + 1).flatten() == s.take(k).flatten() + s[k],
{
    broadcast use Seq::lemma_flatten_push;
    vstd::seq_lib::lemma_flatten_concat(s.take(k), s.skip(k));
    assert(s.take(k) + s.skip(k) =~= s);
    if k < s.len() {
        assert(s.take(k + 1) =~= s.take(k).push(s[k]));
        vstd::seq_lib::lemma_flatten_concat(s.take(k + 1), s.skip(k + 1));
        assert(s.take(k + 1) + s.skip(k + 1) =~= s);
    }
}

/// The position of the category named `name` in `categories`.
fn category_position_of(categories: &Vec<EntityCategory>, name: &String) -> (r: usize)
    requires
        categories@.map_values(|c: EntityCategory| c@).contains(name@),
        names_distinct(categories@.map_values(|c: EntityCategory| c@)),
    ensures
        r == category_position(categories@.map_values(|c: EntityCategory| c@), name@),
        r < categories.len(),
{
    let ghost cs = categories@.map_values(|c: EntityCategory| c@);
    let mut k: usize = 0;
    while k < categories.len()
        invariant
            0 <= k <= categories.len(),
            cs == categories@.map_values(|c: EntityCategory| c@),
            cs.contains(name@),
            names_distinct(cs),
            forall|x: int| 0 <= x < k ==> cs[x] != name@,
        decreases categories.len() - k,
    {
        if categories[k].name == *name {
            proof {
                let c = category_position(cs, name@);
                assert(cs[k as int] == name@);
                assert(c == k) by {
                    if c != k {
                        assert(cs[c] != cs[k as int]);
                    }
                }
            }
            return k;
        }
        k = k + 1;
    }
    proof {
        let w = choose|x: int| 0 <= x < cs.len() && cs[x] == name@;
        assert(cs[w] == name@);
    }
    0
}


/// The rows that save the project: its categories, its entities, their
/// states and the states' frames, each table in creation order with ids
/// numbered from one, every child row naming the id of its parent row;
/// `None` where there are more states or more frames than 64-bit ids can
/// number.
pub fn to_rows(project: &Project) -> (r: Option<ProjectRows>)
    requires
        project.wf(),
    ensures
        r is Some <==> state_slots(project@).len() <= u64::MAX && frame_slots(project@).len()
            <= u64::MAX,
        r matches Some(rows) ==> rows@ == rows_of(project@),
{
    let ghost p = project@;
    let cats = project.categories();
    let ents = project.entities();
    // categories
    let mut crows: Vec<CategoryRow> = Vec::new();
    let mut k: usize = 0;
    while k < cats.len()
        invariant
            p == project@,
            0 <= k <= cats.len(),
            cats@.map_values(|c: EntityCategory| c@) == p.categories,
            crows.len() == k,
            forall|x: int| 0 <= x < k ==> #[trigger] crows@[x]@ == category_rows_of(p)[x],
        decreases cats.len() - k,
    {
        crows.push(CategoryRow { id: k as u64 + 1, name: cats[k].name.clone() });
        k = k + 1;
    }
    assert(crows@.map_values(|r: CategoryRow| r@) =~= category_rows_of(p));
    // entities
    let mut erows: Vec<EntityRow> = Vec::new();
    let mut j: usize = 0;
    while j < ents.len()
        invariant
            p == project@,
            0 <= j <= ents.len(),
            cats@.map_values(|c: EntityCategory| c@) == p.categories,
            ents@.map_values(|e: crate::entity::Entity| e@) == p.entities,
            crate::project::project_wf(p),
            erows.len() == j,
            forall|x: int| 0 <= x < j ==> #[trigger] erows@[x]@ == entity_rows_of(p)[x],
        decreases ents.len() - j,
    {
        assert(p.categories.contains(p.entities[j as int].category));
        let c = category_position_of(cats, &ents[j].category.name);
        erows.push(EntityRow { id: j as u64 + 1, category_id: c as u64 + 1, name: ents[j].name.clone() });
        j = j + 1;
    }
    assert(erows@.map_values(|r: EntityRow| r@) =~= entity_rows_of(p));
    // states
    let ghost gs = Seq::new(
        p.entities.len(),
        |j: int| Seq::new(p.entities[j].states.len(), |i: int| (j, i)),
    );
    let mut slots: Vec<(usize, usize)> = Vec::new();
    let mut srows: Vec<StateRow> = Vec::new();
    let mut j: usize = 0;
    while j < ents.len()
        invariant
            p == project@,
            0 <= j <= ents.len(),
            ents@.map_values(|e: crate::entity::Entity| e@) == p.entities,
            srows.len() <= u64::MAX,
            gs == Seq::new(
                p.entities.len(),
                |j: int| Seq::new(p.entities[j].states.len(), |i: int| (j, i)),
            ),
            gs.take(j as int).flatten() == state_slots_upto(p, j as int),
            slots.len() == srows.len() == state_slots_upto(p, j as int).len(),
            forall|x: int| 0 <= x < slots.len() ==> valid_slot(p, (#[trigger] slots@[x].0 as int, slots@[x].1 as int)),
            forall|x: int| 0 <= x < slots.len() ==> (#[trigger] slots@[x].0 as int, slots@[x].1 as int)
                == state_slots_upto(p, j as int)[x],
            forall|x: int| 0 <= x < srows.len() ==> #[trigger] srows@[x]@ == state_row_at(
                p,
                state_slots_upto(p, j as int)[x],
                x,
            ),
        decreases ents.len() - j,
    {
        let ghost base = state_slots_upto(p, j as int);
        proof {
            lemma_flatten_prefix_len(gs, j as int);
            assert(gs =~= gs.take(gs.len() as int));
            assert(gs.flatten() == state_slots(p));
        }
        let mut i: usize = 0;
        while i < ents[j].states.len()
            invariant
                p == project@,
                0 <= j < ents.len(),
                0 <= i <= ents[j as int].states.len(),
                ents@.map_values(|e: crate::entity::Entity| e@) == p.entities,
                base.len() + gs[j as int].len() <= state_slots(p).len(),
                srows.len() <= u64::MAX,
                gs[j as int] == Seq::new(p.entities[j as int].states.len(), |i: int| (j as int, i)),
                slots.len() == srows.len() == base.len() + i,
                forall|x: int| 0 <= x < slots.len() ==> valid_slot(p, (#[trigger] slots@[x].0 as int, slots@[x].1 as int)),
                forall|x: int| 0 <= x < base.len() ==> (#[trigger] slots@[x].0 as int, slots@[x].1 as int)
                    == base[x],
                forall|x: int| 0 <= x < base.len() ==> #[trigger] srows@[x]@ == state_row_at(p, base[x], x),
                forall|x: int| base.len() <= x < slots.len() ==> (#[trigger] slots@[x].0 as int, slots@[x].1 as int)
                    == (j as int, x - base.len()),
                forall|x: int| base.len() <= x < srows.len() ==> #[trigger] srows@[x]@ == state_row_at(
                    p,
                    (j as int, x - base.len()),
                    x,
                ),
            decreases ents[j as int].states.len() - i,
        {
            assert(ents@[j as int]@ == p.entities[j as int]);
            assert(ents@[j as int].states.len() == p.entities[j as int].states.len());
            if srows.len() as u64 == u64::MAX {
                assert(srows.len() == u64::MAX);
                assert(gs[j as int].len() == p.entities[j as int].states.len());
                assert(state_slots(p).len() > u64::MAX);
                return None;
            }
            let id = srows.len() as u64 + 1;
            srows.push(StateRow { id, entity_id: j as u64 + 1, name: ents[j].states[i].name.clone() });
            slots.push((j, i));
            i = i + 1;
        }
        proof {
            assert(ents@[j as int]@ == p.entities[j as int]);
            lemma_flatten_prefix_len(gs, j as int);
            assert(gs.take(j + 1) =~= Seq::new(
                (j + 1) as nat,
                |j: int| Seq::new(p.entities[j].states.len(), |i: int| (j, i)),
            ));
            let next = state_slots_upto(p, j + 1);
            assert(next == base + gs[j as int]);
            assert forall|x: int| 0 <= x < slots.len() implies (#[trigger] slots@[x].0 as int, slots@[x].1 as int)
                == next[x] by {
                if x >= base.len() {
                    assert(next[x] == gs[j as int][x - base.len()]);
                }
            }
        }
        j = j + 1;
    }
    proof {
        assert(gs.take(j as int) =~= gs);
    }
    assert(srows@.map_values(|r: StateRow| r@) =~= state_rows_of(p));
    assert forall|x: int| 0 <= x < slots.len() implies #[trigger] valid_slot(p, state_slots(p)[x]) by {
        assert(valid_slot(p, (slots@[x].0 as int, slots@[x].1 as int)));
    }
    // frames
    let ghost sl = state_slots(p);
    let ghost gf = Seq::new(
        sl.len(),
        |k: int| Seq::new(state_at(p, sl[k]).frames.len(), |f: int| (k, f)),
    );
    let mut frows: Vec<FrameRow> = Vec::new();
    let mut k: usize = 0;
    while k < slots.len()
        invariant
            p == project@,
            0 <= k <= slots.len(),
            ents@.map_values(|e: crate::entity::Entity| e@) == p.entities,
            crate::project::project_wf(p),
            sl == state_slots(p),
            sl.len() <= u64::MAX,
            slots.len() == sl.len(),
            forall|x: int| 0 <= x < slots.len() ==> (#[trigger] slots@[x].0 as int, slots@[x].1 as int)
                == sl[x],
            forall|x: int| 0 <= x < slots.len() ==> #[trigger] valid_slot(p, sl[x]),
            frows.len() <= u64::MAX,
            gf == Seq::new(
                sl.len(),
                |k: int| Seq::new(state_at(p, sl[k]).frames.len(), |f: int| (k, f)),
            ),
            gf.take(k as int).flatten() == frame_slots_upto(p, k as int),
            frows.len() == frame_slots_upto(p, k as int).len(),
            forall|x: int| 0 <= x < frows.len() ==> #[trigger] frows@[x]@ == frame_row_at(
                p,
                frame_slots_upto(p, k as int)[x],
                x,
            ),
        decreases slots.len() - k,
    {
        let ghost base = frame_slots_upto(p, k as int);
        proof {
            lemma_flatten_prefix_len(gf, k as int);
            assert(gf =~= gf.take(gf.len() as int));
            assert(gf.flatten() == frame_slots(p));
        }
        let (ej, si) = slots[k];
        assert(valid_slot(p, sl[k as int]));
        assert(ents@[ej as int]@ == p.entities[ej as int]);
        let state = &ents[ej].states[si];
        assert(state@ == state_at(p, sl[k as int]));
        let mut f: usize = 0;
        while f < state.frames.len()
            invariant
                p == project@,
                0 <= f <= state.frames.len(),
                state@ == state_at(p, sl[k as int]),
                0 <= k < sl.len(),
                sl.len() <= u64::MAX,
                sl == state_slots(p),
                base.len() + gf[k as int].len() <= frame_slots(p).len(),
                frows.len() <= u64::MAX,
                gf[k as int] == Seq::new(state_at(p, sl[k as int]).frames.len(), |f: int| (k as int, f)),
                frows.len() == base.len() + f,
                forall|x: int| 0 <= x < base.len() ==> #[trigger] frows@[x]@ == frame_row_at(p, base[x], x),
                forall|x: int| base.len() <= x < frows.len() ==> #[trigger] frows@[x]@ == frame_row_at(
                    p,
                    (k as int, x - base.len()),
                    x,
                ),
            decreases state.frames.len() - f,
        {
            if frows.len() as u64 == u64::MAX {
                assert(frows.len() == u64::MAX);
                assert(gf[k as int].len() == state.frames.len());
                assert(frame_slots(p).len() > u64::MAX);
                return None;
            }
            let id = frows.len() as u64 + 1;
            frows.push(FrameRow {
                id,
                state_id: k as u64 + 1,
                position: f as u64,
                frame: state.frames[f].duplicate(),
            });
            f = f + 1;
        }
        proof {
            lemma_flatten_prefix_len(gf, k as int);
            assert(gf.take(k + 1) =~= Seq::new(
                (k + 1) as nat,
                |k: int| Seq::new(state_at(p, sl[k]).frames.len(), |f: int| (k, f)),
            ));
            let next = frame_slots_upto(p, k + 1);
            assert(next == base + gf[k as int]);
            assert forall|x: int| 0 <= x < frows.len() implies #[trigger] frows@[x]@ == frame_row_at(
                p,
                next[x],
                x,
            ) by {
                if x >= base.len() {
                    assert(next[x] == gf[k as int][x - base.len()]);
                }
            }
        }
        k = k + 1;
    }
    proof {
        assert(gf.take(k as int) =~= gf);
    }
    assert(frows@.map_values(|r: FrameRow| r@) =~= frame_rows_of(p));
    let r = ProjectRows { categories: crows, entities: erows, states: srows, frames: frows };
    assert(r@ =~= rows_of(p));
    Some(r)
}

/// Whether a slot names an existing state of `p`.
pub open spec fn valid_slot(p: ProjectView, slot: (int, int)) -> bool {
    0 <= slot.0 < p.entities.len() && 0 <= slot.1 < p.entities[slot.0].states.len()
}

} // verus!
