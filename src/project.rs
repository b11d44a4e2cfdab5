use vstd::prelude::*;
use crate::category::{sentinel_category_name, EntityCategory};
use crate::entity::{has_state, state_index, state_names_distinct, Entity, EntityView};
use crate::error::ProjectError;
use crate::frame::{rgba_len, Frame, FrameView};
use crate::state::{EntityState, StateView};

verus! {

/// What a project is: its name, its categories in creation order, and its
/// entities in creation order.
#[verifier::ext_equal]
pub struct ProjectView {
    pub name: Seq<char>,
    pub categories: Seq<Seq<char>>,
    pub entities: Seq<EntityView>,
}

/// Whether some entity of `entities` is named `name`.
pub open spec fn has_entity(entities: Seq<EntityView>, name: Seq<char>) -> bool {
    exists|i: int| 0 <= i < entities.len() && #[trigger] entities[i].name == name
}

/// The position of the entity named `name`, where there is one.
pub open spec fn entity_index(entities: Seq<EntityView>, name: Seq<char>) -> int {
    choose|i: int| 0 <= i < entities.len() && #[trigger] entities[i].name == name
}

/// Whether no two elements of `names` are equal.
pub open spec fn names_distinct(names: Seq<Seq<char>>) -> bool {
    forall|i: int, j: int|
        0 <= i < names.len() && 0 <= j < names.len() && i != j ==> #[trigger] names[i]
            != #[trigger] names[j]
}

/// Whether no two entities of `entities` share a name.
pub open spec fn entity_names_distinct(entities: Seq<EntityView>) -> bool {
    forall|i: int, j: int|
        0 <= i < entities.len() && 0 <= j < entities.len() && i != j ==> #[trigger] entities[i].name
            != #[trigger] entities[j].name
}

/// The invariants of a project: category names are unique, entity names are
/// unique, every entity's category is registered, and within each entity
/// state names are unique.
pub open spec fn project_wf(p: ProjectView) -> bool {
    &&& names_distinct(p.categories)
    &&& entity_names_distinct(p.entities)
    &&& forall|i: int| 0 <= i < p.entities.len() ==> p.categories.contains(#[trigger] p.entities[i].category)
    &&& forall|i: int| 0 <= i < p.entities.len() ==> state_names_distinct(#[trigger] p.entities[i].states)
}

/// The states of the entity named `name`, or none where there is no such entity.
pub open spec fn states_of(p: ProjectView, name: Seq<char>) -> Seq<StateView> {
    if has_entity(p.entities, name) {
        p.entities[entity_index(p.entities, name)].states
    } else {
        Seq::empty()
    }
}

/// The outcome that adding a category of that name owes.
pub open spec fn category_check(p: ProjectView, name: Seq<char>) -> Result<(), ProjectError> {
    if p.categories.contains(name) {
        Err(ProjectError::DuplicateCategory)
    } else {
        Ok(())
    }
}

/// `p` with the category appended.
pub open spec fn with_category(p: ProjectView, name: Seq<char>) -> ProjectView {
    ProjectView { categories: p.categories.push(name), ..p }
}

/// The outcome that adding an entity of that category and name owes.
pub open spec fn entity_check(p: ProjectView, category: Seq<char>, name: Seq<char>) -> Result<
    (),
    ProjectError,
> {
    if has_entity(p.entities, name) {
        Err(ProjectError::DuplicateEntity)
    } else if !p.categories.contains(category) {
        Err(ProjectError::UnknownCategory)
    } else {
        Ok(())
    }
}

/// `p` with a new entity, without states, appended.
pub open spec fn with_entity(p: ProjectView, category: Seq<char>, name: Seq<char>) -> ProjectView {
    ProjectView {
        entities: p.entities.push(EntityView { name, category, states: Seq::empty() }),
        ..p
    }
}

/// The outcome that adding a state to an entity owes.
pub open spec fn state_check(p: ProjectView, entity: Seq<char>, state: Seq<char>) -> Result<
    (),
    ProjectError,
> {
    if !has_entity(p.entities, entity) {
        Err(ProjectError::EntityNotFound)
    } else if has_state(p.entities[entity_index(p.entities, entity)].states, state) {
        Err(ProjectError::DuplicateState)
    } else {
        Ok(())
    }
}

/// `p` with a new state, without frames, appended to the entity's states.
pub open spec fn with_state(p: ProjectView, entity: Seq<char>, state: Seq<char>) -> ProjectView {
    let i = entity_index(p.entities, entity);
    ProjectView {
        entities: p.entities.update(
            i,
            EntityView {
                states: p.entities[i].states.push(StateView { name: state, frames: Seq::empty() }),
                ..p.entities[i]
            },
        ),
        ..p
    }
}

/// The outcome that adding a frame to a state of an entity owes, before any
/// decoding.
pub open spec fn frame_check(p: ProjectView, entity: Seq<char>, state: Seq<char>) -> Result<
    (),
    ProjectError,
> {
    if !has_entity(p.entities, entity) {
        Err(ProjectError::EntityNotFound)
    } else if !has_state(p.entities[entity_index(p.entities, entity)].states, state) {
        Err(ProjectError::StateNotFound)
    } else {
        Ok(())
    }
}

/// `p` with the frame appended to the frames of the state of the entity.
pub open spec fn with_frame(
    p: ProjectView,
    entity: Seq<char>,
    state: Seq<char>,
    frame: FrameView,
) -> ProjectView {
    let i = entity_index(p.entities, entity);
    let e = p.entities[i];
    let j = state_index(e.states, state);
    ProjectView {
        entities: p.entities.update(
            i,
            EntityView {
                states: e.states.update(
                    j,
                    StateView { frames: e.states[j].frames.push(frame), ..e.states[j] },
                ),
                ..e
            },
        ),
        ..p
    }
}

/// The aggregate root: a named collection of categories and entities.
#[derive(Debug)]
pub struct Project {
    name: String,
    categories: Vec<EntityCategory>,
    entities: Vec<Entity>,
}

impl View for Project {
    type V = ProjectView;

    closed spec fn view(&self) -> ProjectView {
        ProjectView {
            name: self.name@,
            categories: self.categories@.map_values(|c: EntityCategory| c@),
            entities: self.entities@.map_values(|e: Entity| e@),
        }
    }
}

impl Project {
    pub open spec fn wf(&self) -> bool {
        project_wf(self@)
    }

    /// A fresh project: the sentinel category and no entities.
    pub fn new(project_name: String) -> (r: Project)
        ensures
            r@ == (ProjectView {
                name: project_name@,
                categories: seq![sentinel_category_name()],
                entities: Seq::empty(),
            }),
            r.wf(),
    {
        let mut categories: Vec<EntityCategory> = Vec::new();
        categories.push(EntityCategory::default());
        let r = Project { name: project_name, categories, entities: Vec::new() };
        assert(r@ =~= (ProjectView {
            name: project_name@,
            categories: seq![sentinel_category_name()],
            entities: Seq::empty(),
        }));
        r
    }

    /// A project without categories or entities, which loading fills.
    pub(crate) fn empty(project_name: String) -> (r: Project)
        ensures
            r@ == (ProjectView {
                name: project_name@,
                categories: Seq::empty(),
                entities: Seq::empty(),
            }),
            r.wf(),
    {
        let r = Project { name: project_name, categories: Vec::new(), entities: Vec::new() };
        assert(r@ =~= (ProjectView {
            name: project_name@,
            categories: Seq::empty(),
            entities: Seq::empty(),
        }));
        r
    }

    pub fn name(&self) -> (r: String)
        ensures
            r@ == self@.name,
    {
        self.name.clone()
    }

    /// The categories, in creation order.
    pub fn categories(&self) -> (r: &Vec<EntityCategory>)
        ensures
            r@.map_values(|c: EntityCategory| c@) == self@.categories,
    {
        &self.categories
    }

    /// The entities, in creation order.
    pub fn entities(&self) -> (r: &Vec<Entity>)
        ensures
            r@.map_values(|e: Entity| e@) == self@.entities,
    {
        &self.entities
    }

    /// Whether a category of that name is registered.
    pub fn has_category(&self, name: &str) -> (r: bool)
        ensures
            r == self@.categories.contains(name@),
    {
        let key = name.to_owned();
        let mut i: usize = 0;
        while i < self.categories.len()
            invariant
                0 <= i <= self.categories.len(),
                key@ == name@,
                forall|j: int| 0 <= j < i ==> self.categories@[j]@ != key@,
            decreases self.categories.len() - i,
        {
            if self.categories[i].name == key {
                assert(self@.categories[i as int] == name@);
                return true;
            }
            i = i + 1;
        }
        assert(!self@.categories.contains(name@)) by {
            assert forall|j: int| 0 <= j < self@.categories.len() implies self@.categories[j]
                != name@ by {
                assert(self@.categories[j] == self.categories@[j]@);
            }
        }
        false
    }

    /// The position of the entity named `name`, if any.
    pub fn find_entity(&self, name: &str) -> (r: Option<usize>)
        requires
            self.wf(),
        ensures
            r is None <==> !has_entity(self@.entities, name@),
            r matches Some(i) ==> i < self@.entities.len() && i == entity_index(
                self@.entities,
                name@,
            ) && self@.entities[i as int].name == name@,
    {
        let key = name.to_owned();
        let mut i: usize = 0;
        while i < self.entities.len()
            invariant
                0 <= i <= self.entities.len(),
                key@ == name@,
                self.wf(),
                forall|j: int| 0 <= j < i ==> self.entities@[j]@.name != key@,
            decreases self.entities.len() - i,
        {
            if self.entities[i].name == key {
                assert(self@.entities[i as int].name == name@);
                assert(has_entity(self@.entities, name@));
                let ghost k = entity_index(self@.entities, name@);
                assert(self@.entities[k].name == name@);
                assert(entity_names_distinct(self@.entities));
                assert(k == i) by {
                    if k != i {
                        assert(self@.entities[k].name != self@.entities[i as int].name);
                    }
                }
                return Some(i);
            }
            i = i + 1;
        }
        assert forall|j: int| 0 <= j < self@.entities.len() implies #[trigger] self@.entities[j].name
            != name@ by {
            assert(self@.entities[j] == self.entities@[j]@);
        }
        None
    }

    /// Appends a category, unless one of that name exists.
    pub fn add_category(&mut self, name: &str) -> (r: Result<(), ProjectError>)
        requires
            old(self).wf(),
        ensures
            final(self).wf(),
            r == category_check(old(self)@, name@),
            r is Ok ==> final(self)@ == with_category(old(self)@, name@),
            r is Err ==> final(self)@ == old(self)@,
    {
        if self.has_category(name) {
            return Err(ProjectError::DuplicateCategory);
        }
        let key = name.to_owned();
        self.categories.push(EntityCategory::new(&key));
        assert(final(self)@ =~= with_category(old(self)@, name@));
        proof {
            let p = final(self)@;
            assert forall|i: int| 0 <= i < p.entities.len() implies p.categories.contains(
                #[trigger] p.entities[i].category,
            ) by {
                let k = choose|k: int|
                    0 <= k < old(self)@.categories.len() && old(self)@.categories[k]
                        == old(self)@.entities[i].category;
                assert(p.categories[k] == p.entities[i].category);
            }
        }
        Ok(())
    }

    /// Appends an entity without states, holding a copy of the category,
    /// unless an entity of that name exists or the category is not registered.
    pub fn add_entity(&mut self, category: &EntityCategory, name: &str) -> (r: Result<(), ProjectError>)
        requires
            old(self).wf(),
        ensures
            final(self).wf(),
            r == entity_check(old(self)@, category@, name@),
            r is Ok ==> final(self)@ == with_entity(old(self)@, category@, name@),
            r is Err ==> final(self)@ == old(self)@,
    {
        if self.find_entity(name).is_some() {
            return Err(ProjectError::DuplicateEntity);
        }
        if !self.has_category(category.name.as_str()) {
            return Err(ProjectError::UnknownCategory);
        }
        self.entities.push(Entity::new(name, category));
        assert(final(self)@ =~= with_entity(old(self)@, category@, name@));
        proof {
            let p = final(self)@;
            let n = p.entities.len() - 1;
            assert forall|i: int, j: int|
                0 <= i < p.entities.len() && 0 <= j < p.entities.len() && i != j implies #[trigger] p.entities[i].name
                != #[trigger] p.entities[j].name by {
                if i == n {
                    assert(old(self)@.entities[j].name == p.entities[j].name);
                } else if j == n {
                    assert(old(self)@.entities[i].name == p.entities[i].name);
                }
            }
            assert(state_names_distinct(p.entities[n].states));
        }
        Ok(())
    }

    /// Adds a state without frames to the entity, unless there is no such
    /// entity or it already has a state of that name.
    pub fn add_entity_state(&mut self, entity_name: &str, state_name: &str) -> (r: Result<(), ProjectError>)
        requires
            old(self).wf(),
        ensures
            final(self).wf(),
            r == state_check(old(self)@, entity_name@, state_name@),
            r is Ok ==> final(self)@ == with_state(old(self)@, entity_name@, state_name@),
            r is Err ==> final(self)@ == old(self)@,
    {
        let i = match self.find_entity(entity_name) {
            Some(i) => i,
            None => return Err(ProjectError::EntityNotFound),
        };
        if self.entities[i].find_state(state_name).is_some() {
            return Err(ProjectError::DuplicateState);
        }
        let mut e = self.entities.remove(i);
        let added = e.add_state(state_name);
        assert(added is Ok);
        self.entities.insert(i, e);
        assert(final(self)@ =~= with_state(old(self)@, entity_name@, state_name@));
        proof {
            let p = final(self)@;
            let o = old(self)@;
            assert forall|a: int, b: int|
                0 <= a < p.entities.len() && 0 <= b < p.entities.len() && a != b implies #[trigger] p.entities[a].name
                != #[trigger] p.entities[b].name by {
                assert(o.entities[a].name != o.entities[b].name);
            }
            assert forall|a: int| 0 <= a < p.entities.len() implies p.categories.contains(
                #[trigger] p.entities[a].category,
            ) by {
                assert(o.categories.contains(o.entities[a].category));
            }
            assert forall|a: int| 0 <= a < p.entities.len() implies state_names_distinct(
                #[trigger] p.entities[a].states,
            ) by {
                if a == i {
                    let ss = p.entities[a].states;
                    let os = o.entities[a].states;
                    assert forall|x: int, y: int|
                        0 <= x < ss.len() && 0 <= y < ss.len() && x != y implies #[trigger] ss[x].name
                        != #[trigger] ss[y].name by {
                        if x == os.len() {
                            assert(os[y].name == ss[y].name);
                        } else if y == os.len() {
                            assert(os[x].name == ss[x].name);
                        } else {
                            assert(state_names_distinct(os));
                        }
                    }
                } else {
                    assert(state_names_distinct(o.entities[a].states));
                }
            }
        }
        Ok(())
    }

    /// Appends a frame to a state of an entity, unless there is no such
    /// entity or no such state.
    pub fn add_frame(&mut self, entity_name: &str, state_name: &str, frame: Frame) -> (r: Result<(), ProjectError>)
        requires
            old(self).wf(),
        ensures
            final(self).wf(),
            r == frame_check(old(self)@, entity_name@, state_name@),
            r is Ok ==> final(self)@ == with_frame(old(self)@, entity_name@, state_name@, frame@),
            r is Err ==> final(self)@ == old(self)@,
    {
        let i = match self.find_entity(entity_name) {
            Some(i) => i,
            None => return Err(ProjectError::EntityNotFound),
        };
        let j = match self.entities[i].find_state(state_name) {
            Some(j) => j,
            None => return Err(ProjectError::StateNotFound),
        };
        proof {
            let ss = old(self)@.entities[i as int].states;
            assert(has_state(ss, state_name@));
            let k = state_index(ss, state_name@);
            assert(ss[k].name == state_name@);
            assert(state_names_distinct(ss));
            assert(k == j) by {
                if k != j {
                    assert(ss[k].name != ss[j as int].name);
                }
            }
        }
        let mut e = self.entities.remove(i);
        e.push_frame_at(j, frame);
        self.entities.insert(i, e);
        assert(final(self)@ =~= with_frame(old(self)@, entity_name@, state_name@, frame@));
        proof {
            let p = final(self)@;
            let o = old(self)@;
            assert forall|a: int, b: int|
                0 <= a < p.entities.len() && 0 <= b < p.entities.len() && a != b implies #[trigger] p.entities[a].name
                != #[trigger] p.entities[b].name by {
                assert(o.entities[a].name != o.entities[b].name);
            }
            assert forall|a: int| 0 <= a < p.entities.len() implies p.categories.contains(
                #[trigger] p.entities[a].category,
            ) by {
                assert(o.categories.contains(o.entities[a].category));
            }
            assert forall|a: int| 0 <= a < p.entities.len() implies state_names_distinct(
                #[trigger] p.entities[a].states,
            ) by {
                let ss = p.entities[a].states;
                let os = o.entities[a].states;
                assert(state_names_distinct(os));
                assert forall|x: int, y: int|
                    0 <= x < ss.len() && 0 <= y < ss.len() && x != y implies #[trigger] ss[x].name
                    != #[trigger] ss[y].name by {
                    assert(os[x].name == ss[x].name);
                    assert(os[y].name == ss[y].name);
                }
            }
        }
        Ok(())
    }

    /// Decodes an image file held in memory and appends it as a frame to a
    /// state of an entity. The entity and the state are looked up first.
    pub fn import_frame(&mut self, entity_name: &str, state_name: &str, bytes: &Vec<u8>) -> (r: Result<(), ProjectError>)
        requires
            old(self).wf(),
        ensures
            final(self).wf(),
            frame_check(old(self)@, entity_name@, state_name@) is Err ==> r == frame_check(
                old(self)@,
                entity_name@,
                state_name@,
            ),
            frame_check(old(self)@, entity_name@, state_name@) is Ok ==> match r {
                Ok(_) => exists|v: FrameView|
                    v.pixels.len() == rgba_len(v.width, v.height) && final(self)@ == #[trigger] with_frame(
                        old(self)@,
                        entity_name@,
                        state_name@,
                        v,
                    ),
                Err(e) => e == ProjectError::Decode,
            },
            r is Err ==> final(self)@ == old(self)@,
    {
        let i = match self.find_entity(entity_name) {
            Some(i) => i,
            None => return Err(ProjectError::EntityNotFound),
        };
        if self.entities[i].find_state(state_name).is_none() {
            return Err(ProjectError::StateNotFound);
        }
        let frame = Frame::decode(bytes)?;
        self.add_frame(entity_name, state_name, frame)
    }

    /// Copies of the states of the entity named `entity_name`, in creation
    /// order; none where there is no such entity.
    pub fn get_states(&self, entity_name: &str) -> (r: Vec<EntityState>)
        requires
            self.wf(),
        ensures
            r@.map_values(|s: EntityState| s@) == states_of(self@, entity_name@),
    {
        match self.find_entity(entity_name) {
            Some(i) => self.entities[i].copy_states(),
            None => {
                let r: Vec<EntityState> = Vec::new();
                assert(r@.map_values(|s: EntityState| s@) =~= Seq::empty());
                r
            },
        }
    }
}


/// Adding a category of a name a second time fails with `DuplicateCategory`,
/// and each successful addition lengthens the category sequence by exactly
/// one.
pub proof fn lemma_category_added_once(p: ProjectView, name: Seq<char>)
    requires
        project_wf(p),
        category_check(p, name) is Ok,
    ensures
        category_check(with_category(p, name), name) == Err::<(), ProjectError>(
            ProjectError::DuplicateCategory,
        ),
        with_category(p, name).categories.len() == p.categories.len() + 1,
{
    let q = with_category(p, name);
    assert(q.categories[p.categories.len() as int] == name);
}

/// Adding an entity of a name a second time fails with `DuplicateEntity`,
/// whatever the category, and the entity that the first addition made stays
/// as it was made.
pub proof fn lemma_entity_added_once(
    p: ProjectView,
    category: Seq<char>,
    name: Seq<char>,
    other_category: Seq<char>,
)
    requires
        project_wf(p),
        entity_check(p, category, name) is Ok,
    ensures
        entity_check(with_entity(p, category, name), other_category, name) == Err::<(), ProjectError>(
            ProjectError::DuplicateEntity,
        ),
        ({
            let q = with_entity(p, category, name);
            q.entities[entity_index(q.entities, name)] == (EntityView {
                name,
                category,
                states: Seq::empty(),
            })
        }),
{
    let q = with_entity(p, category, name);
    let n = p.entities.len() as int;
    assert(q.entities[n].name == name);
    assert(has_entity(q.entities, name));
    let k = entity_index(q.entities, name);
    if k != n {
        assert(q.entities[k] == p.entities[k]);
        assert(has_entity(p.entities, name));
    }
}

/// Adding a state to an entity that does not exist fails with
/// `EntityNotFound` and creates no state anywhere.
pub proof fn lemma_state_needs_entity(p: ProjectView, entity: Seq<char>, state: Seq<char>)
    requires
        !has_entity(p.entities, entity),
    ensures
        state_check(p, entity, state) == Err::<(), ProjectError>(ProjectError::EntityNotFound),
        states_of(p, entity) == Seq::<StateView>::empty(),
{
}

/// The states of an entity that does not exist are none.
pub proof fn lemma_no_states_without_entity(p: ProjectView, entity: Seq<char>)
    requires
        !has_entity(p.entities, entity),
    ensures
        states_of(p, entity).len() == 0,
{
}

} // verus!
