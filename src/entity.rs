use vstd::prelude::*;
use crate::category::{sentinel_category_name, EntityCategory};
use crate::error::ProjectError;
use crate::frame::Frame;
use crate::state::{EntityState, StateView};

verus! {

/// What an entity is: its name, the name of its category, and its states in
/// the order they were created.
#[verifier::ext_equal]
pub struct EntityView {
    pub name: Seq<char>,
    pub category: Seq<char>,
    pub states: Seq<StateView>,
}

/// Whether some state of `states` is named `name`.
pub open spec fn has_state(states: Seq<StateView>, name: Seq<char>) -> bool {
    exists|i: int| 0 <= i < states.len() && #[trigger] states[i].name == name
}

/// Whether no two states of `states` share a name.
pub open spec fn state_names_distinct(states: Seq<StateView>) -> bool {
    forall|i: int, j: int|
        0 <= i < states.len() && 0 <= j < states.len() && i != j ==> #[trigger] states[i].name
            != #[trigger] states[j].name
}

/// The position of the state named `name`, where there is one.
pub open spec fn state_index(states: Seq<StateView>, name: Seq<char>) -> int {
    choose|i: int| 0 <= i < states.len() && #[trigger] states[i].name == name
}

/// A named game object of one category, owning named states.
#[derive(Debug)]
pub struct Entity {
    pub name: String,
    pub category: EntityCategory,
    pub states: Vec<EntityState>,
}

impl View for Entity {
    type V = EntityView;

    open spec fn view(&self) -> EntityView {
        EntityView {
            name: self.name@,
            category: self.category@,
            states: self.states@.map_values(|s: EntityState| s@),
        }
    }
}

impl Entity {
    /// An entity without states, holding a copy of the category.
    pub fn new(entity_name: &str, entity_category: &EntityCategory) -> (r: Entity)
        ensures
            r@ == (EntityView {
                name: entity_name@,
                category: entity_category@,
                states: Seq::empty(),
            }),
    {
        let r = Entity {
            name: entity_name.to_owned(),
            category: entity_category.duplicate(),
            states: Vec::new(),
        };
        assert(r@.states =~= Seq::empty());
        r
    }

    /// The placeholder entity of the given category, named like the
    /// sentinel category.
    pub fn default(entity_category: EntityCategory) -> (r: Entity)
        ensures
            r@ == (EntityView {
                name: sentinel_category_name(),
                category: entity_category@,
                states: Seq::empty(),
            }),
    {
        let name = String::from_str("Aucune");
        proof {
            reveal_strlit("Aucune");
        }
        assert(name@ =~= sentinel_category_name());
        let r = Entity { name, category: entity_category, states: Vec::new() };
        assert(r@.states =~= Seq::empty());
        r
    }

    pub fn name(&self) -> (r: String)
        ensures
            r@ == self@.name,
    {
        self.name.clone()
    }

    /// The position of the state named `state_name`, if any.
    pub fn find_state(&self, state_name: &str) -> (r: Option<usize>)
        ensures
            r is None <==> !has_state(self@.states, state_name@),
            r matches Some(i) ==> i < self@.states.len() && self@.states[i as int].name
                == state_name@,
    {
        let key = state_name.to_owned();
        let mut i: usize = 0;
        while i < self.states.len()
            invariant
                0 <= i <= self.states.len(),
                key@ == state_name@,
                forall|j: int| 0 <= j < i ==> self.states@[j].name@ != key@,
            decreases self.states.len() - i,
        {
            if self.states[i].name == key {
                assert(self@.states[i as int].name == state_name@);
                return Some(i);
            }
            i = i + 1;
        }
        assert forall|j: int| 0 <= j < self@.states.len() implies #[trigger] self@.states[j].name
            != state_name@ by {
            assert(self@.states[j] == self.states@[j]@);
        }
        None
    }

    /// Adds a state without frames, unless one of that name exists.
    pub fn add_state(&mut self, state_name: &str) -> (r: Result<(), ProjectError>)
        ensures
            has_state(old(self)@.states, state_name@) ==> r == Err::<(), ProjectError>(
                ProjectError::DuplicateState,
            ) && final(self)@ == old(self)@,
            !has_state(old(self)@.states, state_name@) ==> r is Ok && final(self)@ == (EntityView {
                states: old(self)@.states.push(
                    StateView { name: state_name@, frames: Seq::empty() },
                ),
                ..old(self)@
            }),
    {
        match self.find_state(state_name) {
            Some(_) => Err(ProjectError::DuplicateState),
            None => {
                self.states.push(EntityState::new(state_name));
                assert(final(self)@.states =~= old(self)@.states.push(
                    StateView { name: state_name@, frames: Seq::empty() },
                ));
                Ok(())
            },
        }
    }

    /// Appends a frame to the state at position `i`.
    pub fn push_frame_at(&mut self, i: usize, frame: Frame)
        requires
            i < old(self)@.states.len(),
        ensures
            final(self)@ == (EntityView {
                states: old(self)@.states.update(
                    i as int,
                    StateView {
                        frames: old(self)@.states[i as int].frames.push(frame@),
                        ..old(self)@.states[i as int]
                    },
                ),
                ..old(self)@
            }),
    {
        let mut s = self.states.remove(i);
        s.push_frame(frame);
        self.states.insert(i, s);
        assert(final(self)@.states =~= old(self)@.states.update(
            i as int,
            StateView {
                frames: old(self)@.states[i as int].frames.push(frame@),
                ..old(self)@.states[i as int]
            },
        ));
    }

    /// Copies of the states, in the order they were created.
    pub fn copy_states(&self) -> (r: Vec<EntityState>)
        ensures
            r@.map_values(|s: EntityState| s@) == self@.states,
    {
        let mut out: Vec<EntityState> = Vec::new();
        let mut i: usize = 0;
        while i < self.states.len()
            invariant
                0 <= i <= self.states.len(),
                out.len() == i,
                forall|j: int| 0 <= j < i ==> out@[j]@ == self.states@[j]@,
            decreases self.states.len() - i,
        {
            out.push(self.states[i].duplicate());
            i = i + 1;
        }
        assert(out@.map_values(|s: EntityState| s@) =~= self@.states);
        out
    }

    /// A copy whose view is known to verified callers.
    pub fn duplicate(&self) -> (r: Entity)
        ensures
            r@ == self@,
    {
        let r = Entity {
            name: self.name.clone(),
            category: self.category.duplicate(),
            states: self.copy_states(),
        };
        assert(r@ =~= self@);
        r
    }

    /// Whether the two entities have the same name, the same category and the
    /// same set of states, frames included; the order the states were created
    /// in does not count.
    pub fn same_as(&self, other: &Entity) -> (r: bool)
        ensures
            r == same_entity(self@, other@),
    {
        if self.name != other.name || self.category.name != other.category.name {
            return false;
        }
        let a_in_b = states_within(&self.states, &other.states);
        let b_in_a = states_within(&other.states, &self.states);
        let ghost a = self@.states;
        let ghost b = other@.states;
        proof {
            if a_in_b && b_in_a {
                assert forall|x: StateView| a.to_set().contains(x) <==> b.to_set().contains(x) by {
                    if a.contains(x) {
                        let i = choose|i: int| 0 <= i < a.len() && a[i] == x;
                        assert(b.contains(a[i]));
                    }
                    if b.contains(x) {
                        let i = choose|i: int| 0 <= i < b.len() && b[i] == x;
                        assert(a.contains(b[i]));
                    }
                }
                assert(a.to_set() =~= b.to_set());
            } else if !a_in_b {
                let i = choose|i: int| 0 <= i < self.states@.len() && !b.contains(#[trigger] self.states@[i]@);
                assert(a[i] == self.states@[i]@);
                assert(a.contains(a[i]));
                assert(a.to_set().contains(a[i]) != b.to_set().contains(a[i]));
            } else {
                let i = choose|i: int| 0 <= i < other.states@.len() && !a.contains(#[trigger] other.states@[i]@);
                assert(b[i] == other.states@[i]@);
                assert(b.contains(b[i]));
                assert(b.to_set().contains(b[i]) != a.to_set().contains(b[i]));
            }
        }
        a_in_b && b_in_a
    }
}

/// Whether two entities have the same name, category and set of states.
pub open spec fn same_entity(a: EntityView, b: EntityView) -> bool {
    &&& a.name == b.name
    &&& a.category == b.category
    &&& a.states.to_set() == b.states.to_set()
}

/// Whether every state of `a` is also, frames included, a state of `b`.
fn states_within(a: &Vec<EntityState>, b: &Vec<EntityState>) -> (r: bool)
    ensures
        r == forall|i: int|
            0 <= i < a@.len() ==> b@.map_values(|s: EntityState| s@).contains(#[trigger] a@[i]@),
{
    let ghost bv = b@.map_values(|s: EntityState| s@);
    let mut i: usize = 0;
    while i < a.len()
        invariant
            0 <= i <= a.len(),
            bv == b@.map_values(|s: EntityState| s@),
            forall|x: int| 0 <= x < i ==> bv.contains(#[trigger] a@[x]@),
        decreases a.len() - i,
    {
        let mut found = false;
        let mut j: usize = 0;
        while j < b.len()
            invariant
                0 <= j <= b.len(),
                0 <= i < a.len(),
                bv == b@.map_values(|s: EntityState| s@),
                found ==> bv.contains(a@[i as int]@),
                !found ==> forall|y: int| 0 <= y < j ==> bv[y] != a@[i as int]@,
            decreases b.len() - j,
        {
            if !found && a[i].same_as(&b[j]) {
                assert(bv[j as int] == a@[i as int]@);
                found = true;
            }
            j = j + 1;
        }
        if !found {
            assert(!bv.contains(a@[i as int]@));
            return false;
        }
        i = i + 1;
    }
    true
}

impl PartialEq for Entity {
    fn eq(&self, other: &Entity) -> (r: bool) {
        self.same_as(other)
    }
}

impl vstd::std_specs::cmp::PartialEqSpecImpl for Entity {
    open spec fn obeys_eq_spec() -> bool {
        true
    }

    open spec fn eq_spec(&self, other: &Entity) -> bool {
        same_entity(self@, other@)
    }
}

} // verus!
