use vstd::prelude::*;
use crate::frame::{Frame, FrameView};

verus! {

/// What a state is: its name and its frames in playback order.
#[verifier::ext_equal]
pub struct StateView {
    pub name: Seq<char>,
    pub frames: Seq<FrameView>,
}

/// The name that `EntityState::default` gives.
pub open spec fn default_state_name() -> Seq<char> {
    seq!['d', 'e', 'f', 'a', 'u', 'l', 't']
}

/// A named animation or behaviour state with its frames in playback order.
#[derive(Debug)]
pub struct EntityState {
    pub name: String,
    pub frames: Vec<Frame>,
}

impl View for EntityState {
    type V = StateView;

    open spec fn view(&self) -> StateView {
        StateView { name: self.name@, frames: self.frames@.map_values(|f: Frame| f@) }
    }
}

impl EntityState {
    /// A state of that name without frames.
    pub fn new(state_name: &str) -> (r: EntityState)
        ensures
            r@ == (StateView { name: state_name@, frames: Seq::empty() }),
    {
        let r = EntityState { name: state_name.to_owned(), frames: Vec::new() };
        assert(r@ =~= (StateView { name: state_name@, frames: Seq::empty() }));
        r
    }

    pub fn default() -> (r: EntityState)
        ensures
            r@ == (StateView { name: default_state_name(), frames: Seq::empty() }),
    {
        let name = String::from_str("default");
        proof {
            reveal_strlit("default");
        }
        let r = EntityState { name, frames: Vec::new() };
        assert(r@ =~= (StateView { name: default_state_name(), frames: Seq::empty() }));
        r
    }

    pub fn name(&self) -> (r: String)
        ensures
            r@ == self@.name,
    {
        self.name.clone()
    }

    /// Appends a frame at the end of the playback order.
    pub fn push_frame(&mut self, frame: Frame)
        ensures
            final(self)@ == (StateView { frames: old(self)@.frames.push(frame@), ..old(self)@ }),
    {
        self.frames.push(frame);
        assert(final(self)@ =~= (StateView { frames: old(self)@.frames.push(frame@), ..old(self)@ }));
    }

    /// A copy whose view is known to verified callers.
    pub fn duplicate(&self) -> (r: EntityState)
        ensures
            r@ == self@,
    {
        let mut frames: Vec<Frame> = Vec::new();
        let mut i: usize = 0;
        while i < self.frames.len()
            invariant
                0 <= i <= self.frames.len(),
                frames.len() == i,
                forall|j: int| 0 <= j < i ==> frames@[j]@ == self.frames@[j]@,
            decreases self.frames.len() - i,
        {
            frames.push(self.frames[i].duplicate());
            i = i + 1;
        }
        let r = EntityState { name: self.name.clone(), frames };
        assert(r@ =~= self@);
        r
    }

    /// Whether the two states have the same name and the same frames in the
    /// same order.
    pub fn same_as(&self, other: &EntityState) -> (r: bool)
        ensures
            r == (self@ == other@),
    {
        if self.name != other.name || self.frames.len() != other.frames.len() {
            proof {
                if self@ == other@ {
                    assert(self@.frames.len() == other@.frames.len());
                }
            }
            return false;
        }
        let mut i: usize = 0;
        while i < self.frames.len()
            invariant
                self.frames.len() == other.frames.len(),
                0 <= i <= self.frames.len(),
                forall|j: int| 0 <= j < i ==> self.frames@[j]@ == other.frames@[j]@,
            decreases self.frames.len() - i,
        {
            if !self.frames[i].same_as(&other.frames[i]) {
                assert(self@.frames[i as int] != other@.frames[i as int]);
                return false;
            }
            i = i + 1;
        }
        assert(self@ =~= other@);
        true
    }
}


impl PartialEq for EntityState {
    fn eq(&self, other: &EntityState) -> (r: bool) {
        self.same_as(other)
    }
}

impl vstd::std_specs::cmp::PartialEqSpecImpl for EntityState {
    open spec fn obeys_eq_spec() -> bool {
        true
    }

    open spec fn eq_spec(&self, other: &EntityState) -> bool {
        self@ == other@
    }
}

} // verus!
