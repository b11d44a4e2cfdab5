use vstd::prelude::*;

verus! {

/// The name of the category that every fresh project starts with.
pub open spec fn sentinel_category_name() -> Seq<char> {
    seq!['A', 'u', 'c', 'u', 'n', 'e']
}

/// A named classification tag for entities; the name is its identity.
#[derive(Debug, Clone)]
pub struct EntityCategory {
    pub name: String,
}

impl View for EntityCategory {
    type V = Seq<char>;

    open spec fn view(&self) -> Seq<char> {
        self.name@
    }
}

impl EntityCategory {
    pub fn new(category_name: &String) -> (r: EntityCategory)
        ensures
            r@ == category_name@,
    {
        EntityCategory { name: category_name.clone() }
    }

    /// The sentinel category, present in every fresh project.
    pub fn default() -> (r: EntityCategory)
        ensures
            r@ == sentinel_category_name(),
    {
        let name = String::from_str("Aucune");
        proof {
            reveal_strlit("Aucune");
        }
        assert(name@ =~= sentinel_category_name());
        EntityCategory { name }
    }

    pub fn name(&self) -> (r: String)
        ensures
            r@ == self@,
    {
        self.name.clone()
    }

    /// A copy whose view is known to verified callers.
    pub fn duplicate(&self) -> (r: EntityCategory)
        ensures
            r@ == self@,
    {
        EntityCategory { name: self.name.clone() }
    }
}

impl PartialEq for EntityCategory {
    fn eq(&self, other: &EntityCategory) -> (r: bool) {
        self.name == other.name
    }
}

impl vstd::std_specs::cmp::PartialEqSpecImpl for EntityCategory {
    open spec fn obeys_eq_spec() -> bool {
        true
    }

    open spec fn eq_spec(&self, other: &EntityCategory) -> bool {
        self@ == other@
    }
}

} // verus!
