//! Binding scopes: maps from names to formula ids, kept in an `IndexMap`.
use indexmap::IndexMap;
use vstd::prelude::*;

use crate::problem::formula::FormulaId;

verus! {

#[verifier::external_type_specification]
#[verifier::external_body]
#[verifier::reject_recursive_types(K)]
#[verifier::reject_recursive_types(V)]
#[verifier::reject_recursive_types(S)]
pub struct ExIndexMap<K, V, S>(IndexMap<K, V, S>);

/// The names a scope binds, each to its formula id.
pub uninterp spec fn scope_names(names: IndexMap<String, FormulaId>) -> Map<Seq<char>, FormulaId>;

/// `IndexMap::new`: a map without entries.
#[verifier::external_body]
fn names_new() -> (r: IndexMap<String, FormulaId>)
    ensures
        scope_names(r).dom().is_empty(),
{
    IndexMap::new()
}

/// `IndexMap::insert`: afterwards the name is bound to the id, the other
/// names keep their ids; the id the name had before is returned.
#[verifier::external_body]
fn names_insert(names: &mut IndexMap<String, FormulaId>, name: String, id: FormulaId) -> (r: Option<FormulaId>)
    ensures
        scope_names(*final(names)) == scope_names(*old(names)).insert(name@, id),
        r == (if scope_names(*old(names)).dom().contains(name@) {
            Some(scope_names(*old(names))[name@])
        } else {
            None
        }),
{
    names.insert(name, id)
}

/// `IndexMap::get`: the id bound to the name, if any.
#[verifier::external_body]
fn names_get(names: &IndexMap<String, FormulaId>, name: &str) -> (r: Option<FormulaId>)
    ensures
        r == (if scope_names(*names).dom().contains(name@) {
            Some(scope_names(*names)[name@])
        } else {
            None
        }),
{
    names.get(name).copied()
}

/// A binding scope, binding names to formula ids.
#[derive(Debug)]
pub struct Scope {
    pub names: IndexMap<String, FormulaId>,
}

impl View for Scope {
    type V = Map<Seq<char>, FormulaId>;

    /// The bindings of the scope.
    open spec fn view(&self) -> Map<Seq<char>, FormulaId> {
        scope_names(self.names)
    }
}

impl Scope {
    pub fn new() -> (r: Scope)
        ensures
            r.view() == Map::<Seq<char>, FormulaId>::empty(),
    {
        let r = Scope { names: names_new() };
        proof {
            assert(r.view() =~= Map::<Seq<char>, FormulaId>::empty());
        }
        r
    }

    /// Binds a name, giving back the id it was bound to before, if any.
    pub fn insert(&mut self, name: String, id: FormulaId) -> (r: Option<FormulaId>)
        ensures
            final(self).view() == old(self).view().insert(name@, id),
            r == (if old(self).view().dom().contains(name@) {
                Some(old(self).view()[name@])
            } else {
                None
            }),
    {
        names_insert(&mut self.names, name, id)
    }

    /// The id bound to a name, if any.
    pub fn get(&self, name: &str) -> (r: Option<FormulaId>)
        ensures
            r == (if self.view().dom().contains(name@) {
                Some(self.view()[name@])
            } else {
                None
            }),
    {
        names_get(&self.names, name)
    }
}

} // verus!
