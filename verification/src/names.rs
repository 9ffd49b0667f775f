//! The set of sink names claimed in a pipeline: an `FxHashSet<String>`
//! (std's `HashSet` with fxhash's hasher), behind trusted wrappers that state
//! its contents as a set of texts.

use vstd::prelude::*;
use fxhash::FxHashSet;

verus! {

#[verifier::external_type_specification]
#[verifier::external_body]
pub struct ExFxHasher(fxhash::FxHasher);

#[verifier::external_type_specification]
#[verifier::external_body]
#[verifier::reject_recursive_types(H)]
pub struct ExBuildHasherDefault<H>(std::hash::BuildHasherDefault<H>);

/// The texts held by a set of names.
pub uninterp spec fn names_in(set: FxHashSet<String>) -> Set<Seq<char>>;

/// `FxHashSet::default()`: an empty set.
#[verifier::external_body]
pub(crate) fn empty_names() -> (r: FxHashSet<String>)
    ensures
        names_in(r) == Set::<Seq<char>>::empty(),
{
    FxHashSet::default()
}

/// `HashSet::insert`: adds `name`, and tells whether it was absent.
#[verifier::external_body]
pub(crate) fn insert_name(set: &mut FxHashSet<String>, name: String) -> (r: bool)
    ensures
        r == !names_in(*old(set)).contains(name@),
        names_in(*final(set)) == names_in(*old(set)).insert(name@),
{
    set.insert(name)
}

/// `HashSet::contains`: whether `name` is in the set.
#[verifier::external_body]
pub(crate) fn contains_name(set: &FxHashSet<String>, name: &str) -> (r: bool)
    ensures
        r == names_in(*set).contains(name@),
{
    set.contains(name)
}

} // verus!
