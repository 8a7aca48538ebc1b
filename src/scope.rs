use vstd::prelude::*;
use indexmap::IndexSet;

verus! {

#[verifier::external_type_specification]
#[verifier::external_body]
#[verifier::reject_recursive_types(T)]
#[verifier::reject_recursive_types(S)]
pub struct ExIndexSet<T, S>(IndexSet<T, S>);

/// The names that a binding set holds, in insertion order.
pub uninterp spec fn binding_names(set: IndexSet<String>) -> Seq<Seq<char>>;

/// Relies on indexmap::IndexSet::new: a new set is empty.
#[verifier::external_body]
pub(crate) fn binding_set_new() -> (r: IndexSet<String>)
    ensures
        binding_names(r) == Seq::<Seq<char>>::empty(),
{
    IndexSet::new()
}

/// Relies on indexmap::IndexSet::len: the number of names held.
#[verifier::external_body]
pub(crate) fn binding_len(set: &IndexSet<String>) -> (r: usize)
    ensures
        r == binding_names(*set).len(),
{
    set.len()
}

/// Relies on indexmap::IndexSet::insert: a new name goes last; a name already
/// held leaves the set as it was.
#[verifier::external_body]
pub(crate) fn binding_insert(set: &mut IndexSet<String>, name: String)
    ensures
        binding_names(*final(set)) == if binding_names(*old(set)).contains(name@) {
            binding_names(*old(set))
        } else {
            binding_names(*old(set)).push(name@)
        },
{
    set.insert(name);
}

/// Relies on indexmap::IndexSet::truncate: keeps the first `len` names.
#[verifier::external_body]
pub(crate) fn binding_truncate(set: &mut IndexSet<String>, len: usize)
    ensures
        binding_names(*final(set)) == if len < binding_names(*old(set)).len() {
            binding_names(*old(set)).subrange(0, len as int)
        } else {
            binding_names(*old(set))
        },
{
    set.truncate(len);
}

/// Relies on indexmap::IndexSet::contains: whether a name is held.
#[verifier::external_body]
pub(crate) fn binding_contains(set: &IndexSet<String>, name: &str) -> (r: bool)
    ensures
        r == binding_names(*set).contains(name@),
{
    set.contains(name)
}

} // verus!
