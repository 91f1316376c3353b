use vstd::prelude::*;

verus! {

/// `dashmap::DashMap`, a concurrent hash map, held opaque: what a map holds is
/// stated per use through the contents names of the modules that use it.
#[verifier::external_type_specification]
#[verifier::external_body]
#[verifier::reject_recursive_types(K)]
#[verifier::reject_recursive_types(V)]
#[verifier::reject_recursive_types(S)]
pub struct ExDashMap<K, V, S>(dashmap::DashMap<K, V, S>);

} // verus!
