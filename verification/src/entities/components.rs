use vstd::prelude::*;

verus! {

/// The trait that any component must implement to be usable by a
/// [`World`](super::World).
///
/// A host keeps the set of its component types closed: it gathers them in one
/// type (typically an enum) implementing this trait, and tells each kind
/// apart by the kind number it registers and stores components under.
pub trait Component {

}

} // verus!
