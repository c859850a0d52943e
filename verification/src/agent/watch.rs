//! Watches of the cluster's objects.
use vstd::prelude::*;

verus! {

/// What a watch of objects reports: one that is new or changed, one of those that were there when
/// the watch began, one that is gone, or the beginning and the end of those that were there.
pub enum Event<T> {
    Apply(T),
    InitApply(T),
    Delete(T),
    Init,
    InitDone,
}

}
