use vstd::prelude::*;

verus! {

/// Turns a function on a reference into a function on an owned value, which
/// it lends to `f`: the new function returns what `f` returns on a reference
/// to its argument.
pub fn bind_by_ref<T, R, F: Fn(&T) -> R>(f: F) -> (g: impl Fn(T) -> R)
    requires
        forall|x: &T| #[trigger] f.requires((x,)),
    ensures
        forall|x: T| #[trigger] g.requires((x,)),
        forall|x: T, r: R| #[trigger] g.ensures((x,), r) ==> f.ensures((&x,), r),
{
    move |x: T| -> (r: R)
        ensures
            f.ensures((&x,), r),
        { f(&x) }
}

} // verus!
