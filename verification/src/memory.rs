//! Release of what a run has allocated.

use vstd::prelude::*;
use crate::interpreter::{Runtime, RuntimeView};

verus! {

/// Releases the strings that the runtime has interned.
pub fn free_object(runtime: &mut Runtime)
    requires
        old(runtime)@.interner.valid(),
    ensures
        final(runtime)@ == (RuntimeView { interner: old(runtime)@.interner.released(), ..old(runtime)@ }),
{
    let interner = runtime.interner_mut();
    interner.free();
}

} // verus!
