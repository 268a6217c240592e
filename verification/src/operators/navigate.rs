//! Navigation operators: they move the interpreter's depth, not the value.

use vstd::prelude::*;

use crate::interpreter::Context;

verus! {

/// `@`: descend one level; transforms then map over nested elements.
pub struct Descend;

impl Descend {
    /// Increment the context's depth.
    pub fn apply(&self, ctx: &mut Context)
        ensures
            final(ctx).depth_of() == if old(ctx).depth_of() < usize::MAX {
                old(ctx).depth_of() + 1
            } else {
                old(ctx).depth_of()
            },
            final(ctx).root_of() == old(ctx).root_of(),
    {
        ctx.descend();
    }
}

/// `^`: ascend one level, saturating at the root.
pub struct Ascend;

impl Ascend {
    /// Decrement the context's depth, stopping at zero.
    pub fn apply(&self, ctx: &mut Context)
        ensures
            final(ctx).depth_of() == if old(ctx).depth_of() > 0 {
                old(ctx).depth_of() - 1
            } else {
                0
            },
            final(ctx).root_of() == old(ctx).root_of(),
    {
        ctx.ascend();
    }
}

} // verus!
