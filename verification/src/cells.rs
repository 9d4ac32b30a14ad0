//! The invocation protocol of closures.
//!
//! A closure pairs a fixed-size ordered list of mutable parameter cells
//! with a compiled body.  An invocation overwrites every cell with the
//! corresponding positional argument — nothing of the previous contents
//! survives — and only then runs the body, which reads the cells.  The
//! body itself belongs to the expression evaluator around this library;
//! what is verified here is the binding step that the evaluator calls.

use vstd::prelude::*;
use crate::value::Value;

verus! {

/// The parameter cells of one closure.
pub struct ParamCells {
    cells: Vec<Value>,
}

impl ParamCells {
    /// The current contents of the cells, in parameter order.
    pub closed spec fn contents(&self) -> Seq<Value> {
        self.cells@
    }

    /// Cells for a closure, primed with their initial contents.
    pub fn new(init: Vec<Value>) -> (r: ParamCells)
        ensures
            r.contents() == init@,
    {
        ParamCells { cells: init }
    }

    /// The number of cells, which every argument list must match.
    pub fn arity(&self) -> (r: usize)
        ensures
            r == self.contents().len(),
    {
        self.cells.len()
    }

    /// Bind the arguments of one invocation: overwrite every cell with
    /// the corresponding argument.  Whatever an earlier invocation left
    /// in the cells is gone; the body that runs next reads exactly these
    /// arguments.
    pub fn bind(&mut self, args: Vec<Value>)
        requires
            args@.len() == old(self).contents().len(),
        ensures
            final(self).contents() == args@,
    {
        self.cells = args;
    }

    /// Read one cell, as the compiled body does while it executes.
    pub fn read(&self, i: usize) -> (r: &Value)
        requires
            i < self.contents().len(),
        ensures
            *r == self.contents()[i as int],
    {
        &self.cells[i]
    }
}

} // verus!
