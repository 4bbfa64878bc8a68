//! Callable objects: functions and the closures that wrap them.

use vstd::prelude::*;
use crate::chunk::{Chunk, ChunkView};
use crate::value::Value;

verus! {

pub type FunId = u32;

pub type ClosureId = u32;

/// What a function holds.
pub struct FunctionView {
    pub arity: usize,
    pub chunk: ChunkView,
    pub name: Seq<char>,
    pub upvalues_count: u32,
}

/// A compiled function. The one with the empty name is the top-level
/// script.
pub struct Function {
    arity: usize,
    chunk: Chunk,
    name: String,
    upvalues_count: u32,
}

impl View for Function {
    type V = FunctionView;

    closed spec fn view(&self) -> FunctionView {
        FunctionView {
            arity: self.arity,
            chunk: self.chunk@,
            name: self.name@,
            upvalues_count: self.upvalues_count,
        }
    }
}

impl Function {
    /// The chunk's line table has one line for every code byte.
    pub open spec fn wf(&self) -> bool {
        self@.chunk.lines.len() == self@.chunk.code.len()
    }

    pub fn new() -> (function: Function)
        ensures
            function@ == (FunctionView {
                arity: 0,
                chunk: ChunkView::empty(),
                name: Seq::empty(),
                upvalues_count: 0,
            }),
            function.wf(),
    {
        Function { arity: 0, chunk: Chunk::new(), name: String::new(), upvalues_count: 0 }
    }

    pub fn upvalues_count(&self) -> (count: u32)
        ensures
            count == self@.upvalues_count,
    {
        self.upvalues_count
    }

    pub fn name(&self) -> (name: &str)
        ensures
            name@ == self@.name,
    {
        self.name.as_str()
    }

    pub fn set_name(&mut self, name: String)
        ensures
            final(self)@ == (FunctionView { name: name@, ..old(self)@ }),
    {
        self.name = name;
    }

    pub fn chunk(&self) -> (chunk: &Chunk)
        ensures
            chunk@ == self@.chunk,
    {
        &self.chunk
    }

    pub fn chunk_mut(&mut self) -> (chunk: &mut Chunk)
        ensures
            chunk@ == old(self)@.chunk,
            final(self)@ == (FunctionView { chunk: final(chunk)@, ..old(self)@ }),
    {
        &mut self.chunk
    }

    pub fn add_arity(&mut self, num: usize)
        requires
            old(self)@.arity + num <= usize::MAX,
        ensures
            final(self)@ == (FunctionView { arity: (old(self)@.arity + num) as usize, ..old(self)@ }),
    {
        self.arity = self.arity + num;
    }

    pub fn arity(&self) -> (arity: usize)
        ensures
            arity == self@.arity,
    {
        self.arity
    }

    pub fn up_values_count(&self) -> (count: u32)
        ensures
            count == self@.upvalues_count,
    {
        self.upvalues_count
    }

    pub fn plus_upvalues_count(&mut self)
        requires
            old(self)@.upvalues_count < u32::MAX,
        ensures
            final(self)@ == (FunctionView {
                upvalues_count: (old(self)@.upvalues_count + 1) as u32,
                ..old(self)@
            }),
    {
        self.upvalues_count = self.upvalues_count + 1;
    }
}

/// A cell that holds a captured value.
#[derive(Debug, Clone, Copy)]
pub struct ObjUpValue {
    location: Value,
}

impl View for ObjUpValue {
    type V = Value;

    closed spec fn view(&self) -> Value {
        self.location
    }
}

impl ObjUpValue {
    pub fn new(location: Value) -> (cell: ObjUpValue)
        ensures
            cell@ == location,
    {
        ObjUpValue { location }
    }

    pub fn location(&self) -> (location: &Value)
        ensures
            *location == self@,
    {
        &self.location
    }

    pub fn location_mut(&mut self) -> (location: &mut Value)
        ensures
            *location == old(self)@,
            final(self)@ == *final(location),
    {
        &mut self.location
    }
}

impl Default for ObjUpValue {
    fn default() -> (cell: ObjUpValue)
        ensures
            cell@ == Value::Nil,
    {
        ObjUpValue { location: Value::Nil }
    }
}

/// What a closure holds: its function and the values in its cells.
pub struct ClosureView {
    pub function: FunctionView,
    pub upvalues: Seq<Value>,
}

/// A function together with the cells it captured. A function that
/// captures nothing has no cells.
pub struct Closure {
    function: Function,
    upvalues: Vec<ObjUpValue>,
    upvalues_count: u32,
}

impl View for Closure {
    type V = ClosureView;

    closed spec fn view(&self) -> ClosureView {
        ClosureView {
            function: self.function@,
            upvalues: Seq::new(self.upvalues@.len(), |i: int| self.upvalues@[i]@),
        }
    }
}

impl Closure {
    /// The closure has as many cells as its function says.
    pub closed spec fn wf(&self) -> bool {
        &&& self.upvalues_count == self.function@.upvalues_count
        &&& self.upvalues@.len() == self.upvalues_count
    }

    /// Wraps `function`, with one cell holding nil for each value that it
    /// captures.
    pub fn new(function: Function) -> (closure: Closure)
        ensures
            closure@ == (ClosureView {
                function: function@,
                upvalues: Seq::new(function@.upvalues_count as nat, |i: int| Value::Nil),
            }),
            closure.wf(),
    {
        let mut upvalues: Vec<ObjUpValue> = Vec::new();
        let upvalues_count: u32 = function.upvalues_count();
        let mut i: u32 = 0;
        while i < upvalues_count
            invariant
                i <= upvalues_count,
                upvalues@.len() == i,
                forall|j: int| 0 <= j < i ==> upvalues@[j]@ == Value::Nil,
            decreases upvalues_count - i,
        {
            upvalues.push(ObjUpValue::default());
            i += 1;
        }
        let closure = Closure { function, upvalues, upvalues_count };
        assert(closure@.upvalues =~= Seq::new(function@.upvalues_count as nat, |i: int| Value::Nil));
        closure
    }

    pub fn function(&self) -> (function: &Function)
        ensures
            function@ == self@.function,
    {
        &self.function
    }

    pub fn upvalues_count(&self) -> (count: u32)
        requires
            self.wf(),
        ensures
            count == self@.upvalues.len(),
            count == self@.function.upvalues_count,
    {
        self.upvalues_count
    }

    pub fn set_upvalue(&mut self, i: usize, up_value: ObjUpValue)
        requires
            i < old(self)@.upvalues.len(),
        ensures
            final(self)@ == (ClosureView {
                upvalues: old(self)@.upvalues.update(i as int, up_value@),
                ..old(self)@
            }),
            final(self).wf() == old(self).wf(),
    {
        let ghost before = self@;
        self.upvalues[i] = up_value;
        assert(self@.upvalues =~= before.upvalues.update(i as int, up_value@));
    }

    pub fn get_upvalues(&self, i: usize) -> (cell: ObjUpValue)
        requires
            i < self@.upvalues.len(),
        ensures
            cell@ == self@.upvalues[i as int],
    {
        self.upvalues[i]
    }
}

} // verus!
