//! The data of one function as the pipeline hands it from pass to pass.
use crate::bytecode::Bytecode;
use crate::livevar::LiveVarAnnotation;
use vstd::prelude::*;

verus! {

/// The analysis results attached to a function. All of them speak of code
/// offsets, so a pass that moves instructions leaves none of them valid.
pub struct Annotations {
    /// The live-variable annotation, if that analysis has run.
    pub live_vars: Option<LiveVarAnnotation>,
    /// The handles of the other annotations attached to the function.
    pub others: Vec<u64>,
}

impl Annotations {
    /// No annotation is attached.
    pub open spec fn is_cleared(&self) -> bool {
        self.live_vars is None && self.others@.len() == 0
    }

    /// An empty bundle of annotations.
    pub fn new() -> (annotations: Annotations)
        ensures
            annotations.is_cleared(),
    {
        Annotations { live_vars: None, others: Vec::new() }
    }

    /// Whether no annotation is attached.
    pub fn is_empty(&self) -> (empty: bool)
        ensures
            empty == self.is_cleared(),
    {
        self.live_vars.is_none() && self.others.len() == 0
    }

    /// The live-variable annotation, if there is one.
    pub fn get_live_vars(&self) -> (live_vars: Option<&LiveVarAnnotation>)
        ensures
            match live_vars {
                Some(annotation) => self.live_vars == Some(*annotation),
                None => self.live_vars is None,
            },
    {
        self.live_vars.as_ref()
    }

    /// Attaches the live-variable annotation, in place of an earlier one.
    pub fn set_live_vars(&mut self, live_vars: LiveVarAnnotation)
        ensures
            final(self).live_vars == Some(live_vars),
            final(self).others == old(self).others,
    {
        self.live_vars = Some(live_vars);
    }

    /// Attaches another annotation, known by its handle.
    pub fn attach(&mut self, handle: u64)
        ensures
            final(self).live_vars == old(self).live_vars,
            final(self).others@ == old(self).others@.push(handle),
    {
        self.others.push(handle);
    }

    /// Removes every annotation.
    pub fn clear(&mut self)
        ensures
            final(self).is_cleared(),
    {
        self.live_vars = None;
        self.others.clear();
    }
}

/// The code of a function and the annotations attached to it.
pub struct FunctionData {
    /// The instructions, each at the offset of its index.
    pub code: Vec<Bytecode>,
    /// The analysis results that speak of those offsets.
    pub annotations: Annotations,
}

impl FunctionData {
    /// A function with the given code and no annotation.
    pub fn new(code: Vec<Bytecode>) -> (data: FunctionData)
        ensures
            data.code == code,
            data.annotations.is_cleared(),
    {
        FunctionData { code, annotations: Annotations::new() }
    }
}

} // verus!
