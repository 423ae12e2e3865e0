//! The source that a virtual machine is made for.

use crate::text::{trim, trimmed};
use vstd::prelude::*;

verus! {

/// Why there is no virtual machine.
#[derive(Clone, Copy, Debug, PartialEq, Eq, Structural)]
pub enum VmError {
    /// The source holds nothing but blanks.
    EmptySource,
    /// No source was loaded.
    NothingLoaded,
}

/// Collects the source for a virtual machine.
#[derive(Debug)]
pub struct VmBuilder {
    loaded: Option<String>,
}

impl VmBuilder {
    /// The source loaded so far.
    pub closed spec fn source(&self) -> Option<Seq<char>> {
        match self.loaded {
            Some(source) => Some(source@),
            None => None,
        }
    }

    /// A builder without source.
    pub fn new() -> (r: Self)
        ensures
            r.source() is None,
    {
        VmBuilder { loaded: None }
    }

    /// Takes the contents of a source file, without the blanks around it,
    /// in place of what was loaded before. A file of blanks is refused.
    pub fn load(self, content: String) -> (r: Result<Self, VmError>)
        ensures
            r is Err <==> trimmed(content@).len() == 0,
            r matches Err(e) ==> e == VmError::EmptySource,
            r matches Ok(builder) ==> builder.source() == Some(trimmed(content@)),
    {
        let source = trim(content.as_str());
        self.load_trimmed(source)
    }

    /// Takes `source` as it is in place of what was loaded before. The
    /// empty source is refused.
    pub fn load_trimmed(self, source: String) -> (r: Result<Self, VmError>)
        ensures
            r is Err <==> source@.len() == 0,
            r matches Err(e) ==> e == VmError::EmptySource,
            r matches Ok(builder) ==> builder.source() == Some(source@),
    {
        if source.as_str().unicode_len() == 0 {
            return Err(VmError::EmptySource);
        }
        Ok(VmBuilder { loaded: Some(source) })
    }

    /// The virtual machine for the source loaded.
    pub fn build(self) -> (r: Result<Vm, VmError>)
        ensures
            match r {
                Ok(vm) => self.source() == Some(vm.source()),
                Err(e) => e == VmError::NothingLoaded && self.source() is None,
            },
    {
        match self.loaded {
            Some(source) => Ok(Vm { source }),
            None => Err(VmError::NothingLoaded),
        }
    }
}

impl Default for VmBuilder {
    /// A builder without source.
    fn default() -> (r: Self)
        ensures
            r.source() is None,
    {
        VmBuilder::new()
    }
}

/// A script ready to be run.
#[derive(Debug)]
pub struct Vm {
    source: String,
}

impl Vm {
    /// The text of the script.
    pub closed spec fn source(&self) -> Seq<char> {
        self.source@
    }

    /// A builder without source.
    pub fn builder() -> (r: VmBuilder)
        ensures
            r.source() is None,
    {
        VmBuilder::new()
    }

    /// The text of the script.
    pub fn source_text(&self) -> (r: &str)
        ensures
            r@ == self.source(),
    {
        self.source.as_str()
    }
}

} // verus!
