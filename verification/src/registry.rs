//! The registry of named definitions that a script fills while it loads.
//! It is read by name; where a name was defined more than once, the first
//! definition is the one found.

use crate::text::texts_view;
use vstd::prelude::*;

verus! {

/// What a definition says of whether it is a test.
#[derive(Clone, Copy, Debug, PartialEq, Eq, Structural)]
pub enum TestFlag {
    /// It says nothing.
    Missing,
    /// It says yes or no.
    Flag(bool),
    /// It says something that is neither.
    Other,
}

impl TestFlag {
    /// Whether a definition with this flag is run as a test: it is unless it
    /// says no, or says something that cannot be read.
    pub open spec fn spec_is_a_test(self) -> bool {
        match self {
            TestFlag::Missing => true,
            TestFlag::Flag(flag) => flag,
            TestFlag::Other => false,
        }
    }

    /// Computes [`Self::spec_is_a_test`].
    #[verifier::when_used_as_spec(spec_is_a_test)]
    pub fn is_a_test(self) -> (r: bool)
        ensures
            r == self.spec_is_a_test(),
    {
        match self {
            TestFlag::Missing => true,
            TestFlag::Flag(flag) => flag,
            TestFlag::Other => false,
        }
    }
}

/// `at` is the first position at which `names` holds `name`.
pub open spec fn is_first_named(names: Seq<Seq<char>>, name: Seq<char>, at: int) -> bool {
    &&& 0 <= at < names.len()
    &&& names[at] == name
    &&& forall|k: int| 0 <= k < at ==> names[k] != name
}

/// The definitions of a script, in the order in which they were made.
pub struct Registry {
    names: Vec<String>,
    flags: Vec<TestFlag>,
}

impl Registry {
    /// The names of the definitions, in order.
    pub closed spec fn names(&self) -> Seq<Seq<char>> {
        texts_view(self.names@)
    }

    /// For each definition, whether it is run as a test.
    pub closed spec fn tests(&self) -> Seq<bool> {
        Seq::new(self.flags@.len(), |i: int| self.flags@[i].spec_is_a_test())
    }

    /// Every definition has a name and a flag.
    pub closed spec fn wf(&self) -> bool {
        self.names.len() == self.flags.len()
    }

    /// A well-formed registry says of each of its names whether it is a
    /// test.
    pub proof fn lemma_wf(&self)
        requires
            self.wf(),
        ensures
            self.names().len() == self.tests().len(),
    {
    }

    /// A registry without definitions.
    pub fn new() -> (r: Self)
        ensures
            r.wf(),
            r.names().len() == 0,
            r.tests().len() == 0,
    {
        Registry { names: Vec::new(), flags: Vec::new() }
    }

    /// Adds a definition after those already made. A name may come again;
    /// lookups go on finding the earlier definition.
    pub fn define(&mut self, name: String, test: TestFlag)
        requires
            old(self).wf(),
        ensures
            final(self).wf(),
            final(self).names() == old(self).names().push(name@),
            final(self).tests() == old(self).tests().push(test.spec_is_a_test()),
    {
        self.names.push(name);
        self.flags.push(test);
        assert(self.names() =~= old(self).names().push(name@));
        assert(self.tests() =~= old(self).tests().push(test.spec_is_a_test()));
    }

    /// The number of definitions.
    pub fn len(&self) -> (r: usize)
        requires
            self.wf(),
        ensures
            r == self.names().len(),
    {
        self.names.len()
    }

    /// The position of the first definition called `name`, or `None` where
    /// no definition has that name.
    pub fn find(&self, name: &str) -> (r: Option<usize>)
        requires
            self.wf(),
        ensures
            match r {
                Some(at) => is_first_named(self.names(), name@, at as int),
                None => forall|k: int| 0 <= k < self.names().len() ==> self.names()[k] != name@,
            },
    {
        let wanted = String::from_str(name);
        let mut i: usize = 0;
        while i < self.names.len()
            invariant
                i <= self.names.len(),
                wanted@ == name@,
                forall|k: int| 0 <= k < i ==> self.names()[k] != name@,
            decreases self.names.len() - i,
        {
            if self.names[i] == wanted {
                return Some(i);
            }
            i += 1;
        }
        None
    }

    /// The definitions in order: for each whether it is run as a test, and
    /// its name.
    pub fn list_definitions(&self) -> (r: Vec<(bool, String)>)
        requires
            self.wf(),
        ensures
            r.len() == self.names().len(),
            forall|i: int|
                0 <= i < r.len() ==> (#[trigger] r[i]).0 == self.tests()[i] && r[i].1@
                    == self.names()[i],
    {
        let mut list: Vec<(bool, String)> = Vec::new();
        let mut i: usize = 0;
        while i < self.names.len()
            invariant
                self.wf(),
                i <= self.names.len(),
                list.len() == i,
                forall|k: int|
                    0 <= k < i ==> (#[trigger] list[k]).0 == self.tests()[k] && list[k].1@
                        == self.names()[k],
            decreases self.names.len() - i,
        {
            list.push((self.flags[i].is_a_test(), self.names[i].clone()));
            i += 1;
        }
        list
    }
}

} // verus!
