//! Who may touch the output tree: any number of requests that read it, or
//! one build that writes it, never both.

use vstd::prelude::*;

verus! {

/// The readers at work and whether a build is.
pub struct Coordinator {
    readers: usize,
    building: bool,
}

impl Coordinator {
    #[verifier::type_invariant]
    spec fn apart(self) -> bool {
        !(self.building && self.readers > 0)
    }

    /// How many requests are reading the output tree.
    pub closed spec fn reading(self) -> nat {
        self.readers as nat
    }

    /// Whether a build is writing the output tree.
    pub closed spec fn writing(self) -> bool {
        self.building
    }

    /// Nobody reads, nobody writes.
    pub fn new() -> (r: Coordinator)
        ensures
            r.reading() == 0,
            !r.writing(),
    {
        Coordinator { readers: 0, building: false }
    }

    /// Whether a build is in progress. While one is, nobody reads.
    pub fn in_progress(&self) -> (r: bool)
        ensures
            r == self.writing(),
            r ==> self.reading() == 0,
    {
        proof {
            use_type_invariant(self);
        }
        self.building
    }

    /// A request asks to read. It may, unless a build is in progress (or
    /// the count of readers is at its limit): then it has to wait, and
    /// nothing changes.
    pub fn try_read(&mut self) -> (granted: bool)
        ensures
            granted == (!old(self).writing() && old(self).reading() < usize::MAX),
            final(self).writing() == old(self).writing(),
            final(self).reading() == if granted {
                old(self).reading() + 1
            } else {
                old(self).reading()
            },
            !(final(self).writing() && final(self).reading() > 0),
    {
        proof {
            use_type_invariant(&*self);
        }
        if self.building || self.readers == usize::MAX {
            false
        } else {
            let readers = self.readers + 1;
            *self = Coordinator { readers, building: false };
            true
        }
    }

    /// A request has read. Where none was reading, nothing changes.
    pub fn end_read(&mut self)
        ensures
            final(self).writing() == old(self).writing(),
            final(self).reading() == if old(self).reading() > 0 {
                old(self).reading() - 1
            } else {
                0
            },
            !(final(self).writing() && final(self).reading() > 0),
    {
        proof {
            use_type_invariant(&*self);
        }
        if self.readers > 0 {
            let readers = self.readers - 1;
            let building = self.building;
            *self = Coordinator { readers, building };
        }
    }

    /// A build asks to start. It may, unless another build is in progress
    /// or a request is reading: then it has to wait, and nothing changes.
    pub fn try_build(&mut self) -> (granted: bool)
        ensures
            granted == (!old(self).writing() && old(self).reading() == 0),
            final(self).writing() == (old(self).writing() || granted),
            final(self).reading() == old(self).reading(),
            !(final(self).writing() && final(self).reading() > 0),
    {
        proof {
            use_type_invariant(&*self);
        }
        if self.building || self.readers > 0 {
            false
        } else {
            *self = Coordinator { readers: 0, building: true };
            true
        }
    }

    /// The build is over, whether it went well or not.
    pub fn end_build(&mut self)
        ensures
            !final(self).writing(),
            final(self).reading() == old(self).reading(),
    {
        let readers = self.readers;
        *self = Coordinator { readers, building: false };
    }
}

} // verus!
