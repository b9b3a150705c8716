use vstd::prelude::*;

verus! {

#[derive(Clone, Copy, PartialEq, Eq, Structural, Debug)]
pub enum FileType {
    File,
    Directory,
}

#[derive(Clone, Copy, PartialEq, Eq, Structural, Debug)]
pub struct Permissions {
    pub read: bool,
    pub write: bool,
}

impl Permissions {
    pub fn readonly(&self) -> (r: bool)
        ensures
            r == (self.read && !self.write),
    {
        self.read && !self.write
    }

    pub fn writeonly(&self) -> (r: bool)
        ensures
            r == (self.write && !self.read),
    {
        self.write && !self.read
    }
}

/// File metadata, shared across backends.
#[derive(Clone, Copy, PartialEq, Eq, Structural, Debug)]
pub struct Stat {
    pub file_type: FileType,
    pub permissions: Permissions,
    pub size: usize,
}

} // verus!
