use vstd::prelude::*;

verus! {

/// Marks a stream as supporting both reading and writing.
pub trait ReadWrite {

}

/// A file handle: owns the byte stream a backend produced. Once returned
/// it is independent of the mount table; unmounting the mount that
/// produced it has no effect on it.
pub struct File<Inner> {
    inner: Box<Inner>,
}

impl<Inner> View for File<Inner> {
    type V = Inner;

    closed spec fn view(&self) -> Inner {
        *self.inner
    }
}

impl<Inner> File<Inner> {
    pub fn new(inner: Box<Inner>) -> (r: File<Inner>)
        ensures
            r@ == *inner,
    {
        File { inner }
    }

    /// Borrows the underlying stream.
    pub fn get_ref(&self) -> (r: &Inner)
        ensures
            *r == self@,
    {
        &*self.inner
    }

    /// Hands the underlying stream to the caller.
    pub fn into_inner(self) -> (r: Box<Inner>)
        ensures
            *r == self@,
    {
        self.inner
    }
}

} // verus!
