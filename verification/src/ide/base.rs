//! Values tagged with the file they come from.
use std::path::PathBuf;
use vstd::prelude::*;

verus! {

#[verifier::external_type_specification]
#[verifier::external_body]
pub struct ExPathBuf(PathBuf);

/// `PathBuf::clone`, which the derived `Clone` of `VfsPath` calls; nothing is claimed of
/// the copy it makes.
pub assume_specification[ <PathBuf as Clone>::clone ](p: &PathBuf) -> PathBuf;

/// A path in the file system, as the database knows a file by it.
#[derive(Clone, Hash, PartialEq, Eq, Debug)]
pub struct VfsPath(pub PathBuf);

/// A file, as the database names it.
#[derive(Debug, PartialEq, Eq, Clone, Copy, Hash, Structural)]
pub struct File(pub u32);

/// A value together with the file it belongs to.
#[derive(Debug, PartialEq, Eq, Clone, Copy, Hash)]
pub struct InFile<T> {
    pub file_id: File,
    pub value: T,
}

impl<T> InFile<T> {
    pub fn new(file_id: File, value: T) -> (r: Self)
        ensures
            r.file_id == file_id,
            r.value == value,
    {
        Self { file_id, value }
    }

    /// Another value in the same file.
    pub fn with_value<U>(&self, value: U) -> (r: InFile<U>)
        ensures
            r.file_id == self.file_id,
            r.value == value,
    {
        InFile::new(self.file_id, value)
    }

    /// The value that `f` makes of this one, in the same file.
    pub fn map<U, F: FnOnce(T) -> U>(self, f: F) -> (r: InFile<U>)
        requires
            f.requires((self.value,)),
        ensures
            r.file_id == self.file_id,
            f.ensures((self.value,), r.value),
    {
        InFile { file_id: self.file_id, value: f(self.value) }
    }

    /// A reference to the value, in the same file.
    pub fn as_ref(&self) -> (r: InFile<&T>)
        ensures
            r.file_id == self.file_id,
            *r.value == self.value,
    {
        self.with_value(&self.value)
    }
}

impl<T: Clone> InFile<&T> {
    /// A clone of the value, in the same file.
    pub fn cloned(&self) -> (r: InFile<T>)
        ensures
            r.file_id == self.file_id,
            cloned::<T>(*self.value, r.value),
    {
        self.with_value(self.value.clone())
    }
}

} // verus!
