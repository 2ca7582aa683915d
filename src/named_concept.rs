//! Where a named artifact lives: a directory and a suffix that its file name gets.

use vstd::prelude::*;
use crate::names::{FileName, Path, is_valid_file_name, is_valid_path, to_vec};

verus! {

/// Why the artifacts of a kind could not be listed.
#[derive(Debug, Clone, Copy, PartialEq, Eq, Hash)]
pub enum NamedConceptListError {
    InsufficientPermissions,
    InternalError,
}

/// The directory and the suffix of the artifacts of one kind.
#[derive(Debug, Clone)]
pub struct Configuration {
    suffix: FileName,
    path_hint: Path,
}

/// The full path of the artifact `name`: `{path_hint}/{name}{suffix}`.
pub open spec fn spec_path_of(path_hint: Seq<u8>, name: Seq<u8>, suffix: Seq<u8>) -> Seq<u8> {
    path_hint + seq![47u8] + name + suffix
}

impl Configuration {
    pub closed spec fn spec_suffix(&self) -> Seq<u8> {
        self.suffix@
    }

    pub closed spec fn spec_path_hint(&self) -> Seq<u8> {
        self.path_hint@
    }

    pub closed spec fn wf(&self) -> bool {
        is_valid_file_name(self.suffix@) && is_valid_path(self.path_hint@)
    }

    /// A configuration with the given suffix and directory.
    pub fn new(suffix: FileName, path_hint: Path) -> (r: Self)
        requires
            is_valid_file_name(suffix@),
            is_valid_path(path_hint@),
        ensures
            r.wf(),
            r.spec_suffix() == suffix@,
            r.spec_path_hint() == path_hint@,
    {
        Configuration { suffix, path_hint }
    }

    /// Replaces the suffix.
    pub fn suffix(self, value: FileName) -> (r: Self)
        requires
            self.wf(),
            is_valid_file_name(value@),
        ensures
            r.wf(),
            r.spec_suffix() == value@,
            r.spec_path_hint() == self.spec_path_hint(),
    {
        Configuration { suffix: value, path_hint: self.path_hint }
    }

    /// Replaces the directory.
    pub fn path_hint(self, value: Path) -> (r: Self)
        requires
            self.wf(),
            is_valid_path(value@),
        ensures
            r.wf(),
            r.spec_suffix() == self.spec_suffix(),
            r.spec_path_hint() == value@,
    {
        Configuration { suffix: self.suffix, path_hint: value }
    }

    /// Returns the suffix.
    pub fn get_suffix(&self) -> (r: &FileName)
        ensures
            r@ == self.spec_suffix(),
    {
        &self.suffix
    }

    /// Returns the directory.
    pub fn get_path_hint(&self) -> (r: &Path)
        ensures
            r@ == self.spec_path_hint(),
    {
        &self.path_hint
    }

    /// Returns the full path of the artifact `name`.
    pub fn path_of(&self, name: &FileName) -> (r: Vec<u8>)
        ensures
            r@ == spec_path_of(self.spec_path_hint(), name@, self.spec_suffix()),
    {
        let mut r = to_vec(self.path_hint.as_bytes());
        r.push(47u8);
        let mut tail = to_vec(name.as_bytes());
        r.append(&mut tail);
        let mut suffix = to_vec(self.suffix.as_bytes());
        r.append(&mut suffix);
        r
    }
}

} // verus!
