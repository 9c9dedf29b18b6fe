use vstd::prelude::*;

verus! {

/// The content hash that names a stored test manifest.
#[derive(Clone, Copy, Debug, PartialEq, Eq, Hash)]
pub struct TestManifestId {
    pub hash: [u8; 32],
}

/// A directory entry of a test manifest: where its manifest is stored, and the longest
/// basename of the files below it.
#[derive(Clone, Debug, PartialEq, Eq, Hash)]
pub struct TestManifestDirectory {
    pub id: TestManifestId,
    pub max_basename_length: u64,
}

/// An entry of a test manifest.
#[derive(Clone, Debug, PartialEq, Eq)]
pub enum TestManifestEntry {
    File,
    Directory(TestManifestDirectory),
}

} // verus!
