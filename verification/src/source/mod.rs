//! Sources discover file versions; they report stable identities and leave
//! processing to the pipeline.
pub mod file_tailer;
pub mod dir_scanner;

use vstd::prelude::*;
use crate::ids::FileFingerprint;

pub use self::dir_scanner::DirectoryScannerSource;

verus! {

/// A discovered version of a file.
#[derive(Debug, PartialEq, Eq)]
pub struct FileVersionDiscovered {
    pub fingerprint: FileFingerprint,
    pub file_version_id: [u8; 32],
}

impl Clone for FileVersionDiscovered {
    fn clone(&self) -> (c: Self)
        ensures
            c == *self,
    {
        FileVersionDiscovered { fingerprint: self.fingerprint.clone(), file_version_id: self.file_version_id }
    }
}

/// A pull-based source of discovery events.
pub trait Source {
    fn poll(&mut self) -> Vec<FileVersionDiscovered>;
}

} // verus!
