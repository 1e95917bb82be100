//! The archive-extraction request: the bytes to unpack and the paths
//! to leave out. Unpacking itself is filesystem work and happens
//! outside this crate.
use vstd::prelude::*;

verus! {

/// A pending extraction: archive bytes plus optional excluded paths.
#[derive(Debug)]
pub struct ZipExtractor {
    pub bytes: Vec<u8>,
    pub excluded: Option<Vec<String>>,
}

impl ZipExtractor {
    /// Wraps archive bytes with nothing excluded.
    pub fn new(bytes: Vec<u8>) -> (r: ZipExtractor)
        ensures
            r.bytes == bytes,
            r.excluded is None,
    {
        ZipExtractor { bytes, excluded: None }
    }

    /// Sets the excluded paths.
    pub fn exclude(self, exclude: Vec<String>) -> (r: ZipExtractor)
        ensures
            r.bytes == self.bytes,
            r.excluded == Some(exclude),
    {
        ZipExtractor { bytes: self.bytes, excluded: Some(exclude) }
    }

    /// Whether an entry path is excluded: either itself or its parent
    /// directory is listed.
    pub fn is_excluded(&self, path: &str, parent: &str) -> (r: bool)
        ensures
            self.excluded is None ==> r == false,
            self.excluded matches Some(ex) ==> r == (exists|i: int|
                0 <= i < ex@.len() && ((#[trigger] ex@[i])@ == path@ || ex@[i]@ == parent@)),
    {
        match &self.excluded {
            None => false,
            Some(ex) => {
                let n = ex.len();
                for i in 0..n
                    invariant
                        n == ex@.len(),
                        self.excluded matches Some(e) && e@ == ex@,
                        forall|j: int|
                            0 <= j < i ==> (#[trigger] ex@[j])@ != path@ && ex@[j]@ != parent@,
                {
                    if crate::strutil::str_eq(ex[i].as_str(), path) || crate::strutil::str_eq(
                        ex[i].as_str(),
                        parent,
                    ) {
                        return true;
                    }
                }
                false
            },
        }
    }
}

} // verus!
