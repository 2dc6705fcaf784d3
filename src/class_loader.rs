//! Admission of a decoded grayscale class into the training or the exam set.
use vstd::prelude::*;
use crate::class_manager::ClassManager;

verus! {

/// The set a loaded class goes to.
#[derive(Clone, Copy, Debug, PartialEq, Eq, Structural)]
pub enum ClassType {
    Training,
    Exam,
}

impl Default for ClassType {
    fn default() -> (r: Self)
        ensures
            r == ClassType::Training,
    {
        ClassType::Training
    }
}

/// Why a class was not admitted.
#[derive(Clone, Copy, Debug, PartialEq, Eq, Structural)]
pub enum LoadError {
    /// The image could not be read or decoded.
    Unreadable,
    /// A class with the same bytes is already in the set.
    AlreadyLoaded,
    /// The class's width and height differ from those of the loaded classes.
    SizeMismatch { expected_width: usize, expected_height: usize, found_width: usize, found_height: usize },
}

/// State of the loading boundary: the shape of the loaded classes, the set the next class
/// goes to, the last error and the path typed in.
pub struct ClassLoader {
    pub size: (usize, usize),
    pub class_type: ClassType,
    pub error: Option<LoadError>,
    pub path: String,
}

/// Whether one of `classes` holds exactly the bytes `bytes`.
pub open spec fn already_loaded(classes: Seq<Vec<u8>>, bytes: Seq<u8>) -> bool {
    exists|c: int| 0 <= c < classes.len() && (#[trigger] classes[c])@ == bytes
}

fn same_bytes(a: &Vec<u8>, b: &Vec<u8>) -> (r: bool)
    ensures
        r == (a@ == b@),
{
    if a.len() != b.len() {
        return false;
    }
    let mut i: usize = 0;
    while i < a.len()
        invariant
            a@.len() == b@.len(),
            i <= a@.len(),
            forall|k: int| 0 <= k < i ==> a@[k] == b@[k],
        decreases a@.len() - i,
    {
        if a[i] != b[i] {
            return false;
        }
        i += 1;
    }
    assert(a@ =~= b@);
    true
}

fn contains_class(classes: &Vec<Vec<u8>>, bytes: &Vec<u8>) -> (r: bool)
    ensures
        r == already_loaded(classes@, bytes@),
{
    let mut i: usize = 0;
    while i < classes.len()
        invariant
            i <= classes@.len(),
            forall|c: int| 0 <= c < i ==> (#[trigger] classes@[c])@ != bytes@,
        decreases classes@.len() - i,
    {
        if same_bytes(&classes[i], bytes) {
            return true;
        }
        i += 1;
    }
    false
}

impl ClassLoader {
    /// Nothing loaded, training set, no error, empty path.
    pub fn new() -> (r: Self)
        ensures
            r.size == (0usize, 0usize),
            r.class_type == ClassType::Training,
            r.error is None,
    {
        ClassLoader { size: (0, 0), class_type: ClassType::Training, error: None, path: String::new() }
    }

    /// Admits a decoded class of `width` by `height` into the set that `class_type` names.
    /// It is refused when that set already holds the same bytes, or when the set is not
    /// empty and the shape differs from the recorded one; when the set is empty the shape
    /// is recorded. The outcome's error, if any, is kept in `error`.
    pub fn accept(
        &mut self,
        class_manager: &ClassManager,
        exam_manager: &ClassManager,
        bytes: Vec<u8>,
        width: usize,
        height: usize,
    ) -> (r: Result<Vec<u8>, LoadError>)
        ensures
            ({
                let manager = if old(self).class_type == ClassType::Training {
                    class_manager
                } else {
                    exam_manager
                };
                &&& already_loaded(manager.classes@, bytes@) ==> r == Err::<Vec<u8>, LoadError>(LoadError::AlreadyLoaded)
                &&& !already_loaded(manager.classes@, bytes@) && manager.classes@.len() == 0 ==> r is Ok && final(self).size == (width, height)
                &&& !already_loaded(manager.classes@, bytes@) && manager.classes@.len() > 0 && old(self).size == (width, height) ==> r is Ok
                    && final(self).size == old(self).size
                &&& !already_loaded(manager.classes@, bytes@) && manager.classes@.len() > 0 && old(self).size != (width, height) ==> r
                    == Err::<Vec<u8>, LoadError>(LoadError::SizeMismatch {
                        expected_width: old(self).size.0,
                        expected_height: old(self).size.1,
                        found_width: width,
                        found_height: height,
                    })
                &&& r is Err ==> final(self).size == old(self).size
                &&& r matches Ok(v) ==> v@ == bytes@
            }),
            final(self).class_type == old(self).class_type,
            final(self).path@ == old(self).path@,
            r matches Err(e) ==> final(self).error == Some(e),
            r is Ok ==> final(self).error is None,
    {
        let manager = match self.class_type {
            ClassType::Training => class_manager,
            ClassType::Exam => exam_manager,
        };
        if contains_class(&manager.classes, &bytes) {
            self.error = Some(LoadError::AlreadyLoaded);
            return Err(LoadError::AlreadyLoaded);
        }
        if manager.classes.len() == 0 {
            self.size = (width, height);
        } else if self.size.0 != width || self.size.1 != height {
            let e = LoadError::SizeMismatch {
                expected_width: self.size.0,
                expected_height: self.size.1,
                found_width: width,
                found_height: height,
            };
            self.error = Some(e);
            return Err(e);
        }
        self.error = None;
        Ok(bytes)
    }
}

} // verus!
