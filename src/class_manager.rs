//! The set of loaded classes, the selected one, and their binary representations.
use vstd::prelude::*;
use crate::binary_representation::{BinaryRepresentation, allowances_fit};
use crate::corridor::Allowances;

verus! {

/// Whether a control action changed the classes or the selection.
pub struct ClassManagerControlsResponse {
    pub changed: bool,
}

impl ClassManagerControlsResponse {
    pub fn new() -> (r: Self)
        ensures
            !r.changed,
    {
        Self { changed: false }
    }

    pub fn changed(&self) -> (r: bool)
        ensures
            r == self.changed,
    {
        self.changed
    }
}

/// Loaded classes of one length, the selected class and the classes' binary representation.
pub struct ClassManager {
    pub selected_class: usize,
    pub classes: Vec<Vec<u8>>,
    pub binary_representations: BinaryRepresentation,
}

impl ClassManager {
    /// All classes have the length of the first one.
    pub open spec fn wf(&self) -> bool {
        forall|c: int| 0 <= c < self.classes@.len() ==> (#[trigger] self.classes@[c])@.len() == self.classes@[0]@.len()
    }

    /// No classes, nothing selected.
    pub fn new() -> (r: Self)
        ensures
            r.wf(),
            r.classes@.len() == 0,
            r.selected_class == 0,
            r.binary_representations.matrices@.len() == 0,
            r.binary_representations.reference_vectors@.len() == 0,
    {
        ClassManager {
            selected_class: 0,
            classes: Vec::new(),
            binary_representations: BinaryRepresentation { matrices: Vec::new(), reference_vectors: Vec::new() },
        }
    }

    /// Adds a class when there is none yet or it has the length of the loaded ones.
    pub fn add_class(&mut self, data: Vec<u8>)
        requires
            old(self).wf(),
        ensures
            final(self).wf(),
            final(self).selected_class == old(self).selected_class,
            (old(self).classes@.len() == 0 || old(self).classes@[0]@.len() == data@.len()) ==> final(self).classes@ == old(
                self,
            ).classes@.push(data),
            !(old(self).classes@.len() == 0 || old(self).classes@[0]@.len() == data@.len()) ==> final(self).classes@ == old(
                self,
            ).classes@,
    {
        if self.classes.len() == 0 || self.classes[0].len() == data.len() {
            self.classes.push(data);
        }
    }

    /// Rebuilds the binary representation of the classes against `allowances`; leaves it
    /// as it is when there are no classes.
    pub fn recalculate_binary_representation(&mut self, size: (usize, usize), allowances: &Allowances)
        requires
            size.0 > 0,
            allowances_fit(allowances, size.0 as nat),
            forall|c: int| 0 <= c < old(self).classes@.len() ==> (#[trigger] old(self).classes@[c])@.len() == size.0 * size.1,
        ensures
            final(self).classes@ == old(self).classes@,
            final(self).selected_class == old(self).selected_class,
            old(self).classes@.len() > 0 ==> final(self).binary_representations.represents(old(self).classes@, size, allowances),
    {
        if self.classes.len() > 0 {
            self.binary_representations = BinaryRepresentation::new(&self.classes, size, allowances);
        }
    }

    /// Resets a selection that no longer names a class to the first class.
    pub fn normalize_selection(&mut self)
        ensures
            final(self).classes@ == old(self).classes@,
            old(self).selected_class >= old(self).classes@.len() ==> final(self).selected_class == 0,
            old(self).selected_class < old(self).classes@.len() ==> final(self).selected_class == old(self).selected_class,
    {
        if self.selected_class >= self.classes.len() {
            self.selected_class = 0;
        }
    }

    /// Selects class `class`.
    pub fn select_class(&mut self, class: usize) -> (r: ClassManagerControlsResponse)
        requires
            class < old(self).classes@.len(),
        ensures
            final(self).classes@ == old(self).classes@,
            final(self).selected_class == class,
            r.changed,
    {
        self.selected_class = class;
        ClassManagerControlsResponse { changed: true }
    }

    /// Removes the selected class, if there is one, and selects the first class.
    pub fn delete_selected(&mut self) -> (r: ClassManagerControlsResponse)
        requires
            old(self).wf(),
        ensures
            final(self).wf(),
            old(self).selected_class < old(self).classes@.len() ==> final(self).classes@ == old(self).classes@.remove(
                old(self).selected_class as int,
            ),
            old(self).selected_class >= old(self).classes@.len() ==> final(self).classes@ == old(self).classes@,
            final(self).selected_class == 0,
            r.changed,
    {
        if self.classes.len() > self.selected_class {
            let ghost before = self.classes@;
            self.classes.remove(self.selected_class);
            proof {
                if self.classes@.len() > 0 {
                    assert forall|c: int| 0 <= c < self.classes@.len() implies (#[trigger] self.classes@[c])@.len() == self.classes@[0]@.len() by {
                        if c < self.selected_class {
                            assert(self.classes@[c] == before[c]);
                        } else {
                            assert(self.classes@[c] == before[c + 1]);
                        }
                        if self.selected_class > 0 {
                            assert(self.classes@[0] == before[0]);
                        } else {
                            assert(self.classes@[0] == before[1]);
                        }
                    }
                }
            }
        }
        self.selected_class = 0;
        ClassManagerControlsResponse { changed: true }
    }
}

} // verus!
