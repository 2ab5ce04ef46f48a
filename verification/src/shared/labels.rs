//! Labels used as jump targets.
use vstd::prelude::*;

verus! {

/// Identifies a label created by a [`LabelStorage`].
#[derive(Clone, Copy, Debug, PartialEq, Eq, Hash, Structural)]
pub struct LabelId(pub usize);

/// A label and whether control can reach it from only one place.
#[derive(Clone, Copy, Debug)]
pub struct Label {
    pub single_source: bool,
}

/// Owns every label of a program; ids index into it.
pub struct LabelStorage(pub Vec<Label>);

impl LabelStorage {
    /// The single-source flag of each label, by id.
    pub open spec fn flags(&self) -> Seq<bool> {
        self.0@.map_values(|l: Label| l.single_source)
    }

    pub fn new() -> (r: LabelStorage)
        ensures
            r.flags() == Seq::<bool>::empty(),
    {
        LabelStorage(Vec::new())
    }

    /// Adds a label and returns its id, which is the number of labels that
    /// existed before.
    pub fn create_label(&mut self, single_source: bool) -> (id: LabelId)
        ensures
            id.0 == old(self).flags().len(),
            final(self).flags() == old(self).flags().push(single_source),
    {
        let id = LabelId(self.0.len());
        self.0.push(Label { single_source });
        proof {
            assert(self.flags() =~= old(self).flags().push(single_source));
        }
        id
    }

    pub fn is_label_single_source(&mut self, label: LabelId) -> (r: bool)
        requires
            label.0 < old(self).flags().len(),
        ensures
            r == old(self).flags()[label.0 as int],
            final(self).flags() == old(self).flags(),
    {
        self.0[label.0].single_source
    }
}

} // verus!
