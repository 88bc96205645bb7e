//! The dataset the engine reads: two column-major matrices of binary32 bit
//! patterns (one per split), whose last row is the regression target.
//!
//! The engine never parses files: whoever owns I/O hands the matrices in as
//! plain values, and `Data::new` validates their shape.

use vstd::prelude::*;

verus! {

/// A column-major matrix: every row is one variable over all instances, all
/// rows have the same positive length, and there are at least two rows (one
/// input variable and the target).
pub open spec fn matrix_wf(m: Seq<Vec<u32>>) -> bool {
    &&& m.len() >= 2
    &&& m[0]@.len() >= 1
    &&& forall|i: int| 0 <= i < m.len() ==> (#[trigger] m[i])@.len() == m[0]@.len()
}

/// The train and test splits, shared read-only by every component.
pub struct Data {
    pub dimensions: usize,
    pub train: Vec<Vec<u32>>,
    pub test: Vec<Vec<u32>>,
}

impl Data {
    /// Shape invariant: both splits are well-formed matrices with
    /// `dimensions + 1` rows, the extra row being the target.
    pub open spec fn wf(&self) -> bool {
        &&& self.dimensions >= 1
        &&& self.train@.len() == self.dimensions + 1
        &&& self.test@.len() == self.dimensions + 1
        &&& matrix_wf(self.train@)
        &&& matrix_wf(self.test@)
    }

    /// Number of training instances.
    pub open spec fn n_train(&self) -> nat {
        self.train@[0]@.len()
    }

    /// Number of test instances.
    pub open spec fn n_test(&self) -> nat {
        self.test@[0]@.len()
    }

    pub fn train(&self) -> (r: &Vec<Vec<u32>>)
        ensures
            r == &self.train,
    {
        &self.train
    }

    pub fn test(&self) -> (r: &Vec<Vec<u32>>)
        ensures
            r == &self.test,
    {
        &self.test
    }

    /// Number of input variables (columns minus the target).
    pub fn dims(&self) -> (r: usize)
        ensures
            r == self.dimensions,
    {
        self.dimensions
    }

    /// The target row of the training split.
    pub fn train_targets(&self) -> (r: &Vec<u32>)
        requires
            self.train@.len() >= 1,
        ensures
            r == &self.train@[self.train@.len() - 1],
    {
        &self.train[self.train.len() - 1]
    }

    /// The target row of the test split.
    pub fn test_targets(&self) -> (r: &Vec<u32>)
        requires
            self.test@.len() >= 1,
        ensures
            r == &self.test@[self.test@.len() - 1],
    {
        &self.test[self.test.len() - 1]
    }

    /// Builds a dataset from the two column-major matrices; `None` when the
    /// shapes do not make a well-formed dataset.
    pub fn new(train: Vec<Vec<u32>>, test: Vec<Vec<u32>>) -> (r: Option<Data>)
        ensures
            r matches Some(d) ==> d.wf() && d.train@ == train@ && d.test@ == test@
                && d.dimensions + 1 == train@.len(),
            (r is Some) <==> (train@.len() >= 2 && test@.len() == train@.len() && matrix_wf(
                train@,
            ) && matrix_wf(test@)),
    {
        if train.len() < 2 || test.len() != train.len() {
            return None;
        }
        if !Self::check_rows(&train) || !Self::check_rows(&test) {
            return None;
        }
        Some(
            Data {
                dimensions: train.len() - 1,
                train,
                test,
            },
        )
    }

    /// All rows have the same positive length.
    fn check_rows(m: &Vec<Vec<u32>>) -> (r: bool)
        requires
            m@.len() >= 1,
        ensures
            r == (m@[0]@.len() >= 1 && forall|i: int|
                0 <= i < m@.len() ==> (#[trigger] m@[i])@.len() == m@[0]@.len()),
    {
        let n0 = m[0].len();
        if n0 == 0 {
            return false;
        }
        let mut i: usize = 1;
        while i < m.len()
            invariant
                1 <= i <= m@.len(),
                n0 == m@[0]@.len(),
                n0 >= 1,
                forall|j: int| 0 <= j < i ==> (#[trigger] m@[j])@.len() == n0,
            decreases m@.len() - i,
        {
            if m[i].len() != n0 {
                return false;
            }
            i += 1;
        }
        true
    }
}

} // verus!
