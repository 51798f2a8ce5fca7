//! Exactly one: taking the only candidate out of a collection.

use vstd::prelude::*;

verus! {

/// Why there is no single candidate.
#[derive(Debug, Clone, Copy, PartialEq, Eq)]
pub enum SingleError {
    /// There is none.
    Zero,
    /// There are two or more.
    MoreThanOne,
}

impl SingleError {
    /// The error in words.
    pub fn message(&self) -> (text: String)
        ensures
            text@ == match *self {
                SingleError::Zero => "Expected a single element but got none"@,
                SingleError::MoreThanOne => "Expected a single element but got more than one"@,
            },
    {
        match self {
            SingleError::Zero => "Expected a single element but got none".to_owned(),
            SingleError::MoreThanOne => "Expected a single element but got more than one".to_owned(),
        }
    }
}

/// A collection that can hand out its only candidate.
pub trait Single<T> {
    /// The candidates that the collection holds, in order.
    spec fn candidates(&self) -> Seq<T>;

    /// Takes out the only candidate. With none or with more than one, fails
    /// and leaves the collection as it was.
    fn single(&mut self) -> (result: Result<T, SingleError>)
        ensures
            old(self).candidates().len() == 0 ==> result == Err::<T, SingleError>(
                SingleError::Zero,
            ),
            old(self).candidates().len() == 1 ==> result == Ok::<T, SingleError>(
                old(self).candidates()[0],
            ),
            old(self).candidates().len() > 1 ==> result == Err::<T, SingleError>(
                SingleError::MoreThanOne,
            ),
            result is Ok ==> final(self).candidates().len() == 0,
            result is Err ==> final(self).candidates() == old(self).candidates(),
    ;
}

impl<T> Single<T> for Vec<T> {
    open spec fn candidates(&self) -> Seq<T> {
        self@
    }

    fn single(&mut self) -> (result: Result<T, SingleError>) {
        if self.len() > 1 {
            Err(SingleError::MoreThanOne)
        } else {
            match self.pop() {
                Some(only) => Ok(only),
                None => Err(SingleError::Zero),
            }
        }
    }
}

} // verus!
