//! Extraction of the single element a collection is required to hold.
//! Several systems expect exactly one match — the one player, the one
//! project, the one dug cell — and anything else is a contract violation
//! reported as an error, never a silent pick.

use vstd::prelude::*;

verus! {

/// Why a single-element extraction failed: the collection was empty, or it
/// held more than one element.
#[derive(Clone, Copy, PartialEq, Eq, Structural, Debug)]
pub enum SingleIterError {
    NoResult,
    MoreThanOneResult,
}

impl SingleIterError {
    /// A short description of the failure.
    pub fn describe(&self) -> (r: &'static str)
        ensures
            *self == SingleIterError::NoResult ==> r@ == "no result"@,
            *self == SingleIterError::MoreThanOneResult ==> r@ == "more than one result"@,
    {
        match self {
            SingleIterError::NoResult => "no result",
            SingleIterError::MoreThanOneResult => "more than one result",
        }
    }
}

/// Collections that can yield their one required element.
pub trait IterExt: Sized {
    type Item;

    /// The collection's elements in order.
    spec fn items(&self) -> Seq<Self::Item>;

    /// The single element, when the collection holds exactly one; otherwise
    /// which way the requirement failed.
    fn single(self) -> (r: Result<Self::Item, SingleIterError>)
        ensures
            self.items().len() == 1 ==> (r matches Ok(v) && v == self.items()[0]),
            self.items().len() == 0 ==> r == Err::<Self::Item, _>(SingleIterError::NoResult),
            self.items().len() > 1 ==> r == Err::<Self::Item, _>(
                SingleIterError::MoreThanOneResult,
            ),
    ;
}

impl<T> IterExt for Vec<T> {
    type Item = T;

    open spec fn items(&self) -> Seq<T> {
        self@
    }

    fn single(self) -> (r: Result<T, SingleIterError>) {
        let mut this = self;
        if this.len() == 0 {
            Err(SingleIterError::NoResult)
        } else if this.len() > 1 {
            Err(SingleIterError::MoreThanOneResult)
        } else {
            match this.pop() {
                Some(v) => Ok(v),
                None => Err(SingleIterError::NoResult),
            }
        }
    }
}

} // verus!
