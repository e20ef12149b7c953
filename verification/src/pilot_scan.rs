//! How far the search for vacancies is.

use vstd::prelude::*;

verus! {

/// One group of vacancies, and how many of it wait.
#[derive(Debug, Clone, PartialEq, Eq)]
pub struct ScanGroup {
    pub name: String,
    pub pending: i64,
}

/// The groups, and how many vacancies still have to be looked at.
#[derive(Debug, Clone, PartialEq, Eq)]
pub struct ScanStatus {
    pub groups: Vec<ScanGroup>,
    pub unenriched: i64,
}

impl Default for ScanStatus {
    fn default() -> (r: ScanStatus)
        ensures
            r.groups@ == Seq::<ScanGroup>::empty(),
            r.unenriched == 0,
    {
        ScanStatus { groups: Vec::new(), unenriched: 0 }
    }
}

} // verus!
