//! The direct children of the Segment element.

use vstd::prelude::*;

verus! {

/// A direct child of the Segment element, located on disk.
#[derive(Clone, Copy, Debug, PartialEq, Eq, Structural)]
pub struct TopChild {
    pub id: u64,
    /// Absolute offset of the element ID.
    pub start: u64,
    /// Bytes of ID plus size VINT.
    pub header_len: u64,
    /// Payload length.
    pub size: u64,
}

impl TopChild {
    /// Where the payload starts.
    pub open spec fn data_at(self) -> int {
        self.start + self.header_len
    }

    /// Where the element ends.
    pub open spec fn end_at(self) -> int {
        self.start + self.header_len + self.size
    }

    /// How many bytes the element takes.
    pub open spec fn extent(self) -> int {
        self.header_len + self.size
    }

    pub fn data_start(&self) -> (r: u64)
        requires
            self.data_at() <= u64::MAX,
        ensures
            r == self.data_at(),
    {
        self.start + self.header_len
    }

    pub fn end(&self) -> (r: u64)
        requires
            self.end_at() <= u64::MAX,
        ensures
            r == self.end_at(),
    {
        self.start + self.header_len + self.size
    }

    pub fn total_len(&self) -> (r: u64)
        requires
            self.extent() <= u64::MAX,
        ensures
            r == self.extent(),
    {
        self.header_len + self.size
    }
}

/// How far the walk of the Segment's children got.
#[derive(Debug, PartialEq, Eq)]
pub enum Scan {
    /// Every child was located.
    Complete,
    /// The walk stopped at the first Cluster, having already found Tracks.
    /// There are more children after it.
    StoppedAtClusters,
    /// The walk could not go any further, and says why.
    Blocked(String),
}

/// The model of [`Scan`].
pub enum ScanModel {
    Complete,
    StoppedAtClusters,
    Blocked(Seq<char>),
}

impl View for Scan {
    type V = ScanModel;

    open spec fn view(&self) -> ScanModel {
        match *self {
            Scan::Complete => ScanModel::Complete,
            Scan::StoppedAtClusters => ScanModel::StoppedAtClusters,
            Scan::Blocked(why) => ScanModel::Blocked(why@),
        }
    }
}

impl Clone for Scan {
    fn clone(&self) -> (r: Scan)
        ensures
            r@ == self@,
    {
        match self {
            Scan::Complete => Scan::Complete,
            Scan::StoppedAtClusters => Scan::StoppedAtClusters,
            Scan::Blocked(why) => Scan::Blocked(why.clone()),
        }
    }
}

} // verus!
