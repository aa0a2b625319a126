pub mod dense;
pub mod layout;
pub mod sparse;
pub mod store;

pub use dense::SegmentTree;
pub use sparse::SegmentTreeMap;
