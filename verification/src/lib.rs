//! Building blocks of an order-preserving streaming pipeline: sequence-tagged
//! work items, the buffer and sink that restore sequence order after parallel
//! stages, and the bookkeeping that turns a full or empty bounded queue into a
//! bounded wait instead of a spin.

pub mod blocks;
pub mod channel;
pub mod coordinator;
pub mod item;
pub mod overlay;
pub mod reorder;
pub mod restore;
pub mod sink;
