//! A fixed-capacity circular FIFO queue whose behaviour is proved against a
//! mathematical model of its storage.

pub mod buffer;
pub mod into_iter;
pub mod laws;
pub mod model;

pub use buffer::RingBuffer;
pub use into_iter::IntoIter;
