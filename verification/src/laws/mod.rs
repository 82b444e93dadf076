//! Laws of the census: what holds of every update, of every state, and of updates taken
//! together.

pub mod elections;
pub mod groups;
pub mod members;
pub mod news;
pub mod order;
pub mod outcome;
pub mod peers;
pub mod records;
pub mod updates;
