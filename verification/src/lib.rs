//! Detection of cyclic strings: a string is cyclic when it consists of two or
//! more repetitions of a strictly shorter block.  The decision procedure
//! builds the Knuth-Morris-Pratt failure table and applies the classic
//! period-detection identity to its last entry.

pub mod arith;
pub mod border;
pub mod cyclic;
pub mod period;
pub mod table;

pub use cyclic::cyclic_of_table;
pub use cyclic::is_cyclic;
pub use table::calculate_next;
