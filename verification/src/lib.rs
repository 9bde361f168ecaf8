//! A collection of small verified exercises. The centrepiece is a
//! fixed-capacity circular FIFO buffer with explicit full/empty error
//! signalling; beside it stand a handful of independent utilities:
//! fraction arithmetic, a queen-attack test, summation of multiples,
//! word counting, and assorted list and string helpers.

pub mod circular_buffer;
pub mod example;
pub mod fraction;
pub mod queen_attack;
pub mod sum_of_multiples;
pub mod word_count;
