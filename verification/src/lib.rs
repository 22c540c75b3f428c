pub mod cubes;
pub mod hamming;
pub mod narcissistic;
