//! Anagrams: the round's parameters, the scramble with the words that it
//! holds, and the answers found so far.

pub mod anagram;
pub mod round;
pub mod utils;
