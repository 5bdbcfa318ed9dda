//! Buttification: a word is cut into syllables by a simple vowel rule, and
//! one syllable of one word of a sentence is replaced by the token `butt`.

pub mod buttify;
pub mod chance;
pub mod sentence;
pub mod syllable;
