//! Builds the running order of prompts for a party game session from a
//! catalog of prompt templates.

pub mod item;
pub mod random;
pub mod storyline;
pub mod template;
pub mod wizard;
