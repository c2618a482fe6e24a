//! Parser for plain-text board game catalogs.
//!
//! A catalog is a sequence of game blocks separated by blank lines; each block
//! holds six labelled lines (`Name:`, `Author:`, `Age:`, `Time:`, `Players:`,
//! `Price:`). The grammar is stated as spec functions in [`grammar`], the
//! matchers that implement it are proved against them, and [`game`] turns a
//! matched block into a [`game::Game`] record.
use vstd::prelude::*;

pub mod game;
pub mod grammar;

verus! {

} // verus!
