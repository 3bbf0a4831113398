//! Verification conditions for annotated eBPF assembly.
//!
//! A program comes as text: instructions, labels, and formulas that say
//! what holds at entry, what must hold at every exit, what cuts a loop and
//! what must hold at a point of the program. From it the crate derives
//! first-order proof obligations. If all of them are valid, the program
//! meets what it says of itself.
//!
//! The way from text to obligations, and the module of each step:
//!
//! - [`parse`] reads the text into the lines of [`ast`]; its `grammar`
//!   says what text is a program.
//! - [`cfg`] folds the lines into a graph of basic blocks; its `model`
//!   says which graph a program has.
//! - [`wp`] computes weakest preconditions of straight-line code.
//! - [`vc`] walks the graph from the exits back to the entry, cuts loops at
//!   invariants and yields the obligations; its `model` says which, and
//!   its `sound` why they suffice.
//! - [`whyml`] and [`cvc5`] write the obligations for a solver.
//!
//! [`formula`] builds formulas, renames identifiers and mints fresh ones;
//! [`semantics`] says what formulas mean and why renaming is safe;
//! [`sound`] says what instructions do and why the preconditions suffice;
//! [`decimal`] and [`listing`] write numbers and instructions.
//!
//! Every executable function has a contract over the models of its
//! arguments, and states no more than Verus has proved.

pub mod ast;
pub mod cfg;
pub mod cvc5;
pub mod decimal;
pub mod formula;
pub mod listing;
pub mod parse;
pub mod semantics;
pub mod sound;
pub mod vc;
pub mod whyml;
pub mod wp;
