//! Assembles a collection of templated text files into one document.
//!
//! Files are put in a fixed order (shallow paths first, then by path),
//! each is rendered as a template that may inline other files by name,
//! and the rendered fragments are joined with a fixed separator.
//!
//! - [`paths`] reads paths into segments and ranks them;
//! - [`order`] proves that ranking a total order and sorts by it;
//! - [`discover`] puts discovered files in order;
//! - [`resolve`] finds the one file of a given name under a search root;
//! - [`embed`] is the directive that inlines such a file;
//! - [`render`] decides the steps of rendering, which the caller carries
//!   out with a template engine;
//! - [`assemble`] joins the fragments;
//! - [`sink`] prepares the call of the external PDF renderer.

pub mod assemble;
pub mod discover;
pub mod embed;
pub mod order;
pub mod paths;
pub mod render;
pub mod resolve;
pub mod sink;
pub mod text;
