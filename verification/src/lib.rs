//! A virtual tree of named nodes whose leaves alias real files.
//!
//! The tree is navigated with verbs known from a file system (`cd`, `ls`,
//! `mkdir`, `rm`) while the files it points at stay where they are. The crate
//! holds the node structure, the resolution of typed paths into positions of
//! the tree, the operations that read and change the tree, and the state of
//! the line editor that sits on top of it.
//!
//! The tree: [`item`] is the node, [`walk`] goes down from a node, [`model`]
//! and [`commands`] are the tree with the position of its user, [`outline`]
//! draws a subtree. [`disk`] records what was found on the real file system,
//! [`realpath`] works on the paths of real files. [`laws`] states what holds
//! across these.
//!
//! The session: [`parser`] takes a typed line apart, [`app`] is the state of
//! a session, with [`cursor`], [`history`], [`completer`] and [`rich`] as its
//! parts.

pub mod text;
pub mod name;
pub mod error;
pub mod path;
pub mod disk;
pub mod item;
pub mod walk;
pub mod outline;
pub mod realpath;
pub mod model;
pub mod commands;
pub mod laws;
pub mod parser;
pub mod input;
pub mod cursor;
pub mod history;
pub mod completer;
pub mod rich;
pub mod app;
