//! A static link checker for compiled Java classes.
//!
//! Given the classes of a class path and a digest of what the platform
//! provides, the library tells which classes and methods the class path
//! refers to that nothing defines: neither a class of the class path,
//! by itself or by what it inherits, nor the platform.
//!
//! - [`decoder`] states the class-file format and decodes class files into
//!   the records of [`java_class`];
//! - [`classinfo`] states the text format of the platform digest and reads
//!   it, and [`platform`] keeps its records by name;
//! - [`requirements`] reads off a class what it refers to, and
//!   [`classpath`] keeps the classes of a class path by name;
//! - [`hierarchy`] says which methods a type has by its super classes and
//!   interfaces, and finds them;
//! - [`dependencies`] and [`checker`] take what is provided out of what is
//!   required and give the report, and [`laws`] states what holds of every
//!   report;
//! - [`names`], [`sorted`], [`table`] and [`text`] hold the order of names
//!   and the ordered collections that the rest is built on;
//! - [`args`] and [`error`] hold the options of a run and the errors.
//!
//! Every function is verified against its contract. One function is
//! believed: the wrapper of `String::from_utf8` in [`names`].

pub mod args;
pub mod checker;
pub mod classinfo;
pub mod classpath;
pub mod decoder;
pub mod dependencies;
pub mod error;
pub mod hierarchy;
pub mod java_class;
pub mod laws;
pub mod names;
pub mod platform;
pub mod requirements;
pub mod sorted;
pub mod table;
pub mod text;
