//! A verified core of the Clorus language runtime.
pub mod hamt;
pub mod hash;
pub mod key;
pub mod list;
pub mod set;
pub mod text;
pub mod value;
pub mod equality;
pub mod collections;
pub mod transaction;
pub mod detector;
pub mod strategy;
pub mod repl;
pub mod adaptive;
pub mod protocols;
pub mod function;
pub mod debug;
pub mod hierarchy;
pub mod arithmetic;
pub mod map_ops;
pub mod printer;
pub mod strings;
pub mod regex;
pub mod project;
pub mod forms;
pub mod value_hash;
pub mod ffi_interface;
pub mod intern;
pub mod channel;
pub mod var;
pub mod refs;
pub mod transducer;
pub mod agent;
pub mod output;
pub mod loading;
pub mod namespace;
pub mod session;
pub mod atom;
pub mod net;
pub mod manifest;
