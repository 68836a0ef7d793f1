//! The argument checks of the TCP operations: which values name a port and
//! how many bytes a read may take.

use crate::value::Value;
use vstd::prelude::*;

verus! {

/// The port a value names: a long in `0..=65535`.
pub fn tcp_port(v: &Value) -> (r: Option<u16>)
    ensures
        r == match *v {
            Value::Long(n) => if 0 <= n <= 65535 {
                Some(n as u16)
            } else {
                None
            },
            _ => None,
        },
{
    match v {
        Value::Long(n) => {
            if 0 <= *n && *n <= 65535 {
                Some(*n as u16)
            } else {
                None
            }
        },
        _ => None,
    }
}

/// What a read's size argument asks for.
pub enum ReadLimit {
    /// Not a long: the read gives nil.
    Invalid,
    /// Zero or less: the read gives an empty string without reading.
    Nothing,
    /// Up to this many bytes.
    Bytes(u64),
}

/// What a read's size argument asks for (see [`ReadLimit`]).
pub fn read_limit(v: &Value) -> (r: ReadLimit)
    ensures
        r == match *v {
            Value::Long(n) => if n <= 0 {
                ReadLimit::Nothing
            } else {
                ReadLimit::Bytes(n as u64)
            },
            _ => ReadLimit::Invalid,
        },
{
    match v {
        Value::Long(n) => {
            if *n <= 0 {
                ReadLimit::Nothing
            } else {
                ReadLimit::Bytes(*n as u64)
            }
        },
        _ => ReadLimit::Invalid,
    }
}

} // verus!
