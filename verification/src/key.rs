//! Values that can be map keys and set elements: scalars, and the
//! identities of reference values (atoms, refs, agents, channels, functions,
//! vars and other objects).

use crate::hash::{default_hash_of_str, default_hash_str, hash_long, spec_hash_long};
use crate::text::{copy_string, same_text};
use crate::value::ValueTag;
use vstd::prelude::*;

verus! {

/// A key: nil, a boolean, an integer, a string, a keyword or a symbol (the
/// last three hold their name), or the identity of a reference value (its
/// kind and identifier).
pub enum Key {
    Nil,
    Bool(bool),
    Long(i64),
    Str(String),
    Keyword(String),
    Symbol(String),
    Identity(ValueTag, u64),
}

/// The mathematical content of a [`Key`].
pub enum KeyView {
    Nil,
    Bool(bool),
    Long(i64),
    Str(Seq<char>),
    Keyword(Seq<char>),
    Symbol(Seq<char>),
    Identity(ValueTag, u64),
}

impl View for Key {
    type V = KeyView;

    open spec fn view(&self) -> KeyView {
        match self {
            Key::Nil => KeyView::Nil,
            Key::Bool(b) => KeyView::Bool(*b),
            Key::Long(n) => KeyView::Long(*n),
            Key::Str(s) => KeyView::Str(s@),
            Key::Keyword(s) => KeyView::Keyword(s@),
            Key::Symbol(s) => KeyView::Symbol(s@),
            Key::Identity(t, id) => KeyView::Identity(*t, *id),
        }
    }
}

/// The structural hash of a scalar: 0 for nil, 0 or 1 for a boolean, the
/// number hash for an integer, and std's string hash of the name or text.
pub open spec fn key_hash(k: KeyView) -> u64 {
    match k {
        KeyView::Nil => 0,
        KeyView::Bool(b) => if b {
            1
        } else {
            0
        },
        KeyView::Long(n) => spec_hash_long(n),
        KeyView::Str(s) => default_hash_str(s),
        KeyView::Keyword(s) => default_hash_str(s),
        KeyView::Symbol(s) => default_hash_str(s),
        KeyView::Identity(_, id) => id,
    }
}

impl Key {
    /// Structural equality of two scalars.
    pub fn equals(&self, other: &Key) -> (r: bool)
        ensures
            r == (self@ == other@),
    {
        match (self, other) {
            (Key::Nil, Key::Nil) => true,
            (Key::Bool(a), Key::Bool(b)) => *a == *b,
            (Key::Long(a), Key::Long(b)) => *a == *b,
            (Key::Str(a), Key::Str(b)) => same_text(a.as_str(), b.as_str()),
            (Key::Keyword(a), Key::Keyword(b)) => same_text(a.as_str(), b.as_str()),
            (Key::Symbol(a), Key::Symbol(b)) => same_text(a.as_str(), b.as_str()),
            (Key::Identity(t, a), Key::Identity(u, b)) => *t == *u && *a == *b,
            _ => false,
        }
    }

    /// Structural hash of a scalar.
    pub fn hash(&self) -> (r: u64)
        ensures
            r == key_hash(self@),
    {
        match self {
            Key::Nil => 0,
            Key::Bool(b) => if *b {
                1
            } else {
                0
            },
            Key::Long(n) => hash_long(*n),
            Key::Str(s) => default_hash_of_str(s.as_str()),
            Key::Keyword(s) => default_hash_of_str(s.as_str()),
            Key::Symbol(s) => default_hash_of_str(s.as_str()),
            Key::Identity(_, id) => *id,
        }
    }

    /// A copy of this scalar.
    pub fn copy(&self) -> (r: Key)
        ensures
            r@ == self@,
    {
        match self {
            Key::Nil => Key::Nil,
            Key::Bool(b) => Key::Bool(*b),
            Key::Long(n) => Key::Long(*n),
            Key::Str(s) => Key::Str(copy_string(s)),
            Key::Keyword(s) => Key::Keyword(copy_string(s)),
            Key::Symbol(s) => Key::Symbol(copy_string(s)),
            Key::Identity(t, id) => Key::Identity(*t, *id),
        }
    }
}

} // verus!
