//! Open Sound Control: a datagram is either one message or a bundle of
//! length-prefixed messages.

pub mod atom;
pub mod bundle;
pub mod message;
pub mod packet;
pub mod proofs;
pub mod wire;

use crate::osc::wire::AtomView;
use vstd::prelude::*;

verus! {

/// One decoded argument. A string borrows from the datagram it was read from.
/// A float is held as its IEEE-754 binary32 bit pattern, which
/// `f32::from_bits` turns into the number.
#[derive(Debug)]
pub enum Atom<'a> {
    Int32(i32),
    Float32(u32),
    String(&'a [u8]),
}

impl<'a> View for Atom<'a> {
    type V = AtomView;

    open spec fn view(&self) -> AtomView {
        match *self {
            Atom::Int32(value) => AtomView::Int32(value),
            Atom::Float32(bits) => AtomView::Float32(bits),
            Atom::String(content) => AtomView::String(content@),
        }
    }
}

impl<'a> Atom<'a> {
    /// The integer, if this is one.
    pub fn as_int32(&self) -> (r: Option<i32>)
        ensures
            r == match self@ {
                AtomView::Int32(value) => Some(value),
                _ => None,
            },
    {
        if let Self::Int32(i) = self {
            Some(*i)
        } else {
            None
        }
    }

    /// The bit pattern of the float, if this is one.
    pub fn as_float32(&self) -> (r: Option<u32>)
        ensures
            r == match self@ {
                AtomView::Float32(bits) => Some(bits),
                _ => None,
            },
    {
        if let Self::Float32(f) = self {
            Some(*f)
        } else {
            None
        }
    }

    /// The string content, if this is one.
    pub fn as_string(&self) -> (r: Option<&'a [u8]>)
        ensures
            match self@ {
                AtomView::String(content) => r matches Some(s) && s@ == content,
                _ => r is None,
            },
    {
        if let Self::String(s) = self {
            Some(s)
        } else {
            None
        }
    }
}

/// Whether two byte strings hold the same bytes.
pub fn bytes_equal(a: &[u8], b: &[u8]) -> (equal: bool)
    ensures
        equal == (a@ == b@),
{
    if a.len() != b.len() {
        return false;
    }
    let mut i: usize = 0;
    while i < a.len()
        invariant
            a@.len() == b@.len(),
            i <= a@.len(),
            forall|j: int| 0 <= j < i ==> a@[j] == b@[j],
        decreases a@.len() - i,
    {
        if a[i] != b[i] {
            return false;
        }
        i += 1;
    }
    assert(a@ =~= b@);
    true
}

} // verus!
