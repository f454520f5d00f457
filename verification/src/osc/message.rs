//! One message: an address, type tags, and arguments read on demand.

use crate::osc::atom;
use crate::osc::wire::{
    parse_message, MessageView, TAG_FLOAT32, TAG_INT32, TAG_SENTINEL, TAG_STRING,
};
use crate::osc::Atom;
use vstd::prelude::*;

verus! {

/// A message whose header has been read. Arguments are read one at a time, each
/// as its type tag says.
pub struct Parser<'a> {
    address: &'a [u8],
    type_tags: &'a [u8],
    atom_parser: atom::Parser<'a>,
}

impl<'a> View for Parser<'a> {
    type V = MessageView;

    closed spec fn view(&self) -> MessageView {
        MessageView { address: self.address@, tags: self.type_tags@, data: self.atom_parser@ }
    }
}

impl<'a> Parser<'a> {
    /// Reads the header of the message that `bytes` holds: the address, then
    /// the type-tag string, which has to start with a comma.
    pub fn new(bytes: &'a [u8]) -> (r: Result<Self, ()>)
        ensures
            match parse_message(bytes@) {
                Some(message) => r matches Ok(parser) && parser@ == message,
                None => r is Err,
            },
    {
        let mut atom_parser = atom::Parser::new(bytes);
        let address = atom_parser.read_string()?;
        let type_tag = atom_parser.read_string()?;
        if type_tag.len() == 0 || type_tag[0] != TAG_SENTINEL {
            return Err(());
        }
        let type_tag = &type_tag[1..type_tag.len()];
        Ok(Self { address, atom_parser, type_tags: type_tag })
    }

    /// How many arguments have not been read yet.
    pub fn num_of_rest_arguments(&self) -> (n: usize)
        ensures
            n == self@.tags.len(),
    {
        self.type_tags.len()
    }

    /// Reads the next argument as its type tag says. Fails where no tag is
    /// left, where the tag is not one of `i`, `f` and `s`, and where the data
    /// do not hold such a value. A tag is consumed even when reading its value
    /// fails; the data are consumed only on success.
    pub fn read_argument(&mut self) -> (r: Result<Atom<'a>, ()>)
        ensures
            final(self)@ == old(self)@.next_argument().0,
            match old(self)@.next_argument().1 {
                Some(value) => r matches Ok(atom) && atom@ == value,
                None => r is Err,
            },
    {
        if self.type_tags.len() == 0 {
            return Err(());
        }
        let tag: u8 = self.type_tags[0];
        self.type_tags = &self.type_tags[1..self.type_tags.len()];
        if tag == TAG_INT32 {
            Ok(Atom::Int32(self.atom_parser.read_int32()?))
        } else if tag == TAG_FLOAT32 {
            Ok(Atom::Float32(self.atom_parser.read_float32()?))
        } else if tag == TAG_STRING {
            Ok(Atom::String(self.atom_parser.read_string()?))
        } else {
            Err(())
        }
    }

    /// The address of the message.
    pub fn address(&self) -> (address: &'a [u8])
        ensures
            address@ == self@.address,
    {
        self.address
    }
}

} // verus!
