//! A small numbered message with a random id.
use crate::proto::{fresh_uuid, is_random_uuid};
use vstd::prelude::*;

verus! {

/// A message: a random id and 128 bits of data.
#[derive(Clone, Copy, Debug)]
pub struct Message {
    pub id: u128,
    pub data: u128,
}

impl Message {
    /// A message carrying `data`, with a fresh random id.
    pub fn new(data: u128) -> (m: Self)
        ensures
            m.data == data,
            is_random_uuid(m.id),
    {
        Message { id: fresh_uuid(), data }
    }

    /// The size of a message in memory, in bytes.
    pub fn max_size() -> (n: usize)
        ensures
            n as nat == vstd::layout::size_of::<Message>(),
    {
        core::mem::size_of::<Message>()
    }
}

} // verus!
