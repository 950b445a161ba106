//! NNG messages, as `nng_core` holds them: a header and a body, both bytes.

use vstd::prelude::*;
use nng_core::Message;

verus! {

/// `nng_core::Message`.
#[verifier::external_type_specification]
#[verifier::external_body]
pub struct ExMessage(nng_core::Message);

/// The body of a message.
pub uninterp spec fn message_body(m: Message) -> Seq<u8>;

/// The header of a message, which the NNG protocols keep for themselves.
pub uninterp spec fn message_header(m: Message) -> Seq<u8>;

/// An empty message.
///
/// Calls `nng_core::Message::new`: both parts are empty.
#[verifier::external_body]
fn new() -> (m: Message)
    ensures
        message_body(m) == Seq::<u8>::empty(),
        message_header(m) == Seq::<u8>::empty(),
{
    Message::new()
}

/// Appends to the body of a message.
///
/// Calls `nng_core::Message::push_back`, which extends the body by the bytes
/// and leaves the header alone.
#[verifier::external_body]
fn push_back(m: &mut Message, data: &[u8])
    ensures
        message_body(*final(m)) == message_body(*old(m)) + data@,
        message_header(*final(m)) == message_header(*old(m)),
{
    m.push_back(data)
}

/// The body of a message.
///
/// Calls `nng_core::Message::body`.
#[verifier::external_body]
pub(crate) fn body(m: &Message) -> (data: &[u8])
    ensures
        data@ == message_body(*m),
{
    m.body()
}

/// A message with the given body and no header.
pub fn message_of(data: &[u8]) -> (m: Message)
    ensures
        message_body(m) == data@,
        message_header(m) == Seq::<u8>::empty(),
{
    let mut m: Message = new();
    push_back(&mut m, data);
    assert(message_body(m) =~= data@);
    m
}

} // verus!
