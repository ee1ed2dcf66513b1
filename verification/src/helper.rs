//! Events that the page sends to the simulation as raw bytes.

use vstd::prelude::*;

verus! {

/// A user action, decoded from a host message.
#[derive(Clone, Copy, Debug, PartialEq, Eq, Structural)]
pub enum UserEvent {
    /// Pause (`true`) or resume (`false`) the simulation.
    Pause(bool),
    /// The drawing surface changed size and must be redrawn.
    Resize,
}

/// The 32-bit little-endian word that starts at byte `at` of `s`.
pub open spec fn word_at(s: Seq<u8>, at: int) -> int
    recommends
        0 <= at,
        at + 4 <= s.len(),
{
    s[at] + 0x100 * s[at + 1] + 0x1_0000 * s[at + 2] + 0x100_0000 * s[at + 3]
}

/// A message is long enough to decode: four bytes of tag, and for a pause
/// message four more bytes of payload.
pub open spec fn well_framed(s: Seq<u8>) -> bool {
    &&& s.len() >= 4
    &&& word_at(s, 0) == 1 ==> s.len() >= 8
}

/// What a well-framed message means.  Tag 1 is a pause message whose payload
/// word is the flag (any non-zero word pauses), tag 2 is a resize, every
/// other tag is unknown.
pub open spec fn decoded(s: Seq<u8>) -> Result<UserEvent, ()> {
    if word_at(s, 0) == 1 {
        Ok(UserEvent::Pause(word_at(s, 4) != 0))
    } else if word_at(s, 0) == 2 {
        Ok(UserEvent::Resize)
    } else {
        Err(())
    }
}

/// Reads the little-endian word at `at`.
fn load_word(data: &[u8], at: usize) -> (w: u32)
    requires
        at + 4 <= data@.len(),
    ensures
        w == word_at(data@, at as int),
{
    let b0: u32 = data[at] as u32;
    let b1: u32 = data[at + 1] as u32;
    let b2: u32 = data[at + 2] as u32;
    let b3: u32 = data[at + 3] as u32;
    b0 + 0x100 * b1 + 0x1_0000 * b2 + 0x100_0000 * b3
}

/// The message that tells the page which surface to show: the four bytes
/// of `id`, lowest first.
pub fn screen_message(id: u32) -> (buf: Vec<u8>)
    ensures
        buf@.len() == 4,
        word_at(buf@, 0) == id,
{
    let b0: u8 = (id & 0xff) as u8;
    let b1: u8 = ((id >> 8) & 0xff) as u8;
    let b2: u8 = ((id >> 16) & 0xff) as u8;
    let b3: u8 = ((id >> 24) & 0xff) as u8;
    assert(b0 + 0x100 * b1 + 0x1_0000 * b2 + 0x100_0000 * b3 == id) by (bit_vector)
        requires
            b0 == (id & 0xff) as u8,
            b1 == ((id >> 8) & 0xff) as u8,
            b2 == ((id >> 16) & 0xff) as u8,
            b3 == ((id >> 24) & 0xff) as u8,
    ;
    let mut buf: Vec<u8> = Vec::with_capacity(4);
    buf.push(b0);
    buf.push(b1);
    buf.push(b2);
    buf.push(b3);
    buf
}

impl UserEvent {
    /// Decodes a host message.  Bytes after the part that the tag calls for
    /// are ignored.
    pub fn from(data: &[u8]) -> (r: Result<UserEvent, ()>)
        requires
            well_framed(data@),
        ensures
            r == decoded(data@),
    {
        let tag: u32 = load_word(data, 0);
        if tag == 1 {
            let flag: u32 = load_word(data, 4);
            Ok(UserEvent::Pause(flag != 0))
        } else if tag == 2 {
            Ok(UserEvent::Resize)
        } else {
            Err(())
        }
    }
}

} // verus!
