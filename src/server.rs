//! Merging the single-byte external input into the controlled agent's state.
use vstd::prelude::*;

verus! {

/// The controlled agent's pending input after one poll of the input channel.
///
/// A datagram sets it to its first byte (an empty datagram to 0); no datagram
/// leaves it as it was.
pub fn server_run(current: u8, received: Option<Vec<u8>>) -> (r: u8)
    ensures
        r == match received {
            None => current,
            Some(d) => if d.len() > 0 {
                d[0]
            } else {
                0u8
            },
        },
{
    match received {
        None => current,
        Some(d) => {
            if d.len() > 0 {
                d[0]
            } else {
                0
            }
        },
    }
}

} // verus!
