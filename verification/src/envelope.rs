//! Message envelope: a one-byte kind tag in front of the packed body, with
//! tag dispatch to the matching body codec when reading. A single kind is
//! registered today; further kinds add a tag and a codec without touching
//! this one.

use vstd::prelude::*;
use crate::bits::{bits_of, zero_bits};
use crate::codec::J3_2AirTrack;
use crate::errors::Error;
use crate::MSG_ID_J3_2;

verus! {

/// A tagged wire message.
#[derive(Debug, Clone, Copy, PartialEq, Eq, Structural)]
pub enum JMessage {
    J3_2(J3_2AirTrack),
}

impl JMessage {
    /// The air-track report this message carries.
    pub open spec fn report(self) -> J3_2AirTrack {
        match self {
            JMessage::J3_2(r) => r,
        }
    }

    /// The carried report satisfies the width invariant.
    pub open spec fn wf(self) -> bool {
        self.report().wf()
    }

    /// Serialize: the kind byte, then the 15-byte packed body. All-or-
    /// nothing; equal messages give identical bytes.
    pub fn to_bytes(&self) -> (out: Vec<u8>)
        requires
            self.wf(),
        ensures
            out@.len() == 16,
            out@[0] == MSG_ID_J3_2,
            bits_of(out@.skip(1)) == self.report().body_bits() + zero_bits(3),
    {
        match self {
            JMessage::J3_2(rep) => {
                let mut out: Vec<u8> = Vec::new();
                out.push(MSG_ID_J3_2);
                let mut body = rep.encode();
                let ghost body_view = body@;
                out.append(&mut body);
                proof {
                    assert(out@.skip(1) =~= body_view);
                }
                out
            },
        }
    }

    /// Parse wire bytes: fails on an empty buffer, dispatches on the kind
    /// byte, rejects unregistered kinds, and hands the remainder to the
    /// matching body codec. The input is never mutated.
    pub fn from_bytes(input: &[u8]) -> (r: Result<JMessage, Error>)
        ensures
            input@.len() == 0 ==> r == Err::<JMessage, Error>(Error::ShortBuffer(8, 0)),
            input@.len() >= 1 && input@[0] != MSG_ID_J3_2 ==> r == Err::<JMessage, Error>(
                Error::UnsupportedKind(input@[0]),
            ),
            input@.len() >= 1 && input@[0] == MSG_ID_J3_2 && (input@.len() - 1) * 8 >= 117 ==> r
                == Ok::<JMessage, Error>(JMessage::J3_2(
                J3_2AirTrack::report_of_bits(bits_of(input@.skip(1))),
            )),
            input@.len() >= 1 && input@[0] == MSG_ID_J3_2 && (input@.len() - 1) * 8 < 117 ==> r
                == Err::<JMessage, Error>(Error::ShortBuffer(117, ((input@.len() - 1) * 8) as usize)),
            r matches Ok(m) ==> m.wf(),
    {
        if input.len() == 0 {
            return Err(Error::ShortBuffer(8, 0));
        }
        let kind: u8 = input[0];
        if kind == MSG_ID_J3_2 {
            let body: &[u8] = vstd::slice::slice_subrange(input, 1, input.len());
            proof {
                assert(body@ =~= input@.skip(1));
            }
            match J3_2AirTrack::decode(body) {
                Ok(rep) => Ok(JMessage::J3_2(rep)),
                Err(e) => Err(e),
            }
        } else {
            Err(Error::UnsupportedKind(kind))
        }
    }
}

} // verus!
