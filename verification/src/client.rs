//! The client's compute core: framing a request for the daemon's socket and
//! decoding the daemon's reply. The socket itself lives with the caller.

use vstd::prelude::*;

use vstd::utf8::{decode_utf8, valid_utf8};

verus! {

/// The eight big-endian bytes of a 64-bit integer.
pub open spec fn be8(n: u64) -> Seq<u8> {
    seq![
        ((n as nat / 0x100000000000000nat) % 256) as u8,
        ((n as nat / 0x1000000000000nat) % 256) as u8,
        ((n as nat / 0x10000000000nat) % 256) as u8,
        ((n as nat / 0x100000000nat) % 256) as u8,
        ((n as nat / 0x1000000nat) % 256) as u8,
        ((n as nat / 0x10000nat) % 256) as u8,
        ((n as nat / 0x100nat) % 256) as u8,
        ((n as nat) % 256) as u8,
    ]
}

/// Append the eight big-endian bytes of `n`.
pub fn push_be8(n: u64, out: &mut Vec<u8>)
    ensures
        final(out)@ == old(out)@ + be8(n),
{
    out.push(((n / 0x100000000000000u64) % 256) as u8);
    out.push(((n / 0x1000000000000u64) % 256) as u8);
    out.push(((n / 0x10000000000u64) % 256) as u8);
    out.push(((n / 0x100000000u64) % 256) as u8);
    out.push(((n / 0x1000000u64) % 256) as u8);
    out.push(((n / 0x10000u64) % 256) as u8);
    out.push(((n / 0x100u64) % 256) as u8);
    out.push((n % 256) as u8);
    proof {
        assert(final(out)@ =~= old(out)@ + be8(n));
    }
}

/// A framed request: the payload's byte length and the command kind, each as
/// eight big-endian bytes, then the payload itself.
pub open spec fn frame_spec(payload: Seq<u8>) -> Seq<u8> {
    be8(payload.len() as u64) + be8(1) + payload
}

/// One request/response exchange with the daemon, tracked to completion.
pub struct Client {
    pub message: Vec<u8>,
    pub response: Option<String>,
    pub sent: bool,
}

impl Client {
    /// A client holding one request payload, not yet sent.
    pub fn new(message: Vec<u8>) -> (c: Client)
        ensures
            c.message == message,
            c.response is None,
            !c.sent,
    {
        Client { message, response: None, sent: false }
    }

    /// Frame the request for the wire, once: the first call yields the bytes
    /// to write, later calls yield nothing.
    pub fn send_message(&mut self) -> (r: Option<Vec<u8>>)
        ensures
            old(self).sent ==> r is None && *final(self) == *old(self),
            !old(self).sent ==> ({
                &&& final(self).sent
                &&& final(self).message == old(self).message
                &&& final(self).response == old(self).response
                &&& r matches Some(f) && f@ == frame_spec(old(self).message@)
            }),
    {
        if self.sent {
            return None;
        }
        self.sent = true;
        let mut frame: Vec<u8> = Vec::new();
        let byte_size: u64 = self.message.len() as u64;
        push_be8(byte_size, &mut frame);
        push_be8(1, &mut frame);
        let n: usize = self.message.len();
        let mut i: usize = 0;
        while i < n
            invariant
                n == self.message@.len(),
                i <= n,
                frame@ == be8(n as u64) + be8(1) + self.message@.take(i as int),
            decreases n - i,
        {
            frame.push(self.message[i]);
            proof {
                assert(be8(n as u64) + be8(1) + self.message@.take(i as int + 1)
                    =~= (be8(n as u64) + be8(1) + self.message@.take(i as int)).push(
                    self.message@[i as int],
                ));
            }
            i = i + 1;
        }
        proof {
            assert(self.message@.take(n as int) =~= self.message@);
        }
        Some(frame)
    }

    /// Take the bytes the daemon answered with: on valid UTF-8 store the
    /// decoded text and report success, otherwise change nothing.
    pub fn receive_answer(&mut self, response_bytes: Vec<u8>) -> (r: bool)
        ensures
            r == valid_utf8(response_bytes@),
            r ==> ({
                &&& final(self).response matches Some(s) && s@ == decode_utf8(response_bytes@)
                &&& final(self).message == old(self).message
                &&& final(self).sent == old(self).sent
            }),
            !r ==> *final(self) == *old(self),
    {
        match utf8_to_string(response_bytes) {
            Some(s) => {
                self.response = Some(s);
                true
            },
            None => false,
        }
    }

    /// Whether an answer has been stored; the caller prints it.
    pub fn handle_response(&self) -> (r: bool)
        ensures
            r == (self.response is Some),
    {
        self.response.is_some()
    }
}

/// Relies on `String::from_utf8`: `Ok` exactly when the bytes are valid
/// UTF-8, and the returned string holds their decoding.
#[verifier::external_body]
fn utf8_to_string(bytes: Vec<u8>) -> (r: Option<String>)
    ensures
        r is Some <==> valid_utf8(bytes@),
        r matches Some(s) ==> s@ == decode_utf8(bytes@),
{
    String::from_utf8(bytes).ok()
}

}
