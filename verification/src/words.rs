//! The words of the newline-delimited control protocol, as ASCII bytes.

use vstd::prelude::*;

verus! {

/// The line terminator.
pub const NEWLINE: u8 = 10;

/// The separator between the fields of a line.
pub const SPACE: u8 = 32;

/// `OK`. Opens the handshake line when parameters are known; also the heartbeat reply.
pub const WORD_OK: [u8; 2] = [79, 75];

/// `NO_PARAMS`. Opens the handshake line while no parameters are known.
pub const WORD_NO_PARAMS: [u8; 9] = [78, 79, 95, 80, 65, 82, 65, 77, 83];

/// `ENC`. Announces encryption; the salt follows in hexadecimal.
pub const WORD_ENC: [u8; 3] = [69, 78, 67];

/// `NOENC`. Announces a plaintext session.
pub const WORD_NOENC: [u8; 5] = [78, 79, 69, 78, 67];

/// `HEART`. The heartbeat command; the session key follows.
pub const WORD_HEART: [u8; 5] = [72, 69, 65, 82, 84];

/// `DISCONNECT`. Asks the peer to close the session.
pub const WORD_DISCONNECT: [u8; 10] = [68, 73, 83, 67, 79, 78, 78, 69, 67, 84];

/// `BYE`. Acknowledges a client's disconnect.
pub const WORD_BYE: [u8; 3] = [66, 89, 69];

/// `SERVER_STOP`. Tells clients that the server is shutting down.
pub const WORD_SERVER_STOP: [u8; 11] = [83, 69, 82, 86, 69, 82, 95, 83, 84, 79, 80];

} // verus!
