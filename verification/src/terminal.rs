//! The binary frame protocol of the terminal WebSocket.
//!
//! A client-to-server binary frame carries an opcode in its first byte:
//! `0x01` marks shell input (the remaining bytes go to the PTY verbatim),
//! `0x02` marks a resize request (rows and columns as big-endian 16-bit
//! values). Every other frame is ignored. Server-to-client frames are raw
//! PTY output and carry no opcode.

use vstd::prelude::*;
use vstd::string::StringExecFns;

verus! {

/// Opcode of a shell-input frame.
pub const OPCODE_INPUT: u8 = 1;

/// Opcode of a resize frame.
pub const OPCODE_RESIZE: u8 = 2;

/// A client-to-server frame of the terminal socket, after decoding.
pub enum TermFrame {
    /// Bytes destined for the shell's stdin, in arrival order.
    Input { data: Vec<u8> },
    /// A request to resize the terminal, dimensions not yet clamped.
    Resize { rows: u16, cols: u16 },
    /// Anything else; silently dropped.
    Ignored,
}

/// The 16-bit value encoded big-endian by two bytes.
pub open spec fn be_u16(hi: u8, lo: u8) -> u16 {
    (hi * 256 + lo) as u16
}

/// A frame asks for shell input: opcode `0x01` and a non-empty payload.
pub open spec fn is_input_frame(bytes: Seq<u8>) -> bool {
    bytes.len() >= 2 && bytes[0] == OPCODE_INPUT
}

/// A frame asks for a resize: opcode `0x02` and at least four more bytes.
pub open spec fn is_resize_frame(bytes: Seq<u8>) -> bool {
    bytes.len() >= 5 && bytes[0] == OPCODE_RESIZE
}

/// Decode one client binary frame.
///
/// An input frame yields exactly its payload, in order; a resize frame
/// yields the two big-endian dimensions; every other frame (an unknown
/// opcode, an input frame without payload, a resize frame shorter than
/// five bytes, an empty frame) is ignored.
pub fn parse_term_frame(frame: &[u8]) -> (r: TermFrame)
    ensures
        is_input_frame(frame@) ==> (r matches TermFrame::Input { data } && data@
            == frame@.skip(1)),
        is_resize_frame(frame@) ==> (r matches TermFrame::Resize { rows, cols } && rows == be_u16(
            frame@[1],
            frame@[2],
        ) && cols == be_u16(frame@[3], frame@[4])),
        !is_input_frame(frame@) && !is_resize_frame(frame@) ==> r matches TermFrame::Ignored,
{
    if frame.len() >= 2 && frame[0] == OPCODE_INPUT {
        let payload = vstd::slice::slice_subrange(frame, 1, frame.len());
        let data = vstd::slice::slice_to_vec(payload);
        TermFrame::Input { data }
    } else if frame.len() >= 5 && frame[0] == OPCODE_RESIZE {
        let rows: u16 = (frame[1] as u16) * 256 + (frame[2] as u16);
        let cols: u16 = (frame[3] as u16) * 256 + (frame[4] as u16);
        TermFrame::Resize { rows, cols }
    } else {
        TermFrame::Ignored
    }
}

/// A terminal dimension clamped to at least one row or column.
pub open spec fn spec_clamp_dim(d: u16) -> u16 {
    if d == 0 {
        1u16
    } else {
        d
    }
}

/// Clamp one terminal dimension so that a zero never reaches the PTY.
pub fn clamp_dim(d: u16) -> (r: u16)
    ensures
        r == spec_clamp_dim(d),
        r >= 1,
{
    if d == 0 {
        1
    } else {
        d
    }
}

/// The PTY size applied for a requested size: both dimensions clamped to
/// at least one, with no other change.
pub fn clamped_size(rows: u16, cols: u16) -> (r: (u16, u16))
    ensures
        r.0 == spec_clamp_dim(rows) && r.1 == spec_clamp_dim(cols),
        r.0 >= 1 && r.1 >= 1,
{
    (clamp_dim(rows), clamp_dim(cols))
}

/// Blank text: nothing but spaces, tabs and line breaks.
pub open spec fn is_blank(s: Seq<char>) -> bool {
    forall|i: int|
        0 <= i < s.len() ==> (#[trigger] s[i] == ' ' || s[i] == '\t' || s[i] == '\n' || s[i]
            == '\r')
}

/// The program the PTY spawns: the configured shell when one is set and
/// not blank, the standard shell otherwise.
pub fn shell_program(env_shell: Option<String>) -> (r: String)
    ensures
        match env_shell {
            Some(s) => (!is_blank(s@) ==> r == s) && (is_blank(s@) ==> r@ == "/bin/bash"@),
            None => r@ == "/bin/bash"@,
        },
{
    match env_shell {
        Some(s) => {
            let chars = crate::text::str_to_chars(s.as_str());
            let mut i: usize = 0;
            let mut blank = true;
            while i < chars.len()
                invariant
                    i <= chars@.len(),
                    chars@ == s@,
                    blank == (forall|j: int|
                        0 <= j < i ==> (#[trigger] chars@[j] == ' ' || chars@[j] == '\t'
                            || chars@[j] == '\n' || chars@[j] == '\r')),
                decreases chars@.len() - i,
            {
                let c = chars[i];
                if !(c == ' ' || c == '\t' || c == '\n' || c == '\r') {
                    blank = false;
                }
                i += 1;
            }
            if blank {
                String::from_str("/bin/bash")
            } else {
                s
            }
        },
        None => String::from_str("/bin/bash"),
    }
}

/// One message, or its absence, as the terminal socket's receive loop
/// observes it.
pub enum TermClientEvent {
    /// A binary frame.
    Binary { frame: Vec<u8> },
    /// A textual frame; the terminal protocol has none.
    Text,
    /// A ping with its payload.
    Ping { payload: Vec<u8> },
    /// A pong.
    Pong,
    /// The peer closed the socket.
    Close,
    /// The transport failed.
    TransportError,
    /// The stream ended.
    Ended,
}

/// What the connection does for one client event.
pub enum TermAction {
    /// Write these bytes to the PTY, in this order.
    WritePty { data: Vec<u8> },
    /// Resize the PTY to these already-clamped dimensions.
    ResizePty { rows: u16, cols: u16 },
    /// Answer a ping with this payload.
    SendPong { payload: Vec<u8> },
    /// Shut the session down and leave the loop.
    Disconnect,
    /// Nothing.
    Ignore,
}

/// Decide the connection's next action for one client event.
///
/// An input frame writes exactly its payload to the PTY, in order; a
/// resize frame resizes to its dimensions with zeroes lifted to one; a
/// ping is answered with its own payload; a close, a transport error and
/// the end of the stream all end the connection; everything else is
/// ignored.
pub fn client_event_action(event: TermClientEvent) -> (r: TermAction)
    ensures
        match event {
            TermClientEvent::Binary { frame } => {
                &&& is_input_frame(frame@) ==> (r matches TermAction::WritePty { data } && data@
                    == frame@.skip(1))
                &&& is_resize_frame(frame@) ==> (r matches TermAction::ResizePty { rows, cols }
                    && rows == spec_clamp_dim(be_u16(frame@[1], frame@[2])) && cols
                    == spec_clamp_dim(be_u16(frame@[3], frame@[4])))
                &&& !is_input_frame(frame@) && !is_resize_frame(frame@) ==> r
                    matches TermAction::Ignore
            },
            TermClientEvent::Ping { payload } => r matches TermAction::SendPong {
                payload: p,
            } && p@ == payload@,
            TermClientEvent::Close => r matches TermAction::Disconnect,
            TermClientEvent::TransportError => r matches TermAction::Disconnect,
            TermClientEvent::Ended => r matches TermAction::Disconnect,
            TermClientEvent::Text => r matches TermAction::Ignore,
            TermClientEvent::Pong => r matches TermAction::Ignore,
        },
{
    match event {
        TermClientEvent::Binary { frame } => {
            match parse_term_frame(frame.as_slice()) {
                TermFrame::Input { data } => TermAction::WritePty { data },
                TermFrame::Resize { rows, cols } => {
                    let (rows, cols) = clamped_size(rows, cols);
                    TermAction::ResizePty { rows, cols }
                },
                TermFrame::Ignored => TermAction::Ignore,
            }
        },
        TermClientEvent::Ping { payload } => TermAction::SendPong { payload },
        TermClientEvent::Close => TermAction::Disconnect,
        TermClientEvent::TransportError => TermAction::Disconnect,
        TermClientEvent::Ended => TermAction::Disconnect,
        TermClientEvent::Text => TermAction::Ignore,
        TermClientEvent::Pong => TermAction::Ignore,
    }
}

/// What the PTY reader task does with one read outcome.
pub enum PtyForward {
    /// Send exactly these bytes to the client as one binary frame.
    Send { data: Vec<u8> },
    /// The shell exited: close the socket and stop.
    CloseAndStop,
    /// The read failed: stop without closing.
    Stop,
}

/// Decide the reader task's next step for one PTY read: a failed read
/// stops the task; a read of nothing means the shell exited, which closes
/// the socket; a read of `n` bytes forwards exactly those `n` bytes, in
/// order, with no framing added.
pub fn pty_read_action(buf: &[u8], n: usize, read_failed: bool) -> (r: PtyForward)
    requires
        n <= buf@.len(),
    ensures
        read_failed ==> r matches PtyForward::Stop,
        !read_failed && n == 0 ==> r matches PtyForward::CloseAndStop,
        !read_failed && n > 0 ==> (r matches PtyForward::Send { data } && data@ == buf@.take(
            n as int,
        )),
{
    if read_failed {
        PtyForward::Stop
    } else if n == 0 {
        PtyForward::CloseAndStop
    } else {
        let prefix = vstd::slice::slice_subrange(buf, 0, n);
        let data = vstd::slice::slice_to_vec(prefix);
        PtyForward::Send { data }
    }
}

/// The input direction is lossless at the bridge: any payload framed
/// behind the input opcode is an input frame, and decoding it recovers
/// exactly the payload, in order — so what `client_event_action` hands the
/// PTY writer is byte-for-byte what the client framed.
pub proof fn lemma_input_frame_round_trip(payload: Seq<u8>)
    requires
        payload.len() >= 1,
    ensures
        is_input_frame(seq![OPCODE_INPUT] + payload),
        (seq![OPCODE_INPUT] + payload).skip(1) == payload,
{
    assert((seq![OPCODE_INPUT] + payload).skip(1) =~= payload);
}

/// Resizing is total: every resize frame decodes to a resize request, and
/// the dimensions that reach the PTY are the requested ones with zeroes
/// lifted to one; a frame with the resize opcode but fewer than five bytes
/// decodes to nothing at all.
pub proof fn lemma_resize_total(bytes: Seq<u8>)
    requires
        bytes.len() >= 1,
        bytes[0] == OPCODE_RESIZE,
    ensures
        bytes.len() >= 5 ==> is_resize_frame(bytes) && spec_clamp_dim(
            be_u16(bytes[1], bytes[2]),
        ) >= 1 && spec_clamp_dim(be_u16(bytes[3], bytes[4])) >= 1,
        bytes.len() < 5 ==> !is_input_frame(bytes) && !is_resize_frame(bytes),
{
}

} // verus!
