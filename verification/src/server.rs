use vstd::prelude::*;
use crate::connection::{dispatch_body, dispatch_state, Connection};
use crate::message::{
    header_bytes_spec, header_of_bytes, Header, MessageView, HEADER_SIZE, MAGIC, MAX_MESSAGE,
    MAX_MESSAGE_PADDED,
};
use crate::state::State;

verus! {

/// What a worker does with the outcome of one socket read.
#[derive(Debug, PartialEq, Eq, Structural, Copy, Clone)]
pub enum ReadDisposition {
    /// A zero-byte read: the client closed; the worker exits cleanly.
    ConnectionClosed,
    /// More than a maximal frame arrived: drain one further read to recover
    /// the socket framing before answering.
    OversizeDrain,
    /// A plausible frame: validate and dispatch it.
    ProcessFrame,
}

/// Decides what one completed read means for the worker loop.
pub fn classify_read(bytes_read: usize) -> (r: ReadDisposition)
    ensures
        r == (if bytes_read == 0 {
            ReadDisposition::ConnectionClosed
        } else if bytes_read > MAX_MESSAGE {
            ReadDisposition::OversizeDrain
        } else {
            ReadDisposition::ProcessFrame
        }),
{
    if bytes_read == 0 {
        ReadDisposition::ConnectionClosed
    } else if bytes_read > MAX_MESSAGE {
        ReadDisposition::OversizeDrain
    } else {
        ReadDisposition::ProcessFrame
    }
}

/// After an oversize read was drained: a drained read that is itself close to
/// a maximal frame marks the connection as abusive, and the worker drops it.
pub fn drain_is_abusive(num_bytes: usize) -> (r: bool)
    ensures
        r == (num_bytes >= MAX_MESSAGE),
{
    num_bytes >= MAX_MESSAGE
}

/// How much of the receive buffer is handed to the parser: at least a
/// header's worth, so that parsing never fails on a short read.
pub fn parse_len(bytes_read: usize) -> (r: usize)
    ensures
        r == (if bytes_read < HEADER_SIZE {
            HEADER_SIZE
        } else {
            bytes_read
        }),
{
    if bytes_read < HEADER_SIZE {
        HEADER_SIZE
    } else {
        bytes_read
    }
}

/// The message a read buffer and its read count describe: a header over the
/// first 8 bytes and a payload region over the rest of what was read (or over
/// nothing more than the header region, on a short read).
pub open spec fn frame_message(rx: Seq<u8>, bytes_read: usize) -> MessageView {
    let sz = if bytes_read < HEADER_SIZE {
        HEADER_SIZE as int
    } else {
        bytes_read as int
    };
    MessageView { header: header_of_bytes(rx), payload: rx.subrange(HEADER_SIZE as int, sz) }
}

/// One full request cycle over plain values: validates the frame that was
/// read, dispatches it against the shared state, and returns exactly the
/// bytes to write back on the wire.
pub fn handle_frame(rx: &[u8], bytes_read: usize, state: &mut State) -> (out: Vec<u8>)
    requires
        rx@.len() >= HEADER_SIZE,
        bytes_read <= rx@.len(),
        bytes_read <= MAX_MESSAGE_PADDED,
    ensures
        ({
            let m = frame_message(rx@, bytes_read);
            let code = m.validate_spec(bytes_read);
            let body = dispatch_body(m, bytes_read, *old(state), (MAX_MESSAGE_PADDED
                - HEADER_SIZE) as nat);
            &&& out@ == header_bytes_spec(
                Header { sign: MAGIC, size: body.len() as u16, code: code.code_spec() },
            ) + body
            &&& out@.len() == HEADER_SIZE + body.len()
            &&& *final(state) == dispatch_state(m, bytes_read, *old(state), (MAX_MESSAGE_PADDED
                - HEADER_SIZE) as nat)
        }),
{
    let sz = parse_len(bytes_read);
    let rx_slice = &rx[0..sz];
    let tx_buf: Vec<u8> = make_zero_buffer(MAX_MESSAGE_PADDED);
    let mut conn = Connection::new_with(rx_slice, tx_buf.as_slice(), bytes_read);
    proof {
        assert(rx@.subrange(0, sz as int).skip(HEADER_SIZE as int) =~= rx@.subrange(
            HEADER_SIZE as int,
            sz as int,
        ));
        assert(header_of_bytes(rx@.subrange(0, sz as int)) == header_of_bytes(rx@)) by {
            assert(rx@.subrange(0, sz as int).subrange(0, 4) =~= rx@.subrange(0, 4));
            assert(rx@.subrange(0, sz as int).subrange(4, 6) =~= rx@.subrange(4, 6));
            assert(rx@.subrange(0, sz as int).subrange(6, 8) =~= rx@.subrange(6, 8));
        }
        assert(tx_buf@.skip(HEADER_SIZE as int).len() == MAX_MESSAGE_PADDED - HEADER_SIZE);
    }
    let size = conn.create_response(state);
    let mut out = conn.tx.to_bytes();
    proof {
        let m = frame_message(rx@, bytes_read);
        assert(conn.rx.header == m.header);
        assert(conn.rx.payload@ == m.payload);
        assert(conn.rx@ == m);
        let body = dispatch_body(m, bytes_read, *old(state), (MAX_MESSAGE_PADDED
            - HEADER_SIZE) as nat);
        assert(conn.tx.payload@.take(body.len() as int) == body);
        assert(size == HEADER_SIZE + body.len());
        assert(header_bytes_spec(conn.tx.header).len() == 8);
        let p = m.payload.take(bytes_read as int - HEADER_SIZE as int);
        crate::compress::lemma_compression_never_expands(p);
        assert(crate::stats::stats_bytes_spec(old(state).stats).len() == 9);
        assert(body.len() <= conn.tx.payload@.len());
        assert(out@.len() == 8 + conn.tx.payload@.len());
        assert forall|k: int| 0 <= k < size implies out@.take(size as int)[k] == (
        header_bytes_spec(conn.tx.header) + body)[k] by {
            assert(out@.take(size as int)[k] == out@[k]);
            if k >= 8 {
                assert(body[k - 8] == conn.tx.payload@.take(body.len() as int)[k - 8]);
                assert(out@[k] == conn.tx.payload@[k - 8]);
            }
        }
        assert(out@.take(size as int) =~= header_bytes_spec(conn.tx.header) + body);
    }
    out.truncate(size);
    out
}

/// A freshly zeroed buffer of the requested size.
fn make_zero_buffer(len: usize) -> (v: Vec<u8>)
    ensures
        v@.len() == len,
        forall|k: int| 0 <= k < len ==> v@[k] == 0u8,
{
    let mut v: Vec<u8> = Vec::new();
    let mut i: usize = 0;
    while i < len
        invariant
            i <= len,
            v@.len() == i,
            forall|k: int| 0 <= k < i ==> v@[k] == 0u8,
        decreases len - i,
    {
        v.push(0u8);
        i += 1;
    }
    v
}

} // verus!
