use vstd::prelude::*;
use crate::compress::{compress_message, rle_spec};
use crate::message::{Header, Message, MessageView, Request, Response, HEADER_SIZE, MAGIC, MAX_MESSAGE};
use crate::message;
use crate::state::State;
use crate::stats::{ratio_spec, stats_bytes_spec, Stats, STATS_SIZE};

verus! {

/// Addition that sticks at the machine limit, as the cumulative totals do.
pub open spec fn sat_add(a: int, b: int) -> int {
    if a + b > usize::MAX {
        usize::MAX as int
    } else {
        a + b
    }
}

/// The shared state after one compression outcome has been accumulated.
pub open spec fn accumulate_spec(st: State, raw: int, compressed: int) -> State {
    let t2 = sat_add(st.total as int, raw);
    let c2 = sat_add(st.compressed as int, compressed);
    State {
        stats: Stats {
            read: st.stats.read,
            sent: st.stats.sent,
            ratio: ratio_spec(c2, t2, st.stats.ratio),
        },
        total: t2 as usize,
        compressed: c2 as usize,
        internal_error: st.internal_error,
    }
}

/// The outbound payload that dispatching one validated frame produces, given
/// the inbound message, the bytes read, the shared state, and the capacity of
/// the outbound payload region.
pub open spec fn dispatch_body(m: MessageView, bytes_read: usize, st: State, cap: nat) -> Seq<u8> {
    if m.validate_spec(bytes_read) != Response::Success {
        Seq::empty()
    } else {
        match Request::from_u16_spec(m.header.code) {
            Some(Request::Ping) => Seq::empty(),
            Some(Request::GetStats) => stats_bytes_spec(st.stats),
            Some(Request::ResetStats) => Seq::empty(),
            Some(Request::Compress) => {
                let p = m.payload.take(bytes_read as int - HEADER_SIZE as int);
                if p.len() <= cap {
                    rle_spec(p)
                } else {
                    Seq::empty()
                }
            },
            None => Seq::empty(),
        }
    }
}

/// The shared state after dispatching one frame: ResetStats zeroes it,
/// a compression that fits accumulates its outcome, everything else leaves
/// it untouched.
pub open spec fn dispatch_state(m: MessageView, bytes_read: usize, st: State, cap: nat) -> State {
    if m.validate_spec(bytes_read) != Response::Success {
        st
    } else {
        match Request::from_u16_spec(m.header.code) {
            Some(Request::ResetStats) => State {
                stats: Stats { read: 0, sent: 0, ratio: 0 },
                total: 0,
                compressed: 0,
                internal_error: st.internal_error,
            },
            Some(Request::Compress) => {
                let p = m.payload.take(bytes_read as int - HEADER_SIZE as int);
                if p.len() <= cap {
                    accumulate_spec(st, p.len() as int, rle_spec(p).len() as int)
                } else {
                    st
                }
            },
            _ => st,
        }
    }
}

/// A pairing of the received and the outbound message over two buffers.
///
/// Connection has associated functions for generating a response (into tx)
/// from the request (in rx).
#[derive(Debug)]
pub struct Connection {
    pub rx: Message,
    pub tx: Message,
    pub message_len: usize,
}

impl Connection {
    pub fn new_with(rx: &[u8], tx: &[u8], message_len: usize) -> (c: Connection)
        requires
            rx@.len() >= HEADER_SIZE,
            tx@.len() >= HEADER_SIZE,
        ensures
            c.rx.header == message::header_of_bytes(rx@),
            c.rx.payload@ == rx@.skip(HEADER_SIZE as int),
            c.tx.header == message::header_of_bytes(tx@),
            c.tx.payload@ == tx@.skip(HEADER_SIZE as int),
            c.message_len == message_len,
    {
        let rx = Message::parse(rx).unwrap();
        let tx = Message::parse_mut(tx).unwrap();
        Connection { rx, tx, message_len }
    }

    /// Used to build a connection over two plain buffers; same contract as
    /// `new_with`.
    pub fn parse_slices(rx: &[u8], tx: &[u8], len: usize) -> (c: Connection)
        requires
            rx@.len() >= HEADER_SIZE,
            tx@.len() >= HEADER_SIZE,
        ensures
            c.rx.header == message::header_of_bytes(rx@),
            c.rx.payload@ == rx@.skip(HEADER_SIZE as int),
            c.tx.header == message::header_of_bytes(tx@),
            c.tx.payload@ == tx@.skip(HEADER_SIZE as int),
            c.message_len == len,
    {
        let rx = Message::parse(rx).unwrap();
        let tx = Message::parse_mut(tx).unwrap();
        let message_len = len;
        Connection { rx, tx, message_len }
    }

    pub fn read_payload_len(&self) -> (r: usize)
        requires
            self.message_len >= HEADER_SIZE,
        ensures
            r == self.message_len - HEADER_SIZE,
    {
        message::payload_len(self.message_len)
    }

    /// Handles the client's query (rx) and constructs the response (tx):
    /// validates the frame, runs the request against the shared state, and
    /// finalizes the outbound header. Returns the total response length.
    pub fn create_response(&mut self, state: &mut State) -> (r: usize)
        requires
            (HEADER_SIZE <= old(self).message_len <= MAX_MESSAGE && old(self).rx.header.size as int
                == old(self).message_len as int - HEADER_SIZE as int)
                ==> old(self).rx.header.size as int <= old(self).rx.payload@.len(),
            old(self).tx.payload@.len() >= STATS_SIZE,
        ensures
            final(self).rx == old(self).rx,
            final(self).message_len == old(self).message_len,
            final(self).tx.payload@.len() == old(self).tx.payload@.len(),
            ({
                let code = old(self).rx@.validate_spec(old(self).message_len);
                let body = dispatch_body(
                    old(self).rx@,
                    old(self).message_len,
                    *old(state),
                    old(self).tx.payload@.len() as nat,
                );
                &&& final(self).tx.header == (Header {
                    sign: MAGIC,
                    size: body.len() as u16,
                    code: code.code_spec(),
                })
                &&& final(self).tx.payload@.take(body.len() as int) == body
                &&& (forall|k: int|
                    body.len() <= k < old(self).tx.payload@.len() ==> final(self).tx.payload@[k]
                        == old(self).tx.payload@[k])
                &&& *final(state) == dispatch_state(
                    old(self).rx@,
                    old(self).message_len,
                    *old(state),
                    old(self).tx.payload@.len() as nat,
                )
                &&& r == HEADER_SIZE + body.len()
            }),
    {
        let response_code = self.rx.validate(self.message_len);
        let tx_body_len: u16 = match response_code {
            Response::Success => self.process_response(state),
            _ => 0,
        };
        let code_u16 = response_code.code();
        self.tx.set_header(MAGIC, tx_body_len, code_u16);
        message::total_response_len(tx_body_len as usize)
    }

    /// Runs the validated request against the shared state; returns the
    /// outbound payload length.
    fn process_response(&mut self, state: &mut State) -> (r: u16)
        requires
            old(self).rx@.validate_spec(old(self).message_len) == Response::Success,
            old(self).rx.header.size as int <= old(self).rx.payload@.len(),
            old(self).tx.payload@.len() >= STATS_SIZE,
        ensures
            final(self).rx == old(self).rx,
            final(self).message_len == old(self).message_len,
            final(self).tx.payload@.len() == old(self).tx.payload@.len(),
            ({
                let body = dispatch_body(
                    old(self).rx@,
                    old(self).message_len,
                    *old(state),
                    old(self).tx.payload@.len() as nat,
                );
                &&& r == body.len()
                &&& final(self).tx.payload@.take(body.len() as int) == body
                &&& (forall|k: int|
                    body.len() <= k < old(self).tx.payload@.len() ==> final(self).tx.payload@[k]
                        == old(self).tx.payload@[k])
                &&& *final(state) == dispatch_state(
                    old(self).rx@,
                    old(self).message_len,
                    *old(state),
                    old(self).tx.payload@.len() as nat,
                )
            }),
    {
        match Request::from_u16(self.rx.header.code()).unwrap() {
            Request::Ping => self.process_ping(state),
            Request::GetStats => self.process_getstats(state),
            Request::ResetStats => self.process_resetstats(state),
            Request::Compress => self.process_compress(state),
        }
    }

    fn process_ping(&mut self, state: &mut State) -> (r: u16)
        ensures
            r == 0,
            final(self).rx == old(self).rx,
            final(self).message_len == old(self).message_len,
            final(self).tx.payload == old(self).tx.payload,
            final(self).tx.header == (Header {
                code: old(state).internal_error,
                ..old(self).tx.header
            }),
            *final(state) == *old(state),
    {
        let e = state.internal_error();
        self.tx.set_code(e);
        0
    }

    fn process_getstats(&mut self, state: &mut State) -> (r: u16)
        requires
            old(self).tx.payload@.len() >= STATS_SIZE,
        ensures
            r == STATS_SIZE,
            final(self).rx == old(self).rx,
            final(self).message_len == old(self).message_len,
            final(self).tx.header == old(self).tx.header,
            final(self).tx.payload@.len() == old(self).tx.payload@.len(),
            final(self).tx.payload@.take(STATS_SIZE as int) == stats_bytes_spec(old(state).stats),
            forall|k: int|
                STATS_SIZE <= k < old(self).tx.payload@.len()
                    ==> final(self).tx.payload@[k] == old(self).tx.payload@[k],
            *final(state) == *old(state),
    {
        let stats_bytes = state.stats_as_bytes();
        self.tx.set_payload(stats_bytes.as_slice()).unwrap();
        proof {
            assert(final(self).tx.payload@.take(STATS_SIZE as int) =~= stats_bytes_spec(
                old(state).stats,
            ));
        }
        stats_bytes.len() as u16
    }

    fn process_resetstats(&mut self, state: &mut State) -> (r: u16)
        ensures
            r == 0,
            *final(self) == *old(self),
            *final(state) == (State {
                stats: Stats { read: 0, sent: 0, ratio: 0 },
                total: 0,
                compressed: 0,
                internal_error: old(state).internal_error,
            }),
    {
        state.reset();
        0
    }

    fn process_compress(&mut self, state: &mut State) -> (r: u16)
        requires
            HEADER_SIZE < old(self).message_len,
            old(self).message_len as int - HEADER_SIZE as int <= old(self).rx.payload@.len(),
            old(self).message_len <= MAX_MESSAGE,
        ensures
            final(self).rx == old(self).rx,
            final(self).message_len == old(self).message_len,
            final(self).tx.header == old(self).tx.header,
            final(self).tx.payload@.len() == old(self).tx.payload@.len(),
            ({
                let p = old(self).rx.payload@.take(
                    old(self).message_len as int - HEADER_SIZE as int,
                );
                if p.len() <= old(self).tx.payload@.len() {
                    &&& r == rle_spec(p).len()
                    &&& final(self).tx.payload@.take(rle_spec(p).len() as int) == rle_spec(p)
                    &&& (forall|k: int|
                        rle_spec(p).len() <= k < old(self).tx.payload@.len()
                            ==> final(self).tx.payload@[k] == old(self).tx.payload@[k])
                    &&& *final(state) == accumulate_spec(
                        *old(state),
                        p.len() as int,
                        rle_spec(p).len() as int,
                    )
                } else {
                    &&& r == 0
                    &&& final(self).tx.payload == old(self).tx.payload
                    &&& *final(state) == *old(state)
                }
            }),
    {
        // stats are not updated if the message is invalid
        let payload_len = self.read_payload_len();
        let rx_slice = self.rx.payload.as_slice();
        let the_rx = &rx_slice[0..payload_len];
        proof {
            crate::compress::lemma_compression_never_expands(
                old(self).rx.payload@.take(payload_len as int),
            );
        }
        match compress_message(the_rx, &mut self.tx.payload) {
            None => 0,
            Some(compressed_len) => {
                state.update_ratio(payload_len, compressed_len);
                compressed_len as u16
            },
        }
    }
}

/// A successfully dispatched GetStats request answers with exactly the nine
/// serialized statistics bytes, whose last byte is the ratio.
pub proof fn lemma_get_stats_reports_ratio(m: MessageView, bytes_read: usize, st: State, cap: nat)
    requires
        m.validate_spec(bytes_read) == Response::Success,
        Request::from_u16_spec(m.header.code) == Some(Request::GetStats),
    ensures
        dispatch_body(m, bytes_read, st, cap) == stats_bytes_spec(st.stats),
        dispatch_body(m, bytes_read, st, cap).len() == STATS_SIZE,
        dispatch_body(m, bytes_read, st, cap)[8] == st.stats.ratio,
{
    assert(stats_bytes_spec(st.stats).len() == 9);
    assert(stats_bytes_spec(st.stats)[8] == st.stats.ratio);
}

/// A successfully dispatched Compress request whose payload fits the outbound
/// buffer leaves both cumulative totals positive, and the ratio byte at
/// exactly the floor of the achieved percentage reduction between them —
/// whatever the ratio byte held before.
pub proof fn lemma_compress_sets_ratio(m: MessageView, bytes_read: usize, st: State, cap: nat)
    requires
        m.validate_spec(bytes_read) == Response::Success,
        Request::from_u16_spec(m.header.code) == Some(Request::Compress),
        bytes_read as int - HEADER_SIZE as int <= m.payload.len(),
        m.payload.take(bytes_read as int - HEADER_SIZE as int).len() <= cap,
    ensures
        ({
            let st2 = dispatch_state(m, bytes_read, st, cap);
            &&& st2.total > 0
            &&& st2.compressed > 0
            &&& st2.stats.ratio == ratio_spec(
                st2.compressed as int,
                st2.total as int,
                st.stats.ratio,
            )
            &&& (st2.compressed < st2.total ==> st2.stats.ratio as int == ((st2.total as int
                - st2.compressed as int) * 100) / st2.total as int)
            &&& (st2.compressed >= st2.total ==> st2.stats.ratio == 0)
        }),
{
    let p = m.payload.take(bytes_read as int - HEADER_SIZE as int);
    assert(p.len() > 0);
    crate::compress::lemma_compression_nonempty(p);
    let st2 = dispatch_state(m, bytes_read, st, cap);
    let t2 = st2.total as int;
    let c2 = st2.compressed as int;
    if c2 < t2 {
        vstd::arithmetic::div_mod::lemma_div_is_ordered((t2 - c2) * 100, 100 * t2, t2);
        vstd::arithmetic::div_mod::lemma_div_multiples_vanish(100, t2);
        vstd::arithmetic::div_mod::lemma_div_pos_is_pos((t2 - c2) * 100, t2);
    }
}

/// After any number of accumulated compressions, the ratio byte that a
/// following GetStats request reports equals the floor of the percentage
/// reduction between the cumulative totals the compression left behind.
pub proof fn lemma_ratio_reported_after_compress(
    m1: MessageView,
    n1: usize,
    m2: MessageView,
    n2: usize,
    st: State,
    cap: nat,
)
    requires
        m1.validate_spec(n1) == Response::Success,
        Request::from_u16_spec(m1.header.code) == Some(Request::Compress),
        n1 as int - HEADER_SIZE as int <= m1.payload.len(),
        m1.payload.take(n1 as int - HEADER_SIZE as int).len() <= cap,
        m2.validate_spec(n2) == Response::Success,
        Request::from_u16_spec(m2.header.code) == Some(Request::GetStats),
    ensures
        ({
            let st2 = dispatch_state(m1, n1, st, cap);
            dispatch_body(m2, n2, st2, cap)[8] == ratio_spec(
                st2.compressed as int,
                st2.total as int,
                st.stats.ratio,
            )
        }),
{
    let st2 = dispatch_state(m1, n1, st, cap);
    lemma_compress_sets_ratio(m1, n1, st, cap);
    lemma_get_stats_reports_ratio(m2, n2, st2, cap);
}

/// ResetStats always answers with an empty Success body and zeroes the
/// statistics and totals, so a GetStats dispatched right after reports nine
/// zero bytes.
pub proof fn lemma_reset_then_get_stats(
    m1: MessageView,
    n1: usize,
    m2: MessageView,
    n2: usize,
    st: State,
    cap: nat,
)
    requires
        m1.validate_spec(n1) == Response::Success,
        Request::from_u16_spec(m1.header.code) == Some(Request::ResetStats),
        m2.validate_spec(n2) == Response::Success,
        Request::from_u16_spec(m2.header.code) == Some(Request::GetStats),
    ensures
        dispatch_body(m1, n1, st, cap) == Seq::<u8>::empty(),
        dispatch_state(m1, n1, st, cap).stats == (Stats { read: 0, sent: 0, ratio: 0 }),
        dispatch_state(m1, n1, st, cap).total == 0,
        dispatch_state(m1, n1, st, cap).compressed == 0,
        dispatch_body(m2, n2, dispatch_state(m1, n1, st, cap), cap) == Seq::new(
            STATS_SIZE as nat,
            |i: int| 0u8,
        ),
{
    let st2 = dispatch_state(m1, n1, st, cap);
    lemma_get_stats_reports_ratio(m2, n2, st2, cap);
    assert(stats_bytes_spec(st2.stats) =~= Seq::new(STATS_SIZE as nat, |i: int| 0u8));
}

} // verus!
