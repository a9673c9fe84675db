use vstd::prelude::*;
use crate::connection::accumulate_spec;
use crate::message::{
    header_bytes_spec, header_of_bytes, Header, Message, Request, Response, HEADER_SIZE, MAGIC,
    MAX_PAYLOAD,
};
use crate::state::State;

verus! {

/// Size of the scratch buffer the frame builders work within: well over two
/// maximal frames, so oversize frames can be built for exercising a server.
pub const FULL_BUFF: usize = 16428;

/// Whether a built exchange is expected to succeed or to be rejected.
#[derive(Debug, Clone)]
pub enum TestKind {
    Valid,
    Invalid,
}

/// One scripted exchange: a query frame and the response frame expected back.
#[derive(Debug, Clone)]
pub struct Test {
    pub query_kind: Request,
    pub query: Vec<u8>,
    pub expected: Vec<u8>,
    pub validity: TestKind,
}

/// Running tally of scripted exchanges driven against a server.
#[derive(Debug)]
pub struct TestResults {
    pub count: usize,
    pub failed: usize,
    pub passed: usize,
}

impl Default for TestResults {
    fn default() -> (r: TestResults)
        ensures
            r == (TestResults { count: 0, failed: 0, passed: 0 }),
    {
        TestResults { count: 0, failed: 0, passed: 0 }
    }
}

impl TestResults {
    pub fn inc_failed(&mut self)
        requires
            old(self).failed < usize::MAX,
        ensures
            *final(self) == (TestResults { failed: (old(self).failed + 1) as usize, ..*old(self) }),
    {
        self.failed += 1;
    }

    pub fn inc_passed(&mut self)
        requires
            old(self).passed < usize::MAX,
        ensures
            *final(self) == (TestResults { passed: (old(self).passed + 1) as usize, ..*old(self) }),
    {
        self.passed += 1;
    }

    pub fn inc_count(&mut self)
        requires
            old(self).count < usize::MAX,
        ensures
            *final(self) == (TestResults { count: (old(self).count + 1) as usize, ..*old(self) }),
    {
        self.count += 1;
    }
}

/// A buffer of `len` copies of one byte.
pub fn repeated(b: u8, len: usize) -> (v: Vec<u8>)
    ensures
        v@ == Seq::new(len as nat, |i: int| b),
{
    let mut v: Vec<u8> = Vec::new();
    let mut i: usize = 0;
    while i < len
        invariant
            i <= len,
            v@.len() == i,
            forall|k: int| 0 <= k < i ==> v@[k] == b,
        decreases len - i,
    {
        v.push(b);
        i += 1;
    }
    proof {
        assert(v@ =~= Seq::new(len as nat, |i: int| b));
    }
    v
}

impl Test {
    /// A whole frame from its header fields and payload bytes; refused when
    /// the payload cannot fit the scratch buffer beside a header.
    pub fn message_bytes(sign: u32, size: u16, code: u16, msg: &[u8]) -> (r: Option<Vec<u8>>)
        ensures
            r is Some <==> msg@.len() + HEADER_SIZE <= FULL_BUFF,
            r is Some ==> r.unwrap()@ == header_bytes_spec(Header { sign, size, code }) + msg@,
    {
        if msg.len() > FULL_BUFF - HEADER_SIZE {
            return None;
        }
        let mut v = Header::new_with(sign, size, code).to_bytes();
        let n = msg.len();
        let mut i: usize = 0;
        while i < n
            invariant
                i <= n,
                n == msg@.len(),
                v@ == header_bytes_spec(Header { sign, size, code }) + msg@.take(i as int),
            decreases n - i,
        {
            let b = msg[i];
            v.push(b);
            proof {
                assert(v@ =~= header_bytes_spec(Header { sign, size, code }) + msg@.take(i + 1));
            }
            i += 1;
        }
        proof {
            assert(msg@.take(n as int) =~= msg@);
        }
        Some(v)
    }

    /// A frame under the protocol magic whose size field matches its payload.
    pub fn message_default(code: u16, bytes: &[u8]) -> (r: Vec<u8>)
        requires
            bytes@.len() + HEADER_SIZE <= FULL_BUFF,
        ensures
            r@ == header_bytes_spec(
                Header { sign: MAGIC, size: bytes@.len() as u16, code },
            ) + bytes@,
    {
        Test::message_bytes(MAGIC, bytes.len() as u16, code, bytes).unwrap()
    }

    pub fn header_bytes(sign: u32, size: u16, code: u16) -> (r: Vec<u8>)
        ensures
            r@ == header_bytes_spec(Header { sign, size, code }),
    {
        Header::new_with(sign, size, code).to_bytes()
    }

    pub fn header_default(code: u16) -> (r: Vec<u8>)
        ensures
            r@ == header_bytes_spec(Header { sign: MAGIC, size: 0, code }),
    {
        Test::header_bytes(MAGIC, 0, code)
    }

    pub fn response_fail(response: Response) -> (r: Vec<u8>)
        ensures
            r@ == header_bytes_spec(Header { sign: MAGIC, size: 0, code: response.code_spec() }),
    {
        let c = response.code();
        Test::header_default(c)
    }

    pub fn request_ping() -> (r: Vec<u8>)
        ensures
            r@ == header_bytes_spec(Header { sign: MAGIC, size: 0, code: 1 }),
    {
        Test::header_default(Request::Ping.code())
    }

    pub fn response_ping() -> (r: Vec<u8>)
        ensures
            r@ == header_bytes_spec(Header { sign: MAGIC, size: 0, code: 0 }),
    {
        Test::header_default(Response::Success.code())
    }

    pub fn request_reset_stats() -> (r: Vec<u8>)
        ensures
            r@ == header_bytes_spec(Header { sign: MAGIC, size: 0, code: 3 }),
    {
        Test::header_default(Request::ResetStats.code())
    }

    pub fn response_reset_stats() -> (r: Vec<u8>)
        ensures
            r@ == header_bytes_spec(Header { sign: MAGIC, size: 0, code: 0 }),
    {
        Test::header_default(Response::Success.code())
    }

    pub fn request_get_stats() -> (r: Vec<u8>)
        ensures
            r@ == header_bytes_spec(Header { sign: MAGIC, size: 0, code: 2 }),
    {
        Test::header_default(Request::GetStats.code())
    }

    pub fn response_get_stats(stats: &[u8]) -> (r: Vec<u8>)
        requires
            stats@.len() + HEADER_SIZE <= FULL_BUFF,
        ensures
            r@ == header_bytes_spec(
                Header { sign: MAGIC, size: stats@.len() as u16, code: 0 },
            ) + stats@,
    {
        Test::message_default(Response::Success.code(), stats)
    }

    pub fn request_compress(payload: &[u8]) -> (r: Vec<u8>)
        requires
            payload@.len() + HEADER_SIZE <= FULL_BUFF,
        ensures
            r@ == header_bytes_spec(
                Header { sign: MAGIC, size: payload@.len() as u16, code: 4 },
            ) + payload@,
    {
        Test::message_default(Request::Compress.code(), payload)
    }

    pub fn response_compress(bytes: &[u8]) -> (r: Vec<u8>)
        requires
            bytes@.len() + HEADER_SIZE <= FULL_BUFF,
        ensures
            r@ == header_bytes_spec(
                Header { sign: MAGIC, size: bytes@.len() as u16, code: 0 },
            ) + bytes@,
    {
        Test::message_default(Response::Success.code(), bytes)
    }
}

/// A scripted valid compression exchange.
pub fn test_compress_ok(request: &[u8], response: &[u8]) -> (t: Test)
    requires
        request@.len() + HEADER_SIZE <= FULL_BUFF,
        response@.len() + HEADER_SIZE <= FULL_BUFF,
    ensures
        t.query_kind == Request::Compress,
        t.query@ == header_bytes_spec(
            Header { sign: MAGIC, size: request@.len() as u16, code: 4 },
        ) + request@,
        t.expected@ == header_bytes_spec(
            Header { sign: MAGIC, size: response@.len() as u16, code: 0 },
        ) + response@,
        t.validity is Valid,
{
    Test {
        query_kind: Request::Compress,
        query: Test::request_compress(request),
        expected: Test::response_compress(response),
        validity: TestKind::Valid,
    }
}

/// A scripted compression exchange expected to fail with a given response.
pub fn test_compress_fail(request: &[u8], response: Response) -> (t: Test)
    requires
        request@.len() + HEADER_SIZE <= FULL_BUFF,
    ensures
        t.query_kind == Request::Compress,
        t.query@ == header_bytes_spec(
            Header { sign: MAGIC, size: request@.len() as u16, code: 4 },
        ) + request@,
        t.expected@ == header_bytes_spec(
            Header { sign: MAGIC, size: 0, code: response.code_spec() },
        ),
        t.validity is Invalid,
{
    Test {
        query_kind: Request::Compress,
        query: Test::request_compress(request),
        expected: Test::response_fail(response),
        validity: TestKind::Invalid,
    }
}

/// A scripted compression exchange expected to fail on payload characters.
pub fn test_compress_fail_default(request: &[u8]) -> (t: Test)
    requires
        request@.len() + HEADER_SIZE <= FULL_BUFF,
    ensures
        t.query_kind == Request::Compress,
        t.query@ == header_bytes_spec(
            Header { sign: MAGIC, size: request@.len() as u16, code: 4 },
        ) + request@,
        t.expected@ == header_bytes_spec(Header { sign: MAGIC, size: 0, code: 39 }),
        t.validity is Invalid,
{
    test_compress_fail(request, Response::MessagePayloadContainsInvalidCharacters)
}

/// Accumulates into a mirror of the server's state what one valid compression
/// exchange will do to it, reading the raw and compressed sizes off the
/// scripted query and expected response.
pub fn update_ratio(state: &mut State, test: &Test)
    requires
        test.query@.len() >= HEADER_SIZE,
        test.expected@.len() >= HEADER_SIZE,
        Request::from_u16_spec(header_of_bytes(test.query@).code) is Some,
    ensures
        *final(state) == (if Request::from_u16_spec(header_of_bytes(test.query@).code) == Some(
            Request::Compress,
        ) {
            accumulate_spec(
                *old(state),
                test.query@.len() - HEADER_SIZE as int,
                test.expected@.len() - HEADER_SIZE as int,
            )
        } else {
            *old(state)
        }),
{
    let message = Message::parse(test.query.as_slice()).unwrap();
    let code = message.header.code();
    match Request::from_u16(code).unwrap() {
        Request::Compress => {
            let compressed = Message::parse(test.expected.as_slice()).unwrap();
            let total_len = message.payload.len();
            let compressed_len = compressed.payload.len();
            state.update_ratio(total_len, compressed_len);
        },
        _ => {},
    }
}

/// Byte-for-byte equality of two buffers.
pub fn eq_bytes(a: &[u8], b: &[u8]) -> (r: bool)
    ensures
        r == (a@ == b@),
{
    if a.len() != b.len() {
        proof {
            assert(a@.len() != b@.len());
        }
        return false;
    }
    let n = a.len();
    let mut i: usize = 0;
    while i < n
        invariant
            i <= n,
            n == a@.len() == b@.len(),
            forall|k: int| 0 <= k < i ==> a@[k] == b@[k],
        decreases n - i,
    {
        if a[i] != b[i] {
            return false;
        }
        i += 1;
    }
    proof {
        assert(a@ =~= b@);
    }
    true
}

/// Checks a GetStats exchange: the query must really be a GetStats request
/// and the response payload must equal the expected statistics image.
pub fn validate_getstats(query: &[u8], response: &[u8], stats: &[u8]) -> (r: bool)
    requires
        query@.len() >= HEADER_SIZE,
        response@.len() >= HEADER_SIZE,
        Request::from_u16_spec(header_of_bytes(query@).code) is Some,
    ensures
        r == (Request::from_u16_spec(header_of_bytes(query@).code) == Some(Request::GetStats)
            && response@.skip(HEADER_SIZE as int) == stats@),
{
    let query_msg = Message::parse(query).unwrap();
    let response_msg = Message::parse(response).unwrap();
    match Request::from_u16(query_msg.header.code()).unwrap() {
        Request::GetStats => eq_bytes(response_msg.payload.as_slice(), stats),
        _ => false,
    }
}

/// Checks an exchange against its script: the received frame must equal the
/// expected frame exactly.
pub fn validate_messages(pack: &[u8], test: &[u8]) -> (r: bool)
    requires
        pack@.len() >= HEADER_SIZE,
        test@.len() >= HEADER_SIZE,
    ensures
        r == (pack@ == test@),
{
    let pack_message = Message::parse(pack).unwrap();
    let test_message = Message::parse(test).unwrap();
    let headers_equal = eq_bytes(
        pack_message.header.to_bytes().as_slice(),
        test_message.header.to_bytes().as_slice(),
    );
    if !headers_equal {
        proof {
            if pack@ == test@ {
                assert(header_of_bytes(pack@) == header_of_bytes(test@));
            }
        }
        return false;
    }
    eq_bytes(pack, test)
}

/// The scripted exchanges the load-testing client drives against a server.
pub fn test_cases() -> (r: Vec<Test>)
    ensures
        r@.len() == 17,
{
    let mut res: Vec<Test> = Vec::new();

    let q = repeated(97, 1);
    res.push(test_compress_ok(q.as_slice(), q.as_slice()));
    let q = repeated(97, 2);
    res.push(test_compress_ok(q.as_slice(), q.as_slice()));
    res.push(test_compress_ok(q.as_slice(), q.as_slice()));

    let mut q: Vec<u8> = Vec::new();
    q.push(97);
    q.push(97);
    q.push(97);
    let mut e: Vec<u8> = Vec::new();
    e.push(51);
    e.push(97);
    res.push(test_compress_ok(q.as_slice(), e.as_slice()));

    let mut q: Vec<u8> = Vec::new();
    let mut i: usize = 0;
    while i < 5
        invariant
            q@.len() == i,
            i <= 5,
        decreases 5 - i,
    {
        q.push(97);
        i += 1;
    }
    let mut i: usize = 0;
    while i < 3
        invariant
            q@.len() == 5 + i,
            i <= 3,
        decreases 3 - i,
    {
        q.push(98);
        i += 1;
    }
    let mut e: Vec<u8> = Vec::new();
    e.push(53);
    e.push(97);
    e.push(51);
    e.push(98);
    res.push(test_compress_ok(q.as_slice(), e.as_slice()));

    let q = byte_vec_of(
        &[97u8, 97, 97, 97, 97, 98, 98, 98, 98, 98, 98, 97, 97, 97, 98, 98],
    );
    let e = byte_vec_of(&[53u8, 97, 54, 98, 51, 97, 98, 98]);
    res.push(test_compress_ok(q.as_slice(), e.as_slice()));

    let q = byte_vec_of(&[97u8, 98, 99, 100, 101, 102, 103]);
    res.push(test_compress_ok(q.as_slice(), q.as_slice()));

    let q = byte_vec_of(&[97u8, 97, 97, 99, 99, 100, 100, 100, 100, 104, 104, 104, 104, 105]);
    let e = byte_vec_of(&[51u8, 97, 99, 99, 52, 100, 52, 104, 105]);
    res.push(test_compress_ok(q.as_slice(), e.as_slice()));

    let q = byte_vec_of(&[49u8, 50, 51]);
    res.push(test_compress_fail_default(q.as_slice()));
    let q = byte_vec_of(&[97u8, 98, 67, 68]);
    res.push(test_compress_fail_default(q.as_slice()));
    let mut q = repeated(97, 25);
    q.push(66);
    res.push(test_compress_fail_default(q.as_slice()));

    let big = repeated(97, MAX_PAYLOAD as usize + 12);
    res.push(test_compress_fail(big.as_slice(), Response::MessageTooLarge));

    let short = repeated(97, 7);
    res.push(
        Test {
            query_kind: Request::Ping,
            query: short,
            expected: Test::response_fail(Response::MessageTooSmall),
            validity: TestKind::Invalid,
        },
    );

    res.push(
        Test {
            query_kind: Request::Ping,
            query: Test::header_bytes(0, 0, 1),
            expected: Test::response_fail(Response::MessageHeaderHasBadMagic),
            validity: TestKind::Invalid,
        },
    );

    res.push(
        Test {
            query_kind: Request::Compress,
            query: Test::header_bytes(MAGIC, 0, Request::Compress.code()),
            expected: Test::response_fail(Response::CompressionRequestRequiresNonZeroLength),
            validity: TestKind::Invalid,
        },
    );

    res.push(
        Test {
            query_kind: Request::Ping,
            query: Test::request_ping(),
            expected: Test::response_ping(),
            validity: TestKind::Valid,
        },
    );

    res.push(
        Test {
            query_kind: Request::ResetStats,
            query: Test::request_reset_stats(),
            expected: Test::response_reset_stats(),
            validity: TestKind::Valid,
        },
    );

    res
}

/// A vector holding the bytes of a fixed array.
fn byte_vec_of(bytes: &[u8]) -> (v: Vec<u8>)
    ensures
        v@ == bytes@,
{
    vstd::slice::slice_to_vec(bytes)
}

} // verus!
