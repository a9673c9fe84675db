use vstd::prelude::*;
use vstd::slice::slice_to_vec;

verus! {

/// Magic signature that every well-formed frame must carry.
pub const MAGIC: u32 = 0x5354_5259;

/// Size in bytes of the fixed wire header.
pub const HEADER_SIZE: usize = 8;

/// Largest payload a frame may declare or carry.
pub const MAX_PAYLOAD: u16 = 8192;

/// Largest whole frame: header plus maximal payload.
pub const MAX_MESSAGE: usize = 8200;

/// Read-buffer size: one maximal frame plus slack, so an oversize read shows.
pub const MAX_MESSAGE_PADDED: usize = 8208;

/// The request code found within the header of received messages from the client.
#[derive(Debug, PartialEq, Eq, Clone, Structural)]
pub enum Request {
    Ping,
    GetStats,
    ResetStats,
    Compress,
}

impl Request {
    pub open spec fn from_u16_spec(value: u16) -> Option<Request> {
        if value == 1 {
            Some(Request::Ping)
        } else if value == 2 {
            Some(Request::GetStats)
        } else if value == 3 {
            Some(Request::ResetStats)
        } else if value == 4 {
            Some(Request::Compress)
        } else {
            None
        }
    }

    /// The wire code of each request kind.
    pub open spec fn code_spec(self) -> u16 {
        match self {
            Request::Ping => 1,
            Request::GetStats => 2,
            Request::ResetStats => 3,
            Request::Compress => 4,
        }
    }

    /// Resolves a wire code into a known request kind; unknown codes yield `None`.
    pub fn from_u16(value: u16) -> (r: Option<Request>)
        ensures
            r == Self::from_u16_spec(value),
    {
        match value {
            1u16 => Some(Request::Ping),
            2u16 => Some(Request::GetStats),
            3u16 => Some(Request::ResetStats),
            4u16 => Some(Request::Compress),
            _ => None,
        }
    }

    /// The wire code of this request kind, as placed in an outbound header.
    pub fn code(&self) -> (r: u16)
        ensures
            r == self.code_spec(),
    {
        match self {
            Request::Ping => 1,
            Request::GetStats => 2,
            Request::ResetStats => 3,
            Request::Compress => 4,
        }
    }
}

/// The response code found within the header of sent messages from the server.
#[derive(Debug, PartialEq, Eq, Copy, Clone, Structural)]
pub enum Response {
    Success,
    UnknownError,
    /// The received message is larger than MAX_MESSAGE
    MessageTooLarge,
    UnsupportedRequestType,
    /// The received message is less than the size of a header
    MessageTooSmall,
    /// The magic signature of the header is not equal to 0x53545259
    MessageHeaderHasBadMagic,
    /// The header size field does not match the length of the payload
    MessageHeaderSizeMismatch,
    /// The associated request requires the size field of the header to be zero
    RequestKindRequiresZeroLength,
    /// Compression request requires a header with a non-zero length field
    CompressionRequestRequiresNonZeroLength,
    /// Compression request payload includes non lowercase ascii characters
    MessagePayloadContainsInvalidCharacters,
}

impl Response {
    /// The wire code of each response kind.
    pub open spec fn code_spec(self) -> u16 {
        match self {
            Response::Success => 0,
            Response::UnknownError => 1,
            Response::MessageTooLarge => 2,
            Response::UnsupportedRequestType => 3,
            Response::MessageTooSmall => 34,
            Response::MessageHeaderHasBadMagic => 35,
            Response::MessageHeaderSizeMismatch => 36,
            Response::RequestKindRequiresZeroLength => 37,
            Response::CompressionRequestRequiresNonZeroLength => 38,
            Response::MessagePayloadContainsInvalidCharacters => 39,
        }
    }

    /// The wire code of this response kind, as placed in an outbound header.
    pub fn code(&self) -> (r: u16)
        ensures
            r == self.code_spec(),
    {
        match self {
            Response::Success => 0,
            Response::UnknownError => 1,
            Response::MessageTooLarge => 2,
            Response::UnsupportedRequestType => 3,
            Response::MessageTooSmall => 34,
            Response::MessageHeaderHasBadMagic => 35,
            Response::MessageHeaderSizeMismatch => 36,
            Response::RequestKindRequiresZeroLength => 37,
            Response::CompressionRequestRequiresNonZeroLength => 38,
            Response::MessagePayloadContainsInvalidCharacters => 39,
        }
    }
}

/// The value of a 4-byte big-endian integer.
pub open spec fn be32_val(s: Seq<u8>) -> int {
    s[0] * 0x100_0000 + s[1] * 0x1_0000 + s[2] * 0x100 + s[3]
}

/// The value of a 2-byte big-endian integer.
pub open spec fn be16_val(s: Seq<u8>) -> int {
    s[0] * 0x100 + s[1]
}

/// The 4-byte big-endian encoding of a 32-bit integer.
pub open spec fn be32_bytes(n: u32) -> Seq<u8> {
    seq![
        ((n / 0x100_0000) % 0x100) as u8,
        ((n / 0x1_0000) % 0x100) as u8,
        ((n / 0x100) % 0x100) as u8,
        (n % 0x100) as u8,
    ]
}

/// The 2-byte big-endian encoding of a 16-bit integer.
pub open spec fn be16_bytes(n: u16) -> Seq<u8> {
    seq![((n / 0x100) % 0x100) as u8, (n % 0x100) as u8]
}

/// A Message's header field.
/// A plain-field representation of incoming and outgoing packet headers;
/// the big-endian wire layout lives in `to_bytes` / `from_bytes`.
/// sign: The magic signature
/// size: The size of the payload
/// code: Request or Response code
#[derive(Debug, Eq, PartialEq, Structural, Copy, Clone)]
pub struct Header {
    pub sign: u32,
    pub size: u16,
    pub code: u16,
}

/// The header described by the first 8 bytes of a buffer.
pub open spec fn header_of_bytes(s: Seq<u8>) -> Header {
    Header {
        sign: be32_val(s.subrange(0, 4)) as u32,
        size: be16_val(s.subrange(4, 6)) as u16,
        code: be16_val(s.subrange(6, 8)) as u16,
    }
}

/// The 8-byte wire encoding of a header.
pub open spec fn header_bytes_spec(h: Header) -> Seq<u8> {
    be32_bytes(h.sign) + be16_bytes(h.size) + be16_bytes(h.code)
}

impl Header {
    pub fn new_with(sign: u32, size: u16, code: u16) -> (h: Header)
        ensures
            h == (Header { sign, size, code }),
    {
        Header { sign, size, code }
    }

    pub fn sign(&self) -> (r: u32)
        ensures
            r == self.sign,
    {
        self.sign
    }

    pub fn size(&self) -> (r: u16)
        ensures
            r == self.size,
    {
        self.size
    }

    pub fn code(&self) -> (r: u16)
        ensures
            r == self.code,
    {
        self.code
    }

    pub fn set_sign(&mut self, sign: u32)
        ensures
            *final(self) == (Header { sign, ..*old(self) }),
    {
        self.sign = sign;
    }

    pub fn set_size(&mut self, size: u16)
        ensures
            *final(self) == (Header { size, ..*old(self) }),
    {
        self.size = size;
    }

    pub fn set_code(&mut self, code: u16)
        ensures
            *final(self) == (Header { code, ..*old(self) }),
    {
        self.code = code;
    }

    /// Reads a header out of the first 8 bytes of a buffer, big-endian.
    pub fn from_bytes(bytes: &[u8]) -> (h: Header)
        requires
            bytes@.len() >= HEADER_SIZE,
        ensures
            h == header_of_bytes(bytes@),
    {
        let sign: u32 = (bytes[0] as u32) * 0x100_0000 + (bytes[1] as u32) * 0x1_0000 + (
        bytes[2] as u32) * 0x100 + (bytes[3] as u32);
        let size: u16 = (bytes[4] as u16) * 0x100 + (bytes[5] as u16);
        let code: u16 = (bytes[6] as u16) * 0x100 + (bytes[7] as u16);
        let h = Header { sign, size, code };
        proof {
            let s = bytes@;
            assert(s.subrange(0, 4)[0] == s[0]);
            assert(s.subrange(0, 4)[1] == s[1]);
            assert(s.subrange(0, 4)[2] == s[2]);
            assert(s.subrange(0, 4)[3] == s[3]);
            assert(s.subrange(4, 6)[0] == s[4]);
            assert(s.subrange(4, 6)[1] == s[5]);
            assert(s.subrange(6, 8)[0] == s[6]);
            assert(s.subrange(6, 8)[1] == s[7]);
        }
        h
    }

    /// Writes this header into its 8-byte big-endian wire form.
    pub fn to_bytes(&self) -> (r: Vec<u8>)
        ensures
            r@ == header_bytes_spec(*self),
            r@.len() == HEADER_SIZE,
    {
        let mut v: Vec<u8> = Vec::new();
        v.push(((self.sign / 0x100_0000) % 0x100) as u8);
        v.push(((self.sign / 0x1_0000) % 0x100) as u8);
        v.push(((self.sign / 0x100) % 0x100) as u8);
        v.push((self.sign % 0x100) as u8);
        v.push(((self.size / 0x100) % 0x100) as u8);
        v.push((self.size % 0x100) as u8);
        v.push(((self.code / 0x100) % 0x100) as u8);
        v.push((self.code % 0x100) as u8);
        proof {
            assert(v@ =~= header_bytes_spec(*self));
        }
        v
    }

    /// Validates the header of a client's request message
    /// returns a `Response` relative to the `Request`.
    pub open spec fn validate_header_spec(self) -> Response {
        if self.sign != MAGIC {
            Response::MessageHeaderHasBadMagic
        } else if Request::from_u16_spec(self.code) is None {
            Response::UnsupportedRequestType
        } else if Request::from_u16_spec(self.code) == Some(Request::Compress) {
            if self.size == 0 {
                Response::CompressionRequestRequiresNonZeroLength
            } else if self.size > MAX_PAYLOAD {
                Response::MessageTooLarge
            } else {
                Response::Success
            }
        } else if self.size == 0 {
            Response::Success
        } else {
            Response::RequestKindRequiresZeroLength
        }
    }

    /// Validates the header of a client's request message
    /// returns a `Response` relative to the `Request`.
    pub fn validate_header(&self) -> (r: Response)
        ensures
            r == self.validate_header_spec(),
    {
        let request = Request::from_u16(self.code);
        if self.sign != MAGIC {
            return Response::MessageHeaderHasBadMagic;
        }
        match request {
            None => Response::UnsupportedRequestType,
            Some(Request::Compress) => {
                if self.size == 0 {
                    Response::CompressionRequestRequiresNonZeroLength
                } else if self.size > MAX_PAYLOAD {
                    Response::MessageTooLarge
                } else {
                    Response::Success
                }
            },
            Some(_) => {
                if self.size == 0 {
                    Response::Success
                } else {
                    Response::RequestKindRequiresZeroLength
                }
            },
        }
    }
}

/// True of bytes that the compression payload rule accepts.
pub open spec fn is_lower(b: u8) -> bool {
    97 <= b <= 122
}

/// True when every byte of a sequence is a lowercase ASCII letter.
pub open spec fn all_lower(s: Seq<u8>) -> bool {
    forall|i: int| 0 <= i < s.len() ==> is_lower(s[i])
}

/// Raised when bytes handed to `set_payload` exceed the payload capacity.
#[derive(Debug, PartialEq, Eq, Structural)]
pub enum CodecError {
    PayloadExceedsCapacity,
}

/// The representation of messages sent/received within the service.
///
/// Owns a decoded header together with the payload region of the buffer the
/// frame was read from (which may be longer than the declared payload size:
/// the actual size is taken from the header, not from the buffer length).
#[derive(Debug, PartialEq, Eq)]
pub struct Message {
    pub header: Header,
    pub payload: Vec<u8>,
}

/// The mathematical shape of a message: its header and the payload region.
pub ghost struct MessageView {
    pub header: Header,
    pub payload: Seq<u8>,
}

impl View for Message {
    type V = MessageView;

    open spec fn view(&self) -> MessageView {
        MessageView { header: self.header, payload: self.payload@ }
    }
}

impl MessageView {
    /// The full validation rule for one received frame, exactly in the order
    /// the service applies it.
    pub open spec fn validate_spec(self, bytes_read: usize) -> Response {
        if bytes_read < HEADER_SIZE {
            Response::MessageTooSmall
        } else if bytes_read > MAX_MESSAGE {
            Response::MessageTooLarge
        } else if self.header.size as int != bytes_read as int - HEADER_SIZE as int {
            Response::MessageHeaderSizeMismatch
        } else if self.header.validate_header_spec() == Response::Success
            && Request::from_u16_spec(self.header.code) == Some(Request::Compress) {
            if all_lower(self.payload.take(self.header.size as int)) {
                Response::Success
            } else {
                Response::MessagePayloadContainsInvalidCharacters
            }
        } else {
            self.header.validate_header_spec()
        }
    }
}

impl Message {
    /// Interprets a buffer as a Message: a header over the first 8 bytes and
    /// the payload region over the remainder. Fails only on a buffer shorter
    /// than a header.
    pub fn parse(bytes: &[u8]) -> (r: Option<Message>)
        ensures
            r is Some <==> bytes@.len() >= HEADER_SIZE,
            r is Some ==> r.unwrap().header == header_of_bytes(bytes@) && r.unwrap().payload@
                == bytes@.skip(HEADER_SIZE as int),
    {
        if bytes.len() < HEADER_SIZE {
            return None;
        }
        let header = Header::from_bytes(bytes);
        let rest = &bytes[HEADER_SIZE..bytes.len()];
        let payload = slice_to_vec(rest);
        proof {
            assert(bytes@.subrange(HEADER_SIZE as int, bytes@.len() as int) =~= bytes@.skip(
                HEADER_SIZE as int));
        }
        Some(Message { header, payload })
    }

    /// Interprets a mutable buffer as a Message; same contract as `parse`.
    pub fn parse_mut(bytes: &[u8]) -> (r: Option<Message>)
        ensures
            r is Some <==> bytes@.len() >= HEADER_SIZE,
            r is Some ==> r.unwrap().header == header_of_bytes(bytes@) && r.unwrap().payload@
                == bytes@.skip(HEADER_SIZE as int),
    {
        Message::parse(bytes)
    }

    pub fn set_sign(&mut self, new_sign: u32)
        ensures
            *final(self) == (Message {
                header: Header { sign: new_sign, ..old(self).header },
                ..*old(self)
            }),
    {
        self.header.set_sign(new_sign);
    }

    pub fn set_size(&mut self, new_size: u16)
        ensures
            *final(self) == (Message {
                header: Header { size: new_size, ..old(self).header },
                ..*old(self)
            }),
    {
        self.header.set_size(new_size);
    }

    pub fn set_code(&mut self, new_code: u16)
        ensures
            *final(self) == (Message {
                header: Header { code: new_code, ..old(self).header },
                ..*old(self)
            }),
    {
        self.header.set_code(new_code);
    }

    pub fn set_header(&mut self, sign: u32, size: u16, code: u16)
        ensures
            *final(self) == (Message { header: Header { sign, size, code }, ..*old(self) }),
    {
        self.set_sign(sign);
        self.set_size(size);
        self.set_code(code);
    }

    pub fn set_header_with_default_magic(&mut self, size: u16, code: u16)
        ensures
            *final(self) == (Message { header: Header { sign: MAGIC, size, code }, ..*old(self) }),
    {
        self.set_header(MAGIC, size, code);
    }

    /// Sets the body of the payload from a given byte-slice
    /// returns error if the length of the input slice is larger than the message's payload length.
    pub fn set_payload(&mut self, bytes: &[u8]) -> (r: Result<(), CodecError>)
        ensures
            r is Ok <==> bytes@.len() <= old(self).payload@.len(),
            r is Err ==> *final(self) == *old(self),
            r is Ok ==> final(self).header == old(self).header && final(self).payload@ == bytes@
                + old(self).payload@.skip(bytes@.len() as int),
    {
        if bytes.len() > self.payload.len() {
            return Err(CodecError::PayloadExceedsCapacity);
        }
        let n = bytes.len();
        let mut i: usize = 0;
        while i < n
            invariant
                i <= n,
                n == bytes@.len(),
                n <= self.payload@.len(),
                self.header == old(self).header,
                self.payload@.len() == old(self).payload@.len(),
                forall|k: int| 0 <= k < i ==> self.payload@[k] == bytes@[k],
                forall|k: int| i <= k < self.payload@.len() ==> self.payload@[k]
                    == old(self).payload@[k],
            decreases n - i,
        {
            let b = bytes[i];
            self.payload[i] = b;
            i += 1;
        }
        proof {
            assert(self.payload@ =~= bytes@ + old(self).payload@.skip(bytes@.len() as int));
        }
        Ok(())
    }

    pub fn set_all(&mut self, sign: u32, size: u16, code: u16, bytes: &[u8])
        ensures
            final(self).header == (Header { sign, size, code }),
            bytes@.len() <= old(self).payload@.len() ==> final(self).payload@ == bytes@
                + old(self).payload@.skip(bytes@.len() as int),
            bytes@.len() > old(self).payload@.len() ==> final(self).payload@
                == old(self).payload@,
    {
        self.set_header(sign, size, code);
        let _ = self.set_payload(bytes);
    }

    /// The complete outbound wire image of this message: encoded header
    /// followed by the payload region.
    pub fn to_bytes(&self) -> (r: Vec<u8>)
        ensures
            r@ == header_bytes_spec(self.header) + self.payload@,
    {
        let mut v = self.header.to_bytes();
        let mut i: usize = 0;
        let n = self.payload.len();
        while i < n
            invariant
                i <= n,
                n == self.payload@.len(),
                v@ == header_bytes_spec(self.header) + self.payload@.take(i as int),
            decreases n - i,
        {
            let b = self.payload[i];
            v.push(b);
            proof {
                assert(v@ =~= header_bytes_spec(self.header) + self.payload@.take(i + 1));
            }
            i += 1;
        }
        proof {
            assert(self.payload@.take(n as int) =~= self.payload@);
        }
        v
    }

    /// Validates one received frame against the number of bytes actually read.
    pub fn validate(&self, bytes_read: usize) -> (r: Response)
        requires
            (HEADER_SIZE <= bytes_read <= MAX_MESSAGE && self.header.size as int == bytes_read
                as int - HEADER_SIZE as int) ==> self.header.size as int <= self.payload@.len(),
        ensures
            r == self@.validate_spec(bytes_read),
    {
        if bytes_read < HEADER_SIZE {
            return Response::MessageTooSmall;
        }
        if bytes_read > MAX_MESSAGE {
            return Response::MessageTooLarge;
        }
        if self.header.size() as usize != bytes_read - HEADER_SIZE {
            return Response::MessageHeaderSizeMismatch;
        }
        let response = self.header.validate_header();
        let request = Request::from_u16(self.header.code());
        match (response, request) {
            (Response::Success, Some(Request::Compress)) => self.validate_payload(bytes_read),
            (response_code, _) => response_code,
        }
    }

    /// Maps the payload character check onto a response code.
    pub fn validate_payload(&self, bytes_read: usize) -> (r: Response)
        requires
            self.header.size as int <= self.payload@.len(),
        ensures
            r == if all_lower(self.payload@.take(self.header.size as int)) {
                Response::Success
            } else {
                Response::MessagePayloadContainsInvalidCharacters
            },
    {
        if self.is_payload_valid(bytes_read) {
            Response::Success
        } else {
            Response::MessagePayloadContainsInvalidCharacters
        }
    }

    /// Validates the payload part of a message.
    /// Currently, a payload is only valid if it exclusively contains lowercase ascii characters.
    pub fn is_payload_valid(&self, _bytes_read: usize) -> (r: bool)
        requires
            self.header.size as int <= self.payload@.len(),
        ensures
            r == all_lower(self.payload@.take(self.header.size as int)),
    {
        let n = self.header.size() as usize;
        let mut i: usize = 0;
        while i < n
            invariant
                i <= n,
                n == self.header.size as int,
                n <= self.payload@.len(),
                forall|k: int| 0 <= k < i ==> is_lower(self.payload@[k]),
            decreases n - i,
        {
            let b = self.payload[i];
            if b < 97 || b > 122 {
                proof {
                    assert(self.payload@.take(n as int)[i as int] == self.payload@[i as int]);
                }
                return false;
            }
            i += 1;
        }
        proof {
            assert forall|k: int| 0 <= k < self.payload@.take(n as int).len() implies is_lower(
                self.payload@.take(n as int)[k],
            ) by {
                assert(self.payload@.take(n as int)[k] == self.payload@[k]);
            }
        }
        true
    }
}

/// A frame of fewer bytes than a header always validates to `MessageTooSmall`,
/// regardless of its content.
pub proof fn lemma_short_frame_rejected(m: MessageView, bytes_read: usize)
    requires
        bytes_read < HEADER_SIZE,
    ensures
        m.validate_spec(bytes_read) == Response::MessageTooSmall,
{
}

/// A frame whose declared size disagrees with the length of what was read
/// always validates to `MessageHeaderSizeMismatch`, regardless of content.
pub proof fn lemma_size_mismatch_rejected(m: MessageView, bytes_read: usize)
    requires
        HEADER_SIZE <= bytes_read <= MAX_MESSAGE,
        m.header.size as int != bytes_read as int - HEADER_SIZE as int,
    ensures
        m.validate_spec(bytes_read) == Response::MessageHeaderSizeMismatch,
{
}

/// A well-framed Ping, GetStats or ResetStats request with a non-zero payload
/// length always validates to `RequestKindRequiresZeroLength`.
pub proof fn lemma_zero_length_rule(m: MessageView, bytes_read: usize)
    requires
        HEADER_SIZE <= bytes_read <= MAX_MESSAGE,
        m.header.size as int == bytes_read as int - HEADER_SIZE as int,
        m.header.sign == MAGIC,
        Request::from_u16_spec(m.header.code) == Some(Request::Ping) || Request::from_u16_spec(
            m.header.code,
        ) == Some(Request::GetStats) || Request::from_u16_spec(m.header.code) == Some(
            Request::ResetStats,
        ),
        m.header.size != 0,
    ensures
        m.validate_spec(bytes_read) == Response::RequestKindRequiresZeroLength,
{
}

/// A well-framed Compress request with a zero-length payload always validates
/// to `CompressionRequestRequiresNonZeroLength`.
pub proof fn lemma_compress_zero_length_rejected(m: MessageView, bytes_read: usize)
    requires
        HEADER_SIZE <= bytes_read <= MAX_MESSAGE,
        m.header.size as int == bytes_read as int - HEADER_SIZE as int,
        m.header.sign == MAGIC,
        Request::from_u16_spec(m.header.code) == Some(Request::Compress),
        m.header.size == 0,
    ensures
        m.validate_spec(bytes_read) == Response::CompressionRequestRequiresNonZeroLength,
{
}

/// Given the number of bytes read, computes the payload length of the message.
pub fn payload_len(bytes_read: usize) -> (r: usize)
    requires
        bytes_read >= HEADER_SIZE,
    ensures
        r == bytes_read - HEADER_SIZE,
{
    bytes_read - HEADER_SIZE
}

/// Given the payload length, computes the total message size.
pub fn total_response_len(payload_len: usize) -> (r: usize)
    requires
        payload_len + HEADER_SIZE <= usize::MAX,
    ensures
        r == HEADER_SIZE + payload_len,
{
    HEADER_SIZE + payload_len
}

/// Determine if a slice can be parsed/serialized into a `Message`.
pub fn can_parse(bytes: &[u8]) -> (r: bool)
    ensures
        r == (bytes@.len() >= HEADER_SIZE),
{
    bytes.len() >= HEADER_SIZE
}

} // verus!
