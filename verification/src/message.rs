use crate::addr::PeerAddr;
use crate::log_fmt::{log_lines, LogFormatter};
use crate::text::text_is;
use base64::Engine;
use vstd::prelude::*;
use vstd::string::{StrSliceExecFns, StringSliceAdditionalSpecFns};
use vstd::utf8::{encode_utf8, is_ascii_chars};

verus! {

#[verifier::external_type_specification]
#[verifier::external_body]
pub struct ExDecodeError(base64::DecodeError);

/// What base64's standard engine (`BASE64_STANDARD`, with padding) writes for bytes.
pub uninterp spec fn base64_standard_encoded(bin: Seq<u8>) -> Seq<char>;

/// What base64's standard engine reads from a text: the bytes, or `None` where it
/// reports an error.
pub uninterp spec fn base64_standard_decoded(text: Seq<u8>) -> Option<Seq<u8>>;

/// `base64::prelude::BASE64_STANDARD.encode`. Trusted: the text is the one that
/// `base64_standard_encoded` names; it is ASCII (the base64 alphabet and `=`); and the
/// same engine decodes it back to the bytes. The length bound keeps `encode` clear of
/// its overflow panic on the output length.
#[verifier::external_body]
pub(crate) fn base64_encode(bin: &[u8]) -> (r: String)
    requires
        bin@.len() <= usize::MAX / 2,
    ensures
        r@ == base64_standard_encoded(bin@),
        is_ascii_chars(r@),
        base64_standard_decoded(encode_utf8(r@)) == Some(bin@),
{
    base64::prelude::BASE64_STANDARD.encode(bin)
}

/// `base64::engine::general_purpose::STANDARD.decode`. Trusted: it succeeds exactly
/// where `base64_standard_decoded` names bytes, and gives those bytes; the error itself
/// is not described.
#[verifier::external_body]
pub(crate) fn base64_decode(text: &[u8]) -> (r: Result<Vec<u8>, base64::DecodeError>)
    ensures
        match r {
            Ok(v) => base64_standard_decoded(text@) == Some(v@),
            Err(_) => base64_standard_decoded(text@) is None,
        },
{
    base64::engine::general_purpose::STANDARD.decode(text)
}

/// How the body of a message is encoded.
#[derive(PartialEq, Eq, Structural, Clone, Copy, Debug)]
pub enum SocketBodyType {
    /// Plain text, not meant to be decoded.
    Raw,
    /// JSON text.
    Json,
    /// JSON bytes, in base64.
    Base64,
}

/// A message between two peers: the endpoint that handles it, how its body is encoded,
/// and the body.
pub struct BaseSocketMessageBody {
    pub end_point: String,
    pub content_type: SocketBodyType,
    body: Option<String>,
}

/// Why a message's body could not be turned into JSON bytes.
pub enum TransError {
    /// The body is raw text.
    RawData,
    /// The body is not valid base64.
    Base64(base64::DecodeError),
}

/// The body of a message, by its view.
pub open spec fn body_view(body: Option<String>) -> Option<Seq<char>> {
    match body {
        Some(b) => Some(b@),
        None => None,
    }
}

/// The body as raw text: the text, or nothing.
pub open spec fn raw_text(body: Option<Seq<char>>) -> Seq<char> {
    match body {
        Some(b) => b,
        None => Seq::<char>::empty(),
    }
}

/// A raw message gives back the text that it was made with.
pub proof fn lemma_raw_roundtrip(raw: Option<String>)
    ensures
        raw_text(body_view(raw)) == match raw {
            Some(t) => t@,
            None => Seq::<char>::empty(),
        },
{
}

/// The JSON bytes that a body holds: `Ok(None)` without a body; the text's bytes for a
/// JSON body; the decoded bytes for a base64 body (`Err(false)` where they do not
/// decode); `Err(true)` for a raw body.
pub open spec fn spec_json_payload(content_type: SocketBodyType, body: Option<Seq<char>>) -> Result<
    Option<Seq<u8>>,
    bool,
> {
    match body {
        None => Ok(None),
        Some(b) => match content_type {
            SocketBodyType::Json => Ok(Some(encode_utf8(b))),
            SocketBodyType::Base64 => match base64_standard_decoded(encode_utf8(b)) {
                Some(v) => Ok(Some(v)),
                None => Err(false),
            },
            SocketBodyType::Raw => Err(true),
        },
    }
}

impl BaseSocketMessageBody {
    /// The endpoint.
    pub closed spec fn endpoint(&self) -> Seq<char> {
        self.end_point@
    }

    /// How the body is encoded.
    pub closed spec fn kind(&self) -> SocketBodyType {
        self.content_type
    }

    /// The body.
    pub closed spec fn body(&self) -> Option<Seq<char>> {
        body_view(self.body)
    }

    /// A message from its parts.
    pub fn from_parts(end_point: String, content_type: SocketBodyType, body: Option<String>) -> (r:
        BaseSocketMessageBody)
        ensures
            r.endpoint() == end_point@,
            r.kind() == content_type,
            r.body() == body_view(body),
    {
        BaseSocketMessageBody { end_point, content_type, body }
    }

    /// The parts of a message: endpoint, encoding, body.
    pub fn into_parts(self) -> (r: (String, SocketBodyType, Option<String>))
        ensures
            r.0@ == self.endpoint(),
            r.1 == self.kind(),
            body_view(r.2) == self.body(),
    {
        (self.end_point, self.content_type, self.body)
    }

    /// A raw message.
    pub fn make_raw(end_point: String, raw: Option<String>) -> (r: BaseSocketMessageBody)
        ensures
            r.endpoint() == end_point@,
            r.kind() == SocketBodyType::Raw,
            r.body() == body_view(raw),
    {
        BaseSocketMessageBody { end_point, body: raw, content_type: SocketBodyType::Raw }
    }

    /// A message carrying JSON text.
    pub fn make_json(end_point: String, json: String) -> (r: BaseSocketMessageBody)
        ensures
            r.endpoint() == end_point@,
            r.kind() == SocketBodyType::Json,
            r.body() == Some(json@),
    {
        BaseSocketMessageBody { end_point, body: Some(json), content_type: SocketBodyType::Json }
    }

    /// A message carrying bytes in base64.
    pub fn make_bin(end_point: String, bin: &[u8]) -> (r: BaseSocketMessageBody)
        requires
            bin@.len() <= usize::MAX / 2,
        ensures
            r.endpoint() == end_point@,
            r.kind() == SocketBodyType::Base64,
            r.body() == Some(base64_standard_encoded(bin@)),
            spec_json_payload(r.kind(), r.body()) == Ok::<Option<Seq<u8>>, bool>(Some(bin@)),
    {
        let encoded = base64_encode(bin);
        BaseSocketMessageBody { end_point, body: Some(encoded), content_type: SocketBodyType::Base64 }
    }

    /// The body as text; empty where there is none.
    pub fn be_raw(self) -> (r: String)
        ensures
            r@ == raw_text(self.body()),
    {
        match self.body {
            Some(b) => b,
            None => String::new(),
        }
    }

    /// The JSON bytes that the body holds, for the caller to decode into a value (see
    /// `spec_json_payload`).
    pub fn json_payload(self) -> (r: Result<Option<Vec<u8>>, TransError>)
        ensures
            match r {
                Ok(None) => spec_json_payload(self.kind(), self.body()) == Ok::<
                    Option<Seq<u8>>,
                    bool,
                >(None),
                Ok(Some(v)) => spec_json_payload(self.kind(), self.body()) == Ok::<
                    Option<Seq<u8>>,
                    bool,
                >(Some(v@)),
                Err(TransError::RawData) => spec_json_payload(self.kind(), self.body())
                    == Err::<Option<Seq<u8>>, bool>(true),
                Err(TransError::Base64(_)) => spec_json_payload(self.kind(), self.body())
                    == Err::<Option<Seq<u8>>, bool>(false),
            },
    {
        match self.body {
            Some(serialized) => match self.content_type {
                SocketBodyType::Json => Ok(Some(serialized.as_str().as_bytes_vec())),
                SocketBodyType::Base64 => {
                    let text = serialized.as_str().as_bytes_vec();
                    match base64_decode(text.as_slice()) {
                        Ok(bin) => Ok(Some(bin)),
                        Err(e) => Err(TransError::Base64(e)),
                    }
                },
                SocketBodyType::Raw => Err(TransError::RawData),
            },
            None => Ok(None),
        }
    }
}

/// A chat line sent to a peer: who sends it, and the text.
pub struct BaseChatMessageBody {
    pub me: PeerAddr,
    pub msg: String,
}

/// A message read from a peer, with the peer's address.
pub struct FrameBody {
    pub frame: BaseSocketMessageBody,
    pub addr: PeerAddr,
}

/// The notice for a `msgbox` message from a peer.
pub open spec fn msgbox_notice(addr: Seq<char>, raw: Seq<char>) -> Seq<char> {
    "A msgbox from "@ + addr + " is : "@ + raw
}

impl FrameBody {
    /// A message read from a peer.
    pub fn new(frame: BaseSocketMessageBody, addr: PeerAddr) -> (r: FrameBody)
        ensures
            r.frame == frame,
            r.addr == addr,
    {
        FrameBody { frame, addr }
    }

    /// What a message from a peer shows: a `msgbox` message shows its raw body as an
    /// informational notice; messages to other endpoints show nothing.
    pub fn hd_message_event(self, width: Option<u16>) -> (r: Option<Vec<String>>)
        ensures
            match r {
                Some(lines) => self.frame.endpoint() == "msgbox"@ && crate::log_fmt::encodings(
                    lines@,
                ) == log_lines(
                    msgbox_notice(self.addr@, raw_text(self.frame.body())),
                    "[Info] "@,
                    width,
                ),
                None => self.frame.endpoint() != "msgbox"@,
            },
    {
        if !text_is(&self.frame.end_point, "msgbox") {
            return None;
        }
        let FrameBody { addr, frame } = self;
        let raw = frame.be_raw();
        let mut m = String::from_str("A msgbox from ");
        m.append(addr.as_str());
        m.append(" is : ");
        m.append(raw.as_str());
        Some(LogFormatter::lines_for(m.as_str(), "[Info] ", width))
    }
}

} // verus!
