use vstd::prelude::*;

use crate::cursor::{le_value, lossy_text, Cursor};
use crate::errors::RevisionError;
use crate::util::{hex_bytes, hex_decode, is_hex};

verus! {

/// Host of the patch service.
pub const URL: &'static str = "patch.us.wizard101.com";

/// TCP port of the patch service.
pub const PORT: &'static str = "12500";

/// Size of the buffer that one inbound message is read into.
pub const BUFFER_SIZE: usize = 256;

/// The two bytes that open every response frame.
pub const FOOD_HEADER: [u8; 2] = [0x0D, 0xF0];

/// Identifier of the patch service.
pub const SERVICE_ID: u8 = 8;

/// Identifier of the message that carries the latest file list.
pub const MESSAGE_ID: u8 = 2;

/// The session accept that answers the service's offer, in hexadecimal.
pub const SESSION_ACCEPT: &'static str =
    "0DF02700000000000802220000000000000000000000000000000000000000000000000000000000000000";

/// The pattern that finds the revision in a manifest URL: a path segment that
/// starts with `V_`.
pub const REVISION_PATTERN: &'static str = "/(V_[^/]+)/";

/// The bytes of a length-prefixed string that starts `bytes`: two bytes of
/// little-endian length, then that many bytes of text. `None` where `bytes`
/// ends before the string does.
pub open spec fn bytestring_at(bytes: Seq<u8>) -> Option<Seq<u8>> {
    if bytes.len() < 2 {
        None
    } else {
        let length = le_value(bytes.take(2));
        if bytes.len() < 2 + length {
            None
        } else {
            Some(bytes.subrange(2, 2 + length as int))
        }
    }
}

/// Whether `bytes` open with the magic marker of a response frame.
pub open spec fn opens_with_food_header(bytes: Seq<u8>) -> bool {
    bytes.len() >= 2 && bytes[0] == FOOD_HEADER[0] && bytes[1] == FOOD_HEADER[1]
}

/// The two reads of the handshake that go beyond fixed-width numbers.
pub trait WizIntegration {
    /// The bytes that have not been read yet.
    spec fn unread(&self) -> Seq<u8>;

    /// Reads a length-prefixed string and decodes it as UTF-8, replacing what
    /// is malformed. Fails, and reads nothing, where the buffer ends early.
    fn read_bytestring(&mut self) -> (r: Result<String, RevisionError>)
        ensures
            match r {
                Ok(text) => {
                    &&& bytestring_at(old(self).unread()) matches Some(body)
                    &&& text@ == lossy_text(body)
                    &&& final(self).unread() == old(self).unread().skip(2 + body.len() as int)
                },
                Err(e) => {
                    &&& e == RevisionError::TruncatedBuffer
                    &&& bytestring_at(old(self).unread()) is None
                    &&& final(self).unread() == old(self).unread()
                },
            },
    ;

    /// Reads two bytes and tells whether they are the magic marker. The two
    /// bytes are consumed whether they match or not.
    fn is_food_header(&mut self) -> (r: Result<bool, RevisionError>)
        ensures
            match r {
                Ok(found) => {
                    &&& old(self).unread().len() >= 2
                    &&& found == opens_with_food_header(old(self).unread())
                    &&& final(self).unread() == old(self).unread().skip(2)
                },
                Err(e) => {
                    &&& e == RevisionError::TruncatedBuffer
                    &&& old(self).unread().len() < 2
                    &&& final(self).unread() == old(self).unread()
                },
            },
    ;
}

/// Where the manifest and the assets of the current revision are found.
#[derive(Debug)]
pub struct Revision {
    pub list_file_url: String,
    pub url_prefix: String,
    pub revision: String,
}

/// A `Revision` as plain text.
pub struct RevisionView {
    pub list_file_url: Seq<char>,
    pub url_prefix: Seq<char>,
    pub revision: Seq<char>,
}

impl View for Revision {
    type V = RevisionView;

    open spec fn view(&self) -> RevisionView {
        RevisionView {
            list_file_url: self.list_file_url@,
            url_prefix: self.url_prefix@,
            revision: self.revision@,
        }
    }
}

impl Clone for Revision {
    fn clone(&self) -> (copy: Self)
        ensures
            copy == *self,
    {
        Revision {
            list_file_url: self.list_file_url.clone(),
            url_prefix: self.url_prefix.clone(),
            revision: self.revision.clone(),
        }
    }
}

/// The position of the first `/` of `text` at or after `from`, or the length
/// of `text` where none follows.
pub open spec fn next_slash(text: Seq<char>, from: int) -> int
    decreases text.len() - from,
{
    if from >= text.len() {
        text.len() as int
    } else if text[from] == '/' {
        from
    } else {
        next_slash(text, from + 1)
    }
}

/// Whether a path segment that starts with `V_` and holds at least one more
/// character opens at the slash at `at` and is closed by a later slash.
pub open spec fn revision_opens_at(text: Seq<char>, at: int) -> bool {
    &&& 0 <= at
    &&& at + 3 < text.len()
    &&& text[at] == '/'
    &&& text[at + 1] == 'V'
    &&& text[at + 2] == '_'
    &&& text[at + 3] != '/'
    &&& next_slash(text, at + 3) < text.len()
}

/// The first position at or after `from` where a revision segment opens.
pub open spec fn first_revision(text: Seq<char>, from: int) -> Option<int>
    decreases text.len() - from,
{
    if from >= text.len() {
        None
    } else if revision_opens_at(text, from) {
        Some(from)
    } else {
        first_revision(text, from + 1)
    }
}

/// The revision that a manifest URL names: its first path segment of the form
/// `V_<token>`, without the slashes around it; empty where there is none.
pub open spec fn revision_tag(url: Seq<char>) -> Seq<char> {
    match first_revision(url, 0) {
        Some(at) => url.subrange(at + 1, next_slash(url, at + 3)),
        None => Seq::empty(),
    }
}

/// Compiles `pattern` with `regex::Regex::new`, searches `text` with
/// `Regex::captures` and hands out the text of capture group `group`.
/// The contract is stated for the revision pattern alone. There the search
/// finds the leftmost slash that is followed by `V_`, by one or more
/// characters other than a slash and by a slash; the group is what stands
/// between the two slashes.
#[verifier::external_body]
fn first_capture(pattern: &str, group: usize, text: &str) -> (found: Option<String>)
    requires
        pattern@ == REVISION_PATTERN@,
        group == 1,
    ensures
        match found {
            Some(tag) => first_revision(text@, 0) is Some && tag@ == revision_tag(text@),
            None => first_revision(text@, 0) is None,
        },
{
    let compiled = regex::Regex::new(pattern).unwrap();
    compiled.captures(text).and_then(|found| found.get(group)).map(|m| m.as_str().to_string())
}

/// What a response frame decodes to, or why it does not decode.
///
/// The frame is: the magic marker, two and four reserved bytes, the service and
/// message identifiers, a length of two bytes, a version of four, and then the
/// locations.
pub open spec fn decode_response(bytes: Seq<u8>) -> Result<RevisionView, RevisionError> {
    if bytes.len() < 2 {
        Err(RevisionError::TruncatedBuffer)
    } else if !opens_with_food_header(bytes) {
        Err(RevisionError::InvalidHeaderSequence)
    } else if bytes.len() < 10 {
        Err(RevisionError::TruncatedBuffer)
    } else if bytes[8] != SERVICE_ID || bytes[9] != MESSAGE_ID {
        Err(RevisionError::InvalidProtocol(bytes[8], bytes[9]))
    } else if bytes.len() < 16 {
        Err(RevisionError::TruncatedBuffer)
    } else {
        decode_locations(bytes.skip(16))
    }
}

/// The tail of a response frame: the manifest's file name, sixteen reserved
/// bytes, the manifest's URL and the prefix of the asset URLs, each of the
/// three a length-prefixed string.
pub open spec fn decode_locations(bytes: Seq<u8>) -> Result<RevisionView, RevisionError> {
    match bytestring_at(bytes) {
        None => Err(RevisionError::TruncatedBuffer),
        Some(file_name) => {
            let after_name = bytes.skip(2 + file_name.len() as int);
            if after_name.len() < 16 {
                Err(RevisionError::TruncatedBuffer)
            } else {
                decode_urls(after_name.skip(16))
            }
        },
    }
}

/// The last two strings of a response frame.
pub open spec fn decode_urls(bytes: Seq<u8>) -> Result<RevisionView, RevisionError> {
    match bytestring_at(bytes) {
        None => Err(RevisionError::TruncatedBuffer),
        Some(list_file_url) => match bytestring_at(bytes.skip(2 + list_file_url.len() as int)) {
            None => Err(RevisionError::TruncatedBuffer),
            Some(url_prefix) => Ok(
                located(lossy_text(list_file_url), lossy_text(url_prefix)),
            ),
        },
    }
}

/// The revision that is found at the two locations.
pub open spec fn located(list_file_url: Seq<char>, url_prefix: Seq<char>) -> RevisionView {
    RevisionView { list_file_url, url_prefix, revision: revision_tag(list_file_url) }
}

impl Revision {
    /// The revision that a manifest URL names, or the empty string.
    pub fn parse_revision(url: &str) -> (revision: String)
        ensures
            revision@ == revision_tag(url@),
    {
        match first_capture(REVISION_PATTERN, 1, url) {
            Some(tag) => tag,
            None => String::new(),
        }
    }

    /// The revision that is found at the two locations of a response.
    pub fn locate(list_file_url: String, url_prefix: String) -> (revision: Revision)
        ensures
            revision@ == located(list_file_url@, url_prefix@),
    {
        let tag = Revision::parse_revision(list_file_url.as_str());
        Revision { list_file_url, url_prefix, revision: tag }
    }

    /// Decodes the service's response to the session accept.
    pub fn check(response: Vec<u8>) -> (checked: Result<Revision, RevisionError>)
        ensures
            match checked {
                Ok(revision) => decode_response(response@) == Ok::<RevisionView, RevisionError>(
                    revision@,
                ),
                Err(e) => decode_response(response@) == Err::<RevisionView, RevisionError>(e),
            },
    {
        let ghost bytes = response@;
        let mut cursor = Cursor::new(response);
        match cursor.is_food_header() {
            Ok(true) => {},
            Ok(false) => {
                return Err(RevisionError::InvalidHeaderSequence);
            },
            Err(e) => {
                return Err(e);
            },
        }
        assert(cursor.remaining() == bytes.skip(2));
        if let Err(e) = cursor.read_u16_le() {
            return Err(e);
        }
        assert(cursor.remaining() == bytes.skip(4));
        if let Err(e) = cursor.read_u32_le() {
            return Err(e);
        }
        assert(cursor.remaining() == bytes.skip(8));
        let service_id = match cursor.read_u8() {
            Ok(id) => id,
            Err(e) => {
                return Err(e);
            },
        };
        assert(cursor.remaining() == bytes.skip(9));
        let message_id = match cursor.read_u8() {
            Ok(id) => id,
            Err(e) => {
                return Err(e);
            },
        };
        assert(cursor.remaining() == bytes.skip(10));
        if service_id != SERVICE_ID || message_id != MESSAGE_ID {
            return Err(RevisionError::InvalidProtocol(service_id, message_id));
        }
        if let Err(e) = cursor.read_u16_le() {
            return Err(e);
        }
        assert(cursor.remaining() == bytes.skip(12));
        if let Err(e) = cursor.read_u32_le() {
            return Err(e);
        }
        assert(cursor.remaining() == bytes.skip(16));
        if let Err(e) = cursor.read_bytestring() {
            return Err(e);
        }
        let ghost after_name = cursor.unread();
        if let Err(e) = cursor.read_u128_le() {
            return Err(e);
        }
        assert(cursor.unread() == after_name.skip(16));
        let list_file_url = match cursor.read_bytestring() {
            Ok(text) => text,
            Err(e) => {
                return Err(e);
            },
        };
        let url_prefix = match cursor.read_bytestring() {
            Ok(text) => text,
            Err(e) => {
                return Err(e);
            },
        };
        Ok(Revision::locate(list_file_url, url_prefix))
    }
}

/// The session accept as the bytes that go on the wire.
pub fn session_accept() -> (payload: Vec<u8>)
    ensures
        payload@ == hex_bytes(SESSION_ACCEPT@),
        payload@.len() == 43,
{
    proof {
        reveal_strlit(
            "0DF02700000000000802220000000000000000000000000000000000000000000000000000000000000000",
        );
    }
    let decoded = hex_decode(SESSION_ACCEPT);
    assert(is_hex(SESSION_ACCEPT@));
    decoded.unwrap()
}

/// Whether `bytes` hold the fixed part of a response frame: the magic marker
/// and the identifiers of the service and the message, with the reserved
/// bytes, the length and the version around them.
pub open spec fn opens_response(bytes: Seq<u8>) -> bool {
    &&& bytes.len() >= 16
    &&& opens_with_food_header(bytes)
    &&& bytes[8] == SERVICE_ID
    &&& bytes[9] == MESSAGE_ID
}

/// A frame that does not open with the magic marker is refused for its
/// header, whatever follows.
pub proof fn lemma_invalid_header(bytes: Seq<u8>)
    requires
        bytes.len() >= 2,
        bytes[0] != FOOD_HEADER[0] || bytes[1] != FOOD_HEADER[1],
    ensures
        decode_response(bytes) == Err::<RevisionView, RevisionError>(
            RevisionError::InvalidHeaderSequence,
        ),
{
}

/// A frame with the magic marker whose identifiers are not those of the
/// patch service and of the file-list message is refused as another
/// protocol, and the error carries the two identifiers that stand in it.
pub proof fn lemma_invalid_protocol(bytes: Seq<u8>)
    requires
        bytes.len() >= 10,
        opens_with_food_header(bytes),
        bytes[8] != SERVICE_ID || bytes[9] != MESSAGE_ID,
    ensures
        decode_response(bytes) == Err::<RevisionView, RevisionError>(
            RevisionError::InvalidProtocol(bytes[8], bytes[9]),
        ),
{
}

/// Whether one of the three strings of the locations is cut off: the buffer
/// ends inside its length or before its declared length is reached.
pub open spec fn string_cut_off(locations: Seq<u8>) -> bool {
    match bytestring_at(locations) {
        None => true,
        Some(file_name) => {
            let after_name = locations.skip(2 + file_name.len() as int);
            after_name.len() >= 16 && match bytestring_at(after_name.skip(16)) {
                None => true,
                Some(list_file_url) => bytestring_at(
                    after_name.skip(16).skip(2 + list_file_url.len() as int),
                ) is None,
            }
        },
    }
}

/// A frame that is cut off inside one of its strings is refused as
/// truncated.
pub proof fn lemma_truncated_string(bytes: Seq<u8>)
    requires
        opens_response(bytes),
        string_cut_off(bytes.skip(16)),
    ensures
        decode_response(bytes) == Err::<RevisionView, RevisionError>(
            RevisionError::TruncatedBuffer,
        ),
{
}

/// A frame with its fixed part in order decodes, or is refused as truncated:
/// nothing else can go wrong behind the identifiers.
pub proof fn lemma_locations_decode_or_truncated(bytes: Seq<u8>)
    requires
        opens_response(bytes),
    ensures
        decode_response(bytes) is Ok || decode_response(bytes) == Err::<
            RevisionView,
            RevisionError,
        >(RevisionError::TruncatedBuffer),
{
}

} // verus!
