//! The response format of the query protocol and its decoder.
//!
//! A response is laid out without padding: a header byte, a protocol byte,
//! four NUL-terminated texts (name, map, folder, game), a little-endian
//! 16-bit id, and three bytes for the player count, the player limit and the
//! bot count. Bytes after the bot count are ignored.

use crate::error::QueryError;
use byteorder::{ByteOrder, LittleEndian};
use vstd::prelude::*;
use vstd::slice::{slice_subrange, slice_to_vec};
use vstd::string::StringSliceAdditionalSpecFns;
use vstd::utf8::{decode_utf8, encode_utf8, valid_utf8};

verus! {

/// The query datagram: four bytes 0xFF, the text `TSource Engine Query`, and
/// a NUL.
pub const QUERY_REQUEST: [u8; 25] = [
    0xff, 0xff, 0xff, 0xff, 0x54, 0x53, 0x6f, 0x75, 0x72, 0x63, 0x65, 0x20, 0x45, 0x6e, 0x67,
    0x69, 0x6e, 0x65, 0x20, 0x51, 0x75, 0x65, 0x72, 0x79, 0x00,
];

/// What `String::from_utf8_lossy` makes of bytes that are not valid UTF-8.
pub uninterp spec fn lossy_text(raw: Seq<u8>) -> Seq<char>;

/// The text that the raw bytes of a text field stand for: their UTF-8 decoding
/// where they are valid UTF-8, the lossy decoding otherwise.
pub open spec fn text_of(raw: Seq<u8>) -> Seq<char> {
    if valid_utf8(raw) {
        decode_utf8(raw)
    } else {
        lossy_text(raw)
    }
}

/// The 16-bit value whose little-endian encoding is `low`, `high`.
pub open spec fn le_u16(low: u8, high: u8) -> u16 {
    (low as int + 256 * (high as int)) as u16
}

/// `end` is where the text field starting at `from` is terminated: the first
/// NUL at or after `from`.
pub open spec fn is_text_end(data: Seq<u8>, from: int, end: int) -> bool {
    &&& 0 <= from <= end < data.len()
    &&& data[end] == 0
    &&& forall|j: int| from <= j < end ==> data[j] != 0
}

/// A text field starting at `from` is terminated within `data`.
pub open spec fn has_text(data: Seq<u8>, from: int) -> bool {
    exists|end: int| is_text_end(data, from, end)
}

/// Position of the terminator of the text field starting at `from`.
pub open spec fn text_end(data: Seq<u8>, from: int) -> int {
    choose|end: int| is_text_end(data, from, end)
}

/// Calls `String::from_utf8_lossy`. Valid UTF-8 is decoded as it stands; of
/// other input the contract only says that the result depends on the bytes
/// alone.
#[verifier::external_body]
fn lossy_string(raw: &[u8]) -> (text: String)
    ensures
        valid_utf8(raw@) ==> text@ == decode_utf8(raw@),
        !valid_utf8(raw@) ==> text@ == lossy_text(raw@),
{
    String::from_utf8_lossy(raw).into_owned()
}

/// Calls byteorder's `LittleEndian::read_u16`, which reads the first two bytes
/// of the slice as a little-endian number and panics on a shorter slice.
#[verifier::external_body]
fn read_le_u16(pair: &[u8]) -> (value: u16)
    requires
        pair@.len() >= 2,
    ensures
        value == le_u16(pair@[0], pair@[1]),
{
    LittleEndian::read_u16(pair)
}

/// Appends `text` to `out` as a text field.
fn push_text(out: &mut Vec<u8>, text: &str)
    ensures
        final(out)@ == old(out)@ + encode_text(text@),
{
    let mut raw = slice_to_vec(text.as_bytes());
    out.append(&mut raw);
    out.push(0u8);
    assert(out@ =~= old(out)@ + encode_text(text@));
}

/// A read position in a byte buffer.
pub struct Reader<'a> {
    pub data: &'a [u8],
    pub pos: usize,
}

impl<'a> Reader<'a> {
    /// A reader at the start of `data`.
    pub fn new(data: &'a [u8]) -> (rdr: Self)
        ensures
            rdr.data@ == data@,
            rdr.pos == 0,
    {
        Reader { data, pos: 0 }
    }

    /// Reads one byte and steps past it; fails at or beyond the end of the
    /// buffer, leaving the position where it was.
    pub fn read_u8(&mut self) -> (r: Result<u8, QueryError>)
        ensures
            final(self).data@ == old(self).data@,
            match r {
                Ok(b) => {
                    &&& old(self).pos < old(self).data@.len()
                    &&& b == old(self).data@[old(self).pos as int]
                    &&& final(self).pos == old(self).pos + 1
                },
                Err(e) => {
                    &&& e == QueryError::MalformedResponse
                    &&& old(self).pos >= old(self).data@.len()
                    &&& final(self).pos == old(self).pos
                },
            },
    {
        if self.pos < self.data.len() {
            let b = self.data[self.pos];
            self.pos = self.pos + 1;
            Ok(b)
        } else {
            Err(QueryError::MalformedResponse)
        }
    }

    /// Reads a little-endian 16-bit number and steps past it; fails where
    /// fewer than two bytes are left, leaving the position where it was.
    pub fn read_u16(&mut self) -> (r: Result<u16, QueryError>)
        ensures
            final(self).data@ == old(self).data@,
            match r {
                Ok(v) => {
                    &&& old(self).pos + 2 <= old(self).data@.len()
                    &&& v == le_u16(
                        old(self).data@[old(self).pos as int],
                        old(self).data@[old(self).pos + 1],
                    )
                    &&& final(self).pos == old(self).pos + 2
                },
                Err(e) => {
                    &&& e == QueryError::MalformedResponse
                    &&& old(self).pos + 2 > old(self).data@.len()
                    &&& final(self).pos == old(self).pos
                },
            },
    {
        let len = self.data.len();
        if self.pos <= len && len - self.pos >= 2 {
            let pair = slice_subrange(self.data, self.pos, self.pos + 2);
            let v = read_le_u16(pair);
            self.pos = self.pos + 2;
            Ok(v)
        } else {
            Err(QueryError::MalformedResponse)
        }
    }
}

/// The content of a response: what a [`ServerResponse`] stands for.
pub struct ServerInfo {
    pub header: u8,
    pub protocol: u8,
    pub name: Seq<char>,
    pub map: Seq<char>,
    pub folder: Seq<char>,
    pub game: Seq<char>,
    pub id: u16,
    pub players: u8,
    pub max_players: u8,
    pub bots: u8,
}

/// Position of the terminator of the name, the first text field.
pub open spec fn name_end(data: Seq<u8>) -> int {
    text_end(data, 2)
}

/// Position of the terminator of the map.
pub open spec fn map_end(data: Seq<u8>) -> int {
    text_end(data, name_end(data) + 1)
}

/// Position of the terminator of the folder.
pub open spec fn folder_end(data: Seq<u8>) -> int {
    text_end(data, map_end(data) + 1)
}

/// Position of the terminator of the game, the last text field.
pub open spec fn game_end(data: Seq<u8>) -> int {
    text_end(data, folder_end(data) + 1)
}

/// Number of bytes that a complete response at the start of `data` takes up.
pub open spec fn wire_len(data: Seq<u8>) -> int {
    game_end(data) + 6
}

/// `data` starts with a complete response: every field is there in full.
pub open spec fn is_complete(data: Seq<u8>) -> bool {
    &&& has_text(data, 2)
    &&& has_text(data, name_end(data) + 1)
    &&& has_text(data, map_end(data) + 1)
    &&& has_text(data, folder_end(data) + 1)
    &&& wire_len(data) <= data.len()
}

/// The fields of the complete response at the start of `data`.
pub open spec fn fields(data: Seq<u8>) -> ServerInfo {
    let tail = game_end(data) + 1;
    ServerInfo {
        header: data[0],
        protocol: data[1],
        name: text_of(data.subrange(2, name_end(data))),
        map: text_of(data.subrange(name_end(data) + 1, map_end(data))),
        folder: text_of(data.subrange(map_end(data) + 1, folder_end(data))),
        game: text_of(data.subrange(folder_end(data) + 1, game_end(data))),
        id: le_u16(data[tail], data[tail + 1]),
        players: data[tail + 2],
        max_players: data[tail + 3],
        bots: data[tail + 4],
    }
}

/// What decoding makes of `data`: the fields of the response it starts with,
/// or nothing where the buffer ends before the response does.
pub open spec fn decode(data: Seq<u8>) -> Option<ServerInfo> {
    if is_complete(data) {
        Some(fields(data))
    } else {
        None
    }
}

/// A text field on the wire: the UTF-8 encoding of `text`, then a NUL.
pub open spec fn encode_text(text: Seq<char>) -> Seq<u8> {
    encode_utf8(text).push(0u8)
}

/// The bytes of a response with the given fields.
pub open spec fn encode(info: ServerInfo) -> Seq<u8> {
    seq![info.header, info.protocol] + encode_text(info.name) + encode_text(info.map)
        + encode_text(info.folder) + encode_text(info.game) + seq![
        (info.id % 256) as u8,
        (info.id / 256) as u8,
        info.players,
        info.max_players,
        info.bots,
    ]
}

/// A decoded query response.
#[derive(Debug, Clone, PartialEq, Eq)]
pub struct ServerResponse {
    pub header: u8,
    pub protocol: u8,
    pub name: String,
    pub map: String,
    pub folder: String,
    pub game: String,
    pub id: u16,
    pub players: u8,
    pub max_players: u8,
    pub bots: u8,
}

impl View for ServerResponse {
    type V = ServerInfo;

    open spec fn view(&self) -> ServerInfo {
        ServerInfo {
            header: self.header,
            protocol: self.protocol,
            name: self.name@,
            map: self.map@,
            folder: self.folder@,
            game: self.game@,
            id: self.id,
            players: self.players,
            max_players: self.max_players,
            bots: self.bots,
        }
    }
}

impl ServerResponse {
    /// Reads a NUL-terminated text field and steps past its terminator.
    ///
    /// The bytes before the terminator are decoded as UTF-8, with the
    /// replacement character in place of what is not valid. Fails where the
    /// buffer ends before a terminator is found; the reader is then at the
    /// end of the buffer.
    pub fn variable_length_string(rdr: &mut Reader) -> (r: Result<String, QueryError>)
        ensures
            final(rdr).data@ == old(rdr).data@,
            match r {
                Ok(text) => {
                    let end = text_end(old(rdr).data@, old(rdr).pos as int);
                    &&& has_text(old(rdr).data@, old(rdr).pos as int)
                    &&& text@ == text_of(old(rdr).data@.subrange(old(rdr).pos as int, end))
                    &&& final(rdr).pos == end + 1
                },
                Err(e) => {
                    &&& e == QueryError::MalformedResponse
                    &&& !has_text(old(rdr).data@, old(rdr).pos as int)
                    &&& final(rdr).pos == if old(rdr).pos <= old(rdr).data@.len() {
                        old(rdr).data@.len()
                    } else {
                        old(rdr).pos as nat
                    }
                },
            },
    {
        let ghost data = rdr.data@;
        let ghost start = rdr.pos as int;
        let mut buf: Vec<u8> = Vec::new();
        loop
            invariant
                data == old(rdr).data@,
                start == old(rdr).pos,
                rdr.data@ == data,
                start <= rdr.pos,
                start <= data.len() ==> rdr.pos <= data.len(),
                start > data.len() ==> rdr.pos == start,
                rdr.pos <= data.len() ==> buf@ == data.subrange(start, rdr.pos as int),
                forall|j: int| start <= j < rdr.pos && j < data.len() ==> data[j] != 0,
            decreases data.len() - rdr.pos,
        {
            match rdr.read_u8() {
                Ok(b) => {
                    if b != 0x00 {
                        buf.push(b);
                        assert(buf@ =~= data.subrange(start, rdr.pos as int));
                    } else {
                        assert(is_text_end(data, start, rdr.pos - 1));
                        return Ok(lossy_string(buf.as_slice()));
                    }
                },
                Err(e) => {
                    assert forall|end: int| !is_text_end(data, start, end) by {}
                    return Err(e);
                },
            }
        }
    }

    /// Encodes the response as it goes over the wire.
    pub fn to_data(&self) -> (data: Vec<u8>)
        ensures
            data@ == encode(self@),
    {
        let mut data: Vec<u8> = Vec::new();
        data.push(self.header);
        data.push(self.protocol);
        push_text(&mut data, self.name.as_str());
        push_text(&mut data, self.map.as_str());
        push_text(&mut data, self.folder.as_str());
        push_text(&mut data, self.game.as_str());
        data.push((self.id % 256) as u8);
        data.push((self.id / 256) as u8);
        data.push(self.players);
        data.push(self.max_players);
        data.push(self.bots);
        assert(data@ =~= encode(self@));
        data
    }

    /// Decodes the response at the start of `data`.
    ///
    /// Fails exactly where `data` ends before the response is complete; what
    /// follows a complete response is ignored.
    pub fn from_data(data: &[u8]) -> (r: Result<ServerResponse, QueryError>)
        ensures
            match r {
                Ok(response) => decode(data@) == Some(response@),
                Err(e) => e == QueryError::MalformedResponse && decode(data@) is None,
            },
    {
        let mut rdr = Reader::new(data);
        let header = rdr.read_u8()?;
        let protocol = rdr.read_u8()?;
        let name = ServerResponse::variable_length_string(&mut rdr)?;
        let map = ServerResponse::variable_length_string(&mut rdr)?;
        let folder = ServerResponse::variable_length_string(&mut rdr)?;
        let game = ServerResponse::variable_length_string(&mut rdr)?;
        let id = rdr.read_u16()?;
        let players = rdr.read_u8()?;
        let max_players = rdr.read_u8()?;
        let bots = rdr.read_u8()?;
        Ok(ServerResponse { header, protocol, name, map, folder, game, id, players, max_players, bots })
    }
}

} // verus!
