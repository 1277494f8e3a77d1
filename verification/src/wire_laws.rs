//! What holds of the response format: encoding and decoding are inverse on
//! texts without a NUL, a response cut short is rejected, and bytes after a
//! response do not matter.

use crate::wire::{
    decode, encode, fields, folder_end, game_end, has_text, is_complete, is_text_end, map_end,
    name_end, text_end, wire_len, ServerInfo, QUERY_REQUEST,
};
use vstd::prelude::*;
use vstd::utf8::*;

verus! {

/// No character of `text` is NUL.
pub open spec fn is_nul_free(text: Seq<char>) -> bool {
    forall|i: int| 0 <= i < text.len() ==> text[i] != '\0'
}

/// The fields can go over the wire and come back: none of the four texts
/// holds a NUL, which would end the field early.
pub open spec fn is_encodable(info: ServerInfo) -> bool {
    &&& is_nul_free(info.name)
    &&& is_nul_free(info.map)
    &&& is_nul_free(info.folder)
    &&& is_nul_free(info.game)
}

/// No byte of `raw` is zero.
pub open spec fn has_no_zero(raw: Seq<u8>) -> bool {
    forall|i: int| 0 <= i < raw.len() ==> raw[i] != 0
}

proof fn lemma_scalar_bytes_nonzero(c: u32)
    requires
        c != 0,
    ensures
        has_no_zero(encode_scalar(c)),
{
    if c <= 0x7F {
        assert((c & 0x7F) as u8 != 0) by (bit_vector)
            requires
                0 < c <= 0x7F,
        ;
    }
    assert(0xC0 | ((c >> 6) & 0x1F) as u8 != 0) by (bit_vector);
    assert(0xE0 | ((c >> 12) & 0x0F) as u8 != 0) by (bit_vector);
    assert(0xF0 | ((c >> 18) & 0x7) as u8 != 0) by (bit_vector);
    assert(0x80 | (c & 0x3F) as u8 != 0) by (bit_vector);
    assert(0x80 | ((c >> 6) & 0x3F) as u8 != 0) by (bit_vector);
    assert(0x80 | ((c >> 12) & 0x3F) as u8 != 0) by (bit_vector);
}

/// The UTF-8 encoding of a text without NUL holds no zero byte.
pub proof fn lemma_encoding_has_no_zero(text: Seq<char>)
    requires
        is_nul_free(text),
    ensures
        has_no_zero(encode_utf8(text)),
    decreases text.len(),
{
    if text.len() > 0 {
        let rest = text.drop_first();
        assert(is_nul_free(rest)) by {
            assert forall|i: int| 0 <= i < rest.len() implies rest[i] != '\0' by {
                assert(rest[i] == text[i + 1]);
            }
        }
        lemma_encoding_has_no_zero(rest);
        let first = text[0] as u32;
        assert(first != 0) by {
            if first == 0 {
                char_u32_cast(text[0], 0);
                char_u32_cast('\0', 0);
            }
        }
        lemma_scalar_bytes_nonzero(first);
    }
}

/// A text field has one end only.
pub proof fn lemma_text_end_unique(data: Seq<u8>, from: int, end: int)
    requires
        is_text_end(data, from, end),
    ensures
        has_text(data, from),
        text_end(data, from) == end,
{
    let chosen = text_end(data, from);
    assert(is_text_end(data, from, chosen));
    if chosen < end {
        assert(data[chosen] != 0);
    } else if end < chosen {
        assert(data[end] != 0);
    }
}

/// Where `data` holds the bytes `raw`, free of zeros, from `from` on and a
/// NUL after them, the text field at `from` ends at that NUL.
proof fn lemma_field_at(data: Seq<u8>, from: int, raw: Seq<u8>)
    requires
        0 <= from,
        from + raw.len() < data.len(),
        data.subrange(from, from + raw.len()) == raw,
        data[from + raw.len()] == 0,
        has_no_zero(raw),
    ensures
        has_text(data, from),
        text_end(data, from) == from + raw.len(),
{
    let end = from + raw.len();
    assert forall|j: int| from <= j < end implies data[j] != 0 by {
        assert(data[j] == data.subrange(from, end)[j - from]);
    }
    lemma_text_end_unique(data, from, end);
}

/// Decoding undoes encoding: whatever fields are encoded, as long as no text
/// among them holds a NUL, decoding the bytes gives the same fields back.
pub proof fn lemma_decode_encode(info: ServerInfo)
    requires
        is_encodable(info),
    ensures
        decode(encode(info)) == Some(info),
        wire_len(encode(info)) == encode(info).len(),
{
    broadcast use encode_utf8_valid_utf8, encode_utf8_decode_utf8;

    let data = encode(info);
    let name = encode_utf8(info.name);
    let map = encode_utf8(info.map);
    let folder = encode_utf8(info.folder);
    let game = encode_utf8(info.game);
    lemma_encoding_has_no_zero(info.name);
    lemma_encoding_has_no_zero(info.map);
    lemma_encoding_has_no_zero(info.folder);
    lemma_encoding_has_no_zero(info.game);
    let e1: int = name.len() as int + 2;
    let e2: int = e1 + 1 + map.len();
    let e3: int = e2 + 1 + folder.len();
    let e4: int = e3 + 1 + game.len();
    assert(data.len() == e4 + 6);
    assert(data.subrange(2, e1) =~= name);
    assert(data.subrange(e1 + 1, e2) =~= map);
    assert(data.subrange(e2 + 1, e3) =~= folder);
    assert(data.subrange(e3 + 1, e4) =~= game);
    lemma_field_at(data, 2, name);
    lemma_field_at(data, e1 + 1, map);
    lemma_field_at(data, e2 + 1, folder);
    lemma_field_at(data, e3 + 1, game);
    assert(is_complete(data));
    let got = fields(data);
    assert(got.id == info.id);
    assert(got.name =~= info.name);
    assert(got.map =~= info.map);
    assert(got.folder =~= info.folder);
    assert(got.game =~= info.game);
    assert(got == info);
}

/// The text field at `from` ends in a prefix of the buffer where it ends in
/// the whole buffer.
proof fn lemma_text_end_in_prefix(data: Seq<u8>, k: int, from: int)
    requires
        0 <= k <= data.len(),
        has_text(data.take(k), from),
    ensures
        has_text(data, from),
        text_end(data, from) == text_end(data.take(k), from),
{
    let end = text_end(data.take(k), from);
    assert(is_text_end(data.take(k), from, end));
    assert forall|j: int| from <= j < end implies data[j] != 0 by {
        assert(data.take(k)[j] == data[j]);
    }
    assert(data.take(k)[end] == data[end]);
    lemma_text_end_unique(data, from, end);
}

/// A complete prefix of a buffer holds the response that the buffer holds.
proof fn lemma_complete_prefix(data: Seq<u8>, k: int)
    requires
        0 <= k <= data.len(),
        is_complete(data.take(k)),
    ensures
        is_complete(data),
        wire_len(data) == wire_len(data.take(k)),
        fields(data) == fields(data.take(k)),
{
    let cut = data.take(k);
    lemma_text_end_in_prefix(data, k, 2);
    lemma_text_end_in_prefix(data, k, name_end(cut) + 1);
    lemma_text_end_in_prefix(data, k, map_end(cut) + 1);
    lemma_text_end_in_prefix(data, k, folder_end(cut) + 1);
    assert(data.subrange(2, name_end(data)) =~= cut.subrange(2, name_end(cut)));
    assert(data.subrange(name_end(data) + 1, map_end(data)) =~= cut.subrange(
        name_end(cut) + 1,
        map_end(cut),
    ));
    assert(data.subrange(map_end(data) + 1, folder_end(data)) =~= cut.subrange(
        map_end(cut) + 1,
        folder_end(cut),
    ));
    assert(data.subrange(folder_end(data) + 1, game_end(data)) =~= cut.subrange(
        folder_end(cut) + 1,
        game_end(cut),
    ));
}

/// A response cut short is rejected: no proper prefix of the bytes that a
/// complete response takes up decodes, the empty buffer included.
pub proof fn lemma_truncated_is_rejected(data: Seq<u8>, k: int)
    requires
        is_complete(data),
        0 <= k < wire_len(data),
    ensures
        decode(data.take(k)) is None,
{
    if is_complete(data.take(k)) {
        lemma_complete_prefix(data, k);
    }
}

/// A buffer too short for any response is rejected; the shortest response
/// takes eleven bytes.
pub proof fn lemma_short_is_rejected(data: Seq<u8>)
    requires
        data.len() < 11,
    ensures
        decode(data) is None,
{
    if is_complete(data) {
        assert(is_text_end(data, 2, name_end(data)));
        assert(is_text_end(data, name_end(data) + 1, map_end(data)));
        assert(is_text_end(data, map_end(data) + 1, folder_end(data)));
        assert(is_text_end(data, folder_end(data) + 1, game_end(data)));
    }
}

/// Bytes after a complete response are ignored.
pub proof fn lemma_trailing_is_ignored(data: Seq<u8>, extra: Seq<u8>)
    requires
        is_complete(data),
    ensures
        decode(data + extra) == decode(data),
{
    assert((data + extra).take(data.len() as int) =~= data);
    lemma_complete_prefix(data + extra, data.len() as int);
}

/// The query datagram is four bytes 0xFF, then `TSource Engine Query` in
/// ASCII, then a NUL.
pub proof fn lemma_query_request_spells_text()
    ensures
        QUERY_REQUEST@ == seq![0xffu8, 0xff, 0xff, 0xff] + encode_utf8("TSource Engine Query"@)
            + seq![0u8],
{
    let text = "TSource Engine Query"@;
    reveal_strlit("TSource Engine Query");
    assert(is_ascii_chars(text));
    is_ascii_chars_encode_utf8(text);
    let spelled = seq![0xffu8, 0xff, 0xff, 0xff] + encode_utf8(text) + seq![0u8];
    assert(QUERY_REQUEST@.len() == 25);
    assert forall|i: int| 0 <= i < 25 implies QUERY_REQUEST@[i] == spelled[i] by {
        if 4 <= i < 24 {
            assert(spelled[i] == encode_utf8(text)[i - 4]);
            assert(encode_utf8(text)[i - 4] == text[i - 4] as u8);
        }
    }
    assert(QUERY_REQUEST@ =~= spelled);
}

} // verus!
