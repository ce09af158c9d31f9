//! Byte-level hex view: fixed 16-byte rows with offset, hex digits and a
//! printable-ASCII character column.

use crate::strbytes::{
    all_ascii, bytes_into_string, lemma_ascii_decode, lemma_hex_ascii, lit, push_hex_pad,
    push_str_bytes, spec_hex_pad, spec_join,
};
use vstd::prelude::*;
use vstd::utf8::encode_utf8;

verus! {

/// What a byte shows in the character column: itself when printable ASCII,
/// a space otherwise.
pub open spec fn spec_view_byte(b: u8) -> u8 {
    if 0x20 <= b <= 0x7e {
        b
    } else {
        0x20
    }
}

/// The character column for a row of bytes.
pub open spec fn spec_char_view(s: Seq<u8>) -> Seq<char> {
    Seq::new(s.len(), |i: int| spec_view_byte(s[i]) as char)
}

/// Each printable ASCII byte shows as itself; every other byte as a space.
pub proof fn lemma_char_view(s: Seq<u8>, i: int)
    requires
        0 <= i < s.len(),
    ensures
        spec_char_view(s).len() == s.len(),
        0x20 <= s[i] <= 0x7e ==> spec_char_view(s)[i] == s[i] as char,
        !(0x20 <= s[i] <= 0x7e) ==> spec_char_view(s)[i] == ' ',
{
    assert(0x20u8 as char == ' ');
}

/// One 16-byte row of the hex view.
#[derive(Debug, Clone)]
pub struct BodyHex {
    pub offset_address: u64,
    pub hex: Vec<u8>,
    pub character_view: String,
}

impl BodyHex {
    /// The character column is derived from the row's bytes.
    pub open spec fn wf(self) -> bool {
        self.character_view@ == spec_char_view(self.hex@)
    }

    /// Builds a row, deriving the character column from the bytes.
    pub fn new(offset_address: u64, hex: Vec<u8>) -> (r: BodyHex)
        ensures
            r.offset_address == offset_address,
            r.hex@ == hex@,
            r.wf(),
    {
        let mut view: Vec<u8> = Vec::new();
        let mut i: usize = 0;
        while i < hex.len()
            invariant
                0 <= i <= hex@.len(),
                view@.len() == i,
                forall|j: int| 0 <= j < i ==> view@[j] == spec_view_byte(hex@[j]),
            decreases hex@.len() - i,
        {
            let b = hex[i];
            view.push(if 0x20 <= b && b <= 0x7e {
                b
            } else {
                0x20
            });
            i += 1;
        }
        proof {
            assert(all_ascii(view@));
            lemma_ascii_decode(view@);
        }
        let ghost viewb = view@;
        let character_view = bytes_into_string(view);
        assert(character_view@ =~= spec_char_view(hex@));
        BodyHex { offset_address, hex, character_view }
    }

    /// The row offset as 8 zero-padded lowercase hex digits.
    pub fn format_offset(&self) -> (r: String)
        ensures
            encode_utf8(r@) == spec_hex_pad(self.offset_address as nat, 8),
    {
        let mut out: Vec<u8> = Vec::new();
        push_hex_pad(&mut out, self.offset_address, 8);
        proof {
            lemma_hex_ascii(self.offset_address as nat, 8);
            assert(out@ =~= spec_hex_pad(self.offset_address as nat, 8));
            lemma_ascii_decode(out@);
        }
        bytes_into_string(out)
    }

    /// Two lowercase hex digits per byte, space-separated.
    pub fn format_hex(&self) -> (r: String)
        ensures
            encode_utf8(r@) == spec_hex_row(self.hex@),
    {
        let mut out: Vec<u8> = Vec::new();
        let ghost items = self.hex@.map_values(|b: u8| spec_hex_pad(b as nat, 2));
        let mut i: usize = 0;
        assert(out@ =~= spec_join(items.take(0), lit(" ")));
        while i < self.hex.len()
            invariant
                0 <= i <= self.hex@.len(),
                items == self.hex@.map_values(|b: u8| spec_hex_pad(b as nat, 2)),
                out@ == spec_join(items.take(i as int), lit(" ")),
                vstd::utf8::valid_utf8(out@),
            decreases self.hex@.len() - i,
        {
            if i > 0 {
                push_str_bytes(&mut out, " ");
            }
            let b = self.hex[i];
            push_hex_pad(&mut out, b as u64, 2);
            proof {
                assert(items.take(i + 1).drop_last() =~= items.take(i as int));
                assert(items.take(i + 1).last() == spec_hex_pad(b as nat, 2));
                if i == 0 {
                    assert(out@ =~= spec_join(items.take(1), lit(" ")));
                } else {
                    assert(out@ =~= spec_join(items.take(i + 1), lit(" ")));
                }
            }
            i += 1;
        }
        proof {
            assert(items.take(self.hex@.len() as int) =~= items);
        }
        bytes_into_string(out)
    }
}

/// The space-separated hex digit pairs for a row of bytes.
pub open spec fn spec_hex_row(s: Seq<u8>) -> Seq<u8> {
    spec_join(s.map_values(|b: u8| spec_hex_pad(b as nat, 2)), lit(" "))
}

/// Partitions bytes into 16-byte rows with offsets 0, 16, 32, ….
///
/// A non-empty input yields ⌈n/16⌉ rows; row `i` starts at offset `16·i` and
/// holds 16 bytes, except the last row, which holds the remainder; the
/// character column of each row is as long as the row.
pub fn bytes_to_hex_structs(bytes: &[u8]) -> (r: Vec<BodyHex>)
    ensures
        r@.len() == (bytes@.len() + 15) / 16,
        forall|i: int|
            0 <= i < r@.len() ==> {
                &&& (#[trigger] r@[i]).offset_address == 16 * i
                &&& r@[i].hex@ == bytes@.subrange(
                    16 * i,
                    if 16 * i + 16 <= bytes@.len() {
                        16 * i + 16
                    } else {
                        bytes@.len() as int
                    },
                )
                &&& r@[i].wf()
                &&& r@[i].character_view@.len() == r@[i].hex@.len()
            },
{
    let mut r: Vec<BodyHex> = Vec::new();
    let mut start: usize = 0;
    while start < bytes.len()
        invariant
            0 <= start <= bytes@.len(),
            start < bytes@.len() ==> start == 16 * r@.len(),
            start == bytes@.len() ==> r@.len() == (bytes@.len() + 15) / 16,
            forall|i: int|
                0 <= i < r@.len() ==> {
                    &&& (#[trigger] r@[i]).offset_address == 16 * i
                    &&& r@[i].hex@ == bytes@.subrange(
                        16 * i,
                        if 16 * i + 16 <= bytes@.len() {
                            16 * i + 16
                        } else {
                            bytes@.len() as int
                        },
                    )
                    &&& r@[i].wf()
                },
        decreases bytes@.len() - start,
    {
        let end: usize = if bytes.len() - start >= 16 {
            start + 16
        } else {
            bytes.len()
        };
        let chunk = vstd::slice::slice_to_vec(vstd::slice::slice_subrange(bytes, start, end));
        let row = BodyHex::new(start as u64, chunk);
        r.push(row);
        start = end;
    }
    assert(r@.len() == (bytes@.len() + 15) / 16);
    r
}

/// Hex view of a string's UTF-8 bytes.
pub fn string_to_body_hex(s: &str) -> (r: Vec<BodyHex>)
    ensures
        r@.len() == (encode_utf8(s@).len() + 15) / 16,
        forall|i: int|
            0 <= i < r@.len() ==> {
                &&& (#[trigger] r@[i]).offset_address == 16 * i
                &&& r@[i].hex@ == encode_utf8(s@).subrange(
                    16 * i,
                    if 16 * i + 16 <= encode_utf8(s@).len() {
                        16 * i + 16
                    } else {
                        encode_utf8(s@).len() as int
                    },
                )
                &&& r@[i].wf()
            },
{
    bytes_to_hex_structs(s.as_bytes())
}

} // verus!
