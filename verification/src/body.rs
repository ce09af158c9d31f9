//! Resolved body payloads: classification of raw bytes as UTF-8 text or
//! binary, with base64 encoding of binary content behind a data URL.

use crate::strbytes::{all_ascii, bytes_to_string_checked, lemma_ascii_valid, lit};
use vstd::prelude::*;
use vstd::slice::slice_to_vec;
use vstd::utf8::{decode_utf8, encode_utf8, valid_utf8};

verus! {

/// The base64 alphabet byte for a 6-bit value.
pub open spec fn b64_char(n: int) -> u8 {
    if n < 26 {
        (0x41 + n) as u8
    } else if n < 52 {
        (0x61 + (n - 26)) as u8
    } else if n < 62 {
        (0x30 + (n - 52)) as u8
    } else if n == 62 {
        0x2b
    } else {
        0x2f
    }
}

/// Standard base64 with `=` padding, four output bytes per three input bytes.
pub open spec fn spec_base64(s: Seq<u8>) -> Seq<u8>
    decreases s.len(),
{
    if s.len() == 0 {
        Seq::empty()
    } else if s.len() == 1 {
        let b0 = s[0] as int;
        seq![b64_char(b0 / 4), b64_char((b0 % 4) * 16), 0x3du8, 0x3du8]
    } else if s.len() == 2 {
        let b0 = s[0] as int;
        let b1 = s[1] as int;
        seq![
            b64_char(b0 / 4),
            b64_char((b0 % 4) * 16 + b1 / 16),
            b64_char((b1 % 16) * 4),
            0x3du8,
        ]
    } else {
        let b0 = s[0] as int;
        let b1 = s[1] as int;
        let b2 = s[2] as int;
        seq![
            b64_char(b0 / 4),
            b64_char((b0 % 4) * 16 + b1 / 16),
            b64_char((b1 % 16) * 4 + b2 / 64),
            b64_char(b2 % 64),
        ] + spec_base64(s.skip(3))
    }
}

proof fn lemma_b64_ascii(s: Seq<u8>)
    ensures
        all_ascii(spec_base64(s)),
    decreases s.len(),
{
    if s.len() >= 3 {
        lemma_b64_ascii(s.skip(3));
    }
}

fn b64_byte(n: u8) -> (r: u8)
    requires
        n < 64,
    ensures
        r == b64_char(n as int),
{
    if n < 26 {
        0x41 + n
    } else if n < 52 {
        0x61 + (n - 26)
    } else if n < 62 {
        0x30 + (n - 52)
    } else if n == 62 {
        0x2b
    } else {
        0x2f
    }
}

/// Base64 encoding of raw bytes.
pub fn base64_encode(data: &[u8]) -> (r: Vec<u8>)
    ensures
        r@ == spec_base64(data@),
        valid_utf8(r@),
{
    let mut out: Vec<u8> = Vec::new();
    let mut i: usize = 0;
    assert(data@.skip(0) =~= data@);
    assert(out@ + spec_base64(data@) =~= spec_base64(data@));
    while i < data.len()
        invariant
            0 <= i <= data@.len(),
            spec_base64(data@) == out@ + spec_base64(data@.skip(i as int)),
        decreases data@.len() - i,
    {
        let ghost rem = data@.skip(i as int);
        assert(rem.len() == data@.len() - i);
        assert(rem.len() > 0 ==> rem[0] == data@[i as int]);
        let n: usize = data.len() - i;
        let b0 = data[i];
        if n == 1 {
            out.push(b64_byte(b0 / 4));
            out.push(b64_byte((b0 % 4) * 16));
            out.push(0x3d);
            out.push(0x3d);
            i += 1;
            proof {
                assert(data@.skip(i as int).len() == 0);
                assert(spec_base64(data@.skip(i as int)) =~= Seq::<u8>::empty());
                assert(spec_base64(data@) =~= out@ + spec_base64(data@.skip(i as int)));
            }
        } else if n == 2 {
            let b1 = data[i + 1];
            assert(rem[1] == data@[i + 1]);
            out.push(b64_byte(b0 / 4));
            out.push(b64_byte((b0 % 4) * 16 + b1 / 16));
            out.push(b64_byte((b1 % 16) * 4));
            out.push(0x3d);
            i += 2;
            proof {
                assert(data@.skip(i as int).len() == 0);
                assert(spec_base64(data@.skip(i as int)) =~= Seq::<u8>::empty());
                assert(spec_base64(data@) =~= out@ + spec_base64(data@.skip(i as int)));
            }
        } else {
            let b1 = data[i + 1];
            let b2 = data[i + 2];
            assert(rem[1] == data@[i + 1] && rem[2] == data@[i + 2]);
            out.push(b64_byte(b0 / 4));
            out.push(b64_byte((b0 % 4) * 16 + b1 / 16));
            out.push(b64_byte((b1 % 16) * 4 + b2 / 64));
            out.push(b64_byte(b2 % 64));
            proof {
                assert(rem.skip(3) =~= data@.skip(i + 3));
            }
            i += 3;
            assert(spec_base64(data@) =~= out@ + spec_base64(data@.skip(i as int)));
        }
    }
    proof {
        assert(data@.skip(i as int).len() == 0);
        assert(spec_base64(data@.skip(i as int)) =~= Seq::<u8>::empty());
        assert(out@ =~= spec_base64(data@));
        lemma_b64_ascii(data@);
        lemma_ascii_valid(out@);
    }
    out
}

/// The inline form of a binary body: a data URL around its base64 encoding.
pub open spec fn spec_data_url(b64: Seq<u8>) -> Seq<u8> {
    lit("data:application/octet-stream;base64,") + b64
}

/// A resolved body payload: an encoding tag (`utf8`, `base64` or `path`),
/// the rendered value, and the payload size in bytes.
#[derive(Debug, Clone)]
pub struct Body {
    pub encode: String,
    pub value: String,
    pub size: u64,
}

/// The mathematical content of a resolved body.
pub ghost struct BodyView {
    pub encode: Seq<char>,
    pub value: Seq<char>,
    pub size: u64,
}

impl View for Body {
    type V = BodyView;

    open spec fn view(&self) -> BodyView {
        BodyView { encode: self.encode@, value: self.value@, size: self.size }
    }
}

/// What resolving a body yields, as a function of the path reference, the
/// raw content read from disk, and the binary-as-base64 mode.
pub open spec fn spec_read(path: Option<Seq<char>>, data: Option<Seq<u8>>, b64: bool) -> Option<
    BodyView,
> {
    if path is None || data is None || data->Some_0.len() == 0 {
        Option::None
    } else {
        let d = data->Some_0;
        if valid_utf8(d) {
            Option::Some(
                BodyView { encode: "utf8"@, value: decode_utf8(d), size: d.len() as u64 },
            )
        } else if b64 {
            Option::Some(
                BodyView {
                    encode: "base64"@,
                    value: decode_utf8(spec_data_url(spec_base64(d))),
                    size: d.len() as u64,
                },
            )
        } else {
            Option::Some(BodyView { encode: "path"@, value: path->Some_0, size: 0 })
        }
    }
}

/// The view of an optional resolved body.
pub open spec fn opt_body_view(o: Option<Body>) -> Option<BodyView> {
    match o {
        Option::None => Option::None,
        Option::Some(b) => Option::Some(b@),
    }
}

/// The view of an optional path reference.
pub open spec fn opt_path_view(o: Option<String>) -> Option<Seq<char>> {
    match o {
        Option::None => Option::None,
        Option::Some(s) => Option::Some(s@),
    }
}

/// The view of optional raw content.
pub open spec fn opt_data_view(o: Option<Vec<u8>>) -> Option<Seq<u8>> {
    match o {
        Option::None => Option::None,
        Option::Some(v) => Option::Some(v@),
    }
}

impl Body {
    /// Classifies raw bytes: valid UTF-8 becomes a text body, anything else
    /// a base64 body carrying a data URL.
    pub fn bytes(data: &[u8]) -> (r: Body)
        ensures
            r.size == data@.len(),
            valid_utf8(data@) ==> r.encode@ == "utf8"@ && r.value@ == decode_utf8(data@),
            !valid_utf8(data@) ==> r.encode@ == "base64"@ && encode_utf8(r.value@)
                == spec_data_url(spec_base64(data@)),
    {
        let owned = slice_to_vec(data);
        match bytes_to_string_checked(owned) {
            Some(text) => Body {
                encode: "utf8".to_owned(),
                value: text,
                size: data.len() as u64,
            },
            None => {
                let mut url: Vec<u8> = Vec::new();
                crate::strbytes::push_str_bytes(&mut url, "data:application/octet-stream;base64,");
                let b64 = base64_encode(data);
                let ghost before = url@;
                url.extend_from_slice(b64.as_slice());
                proof {
                    assert(url@ =~= before + b64@);
                    vstd::utf8::valid_utf8_concat(before, b64@);
                }
                let value = crate::strbytes::bytes_into_string(url);
                Body { encode: "base64".to_owned(), value, size: data.len() as u64 }
            },
        }
    }

    /// A text body holding the given UTF-8 text.
    pub fn text(text: &str) -> (r: Body)
        ensures
            r.encode@ == "utf8"@,
            r.value@ == text@,
            r.size == encode_utf8(text@).len(),
    {
        let size: usize = text.as_bytes().len();
        Body { encode: "utf8".to_owned(), value: text.to_owned(), size: size as u64 }
    }

    /// A reference-only body carrying the raw file path of binary content.
    pub fn path(path: &str) -> (r: Body)
        ensures
            r.encode@ == "path"@,
            r.value@ == path@,
            r.size == 0,
    {
        Body { encode: "path".to_owned(), value: path.to_owned(), size: 0 }
    }

    /// Whether this body holds inline UTF-8 text.
    pub fn is_utf8(&self) -> (r: bool)
        ensures
            r == (self.encode@ == "utf8"@),
    {
        let r = crate::strbytes::eq_bytes(self.encode.as_str().as_bytes(), "utf8".as_bytes());
        proof {
            if encode_utf8(self.encode@) == lit("utf8") {
                crate::strbytes::lemma_encode_injective(self.encode@, "utf8"@);
            }
        }
        r
    }

    /// Resolves a body from its path reference and the raw content that was
    /// read (and, for a compressed file, already decompressed): no path, no
    /// content or empty content yields no body; otherwise the content is
    /// classified, with undecodable content kept as a path reference when
    /// inline base64 was not requested.
    pub fn read(path: &Option<String>, data: &Option<Vec<u8>>, binary_in_base64: bool) -> (r:
        Option<Body>)
        ensures
            r is Some <==> spec_read(
                opt_path_view(*path),
                opt_data_view(*data),
                binary_in_base64,
            ) is Some,
            r matches Some(b) ==> spec_read(
                opt_path_view(*path),
                opt_data_view(*data),
                binary_in_base64,
            ) == Some(b@),
    {
        if path.is_none() || data.is_none() {
            return Option::None;
        }
        let p: &String = path.as_ref().unwrap();
        let d: &Vec<u8> = data.as_ref().unwrap();
        if d.len() == 0 {
            return Option::None;
        }
        if binary_in_base64 {
            let b = Self::bytes(d.as_slice());
            proof {
                if !valid_utf8(d@) {
                    vstd::utf8::encode_utf8_decode_utf8(b.value@);
                }
            }
            Option::Some(b)
        } else {
            let owned = slice_to_vec(d.as_slice());
            match bytes_to_string_checked(owned) {
                Some(text) => Option::Some(
                    Body {
                        encode: "utf8".to_owned(),
                        value: text,
                        size: d.len() as u64,
                    },
                ),
                None => Option::Some(Self::path(p.as_str())),
            }
        }
    }
}

} // verus!
