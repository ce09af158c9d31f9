//! JSON string rendering: quoting and escaping per the JSON grammar.

use crate::strbytes::{all_ascii, lemma_ascii_prefix_valid, lemma_ascii_valid, push_ascii,
    spec_hex_digit};
use vstd::prelude::*;
use vstd::utf8::{
    decode_first_codepoint, encode_utf8, is_leading_byte_width_1, length_of_first_codepoint,
    length_of_first_scalar, pop_first_scalar, valid_first_scalar,
    valid_leading_and_continuation_bytes_first_codepoint, valid_utf8, valid_utf8_concat,
};

verus! {

/// How one byte renders inside a JSON string: quote and backslash escaped,
/// control bytes as `\b \f \n \r \t` or `\u00XX`, everything else as itself.
pub open spec fn spec_escape_byte(b: u8) -> Seq<u8> {
    if b == 0x22 {
        seq![0x5cu8, 0x22u8]
    } else if b == 0x5c {
        seq![0x5cu8, 0x5cu8]
    } else if b == 0x08 {
        seq![0x5cu8, 0x62u8]
    } else if b == 0x0c {
        seq![0x5cu8, 0x66u8]
    } else if b == 0x0a {
        seq![0x5cu8, 0x6eu8]
    } else if b == 0x0d {
        seq![0x5cu8, 0x72u8]
    } else if b == 0x09 {
        seq![0x5cu8, 0x74u8]
    } else if b < 0x20 {
        seq![0x5cu8, 0x75u8, 0x30u8, 0x30u8, spec_hex_digit(b / 16), spec_hex_digit(b % 16)]
    } else {
        seq![b]
    }
}

/// A byte buffer escaped for a JSON string body.
pub open spec fn spec_escape(s: Seq<u8>) -> Seq<u8>
    decreases s.len(),
{
    if s.len() == 0 {
        Seq::empty()
    } else {
        spec_escape_byte(s[0]) + spec_escape(s.drop_first())
    }
}

/// A JSON string token: quotes around the escaped UTF-8 bytes.
pub open spec fn spec_json_str(s: Seq<char>) -> Seq<u8> {
    seq![0x22u8] + spec_escape(encode_utf8(s)) + seq![0x22u8]
}

proof fn lemma_escape_skip_mb(s: Seq<u8>, m: int, l: int)
    requires
        0 <= m <= l <= s.len(),
        forall|t: int| m <= t < l ==> s[t] >= 0x80,
    ensures
        spec_escape(s.skip(m)) == s.subrange(m, l) + spec_escape(s.skip(l)),
    decreases l - m,
{
    if m == l {
        assert(s.subrange(m, l) =~= Seq::<u8>::empty());
        assert(s.subrange(m, l) + spec_escape(s.skip(l)) =~= spec_escape(s.skip(m)));
    } else {
        let sm = s.skip(m);
        assert(sm[0] == s[m]);
        assert(spec_escape_byte(sm[0]) == seq![s[m]]);
        assert(sm.drop_first() =~= s.skip(m + 1));
        lemma_escape_skip_mb(s, m + 1, l);
        assert(seq![s[m]] + (s.subrange(m + 1, l) + spec_escape(s.skip(l), )) =~= s.subrange(
            m,
            l,
        ) + spec_escape(s.skip(l)));
    }
}

/// Escaping keeps a valid UTF-8 buffer valid.
pub proof fn lemma_escape_valid(s: Seq<u8>)
    requires
        valid_utf8(s),
    ensures
        valid_utf8(spec_escape(s)),
    decreases s.len(),
{
    if s.len() == 0 {
    } else if s[0] < 0x80 {
        assert(all_ascii(s.take(1)));
        lemma_ascii_prefix_valid(s, 1);
        assert(s.skip(1) =~= s.drop_first());
        lemma_escape_valid(s.drop_first());
        assert(all_ascii(spec_escape_byte(s[0])));
        lemma_ascii_valid(spec_escape_byte(s[0]));
        valid_utf8_concat(spec_escape_byte(s[0]), spec_escape(s.drop_first()));
    } else {
        let l = length_of_first_scalar(s);
        assert(valid_first_scalar(s));
        assert(1 <= l <= 4 && l <= s.len());
        assert(forall|t: int| 0 <= t < l ==> s[t] >= 0x80);
        assert(s.skip(0) =~= s);
        lemma_escape_skip_mb(s, 0, l);
        assert(pop_first_scalar(s) =~= s.skip(l));
        lemma_escape_valid(s.skip(l));
        let head = s.subrange(0, l);
        assert(valid_utf8(head)) by {
            assert(forall|t: int| 0 <= t < l ==> head[t] == s[t]);
            assert(head.len() == l);
            assert(valid_leading_and_continuation_bytes_first_codepoint(head));
            assert(decode_first_codepoint(head) == decode_first_codepoint(s));
            assert(length_of_first_codepoint(head) == l);
            assert(valid_first_scalar(head));
            assert(pop_first_scalar(head) =~= Seq::<u8>::empty());
            assert(valid_utf8(Seq::<u8>::empty()));
            assert(valid_utf8(pop_first_scalar(head)));
        }
        valid_utf8_concat(head, spec_escape(s.skip(l)));
    }
}

/// Appends the escaped bytes of `s` (no surrounding quotes).
pub fn push_json_escaped(out: &mut Vec<u8>, s: &str)
    requires
        valid_utf8(old(out)@),
    ensures
        final(out)@ == old(out)@ + spec_escape(encode_utf8(s@)),
        valid_utf8(final(out)@),
{
    proof {
        vstd::utf8::encode_utf8_valid_utf8(s@);
    }
    push_json_escaped_bytes(out, s.as_bytes());
}

/// Appends the escaped form of a valid UTF-8 byte buffer.
pub fn push_json_escaped_bytes(out: &mut Vec<u8>, b: &[u8])
    requires
        valid_utf8(old(out)@),
        valid_utf8(b@),
    ensures
        final(out)@ == old(out)@ + spec_escape(b@),
        valid_utf8(final(out)@),
{
    let ghost bs = b@;
    let mut i: usize = 0;
    assert(bs.skip(0) =~= bs);
    assert(old(out)@ + spec_escape(bs) =~= old(out)@ + spec_escape(bs));
    while i < b.len()
        invariant
            0 <= i <= bs.len(),
            b@ == bs,
            old(out)@ + spec_escape(bs) == out@ + spec_escape(bs.skip(i as int)),
        decreases bs.len() - i,
    {
        let ghost rem = bs.skip(i as int);
        assert(rem[0] == bs[i as int]);
        assert(rem.drop_first() =~= bs.skip(i + 1));
        let c = b[i];
        if c == 0x22 {
            out.push(0x5c);
            out.push(0x22);
        } else if c == 0x5c {
            out.push(0x5c);
            out.push(0x5c);
        } else if c == 0x08 {
            out.push(0x5c);
            out.push(0x62);
        } else if c == 0x0c {
            out.push(0x5c);
            out.push(0x66);
        } else if c == 0x0a {
            out.push(0x5c);
            out.push(0x6e);
        } else if c == 0x0d {
            out.push(0x5c);
            out.push(0x72);
        } else if c == 0x09 {
            out.push(0x5c);
            out.push(0x74);
        } else if c < 0x20 {
            out.push(0x5c);
            out.push(0x75);
            out.push(0x30);
            out.push(0x30);
            out.push(if c / 16 < 10 {
                0x30 + c / 16
            } else {
                0x57 + c / 16
            });
            out.push(if c % 16 < 10 {
                0x30 + c % 16
            } else {
                0x57 + c % 16
            });
        } else {
            out.push(c);
        }
        i += 1;
        assert(out@ + spec_escape(bs.skip(i as int)) =~= old(out)@ + spec_escape(bs));
    }
    proof {
        assert(bs.skip(i as int).len() == 0);
        assert(spec_escape(bs.skip(i as int)) =~= Seq::<u8>::empty());
        assert(out@ =~= old(out)@ + spec_escape(bs));
        lemma_escape_valid(bs);
        valid_utf8_concat(old(out)@, spec_escape(bs));
    }
}

/// Appends `s` as a JSON string token.
pub fn push_json_str(out: &mut Vec<u8>, s: &str)
    requires
        valid_utf8(old(out)@),
    ensures
        final(out)@ == old(out)@ + spec_json_str(s@),
        valid_utf8(final(out)@),
{
    push_ascii(out, 0x22);
    push_json_escaped(out, s);
    push_ascii(out, 0x22);
    assert(final(out)@ =~= old(out)@ + spec_json_str(s@));
}

} // verus!
