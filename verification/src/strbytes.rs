//! Byte-level helpers for building textual output.
//!
//! All rendering in this crate works over UTF-8 byte buffers; a finished
//! buffer is converted to a `String` once, at the public boundary. Rendering
//! specifications are stated over `Seq<u8>`, with `lit` giving the UTF-8
//! bytes of a string literal.

use vstd::prelude::*;
use vstd::slice::{slice_subrange, slice_to_vec};
use vstd::utf8::*;

verus! {

/// The UTF-8 bytes of a string slice (used for literal fragments in specs).
pub open spec fn lit(s: &str) -> Seq<u8> {
    encode_utf8(s@)
}

/// Every byte is an ASCII byte.
pub open spec fn all_ascii(s: Seq<u8>) -> bool {
    forall|i: int| 0 <= i < s.len() ==> s[i] < 0x80
}

/// An ASCII byte sequence is valid UTF-8 and decodes byte-for-byte to chars.
pub proof fn lemma_ascii_decode(s: Seq<u8>)
    requires
        all_ascii(s),
    ensures
        valid_utf8(s),
        decode_utf8(s) == Seq::new(s.len(), |i: int| s[i] as char),
    decreases s.len(),
{
    if s.len() == 0 {
        assert(decode_utf8(s) =~= Seq::new(s.len(), |i: int| s[i] as char));
    } else {
        let b = s[0];
        assert(b & 0x7f == b) by (bit_vector)
            requires
                b < 0x80,
        ;
        assert(valid_first_scalar(s));
        assert(length_of_first_scalar(s) == 1);
        assert(pop_first_scalar(s) =~= s.drop_first());
        lemma_ascii_decode(s.drop_first());
        assert(decode_first_scalar(s) == b as u32);
        assert((b as u32) as char == b as char);
        assert(decode_utf8(s) =~= Seq::new(s.len(), |i: int| s[i] as char));
    }
}

/// Relies on `String::from_utf8` of std: it succeeds exactly on valid UTF-8
/// input and returns the string holding those bytes.
#[verifier::external_body]
fn string_from_utf8(v: Vec<u8>) -> (r: Option<String>)
    ensures
        r is Some <==> valid_utf8(v@),
        r matches Some(s) ==> s@ == decode_utf8(v@),
{
    String::from_utf8(v).ok()
}

/// Turns a buffer known to hold valid UTF-8 into the string of those bytes.
pub fn bytes_into_string(v: Vec<u8>) -> (r: String)
    requires
        valid_utf8(v@),
    ensures
        r@ == decode_utf8(v@),
        encode_utf8(r@) == v@,
{
    let ghost bytes = v@;
    match string_from_utf8(v) {
        Some(s) => {
            proof {
                decode_utf8_encode_utf8(bytes);
            }
            s
        },
        None => vstd::pervasive::unreached(),
    }
}

/// The bytes of a string literal are valid UTF-8.
pub proof fn lemma_lit_valid(s: &str)
    ensures
        valid_utf8(lit(s)),
{
    encode_utf8_valid_utf8(s@);
}

/// An ASCII byte sequence is valid UTF-8.
pub proof fn lemma_ascii_valid(s: Seq<u8>)
    requires
        all_ascii(s),
    ensures
        valid_utf8(s),
{
    lemma_ascii_decode(s);
}

/// Turns a buffer into the string of those bytes when they are valid UTF-8.
pub fn bytes_to_string_checked(v: Vec<u8>) -> (r: Option<String>)
    ensures
        r is Some <==> valid_utf8(v@),
        r matches Some(s) ==> s@ == decode_utf8(v@) && encode_utf8(s@) == v@,
{
    let ghost bytes = v@;
    match string_from_utf8(v) {
        Some(s) => {
            proof {
                decode_utf8_encode_utf8(bytes);
            }
            Some(s)
        },
        None => None,
    }
}

/// UTF-8 encoding is injective on character sequences.
pub proof fn lemma_encode_injective(a: Seq<char>, b: Seq<char>)
    requires
        encode_utf8(a) == encode_utf8(b),
    ensures
        a == b,
{
    encode_utf8_decode_utf8(a);
    encode_utf8_decode_utf8(b);
}

/// Appends the UTF-8 bytes of `s` to `out`.
pub fn push_str_bytes(out: &mut Vec<u8>, s: &str)
    ensures
        final(out)@ == old(out)@ + lit(s),
        valid_utf8(old(out)@) ==> valid_utf8(final(out)@),
{
    proof {
        lemma_lit_valid(s);
        if valid_utf8(out@) {
            valid_utf8_concat(out@, lit(s));
        }
    }
    out.extend_from_slice(s.as_bytes());
}

/// Appends one ASCII byte to `out`.
pub fn push_ascii(out: &mut Vec<u8>, b: u8)
    requires
        b < 0x80,
    ensures
        final(out)@ == old(out)@ + seq![b],
        valid_utf8(old(out)@) ==> valid_utf8(final(out)@),
{
    proof {
        lemma_ascii_valid(seq![b]);
        if valid_utf8(out@) {
            valid_utf8_concat(out@, seq![b]);
        }
    }
    out.push(b);
    assert(final(out)@ =~= old(out)@ + seq![b]);
}

/// The lowercase hex digit byte for a nibble value.
pub open spec fn spec_hex_digit(n: u8) -> u8 {
    if n < 10 {
        (0x30 + n) as u8
    } else {
        (0x57 + n) as u8
    }
}

/// Lowercase hex rendering of `v`, zero-padded on the left to `w` digits
/// (natural width when the value needs more digits).
pub open spec fn spec_hex_pad(v: nat, w: int) -> Seq<u8>
    decreases v, (if w > 0 { w } else { 0 }),
{
    if v < 16 && w <= 1 {
        seq![spec_hex_digit(v as u8)]
    } else {
        spec_hex_pad(v / 16, if w - 1 > 0 {
            w - 1
        } else {
            0
        }).push(spec_hex_digit((v % 16) as u8))
    }
}

/// Appends the hex rendering of `v`, zero-padded to width `w`.
pub fn push_hex_pad(out: &mut Vec<u8>, v: u64, w: usize)
    ensures
        final(out)@ == old(out)@ + spec_hex_pad(v as nat, w as int),
        valid_utf8(old(out)@) ==> valid_utf8(final(out)@),
    decreases v, w,
{
    if v < 16 && w <= 1 {
        let d: u8 = (v % 16) as u8;
        push_ascii(out, if d < 10 {
            0x30 + d
        } else {
            0x57 + d
        });
        assert(final(out)@ =~= old(out)@ + spec_hex_pad(v as nat, w as int));
    } else {
        push_hex_pad(out, v / 16, if w == 0 {
            0
        } else {
            w - 1
        });
        let d: u8 = (v % 16) as u8;
        push_ascii(out, if d < 10 {
            0x30 + d
        } else {
            0x57 + d
        });
        assert(final(out)@ =~= old(out)@ + spec_hex_pad(v as nat, w as int));
    }
}

/// Hex renderings hold ASCII digit and letter bytes only.
pub proof fn lemma_hex_ascii(v: nat, w: int)
    ensures
        all_ascii(spec_hex_pad(v, w)),
    decreases v, (if w > 0 { w } else { 0 }),
{
    if v < 16 && w <= 1 {
    } else {
        lemma_hex_ascii(v / 16, if w - 1 > 0 {
            w - 1
        } else {
            0
        });
    }
}

/// Decimal digit bytes of `v`, most significant first.
pub open spec fn spec_dec(v: nat) -> Seq<u8>
    decreases v,
{
    if v < 10 {
        seq![(0x30 + v) as u8]
    } else {
        spec_dec(v / 10).push((0x30 + v % 10) as u8)
    }
}

/// Appends the decimal rendering of `v`.
pub fn push_dec_u64(out: &mut Vec<u8>, v: u64)
    ensures
        final(out)@ == old(out)@ + spec_dec(v as nat),
        valid_utf8(old(out)@) ==> valid_utf8(final(out)@),
    decreases v,
{
    if v < 10 {
        push_ascii(out, 0x30 + v as u8);
        assert(final(out)@ =~= old(out)@ + spec_dec(v as nat));
    } else {
        push_dec_u64(out, v / 10);
        push_ascii(out, 0x30 + (v % 10) as u8);
        assert(final(out)@ =~= old(out)@ + spec_dec(v as nat));
    }
}

/// Decimal renderings hold ASCII digit bytes only.
pub proof fn lemma_dec_ascii(v: nat)
    ensures
        all_ascii(spec_dec(v)),
    decreases v,
{
    if v >= 10 {
        lemma_dec_ascii(v / 10);
    }
}

/// Decimal rendering of a possibly negative value, with a leading minus sign.
pub open spec fn spec_dec_int(v: int) -> Seq<u8> {
    if v < 0 {
        seq![0x2du8] + spec_dec((-v) as nat)
    } else {
        spec_dec(v as nat)
    }
}

fn push_dec_u128(out: &mut Vec<u8>, v: u128)
    ensures
        final(out)@ == old(out)@ + spec_dec(v as nat),
        valid_utf8(old(out)@) ==> valid_utf8(final(out)@),
    decreases v,
{
    if v < 10 {
        push_ascii(out, 0x30 + v as u8);
        assert(final(out)@ =~= old(out)@ + spec_dec(v as nat));
    } else {
        push_dec_u128(out, v / 10);
        push_ascii(out, 0x30 + (v % 10) as u8);
        assert(final(out)@ =~= old(out)@ + spec_dec(v as nat));
    }
}

/// Appends the decimal rendering of `v`, minus sign included when negative.
pub fn push_dec_i128(out: &mut Vec<u8>, v: i128)
    requires
        v > i128::MIN,
    ensures
        final(out)@ == old(out)@ + spec_dec_int(v as int),
        valid_utf8(old(out)@) ==> valid_utf8(final(out)@),
{
    if v < 0 {
        push_ascii(out, 0x2d);
        let m: u128 = (-v) as u128;
        push_dec_u128(out, m);
        assert(final(out)@ =~= old(out)@ + spec_dec_int(v as int));
    } else {
        push_dec_u128(out, v as u128);
    }
}

/// The needle `n` occurs in `h` at position `i`.
pub open spec fn contains_at(h: Seq<u8>, n: Seq<u8>, i: int) -> bool {
    0 <= i && i + n.len() <= h.len() && h.subrange(i, i + n.len()) == n
}

/// The needle `n` occurs somewhere in `h`.
pub open spec fn spec_contains(h: Seq<u8>, n: Seq<u8>) -> bool {
    exists|i: int| contains_at(h, n, i)
}

/// Byte-wise equality of two slices.
pub fn eq_bytes(a: &[u8], b: &[u8]) -> (r: bool)
    ensures
        r == (a@ == b@),
{
    if a.len() != b.len() {
        return false;
    }
    let mut i: usize = 0;
    while i < a.len()
        invariant
            0 <= i <= a@.len(),
            a@.len() == b@.len(),
            forall|j: int| 0 <= j < i ==> a@[j] == b@[j],
        decreases a@.len() - i,
    {
        if a[i] != b[i] {
            return false;
        }
        i += 1;
    }
    assert(a@ =~= b@);
    true
}

/// Whether `n` matches in `h` starting at position `i`.
fn matches_at(h: &[u8], n: &[u8], i: usize) -> (r: bool)
    requires
        i + n@.len() <= h@.len(),
    ensures
        r == contains_at(h@, n@, i as int),
{
    let hl: usize = h.len();
    let mut j: usize = 0;
    while j < n.len()
        invariant
            0 <= j <= n@.len(),
            i + n@.len() <= h@.len(),
            h@.len() == hl,
            forall|k: int| 0 <= k < j ==> h@[i + k] == n@[k],
        decreases n@.len() - j,
    {
        if h[i + j] != n[j] {
            assert(h@.subrange(i as int, i + n@.len()) != n@) by {
                assert(h@.subrange(i as int, i + n@.len())[j as int] == h@[i + j]);
            }
            return false;
        }
        j += 1;
    }
    assert(h@.subrange(i as int, i + n@.len()) =~= n@);
    true
}

/// Substring search: whether `n` occurs anywhere in `h`.
pub fn contains_bytes(h: &[u8], n: &[u8]) -> (r: bool)
    ensures
        r == spec_contains(h@, n@),
{
    if n.len() > h.len() {
        assert(forall|i: int| !contains_at(h@, n@, i));
        return false;
    }
    if n.len() == 0 {
        assert(h@.subrange(0, 0) =~= n@);
        assert(contains_at(h@, n@, 0));
        return true;
    }
    let mut i: usize = 0;
    while i <= h.len() - n.len()
        invariant
            0 <= i,
            1 <= n@.len() <= h@.len(),
            i <= h@.len() - n@.len() + 1,
            forall|k: int| 0 <= k < i ==> !contains_at(h@, n@, k),
        decreases h@.len() - i,
    {
        if matches_at(h, n, i) {
            assert(contains_at(h@, n@, i as int));
            return true;
        }
        i += 1;
    }
    assert(forall|k: int| !contains_at(h@, n@, k));
    false
}

/// First position of byte `b` in `s`, or `s.len()` when absent.
pub open spec fn spec_find(s: Seq<u8>, b: u8) -> int
    decreases s.len(),
{
    if s.len() == 0 {
        0
    } else if s[0] == b {
        0
    } else {
        1 + spec_find(s.drop_first(), b)
    }
}

pub proof fn lemma_find(s: Seq<u8>, b: u8)
    ensures
        0 <= spec_find(s, b) <= s.len(),
        spec_find(s, b) < s.len() ==> s[spec_find(s, b)] == b,
        forall|j: int| 0 <= j < spec_find(s, b) ==> s[j] != b,
    decreases s.len(),
{
    if s.len() != 0 && s[0] != b {
        lemma_find(s.drop_first(), b);
        assert forall|j: int| 0 <= j < spec_find(s, b) implies s[j] != b by {
            if j > 0 {
                assert(s.drop_first()[j - 1] == s[j]);
            }
        }
    }
}

/// First position of byte `b` in `s`, or `s.len()` when absent.
pub fn find_byte(s: &[u8], b: u8) -> (r: usize)
    ensures
        r == spec_find(s@, b),
{
    proof {
        lemma_find(s@, b);
    }
    let mut i: usize = 0;
    while i < s.len()
        invariant
            0 <= i <= s@.len(),
            forall|j: int| 0 <= j < i ==> s@[j] != b,
            0 <= spec_find(s@, b) <= s@.len(),
            spec_find(s@, b) < s@.len() ==> s@[spec_find(s@, b)] == b,
            forall|j: int| 0 <= j < spec_find(s@, b) ==> s@[j] != b,
        decreases s@.len() - i,
    {
        if s[i] == b {
            assert(i == spec_find(s@, b));
            return i;
        }
        i += 1;
    }
    assert(i == spec_find(s@, b));
    i
}

/// The pieces of `s` between occurrences of `sep` (empty pieces kept).
pub open spec fn spec_split(s: Seq<u8>, sep: u8) -> Seq<Seq<u8>>
    decreases s.len(),
{
    let i = spec_find(s, sep);
    if 0 <= i < s.len() {
        seq![s.take(i)] + spec_split(s.skip(i + 1), sep)
    } else {
        seq![s]
    }
}

/// Splits `s` at every occurrence of `sep`, keeping empty pieces.
pub fn split_bytes(s: &[u8], sep: u8) -> (r: Vec<Vec<u8>>)
    ensures
        r@.map_values(|p: Vec<u8>| p@) == spec_split(s@, sep),
    decreases s@.len(),
{
    proof {
        lemma_find(s@, sep);
    }
    let i = find_byte(s, sep);
    if i == s.len() {
        let piece = slice_to_vec(s);
        let mut r: Vec<Vec<u8>> = Vec::new();
        r.push(piece);
        assert(r@.map_values(|p: Vec<u8>| p@) =~= spec_split(s@, sep));
        r
    } else {
        let piece = slice_to_vec(slice_subrange(s, 0, i));
        let mut rest = split_bytes(slice_subrange(s, i + 1, s.len()), sep);
        let ghost restv = rest@;
        let mut r: Vec<Vec<u8>> = Vec::new();
        r.push(piece);
        r.append(&mut rest);
        proof {
            assert(s@.subrange(0, i as int) =~= s@.take(i as int));
            assert(s@.subrange(i + 1, s@.len() as int) =~= s@.skip(i + 1));
            assert(r@.map_values(|p: Vec<u8>| p@) =~= seq![s@.take(i as int)] + restv.map_values(
                |p: Vec<u8>| p@,
            ));
            assert(r@.map_values(|p: Vec<u8>| p@) =~= spec_split(s@, sep));
        }
        r
    }
}

/// An ASCII whitespace byte, the only whitespace trimming here removes
/// (trimming does not reach past-ASCII Unicode whitespace).
pub open spec fn is_space(b: u8) -> bool {
    b == 0x20 || (0x09 <= b <= 0x0d)
}

/// `s` without leading whitespace bytes.
pub open spec fn spec_trim_front(s: Seq<u8>) -> Seq<u8>
    decreases s.len(),
{
    if s.len() > 0 && is_space(s[0]) {
        spec_trim_front(s.drop_first())
    } else {
        s
    }
}

/// `s` without trailing whitespace bytes.
pub open spec fn spec_trim_back(s: Seq<u8>) -> Seq<u8>
    decreases s.len(),
{
    if s.len() > 0 && is_space(s[s.len() - 1]) {
        spec_trim_back(s.drop_last())
    } else {
        s
    }
}

/// `s` without leading and trailing whitespace bytes.
pub open spec fn spec_trim(s: Seq<u8>) -> Seq<u8> {
    spec_trim_back(spec_trim_front(s))
}

/// Trims ASCII whitespace from both ends (Unicode whitespace stays).
pub fn trim_bytes(s: &[u8]) -> (r: Vec<u8>)
    ensures
        r@ == spec_trim(s@),
{
    let mut a: usize = 0;
    assert(s@.skip(0) =~= s@);
    while a < s.len() && (s[a] == 0x20 || (0x09 <= s[a] && s[a] <= 0x0d))
        invariant
            0 <= a <= s@.len(),
            spec_trim_front(s@) == spec_trim_front(s@.skip(a as int)),
        decreases s@.len() - a,
    {
        proof {
            assert(s@.skip(a as int).drop_first() =~= s@.skip(a + 1));
        }
        a += 1;
    }
    assert(spec_trim_front(s@) == s@.skip(a as int));
    let mut b: usize = s.len();
    assert(s@.skip(a as int).take(b - a) =~= s@.skip(a as int));
    while b > a && (s[b - 1] == 0x20 || (0x09 <= s[b - 1] && s[b - 1] <= 0x0d))
        invariant
            a <= b <= s@.len(),
            spec_trim_back(s@.skip(a as int)) == spec_trim_back(s@.skip(a as int).take(b - a)),
        decreases b,
    {
        proof {
            assert(s@.skip(a as int).take(b - a).drop_last() =~= s@.skip(a as int).take(b - 1 - a));
        }
        b -= 1;
    }
    proof {
        let t = s@.skip(a as int).take(b - a);
        assert(t.len() > 0 ==> t[t.len() - 1] == s@[b - 1]);
        assert(spec_trim_back(t) == t);
        assert(s@.subrange(a as int, b as int) =~= t);
    }
    slice_to_vec(slice_subrange(s, a, b))
}

/// Leftmost non-overlapping replacement of `pat` by `rep`, as `str::replace`.
pub open spec fn spec_replace(s: Seq<u8>, pat: Seq<u8>, rep: Seq<u8>) -> Seq<u8>
    decreases s.len(),
    when pat.len() > 0
{
    if s.len() < pat.len() {
        s
    } else if s.take(pat.len() as int) == pat {
        rep + spec_replace(s.skip(pat.len() as int), pat, rep)
    } else {
        seq![s[0]] + spec_replace(s.drop_first(), pat, rep)
    }
}

/// Replaces every non-overlapping occurrence of `pat` by `rep`.
pub fn replace_bytes(s: &[u8], pat: &[u8], rep: &[u8]) -> (r: Vec<u8>)
    requires
        pat@.len() > 0,
    ensures
        r@ == spec_replace(s@, pat@, rep@),
{
    let mut out: Vec<u8> = Vec::new();
    let mut i: usize = 0;
    proof {
        assert(s@.skip(0) =~= s@);
        assert(out@ + spec_replace(s@, pat@, rep@) =~= spec_replace(s@, pat@, rep@));
    }
    while i < s.len()
        invariant
            0 <= i <= s@.len(),
            pat@.len() > 0,
            spec_replace(s@, pat@, rep@) == out@ + spec_replace(s@.skip(i as int), pat@, rep@),
        decreases s@.len() - i,
    {
        if pat.len() <= s.len() - i && matches_at(s, pat, i) {
            assert(s@.skip(i as int).take(pat@.len() as int) =~= s@.subrange(
                i as int,
                i + pat@.len(),
            ));
            out.extend_from_slice(rep);
            proof {
                assert(s@.skip(i as int).skip(pat@.len() as int) =~= s@.skip(i + pat@.len()));
            }
            i += pat.len();
        } else {
            proof {
                if i + pat@.len() <= s@.len() {
                    assert(s@.skip(i as int).take(pat@.len() as int) =~= s@.subrange(
                        i as int,
                        i + pat@.len(),
                    ));
                }
                assert(s@.skip(i as int).drop_first() =~= s@.skip(i + 1));
            }
            let c = s[i];
            out.push(c);
            assert(seq![c] + spec_replace(s@.skip(i + 1), pat@, rep@) == spec_replace(
                s@.skip(i as int),
                pat@,
                rep@,
            ));
            i += 1;
        }
    }
    assert(s@.skip(i as int) =~= Seq::<u8>::empty());
    assert(spec_replace(s@.skip(i as int), pat@, rep@) =~= Seq::<u8>::empty());
    assert(out@ =~= spec_replace(s@, pat@, rep@));
    out
}

/// In valid UTF-8, an ASCII prefix can be split off, leaving valid UTF-8.
pub proof fn lemma_ascii_prefix_valid(s: Seq<u8>, k: int)
    requires
        valid_utf8(s),
        0 <= k <= s.len(),
        all_ascii(s.take(k)),
    ensures
        valid_utf8(s.skip(k)),
    decreases k,
{
    if k > 0 {
        assert(s.take(k)[0] == s[0]);
        assert(is_leading_byte_width_1(s[0]));
        assert(length_of_first_scalar(s) == 1);
        assert(pop_first_scalar(s) =~= s.drop_first());
        assert(valid_utf8(s.drop_first()));
        assert(s.drop_first().take(k - 1) =~= s.take(k).drop_first());
        assert(all_ascii(s.drop_first().take(k - 1))) by {
            assert forall|i: int| 0 <= i < k - 1 implies #[trigger] s.drop_first().take(k - 1)[i]
                < 0x80 by {
                assert(s.drop_first().take(k - 1)[i] == s.take(k)[i + 1]);
            }
        }
        lemma_ascii_prefix_valid(s.drop_first(), k - 1);
        assert(s.drop_first().skip(k - 1) =~= s.skip(k));
    } else {
        assert(s.skip(0) =~= s);
    }
}

proof fn lemma_replace_skip_mb(s: Seq<u8>, pat: Seq<u8>, rep: Seq<u8>, m: int, l: int)
    requires
        0 <= m <= l <= s.len(),
        pat.len() > 0,
        pat[0] < 0x80,
        forall|t: int| m <= t < l ==> s[t] >= 0x80,
    ensures
        spec_replace(s.skip(m), pat, rep) == s.subrange(m, l) + spec_replace(
            s.skip(l),
            pat,
            rep,
        ),
    decreases l - m,
{
    if m == l {
        assert(s.subrange(m, l) =~= Seq::<u8>::empty());
        assert(s.subrange(m, l) + spec_replace(s.skip(l), pat, rep) =~= spec_replace(
            s.skip(m),
            pat,
            rep,
        ));
    } else {
        let sm = s.skip(m);
        if sm.len() < pat.len() {
            assert(s.skip(l).len() < pat.len());
            assert(spec_replace(sm, pat, rep) == sm);
            assert(spec_replace(s.skip(l), pat, rep) == s.skip(l));
            assert(sm =~= s.subrange(m, l) + s.skip(l));
        } else {
            assert(sm.take(pat.len() as int)[0] == s[m]);
            assert(sm.take(pat.len() as int) != pat);
            assert(spec_replace(sm, pat, rep) == seq![s[m]] + spec_replace(
                sm.drop_first(),
                pat,
                rep,
            ));
            assert(sm.drop_first() =~= s.skip(m + 1));
            lemma_replace_skip_mb(s, pat, rep, m + 1, l);
            assert(seq![s[m]] + (s.subrange(m + 1, l) + spec_replace(s.skip(l), pat, rep)) =~= s
                .subrange(m, l) + spec_replace(s.skip(l), pat, rep));
        }
    }
}

/// Replacing an ASCII pattern by ASCII bytes keeps a buffer valid UTF-8.
pub proof fn lemma_replace_valid(s: Seq<u8>, pat: Seq<u8>, rep: Seq<u8>)
    requires
        valid_utf8(s),
        pat.len() > 0,
        all_ascii(pat),
        all_ascii(rep),
    ensures
        valid_utf8(spec_replace(s, pat, rep)),
    decreases s.len(),
{
    if s.len() == 0 {
    } else if s.len() < pat.len() {
    } else if s.take(pat.len() as int) == pat {
        lemma_ascii_prefix_valid(s, pat.len() as int);
        lemma_replace_valid(s.skip(pat.len() as int), pat, rep);
        lemma_ascii_valid(rep);
        valid_utf8_concat(rep, spec_replace(s.skip(pat.len() as int), pat, rep));
    } else if s[0] < 0x80 {
        assert(all_ascii(s.take(1)));
        lemma_ascii_prefix_valid(s, 1);
        assert(s.skip(1) =~= s.drop_first());
        lemma_replace_valid(s.drop_first(), pat, rep);
        lemma_ascii_valid(seq![s[0]]);
        valid_utf8_concat(seq![s[0]], spec_replace(s.drop_first(), pat, rep));
    } else {
        let l = length_of_first_scalar(s);
        assert(valid_first_scalar(s));
        assert(1 <= l <= 4 && l <= s.len());
        assert(forall|t: int| 0 <= t < l ==> s[t] >= 0x80);
        assert(s.skip(0) =~= s);
        lemma_replace_skip_mb(s, pat, rep, 0, l);
        assert(pop_first_scalar(s) =~= s.skip(l));
        lemma_replace_valid(s.skip(l), pat, rep);
        let head = s.subrange(0, l);
        assert(valid_utf8(head)) by {
            assert(forall|t: int| 0 <= t < l ==> head[t] == s[t]);
            assert(head.len() == l);
            assert(valid_leading_and_continuation_bytes_first_codepoint(head));
            assert(decode_first_codepoint(head) == decode_first_codepoint(s));
            assert(length_of_first_codepoint(head) == l);
            assert(valid_first_scalar(head));
            assert(pop_first_scalar(head) =~= Seq::<u8>::empty());
            assert(valid_utf8(Seq::<u8>::empty()));
            assert(valid_utf8(pop_first_scalar(head)));
        }
        valid_utf8_concat(head, spec_replace(s.skip(l), pat, rep));
    }
}

/// Joins pieces with a separator between neighbours.
pub open spec fn spec_join(parts: Seq<Seq<u8>>, sep: Seq<u8>) -> Seq<u8>
    decreases parts.len(),
{
    if parts.len() == 0 {
        Seq::empty()
    } else if parts.len() == 1 {
        parts[0]
    } else {
        spec_join(parts.drop_last(), sep) + sep + parts.last()
    }
}

/// Appends the pieces joined by `sep`.
pub fn push_join(out: &mut Vec<u8>, parts: &Vec<Vec<u8>>, sep: &str)
    requires
        valid_utf8(old(out)@),
        forall|j: int| 0 <= j < parts@.len() ==> valid_utf8(#[trigger] parts@[j]@),
    ensures
        final(out)@ == old(out)@ + spec_join(parts@.map_values(|p: Vec<u8>| p@), lit(sep)),
        valid_utf8(final(out)@),
{
    let ghost pieces = parts@.map_values(|p: Vec<u8>| p@);
    let mut k: usize = 0;
    assert(out@ =~= old(out)@ + spec_join(pieces.take(0), lit(sep)));
    while k < parts.len()
        invariant
            0 <= k <= parts@.len(),
            pieces == parts@.map_values(|p: Vec<u8>| p@),
            pieces.len() == parts@.len(),
            forall|j: int| 0 <= j < parts@.len() ==> valid_utf8(#[trigger] parts@[j]@),
            out@ == old(out)@ + spec_join(pieces.take(k as int), lit(sep)),
            valid_utf8(out@),
        decreases parts@.len() - k,
    {
        if k > 0 {
            push_str_bytes(out, sep);
        }
        let ghost before = out@;
        let piece = &parts[k];
        out.extend_from_slice(piece.as_slice());
        proof {
            assert(out@ =~= before + parts@[k as int]@);
            valid_utf8_concat(before, parts@[k as int]@);
            assert(pieces.take(k + 1).drop_last() =~= pieces.take(k as int));
            assert(pieces.take(k + 1).last() == pieces[k as int]);
            if k == 0 {
                assert(out@ =~= old(out)@ + spec_join(pieces.take(1), lit(sep)));
            } else {
                assert(out@ =~= old(out)@ + spec_join(pieces.take(k + 1), lit(sep)));
            }
        }
        k += 1;
    }
    assert(pieces.take(parts@.len() as int) =~= pieces);
}

/// A prefix of valid UTF-8 that ends right before an ASCII byte, or at the
/// end, is valid UTF-8.
pub proof fn lemma_take_valid(s: Seq<u8>, i: int)
    requires
        valid_utf8(s),
        0 <= i <= s.len(),
        i < s.len() ==> s[i] < 0x80,
    ensures
        valid_utf8(s.take(i)),
{
    if i == s.len() {
        assert(s.take(i) =~= s);
    } else {
        is_char_boundary_iff_not_is_continuation_byte(s, i);
        valid_utf8_split(s, i);
        assert(s.subrange(0, i) =~= s.take(i));
    }
}

/// What follows an ASCII byte in valid UTF-8 is valid UTF-8.
pub proof fn lemma_skip_after_ascii(s: Seq<u8>, i: int)
    requires
        valid_utf8(s),
        0 <= i < s.len(),
        s[i] < 0x80,
    ensures
        valid_utf8(s.skip(i + 1)),
{
    is_char_boundary_iff_not_is_continuation_byte(s, i);
    valid_utf8_split(s, i);
    let tail = s.subrange(i, s.len() as int);
    assert(tail[0] == s[i]);
    assert(all_ascii(tail.take(1)));
    lemma_ascii_prefix_valid(tail, 1);
    assert(tail.skip(1) =~= s.skip(i + 1));
}

/// Trimming whitespace from the front keeps a valid UTF-8 buffer valid.
pub proof fn lemma_trim_front_valid(s: Seq<u8>)
    requires
        valid_utf8(s),
    ensures
        valid_utf8(spec_trim_front(s)),
    decreases s.len(),
{
    if s.len() > 0 && is_space(s[0]) {
        assert(is_leading_byte_width_1(s[0]));
        assert(length_of_first_scalar(s) == 1);
        assert(pop_first_scalar(s) =~= s.drop_first());
        lemma_trim_front_valid(s.drop_first());
    }
}

/// Trimming whitespace from the back keeps a valid UTF-8 buffer valid.
pub proof fn lemma_trim_back_valid(s: Seq<u8>)
    requires
        valid_utf8(s),
    ensures
        valid_utf8(spec_trim_back(s)),
    decreases s.len(),
{
    if s.len() > 0 && is_space(s[s.len() - 1]) {
        lemma_take_valid(s, s.len() - 1);
        assert(s.take(s.len() - 1) =~= s.drop_last());
        lemma_trim_back_valid(s.drop_last());
    }
}

/// Trimming keeps a valid UTF-8 buffer valid.
pub proof fn lemma_trim_valid(s: Seq<u8>)
    requires
        valid_utf8(s),
    ensures
        valid_utf8(spec_trim(s)),
{
    lemma_trim_front_valid(s);
    lemma_trim_back_valid(spec_trim_front(s));
}

/// Every piece of a split at an ASCII separator is valid UTF-8.
pub proof fn lemma_split_pieces_valid(s: Seq<u8>, sep: u8)
    requires
        valid_utf8(s),
        sep < 0x80,
    ensures
        forall|k: int|
            0 <= k < spec_split(s, sep).len() ==> valid_utf8(#[trigger] spec_split(s, sep)[k]),
    decreases s.len(),
{
    lemma_find(s, sep);
    let i = spec_find(s, sep);
    if 0 <= i < s.len() {
        lemma_take_valid(s, i);
        lemma_skip_after_ascii(s, i);
        lemma_split_pieces_valid(s.skip(i + 1), sep);
        assert forall|k: int| 0 <= k < spec_split(s, sep).len() implies valid_utf8(
            #[trigger] spec_split(s, sep)[k],
        ) by {
            if k > 0 {
                assert(spec_split(s, sep)[k] == spec_split(s.skip(i + 1), sep)[k - 1]);
            }
        }
    }
}

/// Whether `s` ends with `suffix`.
pub fn ends_with_bytes(s: &[u8], suffix: &[u8]) -> (r: bool)
    ensures
        r == (suffix@.len() <= s@.len() && s@.skip(s@.len() - suffix@.len()) == suffix@),
{
    if suffix.len() > s.len() {
        return false;
    }
    let start: usize = s.len() - suffix.len();
    let tail = slice_subrange(s, start, s.len());
    assert(tail@ =~= s@.skip(s@.len() - suffix@.len()));
    eq_bytes(tail, suffix)
}

} // verus!
