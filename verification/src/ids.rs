//! 128-bit identities: random generation, and the canonical hyphenated
//! hexadecimal text form (8-4-4-4-12 lowercase digits) they travel in on
//! the wire.

use vstd::prelude::*;
use vstd::string::StrSliceExecFns;

verus! {

/// Draws a fresh identity.  Identities come from a 128-bit space, so a
/// freshly drawn one colliding with a live one is treated as impossible;
/// every caller still checks and reports a collision rather than assume
/// this.
///
/// Relies on uuid's `Uuid::new_v4` (a random version-4 UUID) and
/// `Uuid::as_u128` (its value as one big-endian 128-bit integer).
/// Nothing is promised of a random result.
#[verifier::external_body]
pub(crate) fn fresh_id() -> u128 {
    uuid::Uuid::new_v4().as_u128()
}

/// Relies on std's `String::push`: appends the given character.
#[verifier::external_body]
pub fn push_char(s: &mut String, c: char)
    ensures
        final(s)@ == old(s)@.push(c),
{
    s.push(c);
}

/// The lowercase hexadecimal digit for `n` (meaningful for `n < 16`).
pub open spec fn hex_char(n: u8) -> char {
    if n == 0 {
        '0'
    } else if n == 1 {
        '1'
    } else if n == 2 {
        '2'
    } else if n == 3 {
        '3'
    } else if n == 4 {
        '4'
    } else if n == 5 {
        '5'
    } else if n == 6 {
        '6'
    } else if n == 7 {
        '7'
    } else if n == 8 {
        '8'
    } else if n == 9 {
        '9'
    } else if n == 10 {
        'a'
    } else if n == 11 {
        'b'
    } else if n == 12 {
        'c'
    } else if n == 13 {
        'd'
    } else if n == 14 {
        'e'
    } else {
        'f'
    }
}

/// The value of a lowercase hexadecimal digit character, if it is one.
pub open spec fn hex_val(c: char) -> Option<u8> {
    if c == '0' {
        Some(0u8)
    } else if c == '1' {
        Some(1u8)
    } else if c == '2' {
        Some(2u8)
    } else if c == '3' {
        Some(3u8)
    } else if c == '4' {
        Some(4u8)
    } else if c == '5' {
        Some(5u8)
    } else if c == '6' {
        Some(6u8)
    } else if c == '7' {
        Some(7u8)
    } else if c == '8' {
        Some(8u8)
    } else if c == '9' {
        Some(9u8)
    } else if c == 'a' {
        Some(10u8)
    } else if c == 'b' {
        Some(11u8)
    } else if c == 'c' {
        Some(12u8)
    } else if c == 'd' {
        Some(13u8)
    } else if c == 'e' {
        Some(14u8)
    } else if c == 'f' {
        Some(15u8)
    } else {
        None
    }
}

/// Whether text position `p` of the hyphenated form holds a hyphen.
pub open spec fn is_hyphen_pos(p: int) -> bool {
    p == 8 || p == 13 || p == 18 || p == 23
}

/// How many hexadecimal digits precede text position `p`.
pub open spec fn digit_index(p: int) -> int {
    if p < 9 {
        p
    } else if p < 14 {
        p - 1
    } else if p < 19 {
        p - 2
    } else if p < 24 {
        p - 3
    } else {
        p - 4
    }
}

/// Hexadecimal digit `j` (most significant first, `j < 32`) of `v`.
pub open spec fn uuid_nibble(v: u128, j: int) -> u8 {
    ((v >> (((31 - j) * 4) as u128)) & 0xf) as u8
}

/// The character at text position `p` of the hyphenated form of `v`.
pub open spec fn uuid_char(v: u128, p: int) -> char {
    if is_hyphen_pos(p) {
        '-'
    } else {
        hex_char(uuid_nibble(v, digit_index(p)))
    }
}

/// The canonical hyphenated lowercase text form of `v`: 36 characters,
/// 32 hexadecimal digits with hyphens after digits 8, 12, 16 and 20.
pub open spec fn uuid_seq(v: u128) -> Seq<char> {
    Seq::new(36, |p: int| uuid_char(v, p))
}

/// Renders `v` in its canonical hyphenated text form.
pub fn uuid_string(v: u128) -> (r: String)
    ensures
        r@ == uuid_seq(v),
{
    let mut r = String::new();
    let mut p: usize = 0;
    while p < 36
        invariant
            p <= 36,
            r@ =~= uuid_seq(v).take(p as int),
        decreases 36 - p,
    {
        let c: char = if p == 8 || p == 13 || p == 18 || p == 23 {
            '-'
        } else {
            let j: u128 = if p < 9 {
                p as u128
            } else if p < 14 {
                (p - 1) as u128
            } else if p < 19 {
                (p - 2) as u128
            } else if p < 24 {
                (p - 3) as u128
            } else {
                (p - 4) as u128
            };
            let sh: u128 = (31 - j) * 4;
            let nib: u8 = ((v >> sh) & 0xf) as u8;
            proof {
                assert(j == digit_index(p as int));
                assert(sh == ((31 - digit_index(p as int)) * 4) as u128);
                assert(nib == uuid_nibble(v, digit_index(p as int)));
                assert(nib < 16) by (bit_vector)
                    requires
                        nib == ((v >> sh) & 0xf) as u8,
                ;
            }
            hex_digit_char(nib)
        };
        proof {
            assert(c == uuid_char(v, p as int));
        }
        push_char(&mut r, c);
        proof {
            assert(r@ =~= uuid_seq(v).take(p + 1));
        }
        p = p + 1;
    }
    proof {
        assert(uuid_seq(v).take(36) =~= uuid_seq(v));
    }
    r
}

/// The lowercase hexadecimal digit character for `nib`.
pub(crate) fn hex_digit_char(nib: u8) -> (c: char)
    requires
        nib < 16,
    ensures
        c == hex_char(nib),
{
    match nib {
        0 => '0',
        1 => '1',
        2 => '2',
        3 => '3',
        4 => '4',
        5 => '5',
        6 => '6',
        7 => '7',
        8 => '8',
        9 => '9',
        10 => 'a',
        11 => 'b',
        12 => 'c',
        13 => 'd',
        14 => 'e',
        _ => 'f',
    }
}

/// The value of a lowercase hexadecimal digit character, if it is one.
pub(crate) fn hex_digit_val(c: char) -> (r: Option<u8>)
    ensures
        r == hex_val(c),
{
    match c {
        '0' => Some(0),
        '1' => Some(1),
        '2' => Some(2),
        '3' => Some(3),
        '4' => Some(4),
        '5' => Some(5),
        '6' => Some(6),
        '7' => Some(7),
        '8' => Some(8),
        '9' => Some(9),
        'a' => Some(10),
        'b' => Some(11),
        'c' => Some(12),
        'd' => Some(13),
        'e' => Some(14),
        'f' => Some(15),
        _ => None,
    }
}

/// `16^k`.
pub open spec fn pow16(k: int) -> int
    decreases k,
{
    if k <= 0 {
        1
    } else {
        16 * pow16(k - 1)
    }
}

/// Parsing the canonical hyphenated form from position `p` with the
/// digits before `p` already accumulated in `acc`: the remaining digits
/// extend `acc` in base 16; a wrong length, a missing hyphen or a
/// character that is no lowercase hexadecimal digit refuses the text.
pub open spec fn uuid_parse_at(s: Seq<char>, p: int, acc: u128) -> Option<u128>
    decreases 36 - p,
{
    if p >= 36 {
        Some(acc)
    } else if is_hyphen_pos(p) {
        if s[p] == '-' {
            uuid_parse_at(s, p + 1, acc)
        } else {
            None
        }
    } else {
        match hex_val(s[p]) {
            Some(n) => uuid_parse_at(s, p + 1, ((acc * 16 + n) as u128)),
            None => None,
        }
    }
}

/// The identity written in `s`, when `s` is exactly the canonical
/// hyphenated lowercase form of one.
pub open spec fn uuid_parse(s: Seq<char>) -> Option<u128> {
    if s.len() == 36 {
        uuid_parse_at(s, 0, 0)
    } else {
        None
    }
}

/// Reads an identity from its canonical hyphenated lowercase text form.
pub fn parse_uuid(s: &str) -> (r: Option<u128>)
    ensures
        r == uuid_parse(s@),
{
    let n = s.unicode_len();
    if n != 36 {
        return None;
    }
    let mut acc: u128 = 0;
    let mut p: usize = 0;
    proof {
        reveal_with_fuel(pow16, 33);
        assert(pow16(32) == 0x100000000000000000000000000000000);
    }
    while p < 36
        invariant
            p <= 36,
            s@.len() == 36,
            acc < pow16(digit_index(p as int)),
            pow16(32) == 0x100000000000000000000000000000000,
            uuid_parse(s@) == uuid_parse_at(s@, p as int, acc),
        decreases 36 - p,
    {
        let c = s.get_char(p);
        if p == 8 || p == 13 || p == 18 || p == 23 {
            if c != '-' {
                return None;
            }
        } else {
            match hex_digit_val(c) {
                Some(nv) => {
                    proof {
                        lemma_pow16_bounds(digit_index(p as int));
                        assert(pow16(digit_index(p as int) + 1) == 16 * pow16(
                            digit_index(p as int),
                        ));
                        assert(acc * 16 + nv < pow16(digit_index(p as int) + 1));
                    }
                    acc = acc * 16 + (nv as u128);
                },
                None => {
                    return None;
                },
            }
        }
        p = p + 1;
    }
    Some(acc)
}

/// `pow16` grows monotonically up to the 32 digits of an identity.
proof fn lemma_pow16_bounds(k: int)
    requires
        0 <= k <= 31,
    ensures
        pow16(k) <= pow16(31),
        pow16(k + 1) <= pow16(32),
    decreases 31 - k,
{
    if k < 31 {
        lemma_pow16_bounds(k + 1);
        assert(pow16(k + 1) == 16 * pow16(k));
        assert(pow16(k) >= 1) by {
            lemma_pow16_pos(k);
        }
    }
}

/// `16^k` is positive.
proof fn lemma_pow16_pos(k: int)
    ensures
        pow16(k) >= 1,
    decreases k,
{
    if k > 0 {
        lemma_pow16_pos(k - 1);
    }
}

/// The accumulator after the first `d` hexadecimal digits of `v` have
/// been read: the top `4 * d` bits of `v`.
pub open spec fn uuid_prefix_val(v: u128, d: int) -> u128 {
    if d == 0 {
        0u128
    } else {
        v >> (((32 - d) * 4) as u128)
    }
}

/// Law: the canonical text of an identity parses back to exactly that
/// identity.
pub proof fn lemma_uuid_round_trip(v: u128)
    ensures
        uuid_parse(uuid_seq(v)) == Some(v),
{
    assert(uuid_seq(v).len() == 36);
    lemma_uuid_parse_at(v, 0);
    assert(uuid_prefix_val(v, 0) == 0u128);
}

/// Parsing the canonical text of `v` from position `p`, with the digits
/// before `p` accumulated, yields `v`.
proof fn lemma_uuid_parse_at(v: u128, p: int)
    requires
        0 <= p <= 36,
    ensures
        uuid_parse_at(uuid_seq(v), p, uuid_prefix_val(v, digit_index(p))) == Some(v),
    decreases 36 - p,
{
    let s = uuid_seq(v);
    if p == 36 {
        assert(digit_index(36) == 32);
        assert(v >> 0u128 == v) by (bit_vector);
        assert(uuid_prefix_val(v, 32) == v);
    } else if is_hyphen_pos(p) {
        assert(s[p] == '-');
        assert(digit_index(p + 1) == digit_index(p));
        lemma_uuid_parse_at(v, p + 1);
    } else {
        let d = digit_index(p);
        assert(0 <= d < 32);
        assert(digit_index(p + 1) == d + 1);
        let shn: u128 = ((31 - d) * 4) as u128;
        let nib = uuid_nibble(v, d);
        assert(nib == ((v >> shn) & 0xf) as u8);
        assert(((v >> shn) & 0xf) < 16) by (bit_vector);
        assert(s[p] == hex_char(nib));
        assert(hex_val(hex_char(nib)) == Some(nib));
        let acc = uuid_prefix_val(v, d);
        if d == 0 {
            assert(shn == 124);
            assert((0u128 * 16 + ((v >> 124u128) & 0xf)) as u128 == v >> ((
            (32 - 1) * 4) as u128)) by (bit_vector);
            assert((acc * 16 + nib) as u128 == uuid_prefix_val(v, 1));
        } else {
            let sh: u128 = ((32 - d) * 4) as u128;
            assert(acc == v >> sh);
            assert(sh == shn + 4 && shn <= 120) by {
                assert(1 <= d <= 31);
            }
            assert(((v >> sh) * 16 + ((v >> shn) & 0xf)) as u128 == v >> shn) by (bit_vector)
                requires
                    sh == shn + 4,
                    shn <= 120,
            ;
            assert((acc * 16 + nib) as u128 == v >> (((32 - (d + 1)) * 4) as u128));
            assert((acc * 16 + nib) as u128 == uuid_prefix_val(v, d + 1));
        }
        lemma_uuid_parse_at(v, p + 1);
    }
}

} // verus!
