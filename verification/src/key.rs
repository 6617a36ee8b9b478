//! The pre-shared key: its hex notation and how a configured key is read.

use vstd::prelude::*;
use vstd::utf8::*;
use vstd::string::*;
use crate::text::{ascii_chars, all_ascii, ascii_string, digit_char};

verus! {

broadcast use vstd::utf8::group_utf8_lib;

/// Length of the pre-shared key in bytes.
pub const KEY_LEN: usize = 32;

/// Why a configured key was refused.
#[derive(Debug, Clone, Copy, PartialEq, Eq, Structural)]
pub enum KeyError {
    /// The trimmed key is not 64 bytes long.
    Length,
    /// Some pair of characters is not a hexadecimal number.
    NotHex,
}

impl KeyError {
    /// The text shown to the user.
    pub fn message(&self) -> (s: String)
        ensures
            s@ == key_error_message(*self),
    {
        match self {
            KeyError::Length => "the key must be 64 hex characters; run `crisclip keygen`".to_owned(),
            KeyError::NotHex => "the key has non-hex characters".to_owned(),
        }
    }
}

/// The text shown for each refusal.
pub open spec fn key_error_message(e: KeyError) -> Seq<char> {
    match e {
        KeyError::Length => "the key must be 64 hex characters; run `crisclip keygen`"@,
        KeyError::NotHex => "the key has non-hex characters"@,
    }
}

/// The lower-case hexadecimal digit of a value below 16.
pub open spec fn hex_digit(d: nat) -> char {
    if d < 10 { digit_char(d) }
    else if d == 10 { 'a' }
    else if d == 11 { 'b' }
    else if d == 12 { 'c' }
    else if d == 13 { 'd' }
    else if d == 14 { 'e' }
    else { 'f' }
}

/// Two lower-case hexadecimal digits per byte, high nibble first.
pub open spec fn hex_chars(bytes: Seq<u8>) -> Seq<char> {
    Seq::new(
        bytes.len() * 2,
        |i: int|
            if i % 2 == 0 {
                hex_digit(bytes[i / 2] as nat / 16)
            } else {
                hex_digit(bytes[i / 2] as nat % 16)
            },
    )
}

fn hex_byte(d: u8) -> (b: u8)
    requires
        d < 16,
    ensures
        b < 128,
        b as char == hex_digit(d as nat),
{
    if d < 10 {
        48u8 + d
    } else {
        87u8 + d
    }
}

/// Lower-case hexadecimal notation of `bytes`, two digits per byte.
pub fn to_hex(bytes: &[u8]) -> (s: String)
    ensures
        s@ == hex_chars(bytes@),
{
    let mut out: Vec<u8> = Vec::new();
    let mut i: usize = 0;
    while i < bytes.len()
        invariant
            i <= bytes@.len(),
            out@.len() == 2 * i,
            all_ascii(out@),
            forall|j: int| 0 <= j < 2 * i ==> #[trigger] ascii_chars(out@)[j] == hex_chars(bytes@)[j],
        decreases bytes@.len() - i,
    {
        let b = bytes[i];
        let hi = hex_byte(b / 16);
        let lo = hex_byte(b % 16);
        let ghost before = out@;
        out.push(hi);
        out.push(lo);
        proof {
            assert forall|j: int| 0 <= j < 2 * (i + 1) implies #[trigger] ascii_chars(out@)[j]
                == hex_chars(bytes@)[j] by {
                assert(ascii_chars(out@)[j] == out@[j] as char);
                if j < 2 * i {
                    assert(out@[j] == before[j]);
                    assert(ascii_chars(before)[j] == before[j] as char);
                } else if j == 2 * i {
                    assert(j / 2 == i as int);
                    assert(j % 2 == 0);
                    assert(out@[j] == hi);
                    assert((b / 16) as nat == b as nat / 16);
                } else {
                    assert(j / 2 == i as int);
                    assert(j % 2 == 1);
                    assert(out@[j] == lo);
                    assert((b % 16) as nat == b as nat % 16);
                }
            }
        }
        i = i + 1;
    }
    let ghost o = out@;
    let s = ascii_string(out);
    proof {
        assert(ascii_chars(o) =~= hex_chars(bytes@));
    }
    s
}

// ---------------------------------------------------------------------------
// Reading a configured key
// ---------------------------------------------------------------------------

/// Unicode `White_Space`: the characters `str::trim` removes.
pub open spec fn is_white_space(c: char) -> bool {
    ||| '\u{9}' <= c <= '\u{d}'
    ||| c == ' '
    ||| c == '\u{85}'
    ||| c == '\u{a0}'
    ||| c == '\u{1680}'
    ||| '\u{2000}' <= c <= '\u{200a}'
    ||| c == '\u{2028}'
    ||| c == '\u{2029}'
    ||| c == '\u{202f}'
    ||| c == '\u{205f}'
    ||| c == '\u{3000}'
}

/// `s` without its leading white space.
pub open spec fn trim_start(s: Seq<char>) -> Seq<char>
    decreases s.len(),
{
    if s.len() > 0 && is_white_space(s[0]) {
        trim_start(s.drop_first())
    } else {
        s
    }
}

/// `s` without its trailing white space.
pub open spec fn trim_end(s: Seq<char>) -> Seq<char>
    decreases s.len(),
{
    if s.len() > 0 && is_white_space(s.last()) {
        trim_end(s.drop_last())
    } else {
        s
    }
}

/// `s` without leading and trailing white space.
pub open spec fn trim(s: Seq<char>) -> Seq<char> {
    trim_end(trim_start(s))
}

/// `str::trim`: removes leading and trailing characters with the Unicode
/// `White_Space` property, as its documentation says.
#[verifier::external_body]
fn str_trim(s: &str) -> (t: &str)
    ensures
        t@ == trim(s@),
{
    s.trim()
}

/// The value of an ASCII hexadecimal digit of either case.
pub open spec fn hex_value(b: u8) -> Option<u8> {
    if 0x30 <= b <= 0x39 {
        Some((b - 0x30) as u8)
    } else if 0x61 <= b <= 0x66 {
        Some((b - 0x61 + 10) as u8)
    } else if 0x41 <= b <= 0x46 {
        Some((b - 0x41 + 10) as u8)
    } else {
        None
    }
}

/// The byte that two hexadecimal digits `b0 b1` stand for, high digit
/// first; anything else (a sign included) is not hexadecimal.
pub open spec fn pair_value(b0: u8, b1: u8) -> Option<u8> {
    match (hex_value(b0), hex_value(b1)) {
        (Some(h), Some(l)) => Some((h * 16 + l) as u8),
        _ => None,
    }
}

/// The outcome of reading the 64 key bytes pair by pair from pair `i` on.
pub enum KeyScan {
    /// The slice of the next pair would split a character: the read panics.
    Splits,
    /// A pair is not a hexadecimal number.
    NotHex,
    /// Every pair was read; these are their values.
    Key(Seq<u8>),
}

/// Reads pairs `i..32` of the 64 bytes `b`.
pub open spec fn scan_pairs(b: Seq<u8>, i: int) -> KeyScan
    decreases 32 - i,
{
    if i >= 32 || i < 0 {
        KeyScan::Key(Seq::empty())
    } else if !is_char_boundary(b, 2 * i + 2) {
        KeyScan::Splits
    } else {
        match pair_value(b[2 * i], b[2 * i + 1]) {
            None => KeyScan::NotHex,
            Some(v) => match scan_pairs(b, i + 1) {
                KeyScan::Key(rest) => KeyScan::Key(seq![v] + rest),
                other => other,
            },
        }
    }
}

/// The bytes of the trimmed key.
pub open spec fn trimmed_key_bytes(s: Seq<char>) -> Seq<u8> {
    encode_utf8(trim(s))
}

/// Reading the configured key `s` slices it at a byte that is not a
/// character boundary, where slicing the string panics.
pub open spec fn key_read_splits(s: Seq<char>) -> bool {
    trimmed_key_bytes(s).len() == 64 && scan_pairs(trimmed_key_bytes(s), 0) is Splits
}

/// The result of reading the configured key `s`.
pub open spec fn parse_key_result(s: Seq<char>) -> Result<Seq<u8>, KeyError> {
    if trimmed_key_bytes(s).len() != 64 {
        Err(KeyError::Length)
    } else {
        match scan_pairs(trimmed_key_bytes(s), 0) {
            KeyScan::Key(k) => Ok(k),
            _ => Err(KeyError::NotHex),
        }
    }
}

fn hex_value_exec(b: u8) -> (r: Option<u8>)
    ensures
        r == hex_value(b),
{
    if 0x30 <= b && b <= 0x39 {
        Some(b - 0x30)
    } else if 0x61 <= b && b <= 0x66 {
        Some(b - 0x61 + 10)
    } else if 0x41 <= b && b <= 0x46 {
        Some(b - 0x41 + 10)
    } else {
        None
    }
}

fn pair_value_exec(b0: u8, b1: u8) -> (r: Option<u8>)
    ensures
        r == pair_value(b0, b1),
{
    match (hex_value_exec(b0), hex_value_exec(b1)) {
        (Some(h), Some(l)) => Some(h * 16 + l),
        _ => None,
    }
}

/// Prepends the values already read to the outcome of the remaining pairs.
pub open spec fn after_prefix(prefix: Seq<u8>, rest: KeyScan) -> KeyScan {
    match rest {
        KeyScan::Key(k) => KeyScan::Key(prefix + k),
        other => other,
    }
}

/// Whether reading the configured key would split a character, which
/// the daemon does not survive (slicing the string there panics).
pub fn key_read_would_split(hex: &str) -> (r: bool)
    ensures
        r == key_read_splits(hex@),
{
    let t = str_trim(hex);
    let b = t.as_bytes();
    proof {
        assert(b@ == trimmed_key_bytes(hex@));
    }
    if b.len() != 64 {
        return false;
    }
    let mut i: usize = 0;
    while i < 32
        invariant
            i <= 32,
            b@.len() == 64,
            b@ == trimmed_key_bytes(hex@),
            valid_utf8(b@),
            scan_pairs(b@, 0) is Splits <==> scan_pairs(b@, i as int) is Splits,
        decreases 32 - i,
    {
        let end = 2 * i + 2;
        let splits = end < 64 && 0x80 <= b[end] && b[end] <= 0xbf;
        proof {
            if end < 64 {
                is_char_boundary_iff_not_is_continuation_byte(b@, end as int);
            } else {
                is_char_boundary_start_end_of_seq(b@);
            }
        }
        if splits {
            assert(!is_char_boundary(b@, 2 * i + 2));
            assert(scan_pairs(b@, i as int) is Splits);
            return true;
        }
        assert(is_char_boundary(b@, 2 * i + 2));
        if pair_value_exec(b[2 * i], b[2 * i + 1]).is_none() {
            assert(scan_pairs(b@, i as int) is NotHex);
            return false;
        }
        i = i + 1;
    }
    false
}

/// Reads the configured pre-shared key: surrounding white space is
/// ignored, the rest must be 64 hexadecimal digits of either case, read
/// as 32 bytes, high digit first.
pub fn parse_key(hex: &str) -> (res: Result<[u8; 32], KeyError>)
    requires
        !key_read_splits(hex@),
    ensures
        match parse_key_result(hex@) {
            Ok(k) => res matches Ok(key) && key@ == k,
            Err(e) => res == Err::<[u8; 32], KeyError>(e),
        },
{
    let t = str_trim(hex);
    let b = t.as_bytes();
    proof {
        assert(b@ == trimmed_key_bytes(hex@));
    }
    if b.len() != 64 {
        return Err(KeyError::Length);
    }
    let mut key: [u8; 32] = [0u8; 32];
    let mut i: usize = 0;
    while i < 32
        invariant
            i <= 32,
            b@.len() == 64,
            b@ == trimmed_key_bytes(hex@),
            valid_utf8(b@),
            !(scan_pairs(b@, 0) is Splits),
            scan_pairs(b@, 0) == after_prefix(key@.subrange(0, i as int), scan_pairs(b@, i as int)),
        decreases 32 - i,
    {
        let end = 2 * i + 2;
        proof {
            if end < 64 {
                is_char_boundary_iff_not_is_continuation_byte(b@, end as int);
            } else {
                is_char_boundary_start_end_of_seq(b@);
            }
        }
        match pair_value_exec(b[2 * i], b[2 * i + 1]) {
            None => {
                return Err(KeyError::NotHex);
            },
            Some(v) => {
                let ghost old_key = key@;
                key[i] = v;
                proof {
                    assert(key@.subrange(0, i as int) =~= old_key.subrange(0, i as int));
                    assert(key@.subrange(0, i + 1) =~= key@.subrange(0, i as int) + seq![v]);
                    let rest = scan_pairs(b@, i + 1);
                    match rest {
                        KeyScan::Key(k) => {
                            assert(key@.subrange(0, i as int) + (seq![v] + k)
                                =~= key@.subrange(0, i + 1) + k);
                        },
                        _ => {},
                    }
                }
                i = i + 1;
            },
        }
    }
    proof {
        assert(key@.subrange(0, 32) =~= key@);
        assert(key@ + Seq::<u8>::empty() =~= key@);
    }
    Ok(key)
}

// ---------------------------------------------------------------------------
// The key written by `to_hex` is read back by `parse_key`
// ---------------------------------------------------------------------------

/// The upper-case form of a lower-case hexadecimal letter; any other
/// character stays as it is.
pub open spec fn hex_upper(c: char) -> char {
    if c == 'a' { 'A' }
    else if c == 'b' { 'B' }
    else if c == 'c' { 'C' }
    else if c == 'd' { 'D' }
    else if c == 'e' { 'E' }
    else if c == 'f' { 'F' }
    else { c }
}

/// `s` spells the hexadecimal digits of `key`, two per byte, high digit
/// first, each letter in either case.
pub open spec fn spells_hex_of(s: Seq<char>, key: Seq<u8>) -> bool {
    &&& s.len() == 2 * key.len()
    &&& forall|j: int|
        0 <= j < s.len() ==> #[trigger] s[j] == hex_chars(key)[j] || s[j] == hex_upper(hex_chars(key)[j])
}

/// Every value below 16 is written as its standard lower-case digit: the
/// ASCII digits `0` to `9` (0x30 on) for 0 to 9, then the letters `a` to
/// `f` (0x61 on) for 10 to 15, whose upper-case forms are `A` to `F`
/// (0x41 on).
pub proof fn lemma_hex_digit_is_standard(d: nat)
    requires
        d < 16,
    ensures
        d < 10 ==> hex_digit(d) as u8 == 0x30 + d,
        d < 10 ==> hex_upper(hex_digit(d)) == hex_digit(d),
        d >= 10 ==> hex_digit(d) as u8 == 0x61 + (d - 10),
        d >= 10 ==> hex_upper(hex_digit(d)) as u8 == 0x41 + (d - 10),
{
}

/// Hexadecimal digits of either case read as their values, and nothing
/// else is read as a digit: `hex_value` gives `d` for the lower-case digit
/// of `d` and for its upper-case form, and every byte it gives a value for
/// is one of those two forms of that value.
pub proof fn lemma_hex_value_reads_digits(d: nat, b: u8)
    requires
        d < 16,
    ensures
        hex_value(hex_digit(d) as u8) == Some(d as u8),
        hex_value(hex_upper(hex_digit(d)) as u8) == Some(d as u8),
        hex_value(b) matches Some(v) ==> v < 16 && (b == hex_digit(v as nat) as u8 || b == hex_upper(
            hex_digit(v as nat),
        ) as u8),
{
    lemma_hex_digit_is_standard(d);
    if let Some(v) = hex_value(b) {
        lemma_hex_digit_is_standard(v as nat);
    }
}

proof fn lemma_hex_digit_value(d: nat)
    requires
        d < 16,
    ensures
        hex_value(hex_digit(d) as u8) == Some(d as u8),
        hex_value(hex_upper(hex_digit(d)) as u8) == Some(d as u8),
        (hex_digit(d) as u8) < 128,
        '\0' <= hex_digit(d) <= '\u{7f}',
        '\0' <= hex_upper(hex_digit(d)) <= '\u{7f}',
        !is_white_space(hex_digit(d)),
        !is_white_space(hex_upper(hex_digit(d))),
{
    lemma_hex_value_reads_digits(d, 0);
}

proof fn lemma_hex_chars_ascii(key: Seq<u8>)
    ensures
        is_ascii_chars(hex_chars(key)),
{
    let h = hex_chars(key);
    assert forall|i| 0 <= i < h.len() implies '\0' <= #[trigger] h[i] <= '\u{7f}' by {
        lemma_hex_digit_value(key[i / 2] as nat / 16);
        lemma_hex_digit_value(key[i / 2] as nat % 16);
    }
}

proof fn lemma_scan_hex(key: Seq<u8>, s: Seq<char>, b: Seq<u8>, i: int)
    requires
        key.len() == 32,
        spells_hex_of(s, key),
        b.len() == 64,
        valid_utf8(b),
        0 <= i <= 32,
        forall|j: int| 0 <= j < 64 ==> #[trigger] b[j] == s[j] as u8,
    ensures
        scan_pairs(b, i) == KeyScan::Key(key.subrange(i, 32)),
    decreases 32 - i,
{
    if i == 32 {
        assert(key.subrange(32, 32) =~= Seq::<u8>::empty());
    } else {
        lemma_scan_hex(key, s, b, i + 1);
        let v = key[i];
        lemma_hex_digit_value(v as nat / 16);
        lemma_hex_digit_value(v as nat % 16);
        assert((2 * i) / 2 == i);
        assert((2 * i + 1) / 2 == i);
        assert(hex_chars(key)[2 * i] == hex_digit(v as nat / 16));
        assert(hex_chars(key)[2 * i + 1] == hex_digit(v as nat % 16));
        assert(s[2 * i] == hex_chars(key)[2 * i] || s[2 * i] == hex_upper(hex_chars(key)[2 * i]));
        assert(s[2 * i + 1] == hex_chars(key)[2 * i + 1] || s[2 * i + 1] == hex_upper(hex_chars(key)[2 * i + 1]));
        assert(b[2 * i] == s[2 * i] as u8);
        assert(b[2 * i + 1] == s[2 * i + 1] as u8);
        assert(hex_value(b[2 * i]) == Some((v as nat / 16) as u8));
        assert(hex_value(b[2 * i + 1]) == Some((v as nat % 16) as u8));
        assert(pair_value(b[2 * i], b[2 * i + 1]) == Some(v));
        if 2 * i + 2 < 64 {
            is_char_boundary_iff_not_is_continuation_byte(b, 2 * i + 2);
            let n = key[i + 1] as nat / 16;
            lemma_hex_digit_value(n);
            assert((2 * (i + 1)) / 2 == i + 1);
            assert(hex_chars(key)[2 * (i + 1)] == hex_digit(n));
            assert(s[2 * i + 2] == hex_chars(key)[2 * i + 2] || s[2 * i + 2] == hex_upper(hex_chars(key)[2 * i + 2]));
            assert(b[2 * i + 2] == s[2 * i + 2] as u8);
            assert(b[2 * i + 2] < 128);
        } else {
            is_char_boundary_start_end_of_seq(b);
        }
        assert(is_char_boundary(b, 2 * i + 2));
        assert(seq![v] + key.subrange(i + 1, 32) =~= key.subrange(i, 32));
    }
}

/// A key spelled in hexadecimal, with its letters in any mix of cases and
/// no white space around it, is read by `parse_key` as the 32 bytes it
/// spells: upper-case keys are accepted as well as the lower-case ones
/// that `to_hex` writes.
pub proof fn lemma_either_case_key_reads_back(key: Seq<u8>, s: Seq<char>)
    requires
        key.len() == KEY_LEN,
        spells_hex_of(s, key),
    ensures
        !key_read_splits(s),
        parse_key_result(s) == Ok::<Seq<u8>, KeyError>(key),
{
    let h = hex_chars(key);
    assert forall|j: int| 0 <= j < s.len() implies '\0' <= #[trigger] s[j] <= '\u{7f}' by {
        lemma_hex_digit_value(key[j / 2] as nat / 16);
        lemma_hex_digit_value(key[j / 2] as nat % 16);
        assert(s[j] == h[j] || s[j] == hex_upper(h[j]));
    }
    lemma_hex_digit_value(key[0] as nat / 16);
    lemma_hex_digit_value(key[31] as nat % 16);
    assert(h[0] == hex_digit(key[0] as nat / 16));
    assert(h[63] == hex_digit(key[31] as nat % 16)) by {
        assert(63int / 2 == 31);
    }
    assert(s[0] == h[0] || s[0] == hex_upper(h[0]));
    assert(s[63] == h[63] || s[63] == hex_upper(h[63]));
    assert(!is_white_space(s[0]));
    assert(!is_white_space(s.last()));
    assert(trim_start(s) == s);
    assert(trim_end(s) == s);
    assert(is_ascii_chars(s));
    is_ascii_chars_encode_utf8(s);
    let b = trimmed_key_bytes(s);
    assert(b == encode_utf8(s));
    assert(b.len() == 64);
    lemma_scan_hex(key, s, b, 0);
    assert(key.subrange(0, 32) =~= key);
}

/// Two digits read as one byte with the first digit high: the digits of
/// `high` and `low`, both in lower or both in upper case, read as
/// `16 * high + low`.
pub proof fn lemma_pair_high_digit_first(high: nat, low: nat)
    requires
        high < 16,
        low < 16,
    ensures
        pair_value(hex_digit(high) as u8, hex_digit(low) as u8) == Some((16 * high + low) as u8),
        pair_value(hex_upper(hex_digit(high)) as u8, hex_upper(hex_digit(low)) as u8) == Some(
            (16 * high + low) as u8,
        ),
{
    lemma_hex_value_reads_digits(high, 0);
    lemma_hex_value_reads_digits(low, 0);
}

proof fn lemma_trim_start_white(w: Seq<char>, t: Seq<char>)
    requires
        forall|i: int| 0 <= i < w.len() ==> is_white_space(#[trigger] w[i]),
        t.len() > 0,
        !is_white_space(t[0]),
    ensures
        trim_start(w + t) == t,
    decreases w.len(),
{
    if w.len() == 0 {
        assert(w + t =~= t);
    } else {
        assert((w + t)[0] == w[0]);
        assert((w + t).drop_first() =~= w.drop_first() + t);
        lemma_trim_start_white(w.drop_first(), t);
    }
}

proof fn lemma_trim_end_white(t: Seq<char>, w: Seq<char>)
    requires
        forall|i: int| 0 <= i < w.len() ==> is_white_space(#[trigger] w[i]),
        t.len() > 0,
        !is_white_space(t.last()),
    ensures
        trim_end(t + w) == t,
    decreases w.len(),
{
    if w.len() == 0 {
        assert(t + w =~= t);
    } else {
        assert((t + w).last() == w.last());
        assert((t + w).drop_last() =~= t + w.drop_last());
        lemma_trim_end_white(t, w.drop_last());
    }
}

/// White space around a key is ignored: a key spelled in hexadecimal
/// (either case) with any white space before and after it is read as the
/// same 32 bytes.
pub proof fn lemma_white_space_around_key_ignored(key: Seq<u8>, s: Seq<char>, before: Seq<char>, after: Seq<char>)
    requires
        key.len() == KEY_LEN,
        spells_hex_of(s, key),
        forall|i: int| 0 <= i < before.len() ==> is_white_space(#[trigger] before[i]),
        forall|i: int| 0 <= i < after.len() ==> is_white_space(#[trigger] after[i]),
    ensures
        !key_read_splits(before + s + after),
        parse_key_result(before + s + after) == Ok::<Seq<u8>, KeyError>(key),
{
    lemma_either_case_key_reads_back(key, s);
    let h = hex_chars(key);
    lemma_hex_digit_value(key[0] as nat / 16);
    lemma_hex_digit_value(key[31] as nat % 16);
    assert(h[0] == hex_digit(key[0] as nat / 16));
    assert(h[63] == hex_digit(key[31] as nat % 16)) by {
        assert(63int / 2 == 31);
    }
    assert(s[0] == h[0] || s[0] == hex_upper(h[0]));
    assert(s[63] == h[63] || s[63] == hex_upper(h[63]));
    let full = before + s + after;
    assert(full =~= before + (s + after));
    assert((s + after)[0] == s[0]);
    lemma_trim_start_white(before, s + after);
    lemma_trim_end_white(s, after);
    assert(trim(full) == s);
    assert(trim(s) == s) by {
        lemma_trim_start_white(Seq::<char>::empty(), s);
        assert(Seq::<char>::empty() + s =~= s);
        lemma_trim_end_white(s, Seq::<char>::empty());
        assert(s + Seq::<char>::empty() =~= s);
    }
    assert(trimmed_key_bytes(full) == trimmed_key_bytes(s));
}

/// A key written in hexadecimal by `to_hex` is read back by `parse_key`
/// as the same 32 bytes (so the key that `keygen` prints is accepted).
pub proof fn lemma_hex_key_reads_back(key: Seq<u8>)
    requires
        key.len() == KEY_LEN,
    ensures
        !key_read_splits(hex_chars(key)),
        parse_key_result(hex_chars(key)) == Ok::<Seq<u8>, KeyError>(key),
{
    lemma_hex_chars_ascii(key);
    lemma_either_case_key_reads_back(key, hex_chars(key));
}

} // verus!
