//! Boot configuration: the UEFI fallback loader name, GUID parsing into the
//! mixed-endian layout Windows stores, and the 88-byte GPT device element
//! that BCD objects use to name the Windows partition.

use vstd::prelude::*;
use crate::install::is_ascii_hexdigit;
use crate::text::{
    digit_of, is_sep, lemma_first_sep_in_range, scan_digits, ends_with, ends_with_exec, str_eq, trim, trimmed, chars_eq, chars_of, parse_unsigned, parse_unsigned_range, splitn, splitn_ranges, string_from,
    string_of_range, IntErrorKind, Sep,
};

verus! {

/// The UEFI default boot file name for an architecture: `bootaa64.efi` for
/// `arm64`, `bootia32.efi` for `x86`, `bootx64.efi` for anything else.
pub open spec fn spec_efi_boot_filename(arch: Seq<char>) -> Seq<char> {
    if arch == seq!['a', 'r', 'm', '6', '4'] {
        seq!['b', 'o', 'o', 't', 'a', 'a', '6', '4', '.', 'e', 'f', 'i']
    } else if arch == seq!['x', '8', '6'] {
        seq!['b', 'o', 'o', 't', 'i', 'a', '3', '2', '.', 'e', 'f', 'i']
    } else {
        seq!['b', 'o', 'o', 't', 'x', '6', '4', '.', 'e', 'f', 'i']
    }
}

/// Return the UEFI default boot filename for the given architecture.
/// uefi-ntfs looks for this file on the NTFS partition.
pub fn efi_boot_filename(arch: &str) -> (name: String)
    ensures
        name@ == spec_efi_boot_filename(arch@),
{
    let a = chars_of(arch);
    if chars_eq(a.as_slice(), &['a', 'r', 'm', '6', '4']) {
        string_from(&['b', 'o', 'o', 't', 'a', 'a', '6', '4', '.', 'e', 'f', 'i'])
    } else if chars_eq(a.as_slice(), &['x', '8', '6']) {
        string_from(&['b', 'o', 'o', 't', 'i', 'a', '3', '2', '.', 'e', 'f', 'i'])
    } else {
        string_from(&['b', 'o', 'o', 't', 'x', '6', '4', '.', 'e', 'f', 'i'])
    }
}

// ---------------------------------------------------------------------------
// GUID text
// ---------------------------------------------------------------------------

/// `c` is a curly brace.
pub open spec fn is_brace(c: char) -> bool {
    c == '{' || c == '}'
}

/// `s` without leading braces.
pub open spec fn trim_braces_start(s: Seq<char>) -> Seq<char>
    decreases s.len(),
{
    if s.len() > 0 && is_brace(s[0]) {
        trim_braces_start(s.drop_first())
    } else {
        s
    }
}

/// `s` without trailing braces.
pub open spec fn trim_braces_end(s: Seq<char>) -> Seq<char>
    decreases s.len(),
{
    if s.len() > 0 && is_brace(s.last()) {
        trim_braces_end(s.drop_last())
    } else {
        s
    }
}

/// `s.trim_matches(|c| c == '{' || c == '}')`.
pub open spec fn trim_braces(s: Seq<char>) -> Seq<char> {
    trim_braces_end(trim_braces_start(s))
}

/// Number of bytes of `c` in UTF-8.
pub open spec fn utf8_width(c: char) -> nat {
    let u = c as u32;
    if u < 0x80 {
        1
    } else if u < 0x800 {
        2
    } else if u < 0x10000 {
        3
    } else {
        4
    }
}

/// Number of bytes of `s` in UTF-8 (`str::len`).
pub open spec fn utf8_len(s: Seq<char>) -> nat
    decreases s.len(),
{
    if s.len() == 0 {
        0
    } else {
        utf8_len(s.drop_last()) + utf8_width(s.last())
    }
}

/// The number of leading characters of `s` that take exactly `b` bytes, if
/// byte `b` falls on a character boundary.
pub open spec fn chars_for_bytes(s: Seq<char>, b: nat) -> Option<nat>
    decreases s.len(),
{
    if b == 0 {
        Some(0)
    } else if s.len() == 0 || utf8_width(s[0]) > b {
        None
    } else {
        match chars_for_bytes(s.drop_first(), (b - utf8_width(s[0])) as nat) {
            Some(k) => Some(k + 1),
            None => None,
        }
    }
}

/// Bytes of `x` (below 2^32), least significant first.
pub open spec fn le32(x: nat) -> Seq<u8> {
    seq![(x % 256) as u8, ((x / 256) % 256) as u8, ((x / 65536) % 256) as u8, ((x / 16777216) % 256) as u8]
}

/// Bytes of `x` (below 2^16), least significant first.
pub open spec fn le16(x: nat) -> Seq<u8> {
    seq![(x % 256) as u8, ((x / 256) % 256) as u8]
}

/// Bytes of `x` (below 2^32), most significant first.
pub open spec fn be32(x: nat) -> Seq<u8> {
    seq![((x / 16777216) % 256) as u8, ((x / 65536) % 256) as u8, ((x / 256) % 256) as u8, (x % 256) as u8]
}

/// Bytes of `x` (below 2^16), most significant first.
pub open spec fn be16(x: nat) -> Seq<u8> {
    seq![((x / 256) % 256) as u8, (x % 256) as u8]
}

/// The 16 bytes Windows stores for a GUID `a-b-c-d-e` (`bytes_le`): the
/// first three fields little-endian, `d` and the 48-bit `e` (as `e_hi`, its
/// first 8 hex digits, and `e_lo`, its last 4) big-endian.
pub open spec fn guid_bytes(a: nat, b: nat, c: nat, d: nat, e_hi: nat, e_lo: nat) -> Seq<u8> {
    le32(a) + le16(b) + le16(c) + be16(d) + be32(e_hi) + be16(e_lo)
}

/// Why a GUID text was refused.
#[derive(Debug)]
pub enum GuidError {
    /// The text (braces trimmed) does not have five `-`-separated parts.
    Invalid(String),
    /// A field is not a hexadecimal number of its width.
    Number(IntErrorKind),
    /// The last part does not take 12 bytes.
    TailLength(String),
}

/// What parsing a GUID text comes to, with the texts of the errors as
/// character sequences. `TailSplitsChar`: byte 8 of the last part falls
/// inside a character, so the last part cannot be cut there (the text is
/// not accepted by [`parse_guid`]).
pub enum GuidOutcome {
    Bytes(Seq<u8>),
    Invalid(Seq<char>),
    Number(IntErrorKind),
    TailLength(Seq<char>),
    TailSplitsChar,
}

/// The outcome of parsing `s` as a GUID.
pub open spec fn spec_parse_guid(s: Seq<char>) -> GuidOutcome {
    let t = trim_braces(s);
    let parts = splitn(t, 5, Sep::Char('-'));
    if parts.len() != 5 {
        GuidOutcome::Invalid(t)
    } else {
        match parse_unsigned(parts[0], 16, 0xFFFF_FFFF) {
            Err(k) => GuidOutcome::Number(k),
            Ok(a) => match parse_unsigned(parts[1], 16, 0xFFFF) {
                Err(k) => GuidOutcome::Number(k),
                Ok(b) => match parse_unsigned(parts[2], 16, 0xFFFF) {
                    Err(k) => GuidOutcome::Number(k),
                    Ok(c) => match parse_unsigned(parts[3], 16, 0xFFFF) {
                        Err(k) => GuidOutcome::Number(k),
                        Ok(d) => {
                            let e = parts[4];
                            if utf8_len(e) != 12 {
                                GuidOutcome::TailLength(e)
                            } else {
                                match chars_for_bytes(e, 8) {
                                    None => GuidOutcome::TailSplitsChar,
                                    Some(k) => match parse_unsigned(e.take(k as int), 16, 0xFFFF_FFFF) {
                                        Err(x) => GuidOutcome::Number(x),
                                        Ok(e_hi) => match parse_unsigned(e.skip(k as int), 16, 0xFFFF) {
                                            Err(x) => GuidOutcome::Number(x),
                                            Ok(e_lo) => GuidOutcome::Bytes(guid_bytes(a, b, c, d, e_hi, e_lo)),
                                        },
                                    },
                                }
                            }
                        },
                    },
                },
            },
        }
    }
}

/// `r` is what the outcome `o` describes.
pub open spec fn guid_result_is(r: Result<[u8; 16], GuidError>, o: GuidOutcome) -> bool {
    match (r, o) {
        (Ok(v), GuidOutcome::Bytes(bs)) => v@ == bs,
        (Err(GuidError::Invalid(t)), GuidOutcome::Invalid(u)) => t@ == u,
        (Err(GuidError::Number(k)), GuidOutcome::Number(l)) => k == l,
        (Err(GuidError::TailLength(t)), GuidOutcome::TailLength(u)) => t@ == u,
        _ => false,
    }
}

/// The bounds of `trim_braces(cs[lo..hi])` inside `cs`.
fn trim_braces_range(cs: &[char], lo: usize, hi: usize) -> (r: (usize, usize))
    requires
        lo <= hi <= cs@.len(),
    ensures
        lo <= r.0 <= r.1 <= hi,
        cs@.subrange(r.0 as int, r.1 as int) == trim_braces(cs@.subrange(lo as int, hi as int)),
{
    let mut a = lo;
    while a < hi && (cs[a] == '{' || cs[a] == '}')
        invariant
            lo <= a <= hi <= cs@.len(),
            trim_braces_start(cs@.subrange(a as int, hi as int)) == trim_braces_start(
                cs@.subrange(lo as int, hi as int),
            ),
        decreases hi - a,
    {
        assert(cs@.subrange(a as int, hi as int).drop_first() =~= cs@.subrange(a + 1, hi as int));
        a = a + 1;
    }
    let mut b = hi;
    while b > a && (cs[b - 1] == '{' || cs[b - 1] == '}')
        invariant
            lo <= a <= b <= hi <= cs@.len(),
            trim_braces_end(cs@.subrange(a as int, b as int)) == trim_braces(
                cs@.subrange(lo as int, hi as int),
            ),
        decreases b - a,
    {
        assert(cs@.subrange(a as int, b as int).drop_last() =~= cs@.subrange(a as int, b - 1));
        b = b - 1;
    }
    (a, b)
}

/// Exec counterpart of [`utf8_width`].
fn utf8_width_exec(c: char) -> (w: u64)
    ensures
        w == utf8_width(c),
{
    let u = c as u32;
    if u < 0x80 {
        1
    } else if u < 0x800 {
        2
    } else if u < 0x10000 {
        3
    } else {
        4
    }
}

proof fn lemma_utf8_len_prefix(s: Seq<char>, k: int)
    requires
        0 <= k <= s.len(),
    ensures
        utf8_len(s.take(k)) <= utf8_len(s),
    decreases s.len(),
{
    if k < s.len() {
        assert(s.drop_last().take(k) =~= s.take(k));
        lemma_utf8_len_prefix(s.drop_last(), k);
    } else {
        assert(s.take(k) =~= s);
    }
}

/// Whether `cs[lo..hi]` takes exactly `target` bytes in UTF-8.
pub(crate) fn utf8_len_is(cs: &[char], lo: usize, hi: usize, target: u64) -> (b: bool)
    requires
        lo <= hi <= cs@.len(),
        target <= 0xFFFF,
    ensures
        b == (utf8_len(cs@.subrange(lo as int, hi as int)) == target),
{
    let mut acc: u64 = 0;
    let mut i = lo;
    while i < hi
        invariant
            lo <= i <= hi <= cs@.len(),
            acc <= target <= 0xFFFF,
            acc == utf8_len(cs@.subrange(lo as int, i as int)),
        decreases hi - i,
    {
        assert(cs@.subrange(lo as int, i + 1).drop_last() =~= cs@.subrange(lo as int, i as int));
        let w = utf8_width_exec(cs[i]);
        if acc + w > target {
            proof {
                assert(cs@.subrange(lo as int, hi as int).take(i + 1 - lo) =~= cs@.subrange(
                    lo as int,
                    i + 1,
                ));
                lemma_utf8_len_prefix(cs@.subrange(lo as int, hi as int), i + 1 - lo);
            }
            return false;
        }
        acc = acc + w;
        i = i + 1;
    }
    acc == target
}

/// The number of characters of `cs[lo..hi]` that take exactly `b` bytes.
pub(crate) fn chars_for_bytes_exec(cs: &[char], lo: usize, hi: usize, b: u64) -> (r: Option<usize>)
    requires
        lo <= hi <= cs@.len(),
    ensures
        r matches Some(k) ==> k <= hi - lo && chars_for_bytes(cs@.subrange(lo as int, hi as int), b as nat)
            == Some(k as nat),
        r is None ==> chars_for_bytes(cs@.subrange(lo as int, hi as int), b as nat) is None,
{
    let mut i = lo;
    let mut left = b;
    while left > 0
        invariant
            lo <= i <= hi <= cs@.len(),
            chars_for_bytes(cs@.subrange(lo as int, hi as int), b as nat) == (match chars_for_bytes(
                cs@.subrange(i as int, hi as int),
                left as nat,
            ) {
                Some(k) => Some((k + (i - lo)) as nat),
                None => None,
            }),
        decreases left,
    {
        if i == hi {
            return None;
        }
        let w = utf8_width_exec(cs[i]);
        if w > left {
            return None;
        }
        assert(cs@.subrange(i as int, hi as int).drop_first() =~= cs@.subrange(i + 1, hi as int));
        left = left - w;
        i = i + 1;
    }
    Some(i - lo)
}

/// The 16 bytes of [`guid_bytes`].
fn guid_array(a: u64, b: u64, c: u64, d: u64, e_hi: u64, e_lo: u64) -> (r: [u8; 16])
    requires
        a <= 0xFFFF_FFFF,
        b <= 0xFFFF,
        c <= 0xFFFF,
        d <= 0xFFFF,
        e_hi <= 0xFFFF_FFFF,
        e_lo <= 0xFFFF,
    ensures
        r@ == guid_bytes(a as nat, b as nat, c as nat, d as nat, e_hi as nat, e_lo as nat),
{
    let r: [u8; 16] = [
        (a % 256) as u8,
        ((a / 256) % 256) as u8,
        ((a / 65536) % 256) as u8,
        ((a / 16777216) % 256) as u8,
        (b % 256) as u8,
        ((b / 256) % 256) as u8,
        (c % 256) as u8,
        ((c / 256) % 256) as u8,
        ((d / 256) % 256) as u8,
        (d % 256) as u8,
        ((e_hi / 16777216) % 256) as u8,
        ((e_hi / 65536) % 256) as u8,
        ((e_hi / 256) % 256) as u8,
        (e_hi % 256) as u8,
        ((e_lo / 256) % 256) as u8,
        (e_lo % 256) as u8,
    ];
    assert(r@ =~= guid_bytes(a as nat, b as nat, c as nat, d as nat, e_hi as nat, e_lo as nat));
    r
}

/// What parsing `s` as a GUID comes to: `None` for
/// [`GuidOutcome::TailSplitsChar`], otherwise the result.
fn guid_outcome(s: &str) -> (r: Option<Result<[u8; 16], GuidError>>)
    ensures
        match r {
            Some(x) => guid_result_is(x, spec_parse_guid(s@)),
            None => spec_parse_guid(s@) is TailSplitsChar,
        },
{
    let cs = chars_of(s);
    let n = cs.len();
    let (lo, hi) = trim_braces_range(cs.as_slice(), 0, n);
    assert(cs@.subrange(0, n as int) =~= cs@);
    let ghost t = cs@.subrange(lo as int, hi as int);
    let parts = splitn_ranges(cs.as_slice(), lo, hi, 5, Sep::Char('-'));
    if parts.len() != 5 {
        return Some(Err(GuidError::Invalid(string_of_range(cs.as_slice(), lo, hi))));
    }
    let ghost ps = splitn(t, 5, Sep::Char('-'));
    assert(ps.len() == 5);
    let (p0, q0) = parts[0];
    let (p1, q1) = parts[1];
    let (p2, q2) = parts[2];
    let (p3, q3) = parts[3];
    let (p4, q4) = parts[4];
    assert(cs@.subrange(p0 as int, q0 as int) == ps[0]);
    assert(cs@.subrange(p1 as int, q1 as int) == ps[1]);
    assert(cs@.subrange(p2 as int, q2 as int) == ps[2]);
    assert(cs@.subrange(p3 as int, q3 as int) == ps[3]);
    assert(cs@.subrange(p4 as int, q4 as int) == ps[4]);
    let a = match parse_unsigned_range(cs.as_slice(), p0, q0, 16, 0xFFFF_FFFF) {
        Ok(v) => v,
        Err(k) => {
            return Some(Err(GuidError::Number(k)));
        },
    };
    let b = match parse_unsigned_range(cs.as_slice(), p1, q1, 16, 0xFFFF) {
        Ok(v) => v,
        Err(k) => {
            return Some(Err(GuidError::Number(k)));
        },
    };
    let c = match parse_unsigned_range(cs.as_slice(), p2, q2, 16, 0xFFFF) {
        Ok(v) => v,
        Err(k) => {
            return Some(Err(GuidError::Number(k)));
        },
    };
    let d = match parse_unsigned_range(cs.as_slice(), p3, q3, 16, 0xFFFF) {
        Ok(v) => v,
        Err(k) => {
            return Some(Err(GuidError::Number(k)));
        },
    };
    proof {
        crate::text::lemma_scan_bound_parse(ps[0], 16, 0xFFFF_FFFF);
        crate::text::lemma_scan_bound_parse(ps[1], 16, 0xFFFF);
        crate::text::lemma_scan_bound_parse(ps[2], 16, 0xFFFF);
        crate::text::lemma_scan_bound_parse(ps[3], 16, 0xFFFF);
    }
    if !utf8_len_is(cs.as_slice(), p4, q4, 12) {
        return Some(Err(GuidError::TailLength(string_of_range(cs.as_slice(), p4, q4))));
    }
    let k = match chars_for_bytes_exec(cs.as_slice(), p4, q4, 8) {
        Some(k) => k,
        None => {
            return None;
        },
    };
    let ghost e = ps[4];
    assert(e.take(k as int) =~= cs@.subrange(p4 as int, (p4 + k) as int));
    assert(e.skip(k as int) =~= cs@.subrange((p4 + k) as int, q4 as int));
    let e_hi = match parse_unsigned_range(cs.as_slice(), p4, p4 + k, 16, 0xFFFF_FFFF) {
        Ok(v) => v,
        Err(x) => {
            return Some(Err(GuidError::Number(x)));
        },
    };
    let e_lo = match parse_unsigned_range(cs.as_slice(), p4 + k, q4, 16, 0xFFFF) {
        Ok(v) => v,
        Err(x) => {
            return Some(Err(GuidError::Number(x)));
        },
    };
    proof {
        crate::text::lemma_scan_bound_parse(e.take(k as int), 16, 0xFFFF_FFFF);
        crate::text::lemma_scan_bound_parse(e.skip(k as int), 16, 0xFFFF);
    }
    Some(Ok(guid_array(a, b, c, d, e_hi, e_lo)))
}

/// Parse a GUID string into Windows mixed-endian bytes (bytes_le).
///
/// Surrounding braces are ignored; the five `-`-separated fields are
/// hexadecimal numbers of 32, 16, 16, 16 bits, and the last field must take
/// 12 bytes, the first 8 of which form a 32-bit and the last 4 a 16-bit
/// number. A text whose last field cannot be cut after its 8th byte is not
/// accepted (see [`guid_cuts_cleanly`]).
pub fn parse_guid(s: &str) -> (r: Result<[u8; 16], GuidError>)
    requires
        !(spec_parse_guid(s@) is TailSplitsChar),
    ensures
        guid_result_is(r, spec_parse_guid(s@)),
{
    match guid_outcome(s) {
        Some(r) => r,
        None => Err(GuidError::Invalid(String::new())),
    }
}

/// Whether [`parse_guid`] accepts `s`: unless its last field takes 12
/// bytes that cannot be cut after the 8th.
pub fn guid_cuts_cleanly(s: &str) -> (b: bool)
    ensures
        b == !(spec_parse_guid(s@) is TailSplitsChar),
{
    guid_outcome(s).is_some()
}

/// The 88-byte BCD device element naming GPT partition `part` of disk
/// `disk` (both given as their 16 GUID bytes): zero except for the value 6
/// (little-endian 32-bit) at byte 16, 0x48 at byte 24, the partition GUID at
/// bytes 32..48 and the disk GUID at bytes 64..80.
pub open spec fn gpt_device(part: Seq<u8>, disk: Seq<u8>) -> Seq<u8> {
    Seq::new(
        88,
        |i: int|
            if 32 <= i < 48 {
                part[i - 32]
            } else if 64 <= i < 80 {
                disk[i - 64]
            } else if i == 16 {
                6u8
            } else if i == 24 {
                0x48u8
            } else {
                0u8
            },
    )
}

/// What [`make_gpt_device`] decides: the device element, or the outcome of
/// the first GUID that failed (the partition's is parsed first).
pub open spec fn spec_make_gpt_device(part_guid: Seq<char>, disk_guid: Seq<char>) -> GuidOutcome {
    match spec_parse_guid(part_guid) {
        GuidOutcome::Bytes(p) => match spec_parse_guid(disk_guid) {
            GuidOutcome::Bytes(d) => GuidOutcome::Bytes(gpt_device(p, d)),
            other => other,
        },
        other => other,
    }
}

/// `r` is what the outcome `o` describes.
pub open spec fn device_result_is(r: Result<[u8; 88], GuidError>, o: GuidOutcome) -> bool {
    match (r, o) {
        (Ok(v), GuidOutcome::Bytes(bs)) => v@ == bs,
        (Err(GuidError::Invalid(t)), GuidOutcome::Invalid(u)) => t@ == u,
        (Err(GuidError::Number(k)), GuidOutcome::Number(l)) => k == l,
        (Err(GuidError::TailLength(t)), GuidOutcome::TailLength(u)) => t@ == u,
        _ => false,
    }
}

/// The BCD device element for Windows partition `part_guid` on the disk
/// whose partition table has GUID `disk_guid`.
pub fn make_gpt_device(part_guid: &str, disk_guid: &str) -> (r: Result<[u8; 88], GuidError>)
    requires
        !(spec_make_gpt_device(part_guid@, disk_guid@) is TailSplitsChar),
    ensures
        device_result_is(r, spec_make_gpt_device(part_guid@, disk_guid@)),
{
    let p = match parse_guid(part_guid) {
        Ok(p) => p,
        Err(e) => {
            return Err(e);
        },
    };
    let d = match parse_guid(disk_guid) {
        Ok(d) => d,
        Err(e) => {
            return Err(e);
        },
    };
    let mut data = [0u8; 88];
    data[16] = 6;
    data[24] = 0x48;
    let mut i: usize = 0;
    while i < 16
        invariant
            0 <= i <= 16,
            forall|j: int|
                0 <= j < 88 ==> #[trigger] data@[j] == (if 32 <= j < 32 + i {
                    p@[j - 32]
                } else if 64 <= j < 64 + i {
                    d@[j - 64]
                } else if j == 16 {
                    6u8
                } else if j == 24 {
                    0x48u8
                } else {
                    0u8
                }),
        decreases 16 - i,
    {
        data[32 + i] = p[i];
        data[64 + i] = d[i];
        i = i + 1;
    }
    assert(data@ =~= gpt_device(p@, d@));
    Ok(data)
}

/// Whether [`make_gpt_device`] accepts the two GUID texts: the first GUID
/// that is not valid, if any, is not one whose last field cannot be cut.
pub fn gpt_device_cuts_cleanly(part_guid: &str, disk_guid: &str) -> (b: bool)
    ensures
        b == !(spec_make_gpt_device(part_guid@, disk_guid@) is TailSplitsChar),
{
    match guid_outcome(part_guid) {
        None => false,
        Some(Err(_)) => true,
        Some(Ok(_)) => guid_outcome(disk_guid).is_some(),
    }
}

} // verus!

verus! {

// ---------------------------------------------------------------------------
// What the boot tools answer
// ---------------------------------------------------------------------------

/// The value `blkid -o value -s <tag>` printed: its output without
/// surrounding whitespace, or `None` where nothing is left (no such tag).
pub fn blkid_value(stdout: &str) -> (r: Option<String>)
    ensures
        r matches Some(v) ==> v@ == trim(stdout@) && v@.len() > 0,
        r is None ==> trim(stdout@).len() == 0,
{
    let v = trimmed(stdout);
    if v.unicode_len() == 0 {
        None
    } else {
        Some(v)
    }
}

/// Whether the probe `perl -e 'use Win::Hivex; print 1'` found the module:
/// it printed `1`, surrounding whitespace aside.
pub fn hivex_available(stdout: &str) -> (b: bool)
    ensures
        b == (trim(stdout@) == "1"@),
{
    let t = trimmed(stdout);
    str_eq(t.as_str(), "1")
}

/// Whether the BCD-writing script succeeded: it exited successfully and its
/// output, surrounding whitespace aside, ends with `ok`.
pub fn bcd_script_succeeded(exit_success: bool, stdout: &str) -> (b: bool)
    ensures
        b == (exit_success && ends_with(trim(stdout@), "ok"@)),
{
    if !exit_success {
        return false;
    }
    let t = chars_of(trimmed(stdout).as_str());
    ends_with_exec(t.as_slice(), "ok")
}

} // verus!

verus! {

// ---------------------------------------------------------------------------
// GUIDs in their usual text form
// ---------------------------------------------------------------------------

/// `s` is a group of `n` hexadecimal digits.
pub open spec fn is_hex_group(s: Seq<char>, n: nat) -> bool {
    s.len() == n && forall|i: int| 0 <= i < n ==> is_ascii_hexdigit(#[trigger] s[i])
}

/// A GUID in its usual text form: the groups joined by `-`.
pub open spec fn guid_text(a: Seq<char>, b: Seq<char>, c: Seq<char>, d: Seq<char>, e: Seq<char>) -> Seq<char> {
    a + seq!['-'] + b + seq!['-'] + c + seq!['-'] + d + seq!['-'] + e
}

/// The value of the hexadecimal digits `s` read after the value `acc`.
pub open spec fn hex_fold(s: Seq<char>, acc: nat) -> nat
    decreases s.len(),
{
    if s.len() == 0 {
        acc
    } else {
        hex_fold(s.drop_first(), acc * 16 + digit_of(s[0], 16)->0)
    }
}

/// The value of the hexadecimal digits `s`.
pub open spec fn hex_value(s: Seq<char>) -> nat {
    hex_fold(s, 0)
}

/// `16` to the power `n`.
pub open spec fn pow16(n: nat) -> nat
    decreases n,
{
    if n == 0 {
        1
    } else {
        16 * pow16((n - 1) as nat)
    }
}

proof fn lemma_hex_digit(c: char)
    requires
        is_ascii_hexdigit(c),
    ensures
        digit_of(c, 16) is Some,
        digit_of(c, 16)->0 < 16,
        utf8_width(c) == 1,
        !is_brace(c),
        c != '-' && c != '+',
{
}

proof fn lemma_hex_fold_grows(s: Seq<char>, acc: nat)
    requires
        forall|i: int| 0 <= i < s.len() ==> is_ascii_hexdigit(#[trigger] s[i]),
    ensures
        hex_fold(s, acc) >= acc,
    decreases s.len(),
{
    if s.len() > 0 {
        lemma_hex_digit(s[0]);
        lemma_hex_fold_grows(s.drop_first(), acc * 16 + digit_of(s[0], 16)->0);
    }
}

proof fn lemma_hex_fold_bound(s: Seq<char>, acc: nat)
    requires
        forall|i: int| 0 <= i < s.len() ==> is_ascii_hexdigit(#[trigger] s[i]),
    ensures
        hex_fold(s, acc) + 1 <= (acc + 1) * pow16(s.len()),
    decreases s.len(),
{
    if s.len() > 0 {
        lemma_hex_digit(s[0]);
        let d = digit_of(s[0], 16)->0;
        let p = pow16((s.len() - 1) as nat);
        lemma_hex_fold_bound(s.drop_first(), acc * 16 + d);
        assert(hex_fold(s, acc) == hex_fold(s.drop_first(), acc * 16 + d));
        assert(pow16(s.len()) == 16 * p);
        assert((acc * 16 + d + 1) * p <= (acc + 1) * (16 * p)) by (nonlinear_arith)
            requires
                d < 16,
        ;
    } else {
        assert(pow16(0) == 1);
        assert((acc + 1) * pow16(0) == acc + 1);
    }
}

proof fn lemma_scan_hex(s: Seq<char>, max: nat, acc: nat)
    requires
        forall|i: int| 0 <= i < s.len() ==> is_ascii_hexdigit(#[trigger] s[i]),
        hex_fold(s, acc) <= max,
    ensures
        scan_digits(s, 16, max, acc) == Ok::<nat, IntErrorKind>(hex_fold(s, acc)),
    decreases s.len(),
{
    if s.len() > 0 {
        lemma_hex_digit(s[0]);
        let next = acc * 16 + digit_of(s[0], 16)->0;
        lemma_hex_fold_grows(s.drop_first(), next);
        lemma_scan_hex(s.drop_first(), max, next);
    }
}

/// A group of `n` hexadecimal digits reads as a number of `n` digits.
proof fn lemma_hex_group_parses(s: Seq<char>, n: nat, max: nat)
    requires
        is_hex_group(s, n),
        n > 0,
        pow16(n) <= max + 1,
    ensures
        parse_unsigned(s, 16, max) == Ok::<nat, IntErrorKind>(hex_value(s)),
{
    lemma_hex_digit(s[0]);
    lemma_hex_fold_bound(s, 0);
    assert((0 + 1) * pow16(n) == pow16(n)) by (nonlinear_arith);
    lemma_scan_hex(s, max, 0);
}

proof fn lemma_ascii_utf8(s: Seq<char>, b: nat)
    requires
        forall|i: int| 0 <= i < s.len() ==> is_ascii_hexdigit(#[trigger] s[i]),
        b <= s.len(),
    ensures
        utf8_len(s) == s.len(),
        chars_for_bytes(s, b) == Some(b),
    decreases s.len(),
{
    if s.len() > 0 {
        lemma_hex_digit(s.last());
        lemma_hex_digit(s[0]);
        lemma_ascii_utf8(s.drop_last(), 0);
        if b > 0 {
            lemma_ascii_utf8(s.drop_first(), (b - 1) as nat);
        }
    }
}

/// Splitting at the first `-` after a piece without one.
proof fn lemma_split_dash(x: Seq<char>, rest: Seq<char>, n: nat)
    requires
        n >= 2,
        forall|i: int| 0 <= i < x.len() ==> is_ascii_hexdigit(#[trigger] x[i]),
    ensures
        splitn(x + seq!['-'] + rest, n, Sep::Char('-')) == seq![x] + splitn(
            rest,
            (n - 1) as nat,
            Sep::Char('-'),
        ),
{
    let s = x + seq!['-'] + rest;
    assert forall|j: int| 0 <= j < x.len() implies !is_sep(Sep::Char('-'), s[j]) by {
        assert(s[j] == x[j]);
        lemma_hex_digit(x[j]);
    }
    assert(s[x.len() as int] == '-');
    lemma_first_sep_in_range(s, Sep::Char('-'), 0, s.len() as int, x.len() as int);
    assert(s.subrange(0, s.len() as int) =~= s);
    assert(s.take(x.len() as int) =~= x);
    assert(s.skip(x.len() as int + 1) =~= rest);
}

/// Every GUID in its usual text form, bare or in braces, is accepted, and
/// its bytes are the values of its groups laid out mixed-endian (the last
/// group read as 8 and 4 digits).
pub proof fn law_guid_text_parses(
    a: Seq<char>,
    b: Seq<char>,
    c: Seq<char>,
    d: Seq<char>,
    e: Seq<char>,
    braced: bool,
)
    requires
        is_hex_group(a, 8),
        is_hex_group(b, 4),
        is_hex_group(c, 4),
        is_hex_group(d, 4),
        is_hex_group(e, 12),
    ensures
        spec_parse_guid(
            if braced {
                seq!['{'] + guid_text(a, b, c, d, e) + seq!['}']
            } else {
                guid_text(a, b, c, d, e)
            },
        ) == GuidOutcome::Bytes(
            guid_bytes(
                hex_value(a),
                hex_value(b),
                hex_value(c),
                hex_value(d),
                hex_value(e.take(8)),
                hex_value(e.skip(8)),
            ),
        ),
{
    let g = guid_text(a, b, c, d, e);
    let s = if braced {
        seq!['{'] + g + seq!['}']
    } else {
        g
    };
    // The braces go, the groups stay.
    lemma_hex_digit(a[0]);
    lemma_hex_digit(e[11]);
    assert(g[0] == a[0]);
    assert(g.last() == e[11]);
    if braced {
        assert(s.drop_first() =~= g + seq!['}']);
        assert((g + seq!['}'])[0] == a[0]);
        assert(trim_braces_start(s) == trim_braces_start(g + seq!['}']));
        assert((g + seq!['}']).drop_last() =~= g);
        assert(trim_braces_end(g + seq!['}']) == trim_braces_end(g));
    }
    assert(trim_braces(s) == g);
    // Five groups.
    let r1 = b + seq!['-'] + c + seq!['-'] + d + seq!['-'] + e;
    let r2 = c + seq!['-'] + d + seq!['-'] + e;
    let r3 = d + seq!['-'] + e;
    assert(g =~= a + seq!['-'] + r1);
    assert(r1 =~= b + seq!['-'] + r2);
    assert(r2 =~= c + seq!['-'] + r3);
    lemma_split_dash(a, r1, 5);
    lemma_split_dash(b, r2, 4);
    lemma_split_dash(c, r3, 3);
    lemma_split_dash(d, e, 2);
    let parts = splitn(g, 5, Sep::Char('-'));
    assert(parts =~= seq![a, b, c, d, e]);
    // Each group is a number of its width.
    assert(pow16(4) == 65536) by {
        reveal_with_fuel(pow16, 5);
    }
    assert(pow16(8) == 4294967296) by {
        reveal_with_fuel(pow16, 9);
    }
    lemma_hex_group_parses(a, 8, 0xFFFF_FFFF);
    lemma_hex_group_parses(b, 4, 0xFFFF);
    lemma_hex_group_parses(c, 4, 0xFFFF);
    lemma_hex_group_parses(d, 4, 0xFFFF);
    lemma_ascii_utf8(e, 8);
    assert(is_hex_group(e.take(8), 8));
    assert(is_hex_group(e.skip(8), 4));
    lemma_hex_group_parses(e.take(8), 8, 0xFFFF_FFFF);
    lemma_hex_group_parses(e.skip(8), 4, 0xFFFF);
}

} // verus!

verus! {

// ---------------------------------------------------------------------------
// From bytes to GUID text and back
// ---------------------------------------------------------------------------

/// Bytes `b[0..4]` read little-endian.
pub open spec fn le_u32(b: Seq<u8>) -> nat {
    (b[0] + 256 * b[1] + 65536 * b[2] + 16777216 * b[3]) as nat
}

/// Bytes `b[0..2]` read little-endian.
pub open spec fn le_u16(b: Seq<u8>) -> nat {
    (b[0] + 256 * b[1]) as nat
}

/// Bytes `b[0..2]` read big-endian.
pub open spec fn be_u16(b: Seq<u8>) -> nat {
    (256 * b[0] + b[1]) as nat
}

/// Bytes `b[0..4]` read big-endian.
pub open spec fn be_u32(b: Seq<u8>) -> nat {
    (16777216 * b[0] + 65536 * b[1] + 256 * b[2] + b[3]) as nat
}

/// Bytes `b[0..6]` read big-endian.
pub open spec fn be_u48(b: Seq<u8>) -> nat {
    (be_u32(b.take(4)) * 65536 + be_u16(b.skip(4))) as nat
}

proof fn lemma_le32_bytes(b0: u8, b1: u8, b2: u8, b3: u8)
    ensures
        le32((b0 + 256 * b1 + 65536 * b2 + 16777216 * b3) as nat) == seq![b0, b1, b2, b3],
{
    let x: int = b0 + 256 * b1 + 65536 * b2 + 16777216 * b3;
    assert(x % 256 == b0 && (x / 256) % 256 == b1 && (x / 65536) % 256 == b2 && (x / 16777216)
        % 256 == b3) by (nonlinear_arith)
        requires
            x == b0 + 256 * b1 + 65536 * b2 + 16777216 * b3,
            0 <= b0 < 256,
            0 <= b1 < 256,
            0 <= b2 < 256,
            0 <= b3 < 256,
    ;
    assert(le32(x as nat) =~= seq![b0, b1, b2, b3]);
}

proof fn lemma_be32_bytes(b0: u8, b1: u8, b2: u8, b3: u8)
    ensures
        be32((16777216 * b0 + 65536 * b1 + 256 * b2 + b3) as nat) == seq![b0, b1, b2, b3],
{
    lemma_le32_bytes(b3, b2, b1, b0);
    let x: int = 16777216 * b0 + 65536 * b1 + 256 * b2 + b3;
    assert(x == b3 + 256 * b2 + 65536 * b1 + 16777216 * b0);
    assert(be32(x as nat) =~= seq![b0, b1, b2, b3]);
}

proof fn lemma_16_bytes(b0: u8, b1: u8)
    ensures
        le16((b0 + 256 * b1) as nat) == seq![b0, b1],
        be16((256 * b0 + b1) as nat) == seq![b0, b1],
{
    let x: int = b0 + 256 * b1;
    let y: int = 256 * b0 + b1;
    assert(x % 256 == b0 && (x / 256) % 256 == b1 && y % 256 == b1 && (y / 256) % 256 == b0)
        by (nonlinear_arith)
        requires
            x == b0 + 256 * b1,
            y == 256 * b0 + b1,
            0 <= b0 < 256,
            0 <= b1 < 256,
    ;
    assert(le16(x as nat) =~= seq![b0, b1]);
    assert(be16(y as nat) =~= seq![b0, b1]);
}

/// The bytes are what their values lay out.
proof fn lemma_guid_bytes_of(b: Seq<u8>)
    requires
        b.len() == 16,
    ensures
        guid_bytes(
            le_u32(b.subrange(0, 4)),
            le_u16(b.subrange(4, 6)),
            le_u16(b.subrange(6, 8)),
            be_u16(b.subrange(8, 10)),
            be_u32(b.subrange(10, 14)),
            be_u16(b.subrange(14, 16)),
        ) == b,
{
    lemma_le32_bytes(b[0], b[1], b[2], b[3]);
    lemma_16_bytes(b[4], b[5]);
    lemma_16_bytes(b[6], b[7]);
    lemma_16_bytes(b[8], b[9]);
    lemma_be32_bytes(b[10], b[11], b[12], b[13]);
    lemma_16_bytes(b[14], b[15]);
    let g = guid_bytes(
        le_u32(b.subrange(0, 4)),
        le_u16(b.subrange(4, 6)),
        le_u16(b.subrange(6, 8)),
        be_u16(b.subrange(8, 10)),
        be_u32(b.subrange(10, 14)),
        be_u16(b.subrange(14, 16)),
    );
    assert(g =~= b);
}

/// Reading digits after `acc` is reading them alone, shifted by `acc`.
proof fn lemma_hex_fold_shift(s: Seq<char>, acc: nat)
    ensures
        hex_fold(s, acc) == acc * pow16(s.len()) + hex_fold(s, 0),
    decreases s.len(),
{
    if s.len() == 0 {
        assert(pow16(0) == 1);
        assert(acc * pow16(0) == acc) by (nonlinear_arith)
            requires
                pow16(0) == 1,
        ;
    } else {
        let d = digit_of(s[0], 16)->0;
        let p = pow16((s.len() - 1) as nat);
        lemma_hex_fold_shift(s.drop_first(), acc * 16 + d);
        lemma_hex_fold_shift(s.drop_first(), d);
        assert(0 * 16 + d == d);
        assert((acc * 16 + d) * p == acc * (16 * p) + d * p) by (nonlinear_arith);
    }
}

/// The value of digits split in two.
proof fn lemma_hex_value_split(s: Seq<char>, k: int)
    requires
        0 <= k <= s.len(),
    ensures
        hex_value(s) == hex_value(s.take(k)) * pow16((s.len() - k) as nat) + hex_value(s.skip(k)),
    decreases k,
{
    if k == 0 {
        assert(s.skip(0) =~= s);
        assert(hex_value(s.take(0)) == 0);
        assert(0 * pow16(s.len()) == 0);
    } else {
        // hex_fold(s, 0) = hex_fold(s.skip(k), hex_fold(s.take(k), 0))
        lemma_hex_fold_concat(s.take(k), s.skip(k), 0);
        assert(s.take(k) + s.skip(k) =~= s);
        lemma_hex_fold_shift(s.skip(k), hex_value(s.take(k)));
    }
}

/// Reading `x + y` reads `x`, then `y`.
proof fn lemma_hex_fold_concat(x: Seq<char>, y: Seq<char>, acc: nat)
    ensures
        hex_fold(x + y, acc) == hex_fold(y, hex_fold(x, acc)),
    decreases x.len(),
{
    if x.len() > 0 {
        assert((x + y).drop_first() =~= x.drop_first() + y);
        assert((x + y)[0] == x[0]);
        lemma_hex_fold_concat(x.drop_first(), y, acc * 16 + digit_of(x[0], 16)->0);
    } else {
        assert(x + y =~= y);
    }
}

/// Any text of a GUID's 16 bytes in the usual form gives the bytes back:
/// when the groups are hexadecimal digits (either case) of the first four
/// bytes read little-endian, the next two and two little-endian, the next
/// two big-endian and the last six big-endian, parsing the text, bare or
/// in braces, yields exactly those 16 bytes.
pub proof fn law_guid_round_trip(
    b: Seq<u8>,
    ga: Seq<char>,
    gb: Seq<char>,
    gc: Seq<char>,
    gd: Seq<char>,
    ge: Seq<char>,
    braced: bool,
)
    requires
        b.len() == 16,
        is_hex_group(ga, 8) && hex_value(ga) == le_u32(b.subrange(0, 4)),
        is_hex_group(gb, 4) && hex_value(gb) == le_u16(b.subrange(4, 6)),
        is_hex_group(gc, 4) && hex_value(gc) == le_u16(b.subrange(6, 8)),
        is_hex_group(gd, 4) && hex_value(gd) == be_u16(b.subrange(8, 10)),
        is_hex_group(ge, 12) && hex_value(ge) == be_u48(b.subrange(10, 16)),
    ensures
        spec_parse_guid(
            if braced {
                seq!['{'] + guid_text(ga, gb, gc, gd, ge) + seq!['}']
            } else {
                guid_text(ga, gb, gc, gd, ge)
            },
        ) == GuidOutcome::Bytes(b),
{
    law_guid_text_parses(ga, gb, gc, gd, ge, braced);
    let hi = hex_value(ge.take(8));
    let lo = hex_value(ge.skip(8));
    assert(is_hex_group(ge.take(8), 8));
    assert(is_hex_group(ge.skip(8), 4));
    lemma_hex_value_split(ge, 8);
    assert(pow16(4) == 65536) by {
        reveal_with_fuel(pow16, 5);
    }
    lemma_hex_fold_bound(ge.skip(8), 0);
    assert((0 + 1) * pow16(4) == 65536) by (nonlinear_arith)
        requires
            pow16(4) == 65536,
    ;
    let e = b.subrange(10, 16);
    assert(e.take(4) =~= b.subrange(10, 14));
    assert(e.skip(4) =~= b.subrange(14, 16));
    let bh = be_u32(b.subrange(10, 14));
    let bl = be_u16(b.subrange(14, 16));
    assert(bl < 65536);
    assert(hi * 65536 + lo == bh * 65536 + bl);
    assert(hi == bh && lo == bl) by (nonlinear_arith)
        requires
            hi * 65536 + lo == bh * 65536 + bl,
            lo < 65536,
            bl < 65536,
    ;
    lemma_guid_bytes_of(b);
}

} // verus!

verus! {

// ---------------------------------------------------------------------------
// Creating the BCD store
// ---------------------------------------------------------------------------

/// One step of creating the BCD store; the caller performs it and reports
/// whether it succeeded (for a check, whether it passed).
#[derive(Clone, Copy, Debug, PartialEq, Eq, Structural)]
pub enum BcdStep {
    /// Probe for `Win::Hivex` (see [`hivex_available`]).
    ProbeHivex,
    /// Report whether the BCD template exists in the applied image.
    CheckTemplate,
    /// Read the disk's partition-table GUID (see [`blkid_value`]).
    ReadDiskGuid,
    /// Read the Windows partition's GUID.
    ReadPartGuid,
    /// Build the device element from the two GUIDs (see
    /// [`make_gpt_device`]).
    CheckDevice,
    /// Copy the template to the BCD store's place.
    CopyTemplate,
    /// Write the script that fills the store.
    WriteScript,
    /// Run the script (see [`bcd_script_succeeded`]).
    RunScript,
}

/// Why creating the BCD store stopped.
#[derive(Clone, Copy, Debug, PartialEq, Eq, Structural)]
pub enum BcdFailure {
    HivexMissing,
    TemplateMissing,
    NoDiskGuid,
    NoPartGuid,
    BadDevice,
    CopyFailed,
    ScriptNotWritten,
    ScriptFailed,
}

/// Where creating the BCD store stands.
#[derive(Clone, Copy, Debug, PartialEq, Eq, Structural)]
pub enum BcdPhase {
    Running(BcdStep),
    Done,
    Failed(BcdFailure),
}

/// The first phase.
pub open spec fn bcd_start() -> BcdPhase {
    BcdPhase::Running(BcdStep::ProbeHivex)
}

/// The position of `step` in the order the steps run.
pub open spec fn bcd_index(step: BcdStep) -> nat {
    match step {
        BcdStep::ProbeHivex => 0,
        BcdStep::CheckTemplate => 1,
        BcdStep::ReadDiskGuid => 2,
        BcdStep::ReadPartGuid => 3,
        BcdStep::CheckDevice => 4,
        BcdStep::CopyTemplate => 5,
        BcdStep::WriteScript => 6,
        BcdStep::RunScript => 7,
    }
}

/// The phase after `step` reported `ok`: every step must succeed, in
/// order; the first that does not stops the creation.
pub open spec fn spec_bcd_after(step: BcdStep, ok: bool) -> BcdPhase {
    if !ok {
        BcdPhase::Failed(
            match step {
                BcdStep::ProbeHivex => BcdFailure::HivexMissing,
                BcdStep::CheckTemplate => BcdFailure::TemplateMissing,
                BcdStep::ReadDiskGuid => BcdFailure::NoDiskGuid,
                BcdStep::ReadPartGuid => BcdFailure::NoPartGuid,
                BcdStep::CheckDevice => BcdFailure::BadDevice,
                BcdStep::CopyTemplate => BcdFailure::CopyFailed,
                BcdStep::WriteScript => BcdFailure::ScriptNotWritten,
                BcdStep::RunScript => BcdFailure::ScriptFailed,
            },
        )
    } else {
        match step {
            BcdStep::ProbeHivex => BcdPhase::Running(BcdStep::CheckTemplate),
            BcdStep::CheckTemplate => BcdPhase::Running(BcdStep::ReadDiskGuid),
            BcdStep::ReadDiskGuid => BcdPhase::Running(BcdStep::ReadPartGuid),
            BcdStep::ReadPartGuid => BcdPhase::Running(BcdStep::CheckDevice),
            BcdStep::CheckDevice => BcdPhase::Running(BcdStep::CopyTemplate),
            BcdStep::CopyTemplate => BcdPhase::Running(BcdStep::WriteScript),
            BcdStep::WriteScript => BcdPhase::Running(BcdStep::RunScript),
            BcdStep::RunScript => BcdPhase::Done,
        }
    }
}

/// The phase after an outcome; a finished or stopped creation stays so.
pub open spec fn spec_bcd_step(phase: BcdPhase, ok: bool) -> BcdPhase {
    match phase {
        BcdPhase::Running(step) => spec_bcd_after(step, ok),
        _ => phase,
    }
}

/// The first phase of creating the BCD store.
pub fn bcd_begin() -> (p: BcdPhase)
    ensures
        p == bcd_start(),
{
    BcdPhase::Running(BcdStep::ProbeHivex)
}

/// The phase after the current step reported `ok` (see [`spec_bcd_step`]).
pub fn bcd_step(phase: BcdPhase, ok: bool) -> (p: BcdPhase)
    ensures
        p == spec_bcd_step(phase, ok),
{
    let step = match phase {
        BcdPhase::Running(step) => step,
        _ => {
            return phase;
        },
    };
    if !ok {
        return BcdPhase::Failed(
            match step {
                BcdStep::ProbeHivex => BcdFailure::HivexMissing,
                BcdStep::CheckTemplate => BcdFailure::TemplateMissing,
                BcdStep::ReadDiskGuid => BcdFailure::NoDiskGuid,
                BcdStep::ReadPartGuid => BcdFailure::NoPartGuid,
                BcdStep::CheckDevice => BcdFailure::BadDevice,
                BcdStep::CopyTemplate => BcdFailure::CopyFailed,
                BcdStep::WriteScript => BcdFailure::ScriptNotWritten,
                BcdStep::RunScript => BcdFailure::ScriptFailed,
            },
        );
    }
    match step {
        BcdStep::ProbeHivex => BcdPhase::Running(BcdStep::CheckTemplate),
        BcdStep::CheckTemplate => BcdPhase::Running(BcdStep::ReadDiskGuid),
        BcdStep::ReadDiskGuid => BcdPhase::Running(BcdStep::ReadPartGuid),
        BcdStep::ReadPartGuid => BcdPhase::Running(BcdStep::CheckDevice),
        BcdStep::CheckDevice => BcdPhase::Running(BcdStep::CopyTemplate),
        BcdStep::CopyTemplate => BcdPhase::Running(BcdStep::WriteScript),
        BcdStep::WriteScript => BcdPhase::Running(BcdStep::RunScript),
        BcdStep::RunScript => BcdPhase::Done,
    }
}

/// The phase after the outcomes `outs`, starting from `phase`.
pub open spec fn bcd_run(phase: BcdPhase, outs: Seq<bool>) -> BcdPhase
    decreases outs.len(),
{
    if outs.len() == 0 {
        phase
    } else {
        bcd_run(spec_bcd_step(phase, outs[0]), outs.drop_first())
    }
}

proof fn lemma_bcd_run(step: BcdStep, outs: Seq<bool>)
    ensures
        bcd_run(BcdPhase::Running(step), outs) matches BcdPhase::Running(t) ==> bcd_index(t)
            == bcd_index(step) + outs.len() && forall|i: int| 0 <= i < outs.len() ==> outs[i],
        bcd_run(BcdPhase::Running(step), outs) == BcdPhase::Done ==> outs.len() >= 8 - bcd_index(
            step,
        ) && forall|i: int| 0 <= i < 8 - bcd_index(step) ==> outs[i],
    decreases outs.len(),
{
    if outs.len() > 0 {
        let rest = outs.drop_first();
        let next = spec_bcd_after(step, outs[0]);
        match next {
            BcdPhase::Running(s) => {
                lemma_bcd_run(s, rest);
                assert forall|i: int| 0 < i < outs.len() implies outs[i] == rest[i - 1] by {}
            },
            _ => {
                lemma_bcd_stays(next, rest);
                if next == BcdPhase::Done {
                    assert(step == BcdStep::RunScript && outs[0]);
                }
            },
        }
    }
}

/// A finished or stopped creation stays as it is.
proof fn lemma_bcd_stays(phase: BcdPhase, outs: Seq<bool>)
    requires
        !(phase is Running),
    ensures
        bcd_run(phase, outs) == phase,
    decreases outs.len(),
{
    if outs.len() > 0 {
        lemma_bcd_stays(phase, outs.drop_first());
    }
}

/// Nothing is written before every check passed: a creation reaches
/// copying the template only after `Win::Hivex` was found, the template
/// exists, both GUIDs were read and the device element was built (its first
/// five outcomes), and it finishes only when every step succeeded.
pub proof fn law_bcd_writes_only_after_checks(outs: Seq<bool>)
    ensures
        bcd_run(bcd_start(), outs) == BcdPhase::Running(BcdStep::CopyTemplate) ==> outs.len()
            == 5 && forall|i: int| 0 <= i < 5 ==> outs[i],
        bcd_run(bcd_start(), outs) == BcdPhase::Done ==> outs.len() >= 8 && forall|i: int|
            0 <= i < 8 ==> outs[i],
{
    lemma_bcd_run(BcdStep::ProbeHivex, outs);
}

} // verus!
