use vstd::prelude::*;

use crate::text::{
    find_char_from, index_from, lowercase, seq_contains, str_contains, to_lowercase, trim, trimmed,
};

verus! {

/// Whether `p` starts with the `\\?\` prefix of a device interface path.
pub open spec fn has_device_prefix(p: Seq<char>) -> bool {
    &&& p.len() >= 4
    &&& p[0] == '\\'
    &&& p[1] == '\\'
    &&& p[2] == '?'
    &&& p[3] == '\\'
}

/// The path without its `\\?\` prefix, when it has one.
pub open spec fn path_body(p: Seq<char>) -> Seq<char> {
    if has_device_prefix(p) {
        p.skip(4)
    } else {
        p
    }
}

/// The first two `#`-separated fields of the path body, joined by `\`.
pub open spec fn spec_short_name(p: Seq<char>) -> Seq<char> {
    let b = path_body(p);
    let i = index_from(b, '#', 0);
    if i >= b.len() {
        b
    } else {
        b.take(i) + seq!['\\'] + b.subrange(i + 1, index_from(b, '#', i + 1))
    }
}

/// Whether the path starts with `\\?\`.
fn device_prefix(path: &str, len: usize) -> (r: bool)
    requires
        len == path@.len(),
    ensures
        r == has_device_prefix(path@),
{
    len >= 4 && path.get_char(0) == '\\' && path.get_char(1) == '\\' && path.get_char(2) == '?'
        && path.get_char(3) == '\\'
}

/// A short display name for a device path: `\\?\HID#VID_1234&PID_5678#...` gives
/// `HID\VID_1234&PID_5678`.
pub fn short_name(path: &str) -> (r: String)
    ensures
        r@ == spec_short_name(path@),
{
    let len = path.unicode_len();
    let start: usize = if device_prefix(path, len) { 4 } else { 0 };
    let body = path.substring_char(start, len);
    let blen = len - start;
    assert(body@ == path_body(path@));
    let i = find_char_from(body, blen, '#', 0);
    if i == blen {
        return String::from_str(body);
    }
    let j = find_char_from(body, blen, '#', i + 1);
    let mut r = String::from_str(body.substring_char(0, i));
    r.append("\\");
    r.append(body.substring_char(i + 1, j));
    proof {
        reveal_strlit("\\");
    }
    assert(r@ =~= spec_short_name(path@));
    r
}

/// The device instance ID that a device interface path names: the `\\?\` prefix
/// removed and the first three `#`-separated fields joined by `\`; none where the path
/// lacks the prefix or has fewer than three fields.
pub open spec fn spec_devnode_instance_id(p: Seq<char>) -> Option<Seq<char>> {
    let b = p.skip(4);
    let i = index_from(b, '#', 0);
    let j = index_from(b, '#', i + 1);
    if !has_device_prefix(p) || i >= b.len() || j >= b.len() {
        None
    } else {
        Some(
            b.take(i) + seq!['\\'] + b.subrange(i + 1, j) + seq!['\\'] + b.subrange(
                j + 1,
                index_from(b, '#', j + 1),
            ),
        )
    }
}

/// The device instance ID of a device interface path, such as
/// `HID\VID_1234&PID_5678\7&abc` for `\\?\HID#VID_1234&PID_5678#7&abc#{guid}`.
pub fn devnode_instance_id(path: &str) -> (r: Option<String>)
    ensures
        r matches Some(s) ==> spec_devnode_instance_id(path@) == Some(s@),
        r is None ==> spec_devnode_instance_id(path@) is None,
{
    let len = path.unicode_len();
    if !device_prefix(path, len) {
        return None;
    }
    let body = path.substring_char(4, len);
    let blen = len - 4;
    assert(body@ == path@.skip(4));
    let i = find_char_from(body, blen, '#', 0);
    if i == blen {
        return None;
    }
    let j = find_char_from(body, blen, '#', i + 1);
    if j == blen {
        return None;
    }
    let k = find_char_from(body, blen, '#', j + 1);
    let mut r = String::from_str(body.substring_char(0, i));
    r.append("\\");
    r.append(body.substring_char(i + 1, j));
    r.append("\\");
    r.append(body.substring_char(j + 1, k));
    proof {
        reveal_strlit("\\");
    }
    assert(r@ =~= spec_devnode_instance_id(path@).unwrap());
    Some(r)
}

/// 16-bit code units read from little-endian byte pairs; a trailing odd byte is dropped.
pub open spec fn le_units(b: Seq<u8>) -> Seq<u16> {
    Seq::new(b.len() / 2, |i: int| (b[2 * i] + 256 * b[2 * i + 1]) as u16)
}

/// Reads a byte buffer as little-endian UTF-16 code units.
pub fn utf16_units_from_le_bytes(bytes: &[u8]) -> (r: Vec<u16>)
    ensures
        r@ == le_units(bytes@),
{
    let len = bytes.len();
    let n = len / 2;
    let mut r: Vec<u16> = Vec::new();
    let mut i: usize = 0;
    while i < n
        invariant
            len == bytes@.len(),
            n == len / 2,
            i <= n,
            r@.len() == i,
            forall|k: int| 0 <= k < i ==> r@[k] == le_units(bytes@)[k],
        decreases n - i,
    {
        assert(2 * i + 1 < len) by (nonlinear_arith)
            requires
                i < n,
                n == len / 2,
        ;
        let lo = bytes[2 * i] as u16;
        let hi = bytes[2 * i + 1] as u16;
        r.push(lo + 256 * hi);
        i += 1;
    }
    assert(r@ =~= le_units(bytes@));
    r
}

/// A device name as the system reports it: white space trimmed, none when nothing is left.
pub open spec fn spec_clean_name(raw: Seq<char>) -> Option<Seq<char>> {
    if trimmed(raw).len() == 0 {
        None
    } else {
        Some(trimmed(raw))
    }
}

/// Trims a reported device name; an empty name counts as no name.
pub fn clean_name(raw: &str) -> (r: Option<String>)
    ensures
        r matches Some(s) ==> spec_clean_name(raw@) == Some(s@),
        r is None ==> spec_clean_name(raw@) is None,
{
    let t = trim(raw);
    if t.unicode_len() == 0 {
        None
    } else {
        Some(String::from_str(t))
    }
}

/// The display name chosen for a device: the HID product string, else the device
/// manager name, else the short form of its path.
pub open spec fn spec_friendly_name(
    path: Seq<char>,
    product: Option<Seq<char>>,
    devnode: Option<Seq<char>>,
) -> Seq<char> {
    match product {
        Some(p) => p,
        None => match devnode {
            Some(d) => d,
            None => spec_short_name(path),
        },
    }
}

/// The display name of a device, given the names that the system reported for it
/// (`product`: the HID product string; `devnode`: the device manager name).
pub fn friendly_name(path: &str, product: Option<String>, devnode: Option<String>) -> (r: String)
    ensures
        r@ == spec_friendly_name(
            path@,
            match product {
                Some(p) => Some(p@),
                None => None,
            },
            match devnode {
                Some(d) => Some(d@),
                None => None,
            },
        ),
{
    match product {
        Some(p) => p,
        None => match devnode {
            Some(d) => d,
            None => short_name(path),
        },
    }
}

/// The word whose presence marks a device as a TrackPoint.
pub open spec fn trackpoint_word() -> Seq<char> {
    seq!['t', 'r', 'a', 'c', 'k', 'p', 'o', 'i', 'n', 't']
}

/// Whether a newly seen device starts out enabled: its name and path, joined by a space
/// and lowercased, contain `trackpoint`.
pub open spec fn spec_default_enabled(name: Seq<char>, path: Seq<char>) -> bool {
    seq_contains(lowercase(name + seq![' '] + path), trackpoint_word())
}

/// Whether a device seen for the first time is enabled by default.
pub fn default_enabled(name: &str, path: &str) -> (r: bool)
    ensures
        r == spec_default_enabled(name@, path@),
{
    let mut hay = String::from_str(name);
    hay.append(" ");
    hay.append(path);
    let lower = to_lowercase(hay.as_str());
    let word = "trackpoint";
    proof {
        reveal_strlit(" ");
        reveal_strlit("trackpoint");
        assert(hay@ =~= name@ + seq![' '] + path@);
        assert(word@ =~= trackpoint_word());
    }
    str_contains(lower.as_str(), word)
}

/// The length of a NUL-terminated UTF-16 string in a buffer: the position of the first
/// zero unit, or the buffer's length when there is none.
pub fn wide_len(units: &[u16]) -> (r: usize)
    ensures
        r <= units@.len(),
        forall|k: int| 0 <= k < r ==> units@[k] != 0,
        r < units@.len() ==> units@[r as int] == 0,
{
    let n = units.len();
    let mut i: usize = 0;
    while i < n
        invariant
            n == units@.len(),
            i <= n,
            forall|k: int| 0 <= k < i ==> units@[k] != 0,
        decreases n - i,
    {
        if units[i] == 0 {
            return i;
        }
        i += 1;
    }
    i
}

} // verus!
