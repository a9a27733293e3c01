//! The GPU list on Windows, from the DXGI adapter descriptions: each description
//! is a NUL-terminated UTF-16 buffer; the software fallback renderer and
//! unnamed adapters are left out.

use vstd::prelude::*;

use crate::gpu::string_views;
use crate::linux_amd_gpu::opt_view;
use crate::text::{push_char, ascii_lower, ascii_lowercase, contains, seq_contains, trim, trim_ws};

verus! {

/// The character with scalar value `x`, which must be one (`char::from_u32`).
#[verifier::external_body]
fn char_from_scalar(x: u32) -> (c: char)
    requires
        x <= 0x10ffff,
        !(0xd800 <= x <= 0xdfff),
    ensures
        c == x as char,
{
    char::from_u32(x).unwrap()
}

/// A UTF-16 code unit that is not a surrogate.
pub open spec fn is_non_surrogate(u: u16) -> bool {
    u < 0xd800 || u > 0xdfff
}

/// A leading (high) surrogate.
pub open spec fn is_high_surrogate(u: u16) -> bool {
    0xd800 <= u <= 0xdbff
}

/// A trailing (low) surrogate.
pub open spec fn is_low_surrogate(u: u16) -> bool {
    0xdc00 <= u <= 0xdfff
}

/// UTF-16 decoding that replaces each unpaired surrogate with U+FFFD, as
/// `String::from_utf16_lossy` does: a non-surrogate is its own character, a
/// high surrogate followed by a low one is the character they encode, and any
/// other surrogate becomes U+FFFD (the unit after an unpaired high surrogate
/// is decoded afresh).
pub open spec fn utf16_lossy(u: Seq<u16>) -> Seq<char>
    decreases u.len(),
{
    if u.len() == 0 {
        Seq::empty()
    } else if is_non_surrogate(u[0]) {
        seq![u[0] as char] + utf16_lossy(u.drop_first())
    } else if is_high_surrogate(u[0]) && u.len() > 1 && is_low_surrogate(u[1]) {
        seq![(0x10000 + (u[0] - 0xd800) * 0x400 + (u[1] - 0xdc00)) as char] + utf16_lossy(
            u.skip(2),
        )
    } else {
        seq!['\u{FFFD}'] + utf16_lossy(u.drop_first())
    }
}

/// `String::from_utf16_lossy`.
pub fn from_utf16_lossy(units: &Vec<u16>) -> (r: String)
    ensures
        r@ == utf16_lossy(units@),
{
    let n = units.len();
    let mut r = String::new();
    let mut i: usize = 0;
    assert(units@.skip(0) =~= units@);
    while i < n
        invariant
            n == units@.len(),
            i <= n,
            utf16_lossy(units@) == r@ + utf16_lossy(units@.skip(i as int)),
        decreases n - i,
    {
        let u = units[i];
        let ghost rest = units@.skip(i as int);
        assert(rest[0] == u);
        if u < 0xd800 || u > 0xdfff {
            push_char(&mut r, char_from_scalar(u as u32));
            assert(rest.drop_first() =~= units@.skip(i + 1));
            i += 1;
        } else if u <= 0xdbff && i + 1 < n && 0xdc00 <= units[i + 1] && units[i + 1] <= 0xdfff {
            let lo = units[i + 1];
            assert(rest[1] == lo);
            let x: u32 = 0x10000 + ((u - 0xd800) as u32) * 0x400 + ((lo - 0xdc00) as u32);
            push_char(&mut r, char_from_scalar(x));
            assert(rest.skip(2) =~= units@.skip(i + 2));
            i += 2;
        } else {
            push_char(&mut r, '\u{FFFD}');
            assert(rest.drop_first() =~= units@.skip(i + 1));
            i += 1;
        }
    }
    assert(units@.skip(n as int) =~= Seq::<u16>::empty());
    assert(r@ + Seq::<char>::empty() =~= r@);
    r
}

/// The code units before the first NUL.
pub open spec fn until_nul(d: Seq<u16>) -> Seq<u16>
    decreases d.len(),
{
    if d.len() == 0 || d[0] == 0 {
        Seq::empty()
    } else {
        seq![d[0]] + until_nul(d.drop_first())
    }
}

/// The name under which an adapter is listed, given its decoded description:
/// the trimmed text, unless it is empty or names Microsoft's basic render
/// driver (in any ASCII case).
pub open spec fn adapter_name_of(decoded: Seq<char>) -> Option<Seq<char>> {
    let t = trim_ws(decoded);
    if seq_contains(ascii_lower(t), "microsoft basic render driver"@) || t.len() == 0 {
        None
    } else {
        Some(t)
    }
}

/// The names of the adapters whose descriptions are `ds`, in order.
pub open spec fn adapter_names_of(ds: Seq<Seq<u16>>) -> Seq<Seq<char>>
    decreases ds.len(),
{
    if ds.len() == 0 {
        Seq::empty()
    } else {
        let rest = adapter_names_of(ds.drop_last());
        match adapter_name_of(utf16_lossy(until_nul(ds.last()))) {
            Some(n) => rest.push(n),
            None => rest,
        }
    }
}

/// The name under which an adapter with this decoded description is listed.
pub fn adapter_name(decoded: &str) -> (r: Option<String>)
    ensures
        opt_view(r) == adapter_name_of(decoded@),
{
    let t = trim(decoded);
    let lowered = ascii_lowercase(t.as_str());
    if contains(lowered.as_str(), "microsoft basic render driver") || t.unicode_len() == 0 {
        None
    } else {
        Some(t)
    }
}

/// The code units of `d` before the first NUL.
pub fn units_until_nul(d: &Vec<u16>) -> (r: Vec<u16>)
    ensures
        r@ == until_nul(d@),
{
    let n = d.len();
    let mut i: usize = 0;
    while i < n && d[i] != 0
        invariant
            n == d@.len(),
            i <= n,
            forall|j: int| 0 <= j < i ==> d@[j] != 0,
        decreases n - i,
    {
        i += 1;
    }
    let mut r: Vec<u16> = Vec::new();
    let mut k: usize = 0;
    while k < i
        invariant
            n == d@.len(),
            k <= i <= n,
            r@ == d@.take(k as int),
        decreases i - k,
    {
        r.push(d[k]);
        k += 1;
        assert(r@ =~= d@.take(k as int));
    }
    proof {
        lemma_until_nul_stops(d@, i as int);
    }
    r
}

/// `until_nul` keeps exactly the units before the first NUL.
proof fn lemma_until_nul_stops(d: Seq<u16>, i: int)
    requires
        0 <= i <= d.len(),
        forall|j: int| 0 <= j < i ==> d[j] != 0,
        i == d.len() || d[i] == 0,
    ensures
        until_nul(d) == d.take(i),
    decreases d.len(),
{
    if d.len() == 0 || d[0] == 0 {
        assert(d.take(i) =~= Seq::<u16>::empty());
    } else {
        lemma_until_nul_stops(d.drop_first(), i - 1);
        assert(seq![d[0]] + d.drop_first().take(i - 1) =~= d.take(i));
    }
}

/// Returns the list of GPU adapter names from the adapter descriptions, in
/// adapter order.
pub fn get_gpu_list_from_adapters(descriptions: &Vec<Vec<u16>>) -> (r: Vec<String>)
    ensures
        string_views(r@) == adapter_names_of(descriptions@.map_values(|d: Vec<u16>| d@)),
{
    let ghost ds = descriptions@.map_values(|d: Vec<u16>| d@);
    let mut list: Vec<String> = Vec::new();
    let n = descriptions.len();
    let mut i: usize = 0;
    while i < n
        invariant
            n == descriptions@.len(),
            ds == descriptions@.map_values(|d: Vec<u16>| d@),
            i <= n,
            string_views(list@) == adapter_names_of(ds.take(i as int)),
        decreases n - i,
    {
        let units = units_until_nul(&descriptions[i]);
        let decoded = from_utf16_lossy(&units);
        let name = adapter_name(decoded.as_str());
        assert(ds.take(i + 1).drop_last() =~= ds.take(i as int));
        assert(ds.take(i + 1).last() == descriptions@[i as int]@);
        match name {
            Some(s) => {
                let ghost before = list@;
                list.push(s);
                assert(string_views(list@) =~= string_views(before).push(s@));
            },
            None => {},
        }
        i += 1;
    }
    assert(ds.take(n as int) =~= ds);
    list
}

} // verus!
