//! GPU vendor detection from a name string.

use vstd::prelude::*;

use vstd::utf8::is_ascii_chars;

use crate::text::{ascii_lower, contains, lemma_ascii_lower_add, lemma_contains_extend, seq_contains};

verus! {

/// GPU hardware vendor identifier.
#[derive(Copy, Clone, PartialEq, Eq, Structural, Debug)]
pub enum GPUVendor {
    Nvidia,
    Amd,
    Intel,
    Other,
}

/// The vendor that an already lowered name string designates: the first of
/// "nvidia", "amd" and "intel" that it contains decides.
pub open spec fn vendor_of_lowered(lower: Seq<char>) -> GPUVendor {
    if seq_contains(lower, "nvidia"@) {
        GPUVendor::Nvidia
    } else if seq_contains(lower, "amd"@) {
        GPUVendor::Amd
    } else if seq_contains(lower, "intel"@) {
        GPUVendor::Intel
    } else {
        GPUVendor::Other
    }
}

/// The priority of a vendor in detection: a smaller rank wins.
pub open spec fn vendor_rank(v: GPUVendor) -> int {
    match v {
        GPUVendor::Nvidia => 0,
        GPUVendor::Amd => 1,
        GPUVendor::Intel => 2,
        GPUVendor::Other => 3,
    }
}

/// Detection ignores ASCII letter case: two names that are equal up to ASCII
/// case designate the same vendor.
pub proof fn lemma_vendor_ignores_ascii_case(s: Seq<char>, t: Seq<char>)
    requires
        ascii_lower(s) == ascii_lower(t),
    ensures
        vendor_of_lowered(ascii_lower(s)) == vendor_of_lowered(ascii_lower(t)),
{
}

/// A longer name never falls back to a lower-priority vendor: the vendor of
/// `s + t` ranks no lower than the vendor of `s` and the vendor of `t`.
pub proof fn lemma_longer_name_keeps_priority(s: Seq<char>, t: Seq<char>)
    ensures
        vendor_rank(vendor_of_lowered(ascii_lower(s + t))) <= vendor_rank(
            vendor_of_lowered(ascii_lower(s)),
        ),
        vendor_rank(vendor_of_lowered(ascii_lower(s + t))) <= vendor_rank(
            vendor_of_lowered(ascii_lower(t)),
        ),
{
    let ls = ascii_lower(s);
    let lt = ascii_lower(t);
    lemma_ascii_lower_add(s, t);
    assert(Seq::<char>::empty() + ls + lt =~= ls + lt);
    assert(ls + lt + Seq::<char>::empty() =~= ls + lt);
    if seq_contains(ls, "nvidia"@) {
        lemma_contains_extend(Seq::empty(), ls, lt, "nvidia"@);
    }
    if seq_contains(lt, "nvidia"@) {
        lemma_contains_extend(ls, lt, Seq::empty(), "nvidia"@);
    }
    if seq_contains(ls, "amd"@) {
        lemma_contains_extend(Seq::empty(), ls, lt, "amd"@);
    }
    if seq_contains(lt, "amd"@) {
        lemma_contains_extend(ls, lt, Seq::empty(), "amd"@);
    }
    if seq_contains(ls, "intel"@) {
        lemma_contains_extend(Seq::empty(), ls, lt, "intel"@);
    }
    if seq_contains(lt, "intel"@) {
        lemma_contains_extend(ls, lt, Seq::empty(), "intel"@);
    }
}

/// A character of "nvidia".
pub open spec fn is_nvidia_char(c: char) -> bool {
    c == 'n' || c == 'v' || c == 'i' || c == 'd' || c == 'a'
}

/// A string shorter than "nvidia" does not contain it.
pub proof fn lemma_short_lacks_nvidia(s: Seq<char>)
    requires
        s.len() < 6,
    ensures
        !seq_contains(s, "nvidia"@),
{
    reveal_strlit("nvidia");
}

/// A string without the letter `n` does not contain "nvidia".
pub proof fn lemma_no_n_lacks_nvidia(s: Seq<char>)
    requires
        forall|i: int| 0 <= i < s.len() ==> s[i] != 'n',
    ensures
        !seq_contains(s, "nvidia"@),
{
    reveal_strlit("nvidia");
    if seq_contains(s, "nvidia"@) {
        let i = choose|i: int|
            0 <= i && i + "nvidia"@.len() <= s.len() && #[trigger] s.subrange(
                i,
                i + "nvidia"@.len(),
            ) == "nvidia"@;
        assert(s.subrange(i, i + 6)[0] == s[i]);
    }
}

/// Two strings that lack "nvidia" still lack it when joined, provided the
/// last character of the first or the first character of the second is not
/// a letter of "nvidia" (no occurrence can then straddle the joint).
pub proof fn lemma_join_lacks_nvidia(a: Seq<char>, b: Seq<char>)
    requires
        !seq_contains(a, "nvidia"@),
        !seq_contains(b, "nvidia"@),
        (a.len() > 0 && !is_nvidia_char(a.last())) || (b.len() > 0 && !is_nvidia_char(b[0])),
    ensures
        !seq_contains(a + b, "nvidia"@),
{
    reveal_strlit("nvidia");
    let p = "nvidia"@;
    let t = a + b;
    if seq_contains(t, p) {
        let i = choose|i: int| 0 <= i && i + p.len() <= t.len() && #[trigger] t.subrange(i, i + p.len()) == p;
        let w = t.subrange(i, i + 6);
        if i + 6 <= a.len() {
            assert(a.subrange(i, i + 6) =~= w);
        } else if i >= a.len() {
            assert(b.subrange(i - a.len(), i - a.len() + 6) =~= w);
        } else {
            if a.len() > 0 && !is_nvidia_char(a.last()) {
                let j = a.len() - 1 - i;
                assert(w[j] == a.last());
                assert(j == 0 || j == 1 || j == 2 || j == 3 || j == 4 || j == 5);
                assert(is_nvidia_char(p[j]));
            } else {
                let j = a.len() - i;
                assert(w[j] == b[0]);
                assert(j == 1 || j == 2 || j == 3 || j == 4 || j == 5);
                assert(is_nvidia_char(p[j]));
            }
        }
    }
}

/// What `str::to_lowercase` returns for a string: its full Unicode lowercase
/// mapping, a function of the characters alone (no locale is consulted).
pub uninterp spec fn lowercase(s: Seq<char>) -> Seq<char>;

/// Calls `str::to_lowercase`. Its result is stated through the name
/// `lowercase`, and, for ASCII text, as the ASCII lowering (the Unicode lower
/// case of `A`..`Z` is `a`..`z`, every other ASCII character is its own lower
/// case); the Unicode case tables beyond ASCII are not written out here.
#[verifier::external_body]
fn to_lowercase(s: &str) -> (r: String)
    ensures
        r@ == lowercase(s@),
        is_ascii_chars(s@) ==> r@ == ascii_lower(s@),
{
    s.to_lowercase()
}

impl GPUVendor {
    /// Detects the vendor from a name string (e.g. "NVIDIA GeForce RTX 3070"):
    /// the string is lowered, then the first of "nvidia", "amd" and "intel" that
    /// it contains decides.
    pub fn from_str(vendor_str: &str) -> (v: GPUVendor)
        ensures
            v == vendor_of_lowered(lowercase(vendor_str@)),
            is_ascii_chars(vendor_str@) ==> v == vendor_of_lowered(ascii_lower(vendor_str@)),
    {
        let lower = to_lowercase(vendor_str);
        GPUVendor::from_lowercase(lower.as_str())
    }

    /// Detects the vendor from a name string that is already in lower case.
    pub fn from_lowercase(lower: &str) -> (v: GPUVendor)
        ensures
            v == vendor_of_lowered(lower@),
    {
        if contains(lower, "nvidia") {
            GPUVendor::Nvidia
        } else if contains(lower, "amd") {
            GPUVendor::Amd
        } else if contains(lower, "intel") {
            GPUVendor::Intel
        } else {
            GPUVendor::Other
        }
    }
}

} // verus!
