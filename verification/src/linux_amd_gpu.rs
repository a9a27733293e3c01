//! AMD GPUs on Linux, found through the `amdgpu` DRM interface under
//! `/sys/class/drm`. The caller reads the sysfs files; this module decides which
//! cards are AMD GPUs, how they are named and in which order they are listed.

use vstd::prelude::*;

use crate::sensor::SensorError;
use crate::vendor::{
    is_nvidia_char, lemma_join_lacks_nvidia, lemma_no_n_lacks_nvidia, lemma_short_lacks_nvidia,
    vendor_of_lowered, GPUVendor,
};
use crate::text::{
    ascii_lower, ascii_lower_char, ascii_lowercase, contains, decimal, eq_ignore_ascii_case, has_prefix,
    is_ascii_digit, push_decimal, seq_contains, starts_with, str_eq, strip_all_prefixes,
    strip_prefixes, trim, trim_ws, chars_of, lex_le, lex_le_exec, lemma_lex_le_reflexive,
    lemma_lex_le_transitive, lemma_lex_le_total, lemma_lex_le_antisymmetric, lemma_ascii_lower_add,
    lemma_contains_extend, all_white_space, lemma_trim_ignores_padding,
};

verus! {

/// The view of an optional string.
pub open spec fn opt_view(o: Option<String>) -> Option<Seq<char>> {
    match o {
        Some(s) => Some(s@),
        None => None,
    }
}

/// One AMD GPU found under `/sys/class/drm`.
#[derive(Clone, Debug)]
pub struct LinuxAmdGpuDevice {
    /// The DRM card name, such as `card0`.
    pub card: String,
    /// The card's `device` directory in sysfs.
    pub device_path: String,
    /// The normalized PCI device id, such as `7590`.
    pub device_id: Option<String>,
    /// The board's marketing name, where sysfs gives one.
    pub marketing_name: Option<String>,
}

/// What a [`LinuxAmdGpuDevice`] holds, as character sequences.
pub struct DeviceView {
    pub card: Seq<char>,
    pub device_path: Seq<char>,
    pub device_id: Option<Seq<char>>,
    pub marketing_name: Option<Seq<char>>,
}

impl View for LinuxAmdGpuDevice {
    type V = DeviceView;

    open spec fn view(&self) -> DeviceView {
        DeviceView {
            card: self.card@,
            device_path: self.device_path@,
            device_id: opt_view(self.device_id),
            marketing_name: opt_view(self.marketing_name),
        }
    }
}

/// PCI device ids that Mesa/RADV groups as Navi 48 (GFX1201, RDNA 4).
pub open spec fn is_navi48_id(id: Seq<char>) -> bool {
    ||| id == "7550"@
    ||| id == "7551"@
    ||| id == "7552"@
    ||| id == "7553"@
    ||| id == "7554"@
    ||| id == "7555"@
    ||| id == "7556"@
    ||| id == "7557"@
    ||| id == "7558"@
    ||| id == "7559"@
    ||| id == "755a"@
    ||| id == "755b"@
    ||| id == "755c"@
    ||| id == "755d"@
    ||| id == "755e"@
    ||| id == "755f"@
}

/// The RADV/GFX architecture label of a normalized PCI device id, where known.
pub open spec fn radv_architecture(id: Seq<char>) -> Option<Seq<char>> {
    if id == "7590"@ {
        Some("GFX1200 / Navi 44 / RDNA 4"@)
    } else if is_navi48_id(id) {
        Some("GFX1201 / Navi 48 / RDNA 4"@)
    } else {
        None
    }
}

/// A PCI id as sysfs writes it (`0x7590`), reduced to lower-case hex digits:
/// leading `0x`, then leading `0X`, are removed.
pub open spec fn normalized_hex_id(id: Seq<char>) -> Seq<char> {
    ascii_lower(strip_prefixes(strip_prefixes(id, "0x"@), "0X"@))
}

/// A primary DRM card node: `card` followed by one or more ASCII digits.
pub open spec fn is_primary_card(name: Seq<char>) -> bool {
    &&& has_prefix(name, "card"@)
    &&& name.len() > "card"@.len()
    &&& forall|i: int| "card"@.len() <= i < name.len() ==> is_ascii_digit(#[trigger] name[i])
}

/// The first candidate that holds a non-empty string after trimming, trimmed.
pub open spec fn first_nonempty_trimmed(c: Seq<Option<Seq<char>>>) -> Option<Seq<char>>
    decreases c.len(),
{
    if c.len() == 0 {
        None
    } else {
        match c[0] {
            Some(v) if trim_ws(v).len() > 0 => Some(trim_ws(v)),
            _ => first_nonempty_trimmed(c.drop_first()),
        }
    }
}

/// The name under which a device is listed, such as
/// `AMD Radeon RX 9060 XT (RADV / GFX1200 / Navi 44 / RDNA 4, card1, 1002:7590)`.
pub open spec fn display_name_of(d: DeviceView) -> Seq<char> {
    let architecture = match d.device_id {
        Some(id) => match radv_architecture(id) {
            Some(name) => " / "@ + name,
            None => Seq::<char>::empty(),
        },
        None => Seq::<char>::empty(),
    };
    let pci_id = match d.device_id {
        Some(id) => "1002:"@ + id,
        None => "1002:unknown"@,
    };
    let marketing = match d.marketing_name {
        Some(m) => m,
        None => "AMD Radeon Graphics"@,
    };
    let vendor_name = if seq_contains(ascii_lower(marketing), "amd"@) {
        marketing
    } else {
        "AMD "@ + marketing
    };
    vendor_name + " (RADV"@ + architecture + ", "@ + d.card + ", "@ + pci_id + ")"@
}

/// Every AMD GPU is listed under a name that says `AMD` (in some ASCII case),
/// whatever sysfs gives as its marketing name.
pub proof fn lemma_display_name_names_amd(d: DeviceView)
    ensures
        seq_contains(ascii_lower(display_name_of(d)), "amd"@),
{
    let marketing = match d.marketing_name {
        Some(m) => m,
        None => "AMD Radeon Graphics"@,
    };
    let name = display_name_of(d);
    let vendor_name = if seq_contains(ascii_lower(marketing), "amd"@) {
        marketing
    } else {
        "AMD "@ + marketing
    };
    let rest = name.subrange(vendor_name.len() as int, name.len() as int);
    assert(name =~= vendor_name + rest);
    lemma_ascii_lower_add(vendor_name, rest);
    if seq_contains(ascii_lower(marketing), "amd"@) {
        lemma_contains_extend(Seq::empty(), ascii_lower(marketing), ascii_lower(rest), "amd"@);
        assert(Seq::<char>::empty() + ascii_lower(marketing) + ascii_lower(rest) =~= ascii_lower(
            name,
        ));
    } else {
        reveal_strlit("AMD ");
        reveal_strlit("amd");
        lemma_ascii_lower_add("AMD "@, marketing);
        let low = ascii_lower(name);
        assert(ascii_lower(name) == ascii_lower("AMD "@) + ascii_lower(marketing) + ascii_lower(rest));
        assert(low[0] == ascii_lower_char('A'));
        assert(low[1] == ascii_lower_char('M'));
        assert(low[2] == ascii_lower_char('D'));
        assert(low.subrange(0, 0 + "amd"@.len() as int) =~= "amd"@);
    }
}

/// An ASCII hexadecimal digit.
pub open spec fn is_hex_digit(c: char) -> bool {
    ('0' <= c && c <= '9') || ('a' <= c && c <= 'f') || ('A' <= c && c <= 'F')
}

/// Lowered text shorter than "nvidia" does not contain it.
proof fn lemma_lowered_short(s: Seq<char>)
    requires
        s.len() < 6,
    ensures
        !seq_contains(ascii_lower(s), "nvidia"@),
{
    lemma_short_lacks_nvidia(ascii_lower(s));
}

/// Joining two texts whose lowered forms lack "nvidia" keeps it out, when the
/// joint has a character that is not a letter of "nvidia" on one side.
proof fn lemma_lowered_join(a: Seq<char>, b: Seq<char>)
    requires
        !seq_contains(ascii_lower(a), "nvidia"@),
        !seq_contains(ascii_lower(b), "nvidia"@),
        (a.len() > 0 && !is_nvidia_char(ascii_lower_char(a.last()))) || (b.len() > 0
            && !is_nvidia_char(ascii_lower_char(b[0]))),
    ensures
        !seq_contains(ascii_lower(a + b), "nvidia"@),
{
    lemma_ascii_lower_add(a, b);
    lemma_join_lacks_nvidia(ascii_lower(a), ascii_lower(b));
}

/// The RADV label of a known device id, once lowered, lacks "nvidia".
proof fn lemma_label_lacks_nvidia(label: Seq<char>)
    requires
        label == "GFX1200 / Navi 44 / RDNA 4"@ || label == "GFX1201 / Navi 48 / RDNA 4"@,
    ensures
        !seq_contains(ascii_lower(label), "nvidia"@),
{
    reveal_strlit("GFX1200 / Navi 44 / RDNA 4");
    reveal_strlit("GFX1201 / Navi 48 / RDNA 4");
    reveal_strlit("GFX12");
    reveal_strlit("00 / ");
    reveal_strlit("01 / ");
    reveal_strlit("Navi ");
    reveal_strlit("44 / ");
    reveal_strlit("48 / ");
    reveal_strlit("RDNA ");
    reveal_strlit("4");
    let (c1, c3) = if label == "GFX1200 / Navi 44 / RDNA 4"@ {
        ("00 / "@, "44 / "@)
    } else {
        ("01 / "@, "48 / "@)
    };
    let c0 = "GFX12"@;
    let c2 = "Navi "@;
    let c4 = "RDNA "@;
    let c5 = "4"@;
    assert(label =~= c0 + c1 + c2 + c3 + c4 + c5);
    lemma_lowered_short(c0);
    lemma_lowered_short(c1);
    lemma_lowered_short(c2);
    lemma_lowered_short(c3);
    lemma_lowered_short(c4);
    lemma_lowered_short(c5);
    lemma_lowered_join(c0, c1);
    lemma_lowered_join(c0 + c1, c2);
    lemma_lowered_join(c0 + c1 + c2, c3);
    lemma_lowered_join(c0 + c1 + c2 + c3, c4);
    lemma_lowered_join(c0 + c1 + c2 + c3 + c4, c5);
}

/// A primary card name, once lowered, lacks "nvidia".
proof fn lemma_card_lacks_nvidia(card: Seq<char>)
    requires
        is_primary_card(card),
    ensures
        !seq_contains(ascii_lower(card), "nvidia"@),
{
    reveal_strlit("card");
    assert forall|i: int| 0 <= i < ascii_lower(card).len() implies ascii_lower(card)[i] != 'n' by {
        if i < 4 {
            assert(card.take(4)[i] == "card"@[i]);
            assert(i == 0 || i == 1 || i == 2 || i == 3);
        }
    }
    lemma_no_n_lacks_nvidia(ascii_lower(card));
}

/// A text of hexadecimal digits, once lowered, lacks "nvidia".
proof fn lemma_hex_lacks_nvidia(id: Seq<char>)
    requires
        forall|i: int| 0 <= i < id.len() ==> is_hex_digit(#[trigger] id[i]),
    ensures
        !seq_contains(ascii_lower(id), "nvidia"@),
{
    assert forall|i: int| 0 <= i < ascii_lower(id).len() implies ascii_lower(id)[i] != 'n' by {
        assert(is_hex_digit(id[i]));
    }
    lemma_no_n_lacks_nvidia(ascii_lower(id));
}

/// A listed AMD GPU's name is detected back as AMD, so that it selects the AMD
/// sensor: whenever the card is a primary card node, the device id (if any) is
/// hexadecimal, and the marketing name (if any) does not say "nvidia".
pub proof fn lemma_display_name_selects_amd(d: DeviceView)
    requires
        is_primary_card(d.card),
        d.device_id matches Some(id) ==> forall|i: int| 0 <= i < id.len() ==> is_hex_digit(#[trigger] id[i]),
        d.marketing_name matches Some(m) ==> !seq_contains(ascii_lower(m), "nvidia"@),
    ensures
        vendor_of_lowered(ascii_lower(display_name_of(d))) == GPUVendor::Amd,
{
    lemma_display_name_names_amd(d);
    reveal_strlit("AMD Radeon Graphics");
    reveal_strlit("AMD ");
    reveal_strlit("Radeo");
    reveal_strlit("n Gra");
    reveal_strlit("phics");
    reveal_strlit(" (RADV");
    reveal_strlit(" (");
    reveal_strlit("RADV");
    reveal_strlit(" / ");
    reveal_strlit(", ");
    reveal_strlit("1002:");
    reveal_strlit("1002:unknown");
    reveal_strlit("unk");
    reveal_strlit("nown");
    reveal_strlit(")");
    let marketing = match d.marketing_name {
        Some(m) => m,
        None => "AMD Radeon Graphics"@,
    };
    // The marketing name lacks "nvidia".
    if d.marketing_name is None {
        let (m0, m1, m2, m3) = ("AMD "@, "Radeo"@, "n Gra"@, "phics"@);
        assert(marketing =~= m0 + m1 + m2 + m3);
        lemma_lowered_short(m0);
        lemma_lowered_short(m1);
        lemma_lowered_short(m2);
        lemma_lowered_short(m3);
        lemma_lowered_join(m0, m1);
        lemma_lowered_join(m0 + m1, m2);
        lemma_lowered_join(m0 + m1 + m2, m3);
    }
    let vendor_name = if seq_contains(ascii_lower(marketing), "amd"@) {
        marketing
    } else {
        "AMD "@ + marketing
    };
    if !seq_contains(ascii_lower(marketing), "amd"@) {
        lemma_lowered_short("AMD "@);
        lemma_lowered_join("AMD "@, marketing);
    }
    // Then " (RADV".
    let radv_open = " ("@;
    let radv = "RADV"@;
    assert(" (RADV"@ =~= radv_open + radv);
    lemma_lowered_short(radv_open);
    lemma_lowered_short(radv);
    lemma_lowered_join(vendor_name, radv_open);
    lemma_lowered_join(vendor_name + radv_open, radv);
    let head = vendor_name + " (RADV"@;
    assert(head =~= vendor_name + radv_open + radv);
    // Then the architecture.
    let architecture = match d.device_id {
        Some(id) => match radv_architecture(id) {
            Some(name) => " / "@ + name,
            None => Seq::<char>::empty(),
        },
        None => Seq::<char>::empty(),
    };
    if architecture.len() > 0 {
        let label = radv_architecture(d.device_id->0)->0;
        assert(architecture == " / "@ + label);
        lemma_label_lacks_nvidia(label);
        lemma_lowered_short(" / "@);
        lemma_lowered_join(" / "@, label);
        lemma_lowered_join(head, architecture);
    } else {
        assert(head + architecture =~= head);
    }
    let with_arch = head + architecture;
    // Then ", " and the card.
    lemma_lowered_short(", "@);
    lemma_lowered_join(with_arch, ", "@);
    lemma_card_lacks_nvidia(d.card);
    lemma_lowered_join(with_arch + ", "@, d.card);
    let with_card = with_arch + ", "@ + d.card;
    lemma_lowered_join(with_card, ", "@);
    // Then the PCI id.
    let pci_id = match d.device_id {
        Some(id) => "1002:"@ + id,
        None => "1002:unknown"@,
    };
    lemma_lowered_short("1002:"@);
    match d.device_id {
        Some(id) => {
            lemma_hex_lacks_nvidia(id);
            if id.len() > 0 {
                lemma_lowered_join("1002:"@, id);
            } else {
                assert("1002:"@ + id =~= "1002:"@);
            }
        },
        None => {
            assert("1002:unknown"@ =~= "1002:"@ + "unk"@ + "nown"@);
            lemma_lowered_short("unk"@);
            lemma_lowered_short("nown"@);
            lemma_lowered_join("1002:"@, "unk"@);
            lemma_lowered_join("1002:"@ + "unk"@, "nown"@);
        },
    }
    lemma_lowered_join(with_card + ", "@, pci_id);
    lemma_lowered_short(")"@);
    lemma_lowered_join(with_card + ", "@ + pci_id, ")"@);
    assert(display_name_of(d) =~= with_card + ", "@ + pci_id + ")"@);
}

/// The Mesa/RADV architecture label of a normalized PCI device id, where known.
pub fn radv_architecture_name(device_id: &str) -> (r: Option<&'static str>)
    ensures
        match r {
            Some(name) => radv_architecture(device_id@) == Some(name@),
            None => radv_architecture(device_id@) is None,
        },
{
    if str_eq(device_id, "7590") {
        Some("GFX1200 / Navi 44 / RDNA 4")
    } else if str_eq(device_id, "7550") || str_eq(device_id, "7551") || str_eq(device_id, "7552")
        || str_eq(device_id, "7553") || str_eq(device_id, "7554") || str_eq(device_id, "7555")
        || str_eq(device_id, "7556") || str_eq(device_id, "7557") || str_eq(device_id, "7558")
        || str_eq(device_id, "7559") || str_eq(device_id, "755a") || str_eq(device_id, "755b")
        || str_eq(device_id, "755c") || str_eq(device_id, "755d") || str_eq(device_id, "755e")
        || str_eq(device_id, "755f") {
        Some("GFX1201 / Navi 48 / RDNA 4")
    } else {
        None
    }
}

/// Normalizes a PCI id as read from sysfs (`0x7590` becomes `7590`).
pub fn normalize_hex_id(id: &str) -> (r: String)
    ensures
        r@ == normalized_hex_id(id@),
{
    let a = strip_all_prefixes(id, "0x");
    let b = strip_all_prefixes(a.as_str(), "0X");
    ascii_lowercase(b.as_str())
}

/// Is `name` a primary DRM card node (`card0`, `card1`, ...), as opposed to a
/// connector (`card0-DP-1`) or a render node (`renderD128`)?
pub fn is_primary_drm_card(name: &str) -> (r: bool)
    ensures
        r == is_primary_card(name@),
{
    if !starts_with(name, "card") {
        return false;
    }
    let p = "card".unicode_len();
    let v = chars_of(name);
    let n = v.len();
    if n <= p {
        return false;
    }
    let mut i = p;
    while i < n
        invariant
            p == "card"@.len(),
            n == v@.len(),
            v@ == name@,
            p <= i <= n,
            forall|j: int| p <= j < i ==> is_ascii_digit(#[trigger] name@[j]),
        decreases n - i,
    {
        if !('0' <= v[i] && v[i] <= '9') {
            return false;
        }
        i += 1;
    }
    true
}

/// Picks the marketing name from the contents of the candidate sysfs files, in
/// order of preference (`product_name`, `product`, `model`): the first one that
/// was read and is not empty once trimmed.
pub fn read_marketing_name(candidates: &Vec<Option<String>>) -> (r: Option<String>)
    ensures
        opt_view(r) == first_nonempty_trimmed(
            candidates@.map_values(|o: Option<String>| opt_view(o)),
        ),
{
    let ghost views = candidates@.map_values(|o: Option<String>| opt_view(o));
    let n = candidates.len();
    let mut i: usize = 0;
    assert(views.skip(0) =~= views);
    while i < n
        invariant
            n == candidates@.len(),
            views == candidates@.map_values(|o: Option<String>| opt_view(o)),
            i <= n,
            first_nonempty_trimmed(views) == first_nonempty_trimmed(views.skip(i as int)),
        decreases n - i,
    {
        assert(views.skip(i as int).drop_first() =~= views.skip(i + 1));
        assert(views.skip(i as int)[0] == opt_view(candidates@[i as int]));
        match &candidates[i] {
            Some(value) => {
                let t = trim(value.as_str());
                if t.unicode_len() > 0 {
                    return Some(t);
                }
            },
            None => {},
        }
        i += 1;
    }
    None
}

impl LinuxAmdGpuDevice {
    /// The name under which this GPU is listed: its marketing name (prefixed
    /// with `AMD` where it does not already say so), the RADV architecture where
    /// known, the card and the PCI id.
    pub fn display_name(&self) -> (r: String)
        ensures
            r@ == display_name_of(self@),
    {
        let mut architecture = String::new();
        let mut pci_id = String::new();
        pci_id.append("1002:");
        match &self.device_id {
            Some(id) => {
                match radv_architecture_name(id.as_str()) {
                    Some(name) => {
                        architecture.append(" / ");
                        architecture.append(name);
                    },
                    None => {},
                }
                pci_id.append(id.as_str());
            },
            None => {
                pci_id.append("unknown");
            },
        }
        let marketing: &str = match &self.marketing_name {
            Some(m) => m.as_str(),
            None => "AMD Radeon Graphics",
        };
        let mut r = String::new();
        let lowered = ascii_lowercase(marketing);
        if !contains(lowered.as_str(), "amd") {
            r.append("AMD ");
        }
        r.append(marketing);
        r.append(" (RADV");
        r.append(architecture.as_str());
        r.append(", ");
        r.append(self.card.as_str());
        r.append(", ");
        r.append(pci_id.as_str());
        r.append(")");
        proof {
            reveal_strlit("1002:");
            reveal_strlit("unknown");
            reveal_strlit("1002:unknown");
            assert("1002:"@ + "unknown"@ =~= "1002:unknown"@);
        }
        assert(r@ =~= display_name_of(self@));
        r
    }
}

/// The view of an optional device.
pub open spec fn opt_device_view(o: Option<LinuxAmdGpuDevice>) -> Option<DeviceView> {
    match o {
        Some(d) => Some(d@),
        None => None,
    }
}

/// What the caller read for one entry of `/sys/class/drm`: the entry's name,
/// its `device` directory, and the raw contents of the files in that directory
/// that could be read as text (`None` where a file could not be read).
#[derive(Clone, Debug)]
pub struct DrmEntry {
    /// The entry's file name, such as `card0` or `renderD128`.
    pub card: String,
    /// The entry's `device` directory.
    pub device_path: String,
    /// Contents of `device/vendor`.
    pub vendor: Option<String>,
    /// Contents of `device/device`.
    pub device: Option<String>,
    /// Contents of `device/product_name`.
    pub product_name: Option<String>,
    /// Contents of `device/product`.
    pub product: Option<String>,
    /// Contents of `device/model`.
    pub model: Option<String>,
}

/// What a [`DrmEntry`] holds, as character sequences.
pub struct DrmEntryView {
    pub card: Seq<char>,
    pub device_path: Seq<char>,
    pub vendor: Option<Seq<char>>,
    pub device: Option<Seq<char>>,
    pub product_name: Option<Seq<char>>,
    pub product: Option<Seq<char>>,
    pub model: Option<Seq<char>>,
}

impl View for DrmEntry {
    type V = DrmEntryView;

    open spec fn view(&self) -> DrmEntryView {
        DrmEntryView {
            card: self.card@,
            device_path: self.device_path@,
            vendor: opt_view(self.vendor),
            device: opt_view(self.device),
            product_name: opt_view(self.product_name),
            product: opt_view(self.product),
            model: opt_view(self.model),
        }
    }
}

/// The AMD GPU that a DRM entry stands for, if any: a primary card node whose
/// PCI vendor is AMD (`0x1002`, in any case), with its normalized device id and
/// marketing name.
pub open spec fn amd_device_of(e: DrmEntryView) -> Option<DeviceView> {
    if is_primary_card(e.card) && e.vendor is Some && ascii_lower(trim_ws(e.vendor->0))
        == ascii_lower("0x1002"@) {
        Some(
            DeviceView {
                card: e.card,
                device_path: e.device_path,
                device_id: match e.device {
                    Some(d) => Some(normalized_hex_id(trim_ws(d))),
                    None => None,
                },
                marketing_name: first_nonempty_trimmed(seq![e.product_name, e.product, e.model]),
            },
        )
    } else {
        None
    }
}

/// The AMD GPUs among `entries`, in the order of the entries.
pub open spec fn amd_devices_in(entries: Seq<DrmEntryView>) -> Seq<DeviceView>
    decreases entries.len(),
{
    if entries.len() == 0 {
        Seq::empty()
    } else {
        let rest = amd_devices_in(entries.drop_last());
        match amd_device_of(entries.last()) {
            Some(d) => rest.push(d),
            None => rest,
        }
    }
}

/// The devices are in the order of their card names.
pub open spec fn sorted_by_card(s: Seq<DeviceView>) -> bool {
    forall|i: int, j: int| 0 <= i < j < s.len() ==> lex_le(#[trigger] s[i].card, #[trigger] s[j].card)
}

/// The devices of `s` whose card name is `k`, in their order in `s`.
pub open spec fn with_card(s: Seq<DeviceView>, k: Seq<char>) -> Seq<DeviceView>
    decreases s.len(),
{
    if s.len() == 0 {
        Seq::empty()
    } else {
        let rest = with_card(s.drop_last(), k);
        if s.last().card == k {
            rest.push(s.last())
        } else {
            rest
        }
    }
}

/// `t` is `s` ordered by card name, devices with equal card names keeping
/// their order: that is what a stable sort by card name gives.
pub open spec fn is_stable_card_sort(t: Seq<DeviceView>, s: Seq<DeviceView>) -> bool {
    &&& sorted_by_card(t)
    &&& forall|k: Seq<char>| #[trigger] with_card(t, k) == with_card(s, k)
}

/// The views of a vector of devices.
pub open spec fn device_views(v: Seq<LinuxAmdGpuDevice>) -> Seq<DeviceView> {
    v.map_values(|d: LinuxAmdGpuDevice| d@)
}

/// The views of a vector of DRM entries.
pub open spec fn entry_views(v: Seq<DrmEntry>) -> Seq<DrmEntryView> {
    v.map_values(|e: DrmEntry| e@)
}

/// Selecting by card name distributes over concatenation.
pub proof fn lemma_with_card_add(a: Seq<DeviceView>, b: Seq<DeviceView>, k: Seq<char>)
    ensures
        with_card(a + b, k) == with_card(a, k) + with_card(b, k),
    decreases b.len(),
{
    if b.len() == 0 {
        assert(a + b =~= a);
        assert(with_card(a, k) + with_card(b, k) =~= with_card(a, k));
    } else {
        assert((a + b).drop_last() =~= a + b.drop_last());
        lemma_with_card_add(a, b.drop_last(), k);
        if b.last().card == k {
            assert(with_card(a, k) + with_card(b.drop_last(), k).push(b.last()) =~= (with_card(
                a,
                k,
            ) + with_card(b.drop_last(), k)).push(b.last()));
        }
    }
}

/// No device of `s` has card name `k`, so none is selected.
pub proof fn lemma_with_card_none(s: Seq<DeviceView>, k: Seq<char>)
    requires
        forall|i: int| 0 <= i < s.len() ==> #[trigger] s[i].card != k,
    ensures
        with_card(s, k) == Seq::<DeviceView>::empty(),
    decreases s.len(),
{
    if s.len() > 0 {
        lemma_with_card_none(s.drop_last(), k);
    }
}

/// A device selected by card name `k` is a device of `s` with that card name.
proof fn lemma_with_card_member(s: Seq<DeviceView>, k: Seq<char>, j: int)
    requires
        0 <= j < with_card(s, k).len(),
    ensures
        exists|i: int| 0 <= i < s.len() && #[trigger] s[i] == with_card(s, k)[j] && s[i].card == k,
    decreases s.len(),
{
    if s.len() > 0 {
        let rest = with_card(s.drop_last(), k);
        if s.last().card == k && j == rest.len() {
            assert(s[s.len() - 1] == with_card(s, k)[j]);
        } else {
            lemma_with_card_member(s.drop_last(), k, j);
            let i = choose|i: int|
                0 <= i < s.drop_last().len() && #[trigger] s.drop_last()[i] == with_card(
                    s.drop_last(),
                    k,
                )[j] && s.drop_last()[i].card == k;
            assert(s[i] == s.drop_last()[i]);
        }
    }
}

/// The listing order is fully determined: two sequences that are both the
/// stable card-name sort of the same devices are equal.
#[verifier::rlimit(50)]
pub proof fn lemma_stable_card_sort_unique(t1: Seq<DeviceView>, t2: Seq<DeviceView>, s: Seq<DeviceView>)
    requires
        is_stable_card_sort(t1, s),
        is_stable_card_sort(t2, s),
    ensures
        t1 == t2,
    decreases t1.len() + t2.len(),
{
    if t1.len() == 0 && t2.len() == 0 {
        assert(t1 =~= t2);
    } else if t1.len() == 0 || t2.len() == 0 {
        let (ne, em) = if t1.len() > 0 { (t1, t2) } else { (t2, t1) };
        let k = ne.last().card;
        assert(with_card(ne, k).len() > 0);
        assert(with_card(em, k) == with_card(s, k));
        assert(with_card(ne, k) == with_card(s, k));
        assert(with_card(em, k) =~= Seq::<DeviceView>::empty());
    } else {
        let x = t1.last();
        let y = t2.last();
        let kx = x.card;
        let ky = y.card;
        assert(with_card(t1, kx) == with_card(s, kx) && with_card(t2, kx) == with_card(s, kx));
        assert(with_card(t1, ky) == with_card(s, ky) && with_card(t2, ky) == with_card(s, ky));
        // y's card name does not come before x's, and the other way round.
        assert(with_card(t1, kx).len() > 0);
        lemma_with_card_member(t2, kx, 0);
        let i2 = choose|i: int| 0 <= i < t2.len() && #[trigger] t2[i] == with_card(t2, kx)[0] && t2[i].card == kx;
        if i2 < t2.len() - 1 {
            assert(lex_le(t2[i2].card, t2[t2.len() - 1].card));
        } else {
            lemma_lex_le_reflexive(kx);
        }
        assert(with_card(t2, ky).len() > 0);
        lemma_with_card_member(t1, ky, 0);
        let i1 = choose|i: int| 0 <= i < t1.len() && #[trigger] t1[i] == with_card(t1, ky)[0] && t1[i].card == ky;
        if i1 < t1.len() - 1 {
            assert(lex_le(t1[i1].card, t1[t1.len() - 1].card));
        } else {
            lemma_lex_le_reflexive(ky);
        }
        lemma_lex_le_antisymmetric(kx, ky);
        assert(with_card(t1, kx).last() == x);
        assert(with_card(t2, kx).last() == y);
        let u1 = t1.drop_last();
        let u2 = t2.drop_last();
        let su = with_card(t1, kx);
        assert forall|k: Seq<char>| #[trigger] with_card(u1, k) == with_card(u2, k) by {
            if k == kx {
                assert(with_card(u1, k) =~= with_card(t1, k).drop_last());
                assert(with_card(u2, k) =~= with_card(t2, k).drop_last());
            } else {
                assert(with_card(u1, k) == with_card(t1, k));
                assert(with_card(u2, k) == with_card(t2, k));
            }
        }
        assert forall|k: Seq<char>| #[trigger] with_card(u2, k) == with_card(u1, k) by {
            assert(with_card(u1, k) == with_card(u2, k));
        }
        assert(sorted_by_card(u1)) by {
            assert forall|i: int, j: int| 0 <= i < j < u1.len() implies lex_le(
                #[trigger] u1[i].card,
                #[trigger] u1[j].card,
            ) by {
                assert(u1[i] == t1[i] && u1[j] == t1[j]);
            }
        }
        assert(sorted_by_card(u2)) by {
            assert forall|i: int, j: int| 0 <= i < j < u2.len() implies lex_le(
                #[trigger] u2[i].card,
                #[trigger] u2[j].card,
            ) by {
                assert(u2[i] == t2[i] && u2[j] == t2[j]);
            }
        }
        assert(is_stable_card_sort(u2, u1));
        assert(is_stable_card_sort(u1, u1)) by {
            assert forall|k: Seq<char>| #[trigger] with_card(u1, k) == with_card(u1, k) by {}
        }
        lemma_stable_card_sort_unique(u1, u2, u1);
        assert(t1 =~= u1.push(x));
        assert(t2 =~= u2.push(y));
    }
}

/// Copies an optional string.
fn clone_opt(o: &Option<String>) -> (r: Option<String>)
    ensures
        opt_view(r) == opt_view(*o),
{
    match o {
        Some(s) => Some(s.clone()),
        None => None,
    }
}

/// The AMD GPU that one DRM entry stands for, if any.
pub fn amd_device_from_entry(e: &DrmEntry) -> (r: Option<LinuxAmdGpuDevice>)
    ensures
        opt_device_view(r) == amd_device_of(e@),
{
    if !is_primary_drm_card(e.card.as_str()) {
        return None;
    }
    let vendor_ok = match &e.vendor {
        Some(v) => {
            let t = trim(v.as_str());
            eq_ignore_ascii_case(t.as_str(), "0x1002")
        },
        None => false,
    };
    if !vendor_ok {
        return None;
    }
    let device_id = match &e.device {
        Some(d) => {
            let t = trim(d.as_str());
            Some(normalize_hex_id(t.as_str()))
        },
        None => None,
    };
    let mut candidates: Vec<Option<String>> = Vec::new();
    candidates.push(clone_opt(&e.product_name));
    candidates.push(clone_opt(&e.product));
    candidates.push(clone_opt(&e.model));
    let marketing_name = read_marketing_name(&candidates);
    assert(candidates@.map_values(|o: Option<String>| opt_view(o)) =~= seq![
        e@.product_name,
        e@.product,
        e@.model,
    ]);
    Some(
        LinuxAmdGpuDevice {
            card: e.card.clone(),
            device_path: e.device_path.clone(),
            device_id,
            marketing_name,
        },
    )
}

/// Inserts `d` into `out`, which is ordered by card name, after every device
/// whose card name does not come after `d`'s.
fn insert_by_card(out: &mut Vec<LinuxAmdGpuDevice>, d: LinuxAmdGpuDevice)
    requires
        sorted_by_card(device_views(old(out)@)),
    ensures
        sorted_by_card(device_views(final(out)@)),
        forall|k: Seq<char>|
            #[trigger] with_card(device_views(final(out)@), k) == if d@.card == k {
                with_card(device_views(old(out)@), k).push(d@)
            } else {
                with_card(device_views(old(out)@), k)
            },
{
    let ghost old_views = device_views(out@);
    let n = out.len();
    let mut p: usize = 0;
    while p < n && lex_le_exec(out[p].card.as_str(), d.card.as_str())
        invariant
            n == out@.len(),
            out@.len() == old_views.len(),
            old_views == device_views(out@),
            sorted_by_card(old_views),
            p <= n,
            forall|i: int| 0 <= i < p ==> lex_le(#[trigger] old_views[i].card, d@.card),
        decreases n - p,
    {
        assert(old_views[p as int].card == out@[p as int].card@);
        p += 1;
    }
    proof {
        assert forall|l: int| p <= l < n implies !lex_le(#[trigger] old_views[l].card, d@.card) by {
            assert(old_views[p as int].card == out@[p as int].card@);
            assert(!lex_le(old_views[p as int].card, d@.card));
            if l > p && lex_le(old_views[l].card, d@.card) {
                assert(lex_le(old_views[p as int].card, old_views[l].card));
                lemma_lex_le_transitive(old_views[p as int].card, old_views[l].card, d@.card);
            }
        }
    }
    out.insert(p, d);
    proof {
        let nv = device_views(out@);
        let dv = d@;
        assert(nv =~= old_views.take(p as int) + seq![dv] + old_views.skip(p as int));
        assert forall|i: int, j: int| 0 <= i < j < nv.len() implies lex_le(
            #[trigger] nv[i].card,
            #[trigger] nv[j].card,
        ) by {
            if j < p {
                assert(nv[i] == old_views[i] && nv[j] == old_views[j]);
            } else if j == p {
                assert(nv[i] == old_views[i]);
            } else if i == p {
                assert(nv[j] == old_views[j - 1]);
                lemma_lex_le_total(old_views[j - 1].card, dv.card);
            } else if i < p {
                assert(nv[j] == old_views[j - 1]);
                assert(nv[i] == old_views[i]);
                lemma_lex_le_total(old_views[j - 1].card, dv.card);
                lemma_lex_le_transitive(old_views[i].card, dv.card, old_views[j - 1].card);
            } else {
                assert(nv[i] == old_views[i - 1] && nv[j] == old_views[j - 1]);
            }
        }
        assert forall|k: Seq<char>| #[trigger]
            with_card(nv, k) == if dv.card == k {
                with_card(old_views, k).push(dv)
            } else {
                with_card(old_views, k)
            } by {
            let a = old_views.take(p as int);
            let b = old_views.skip(p as int);
            assert(old_views =~= a + b);
            lemma_with_card_add(a, b, k);
            lemma_with_card_add(a + seq![dv], b, k);
            lemma_with_card_add(a, seq![dv], k);
            let e = Seq::<DeviceView>::empty();
            assert(seq![dv].drop_last() =~= e);
            assert(with_card(e, k) == e);
            assert(seq![dv].last() == dv);
            assert(with_card(seq![dv], k) == if dv.card == k {
                e.push(dv)
            } else {
                e
            });
            if dv.card == k {
                assert forall|i: int| 0 <= i < b.len() implies #[trigger] b[i].card != k by {
                    assert(b[i] == old_views[p + i]);
                    lemma_lex_le_reflexive(dv.card);
                }
                lemma_with_card_none(b, k);
                assert(with_card(a, k) + with_card(seq![dv], k) =~= with_card(a, k).push(dv));
                assert(with_card(a, k) + Seq::<DeviceView>::empty() =~= with_card(a, k));
            } else {
                assert(with_card(a, k) + with_card(seq![dv], k) =~= with_card(a, k));
            }
        }
    }
}

/// The AMD GPUs among the entries of `/sys/class/drm`, ordered by card name
/// (a stable sort, as `sort_by` on the card names is).
pub fn list_amd_gpus(entries: &Vec<DrmEntry>) -> (r: Vec<LinuxAmdGpuDevice>)
    ensures
        is_stable_card_sort(device_views(r@), amd_devices_in(entry_views(entries@))),
{
    let ghost ev = entry_views(entries@);
    let mut out: Vec<LinuxAmdGpuDevice> = Vec::new();
    let n = entries.len();
    let mut i: usize = 0;
    while i < n
        invariant
            n == entries@.len(),
            ev == entry_views(entries@),
            i <= n,
            is_stable_card_sort(device_views(out@), amd_devices_in(ev.take(i as int))),
        decreases n - i,
    {
        let found = amd_device_from_entry(&entries[i]);
        assert(ev.take(i + 1).drop_last() =~= ev.take(i as int));
        assert(ev.take(i + 1).last() == entries@[i as int]@);
        match found {
            Some(d) => {
                let ghost before = device_views(out@);
                insert_by_card(&mut out, d);
                assert forall|k: Seq<char>| #[trigger]
                    with_card(device_views(out@), k) == with_card(
                        amd_devices_in(ev.take(i + 1)),
                        k,
                    ) by {
                    let s = amd_devices_in(ev.take(i as int));
                    assert(with_card(before, k) == with_card(s, k));
                    assert(s.push(d@).drop_last() =~= s);
                }
            },
            None => {},
        }
        i += 1;
    }
    assert(ev.take(n as int) =~= ev);
    out
}

/// The sensor for one AMD GPU on Linux.
pub struct LinuxAmdGPUSensor {
    pub device: LinuxAmdGpuDevice,
}

impl LinuxAmdGPUSensor {
    /// Creates the sensor for the AMD GPU at `index` in `devices` (the list
    /// that [`list_amd_gpus`] gives).
    pub fn new(devices: Vec<LinuxAmdGpuDevice>, index: u32) -> (r: Result<Self, SensorError>)
        ensures
            index < devices@.len() ==> (r matches Ok(s) && s.device@ == devices@[index as int]@),
            index >= devices@.len() ==> (r matches Err(SensorError::ReadError(m)) && m@
                == "No AMD GPU found at Linux DRM index "@ + decimal(index as nat)),
    {
        let i = index as usize;
        if i < devices.len() {
            let mut devices = devices;
            let device = devices.remove(i);
            Ok(LinuxAmdGPUSensor { device })
        } else {
            let mut m = String::new();
            m.append("No AMD GPU found at Linux DRM index ");
            push_decimal(&mut m, index);
            Err(SensorError::ReadError(m))
        }
    }

    /// Decides whether a reading of this GPU's sysfs telemetry is usable: it is
    /// unless none of GPU usage, VRAM usage and board power could be read.
    pub fn telemetry_status(&self, usage_read: bool, vram_read: bool, power_read: bool) -> (r:
        Result<(), SensorError>)
        ensures
            r is Ok <==> (usage_read || vram_read || power_read),
            r is Err ==> (r matches Err(SensorError::ReadError(m)) && m@
                == "amdgpu sysfs telemetry unavailable for "@ + display_name_of(self.device@)),
    {
        if !usage_read && !vram_read && !power_read {
            let mut m = String::new();
            m.append("amdgpu sysfs telemetry unavailable for ");
            let name = self.device.display_name();
            m.append(name.as_str());
            Err(SensorError::ReadError(m))
        } else {
            Ok(())
        }
    }
}

/// What the caller read from one `hwmon` directory of a GPU: the contents of its
/// `name` file and the two power readings (`power1_average`, `power1_input`),
/// each `None` where it could not be read.
pub struct HwmonReadings<T> {
    pub name: Option<String>,
    pub power_average: Option<T>,
    pub power_input: Option<T>,
}

/// The power reading to use: from the first `hwmon` whose trimmed name is
/// `amdgpu` (in any ASCII case) and that has a reading, its `power1_average`,
/// else its `power1_input`.
pub open spec fn power_reading_of<T>(h: Seq<HwmonReadings<T>>) -> Option<T>
    decreases h.len(),
{
    if h.len() == 0 {
        None
    } else {
        let name = match h[0].name {
            Some(n) => trim_ws(n@),
            None => Seq::<char>::empty(),
        };
        if ascii_lower(name) == ascii_lower("amdgpu"@) && (h[0].power_average is Some
            || h[0].power_input is Some) {
            if h[0].power_average is Some {
                h[0].power_average
            } else {
                h[0].power_input
            }
        } else {
            power_reading_of(h.drop_first())
        }
    }
}

/// Picks the board-power reading from a GPU's `hwmon` directories, in the order
/// they were listed; `None` where no `amdgpu` hwmon gives one (the power is then
/// left empty, not estimated).
pub fn pick_power_reading<T: Copy>(hwmons: &Vec<HwmonReadings<T>>) -> (r: Option<T>)
    ensures
        r == power_reading_of(hwmons@),
{
    let n = hwmons.len();
    let mut i: usize = 0;
    assert(hwmons@.skip(0) =~= hwmons@);
    while i < n
        invariant
            n == hwmons@.len(),
            i <= n,
            power_reading_of(hwmons@) == power_reading_of(hwmons@.skip(i as int)),
        decreases n - i,
    {
        assert(hwmons@.skip(i as int).drop_first() =~= hwmons@.skip(i + 1));
        assert(hwmons@.skip(i as int)[0] == hwmons@[i as int]);
        let h = &hwmons[i];
        let is_amdgpu = match &h.name {
            Some(name) => {
                let t = trim(name.as_str());
                eq_ignore_ascii_case(t.as_str(), "amdgpu")
            },
            None => {
                let empty = String::new();
                eq_ignore_ascii_case(empty.as_str(), "amdgpu")
            },
        };
        if is_amdgpu {
            if h.power_average.is_some() {
                return h.power_average;
            }
            if h.power_input.is_some() {
                return h.power_input;
            }
        }
        i += 1;
    }
    None
}

/// `b` is the `hwmon` `a` with white space (`before`, `after`) around its name:
/// the same readings, and no name where `a` has none.
pub open spec fn padded_entry<T>(
    a: HwmonReadings<T>,
    b: HwmonReadings<T>,
    before: Seq<char>,
    after: Seq<char>,
) -> bool {
    &&& all_white_space(before)
    &&& all_white_space(after)
    &&& b.power_average == a.power_average
    &&& b.power_input == a.power_input
    &&& match (a.name, b.name) {
        (Some(n), Some(m)) => m@ == before + n@ + after,
        (None, None) => true,
        _ => false,
    }
}

/// `padded` is the list `h` with white space around each name (entry `j` gets
/// `before[j]` in front and `after[j]` behind).
pub open spec fn names_padded<T>(
    h: Seq<HwmonReadings<T>>,
    padded: Seq<HwmonReadings<T>>,
    before: Seq<Seq<char>>,
    after: Seq<Seq<char>>,
) -> bool {
    &&& padded.len() == h.len()
    &&& before.len() == h.len()
    &&& after.len() == h.len()
    &&& forall|j: int|
        0 <= j < h.len() ==> #[trigger] padded_entry(h[j], padded[j], before[j], after[j])
}

/// Surrounding the names of `hwmon` directories with white space (such as the
/// newline that ends a sysfs `name` file) does not change the reading picked.
pub proof fn lemma_padded_names_keep_reading<T>(
    h: Seq<HwmonReadings<T>>,
    padded: Seq<HwmonReadings<T>>,
    before: Seq<Seq<char>>,
    after: Seq<Seq<char>>,
)
    requires
        names_padded(h, padded, before, after),
    ensures
        power_reading_of(padded) == power_reading_of(h),
    decreases h.len(),
{
    if h.len() > 0 {
        assert(padded_entry(h[0], padded[0], before[0], after[0]));
        if let Some(n) = h[0].name {
            lemma_trim_ignores_padding(before[0], n@, after[0]);
        }
        let (h1, p1, b1, a1) = (h.drop_first(), padded.drop_first(), before.drop_first(), after.drop_first());
        assert forall|j: int| 0 <= j < h1.len() implies #[trigger] padded_entry(
            h1[j],
            p1[j],
            b1[j],
            a1[j],
        ) by {
            assert(padded_entry(h[j + 1], padded[j + 1], before[j + 1], after[j + 1]));
        }
        lemma_padded_names_keep_reading(h1, p1, b1, a1);
    }
}

/// An `hwmon` whose name file reads `amdgpu` with any white space around it
/// (`amdgpu\n` as sysfs gives it) and that has a `power1_average` reading
/// gives that reading.
pub proof fn lemma_amdgpu_name_file_gives_average<T>(
    h: HwmonReadings<T>,
    before: Seq<char>,
    after: Seq<char>,
    x: T,
)
    requires
        h.name matches Some(n) && n@ == before + "amdgpu"@ + after,
        all_white_space(before),
        all_white_space(after),
        h.power_average == Some(x),
    ensures
        power_reading_of(seq![h]) == Some(x),
{
    reveal_strlit("amdgpu");
    lemma_trim_ignores_padding(before, "amdgpu"@, after);
    assert(trim_ws("amdgpu"@) == "amdgpu"@);
    assert(seq![h][0] == h);
}

} // verus!
