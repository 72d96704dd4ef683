//! Drives: how a drive is described from what the system reports, in which
//! order drives are listed, which drive is monitored by default, and the row
//! that shows a drive in the selector.
use vstd::prelude::*;
use vstd::string::*;
use crate::size::{gb_text, push_gb};
use crate::text::{dec, law_dec_round_trip};
use crate::text::{
    chars_of, has_prefix, str_equal, pad_right, parse_unsigned, parse_unsigned_chars, push_padded,
    starts_with_chars, string_of, trim_chars, trimmed,
};

verus! {

broadcast use vstd::string::group_string_axioms;

/// A drive as the selector lists it. Its size is kept in bytes; the selector
/// shows it in gibibytes with one decimal.
pub struct Disk {
    pub device_id: String,
    pub friendly_name: String,
    pub media_type: String,
    pub size_bytes: u64,
}

/// The mathematical value of a [`Disk`].
pub struct DiskView {
    pub device_id: Seq<char>,
    pub friendly_name: Seq<char>,
    pub media_type: Seq<char>,
    pub size_bytes: nat,
}

impl View for Disk {
    type V = DiskView;

    open spec fn view(&self) -> DiskView {
        DiskView {
            device_id: self.device_id@,
            friendly_name: self.friendly_name@,
            media_type: self.media_type@,
            size_bytes: self.size_bytes as nat,
        }
    }
}

/// A drive as the Windows storage management provider reports it
/// (`MSFT_PhysicalDisk`): its media type is a number and its size may be missing.
pub struct WmiDisk {
    pub device_id: String,
    pub friendly_name: String,
    pub media_type: u16,
    pub size: Option<u64>,
}

/// The order in which drives are listed.
#[derive(Clone, Copy, PartialEq, Eq, Debug)]
pub enum DiskOrder {
    /// By the number in the device id; ids that are not a `u32` come last.
    DeviceNumber,
    /// By the device id, character by character.
    DeviceName,
}

// ---------------------------------------------------------------------------
// Specifications
// ---------------------------------------------------------------------------

/// The name of a Windows media type code.
pub open spec fn media_type_name(code: u16) -> Seq<char> {
    if code == 3 {
        "HDD"@
    } else if code == 4 {
        "SSD"@
    } else if code == 5 {
        "SCM"@
    } else {
        "Unknown"@
    }
}

/// Block devices that are not drives: loop, RAM, device-mapper, compressed RAM
/// and optical devices.
pub open spec fn is_virtual_name(name: Seq<char>) -> bool {
    ||| has_prefix(name, "loop"@)
    ||| has_prefix(name, "ram"@)
    ||| has_prefix(name, "dm-"@)
    ||| has_prefix(name, "zram"@)
    ||| has_prefix(name, "sr"@)
}

/// NVMe devices are named `nvme…`.
pub open spec fn is_nvme_name(name: Seq<char>) -> bool {
    has_prefix(name, "nvme"@)
}

/// The media type of a Linux block device: NVMe by its name, otherwise SSD when
/// the kernel reports it non-rotational, HDD when it does not.
pub open spec fn linux_media(name: Seq<char>, rotational: nat) -> Seq<char> {
    if is_nvme_name(name) {
        "NVMe"@
    } else if rotational == 0 {
        "SSD"@
    } else {
        "HDD"@
    }
}

/// A number read from a sysfs file, or `default` when the text is not one.
pub open spec fn sysfs_number(text: Seq<char>, max: nat, default: nat) -> nat {
    match parse_unsigned(trimmed(text), max) {
        Some(v) => v,
        None => default,
    }
}

/// The drive described by the sysfs files of block device `name`: the model
/// (`device/model`), the size in 512-byte sectors (`size`) and the rotational
/// flag (`queue/rotational`); an unreadable file counts as empty.
pub open spec fn linux_disk(
    name: Seq<char>,
    model_text: Seq<char>,
    size_text: Seq<char>,
    rotational_text: Seq<char>,
) -> DiskView {
    let model = trimmed(model_text);
    DiskView {
        device_id: name,
        friendly_name: if model.len() == 0 {
            "Unknown"@
        } else {
            model
        },
        media_type: linux_media(name, sysfs_number(rotational_text, 255, 1)),
        size_bytes: (sysfs_number(size_text, 0xffff_ffff_ffff_ffff, 0) * 512) % 0x1_0000_0000_0000_0000,
    }
}

/// The drive a Windows record describes; a missing size counts as zero.
pub open spec fn wmi_disk(
    device_id: Seq<char>,
    friendly_name: Seq<char>,
    media_type: u16,
    size: Option<u64>,
) -> DiskView {
    DiskView {
        device_id,
        friendly_name,
        media_type: media_type_name(media_type),
        size_bytes: match size {
            Some(b) => b as nat,
            None => 0,
        },
    }
}

/// The number in a Windows device id; ids that are not a `u32` get the largest one.
pub open spec fn device_number(id: Seq<char>) -> nat {
    match parse_unsigned(id, 0xffff_ffff) {
        Some(v) => v,
        None => 0xffff_ffff,
    }
}

/// `a` comes before `b`, character by character, a proper prefix first; this is
/// the order of `str`, whose byte-wise comparison of UTF-8 orders code points alike.
pub open spec fn lex_less(a: Seq<char>, b: Seq<char>) -> bool
    decreases a.len(),
{
    if a.len() == 0 {
        b.len() > 0
    } else if b.len() == 0 {
        false
    } else if a[0] != b[0] {
        (a[0] as u32) < (b[0] as u32)
    } else {
        lex_less(a.drop_first(), b.drop_first())
    }
}

/// Drive `a` goes after drive `b` in the given order.
pub open spec fn goes_after(order: DiskOrder, a: DiskView, b: DiskView) -> bool {
    match order {
        DiskOrder::DeviceNumber => device_number(a.device_id) > device_number(b.device_id),
        DiskOrder::DeviceName => lex_less(b.device_id, a.device_id),
    }
}

/// The place of `x` in `s`: before the first drive that goes after it.
pub open spec fn insert_pos(order: DiskOrder, s: Seq<DiskView>, x: DiskView) -> nat
    decreases s.len(),
{
    if s.len() == 0 || goes_after(order, s[0], x) {
        0
    } else {
        1 + insert_pos(order, s.drop_first(), x)
    }
}

/// `s` listed in the given order; drives that tie keep the order they came in.
pub open spec fn ordered(order: DiskOrder, s: Seq<DiskView>) -> Seq<DiskView>
    decreases s.len(),
{
    if s.len() == 0 {
        s
    } else {
        let rest = ordered(order, s.drop_last());
        rest.insert(insert_pos(order, rest, s.last()) as int, s.last())
    }
}

/// No drive of `s` goes after one listed later.
pub open spec fn is_ordered(order: DiskOrder, s: Seq<DiskView>) -> bool {
    forall|i: int, j: int| 0 <= i < j < s.len() ==> !goes_after(order, #[trigger] s[i], #[trigger] s[j])
}

/// The views of a sequence of drives.
pub open spec fn disk_views(s: Seq<Disk>) -> Seq<DiskView> {
    s.map_values(|d: Disk| d@)
}

/// Index of the first drive whose id is `id`, if any.
pub open spec fn first_with_id(s: Seq<DiskView>, id: Seq<char>) -> Option<nat>
    decreases s.len(),
{
    if s.len() == 0 {
        None
    } else if s[0].device_id == id {
        Some(0)
    } else {
        match first_with_id(s.drop_first(), id) {
            Some(i) => Some(i + 1),
            None => None,
        }
    }
}

/// Index of the first NVMe drive, if any.
pub open spec fn first_nvme(s: Seq<DiskView>) -> Option<nat>
    decreases s.len(),
{
    if s.len() == 0 {
        None
    } else if is_nvme_name(s[0].device_id) {
        Some(0)
    } else {
        match first_nvme(s.drop_first()) {
            Some(i) => Some(i + 1),
            None => None,
        }
    }
}

/// The drive monitored on Linux without a choice: the first NVMe drive, else the first drive.
pub open spec fn linux_default(s: Seq<DiskView>) -> Option<nat> {
    match first_nvme(s) {
        Some(i) => Some(i),
        None => if s.len() > 0 {
            Some(0)
        } else {
            None
        },
    }
}

/// The name shown for Windows disk 0 without a choice: its friendly name, or `Disk 0`.
pub open spec fn windows_default_name(s: Seq<DiskView>) -> Seq<char> {
    match first_with_id(s, "0"@) {
        Some(i) => s[i as int].friendly_name,
        None => "Disk 0"@,
    }
}

/// The marker and style of a selector row.
pub open spec fn row_lead(selected: bool) -> Seq<char> {
    if selected {
        "  \x1b[96m▶ \x1b[0m\x1b[1m\x1b[97m"@
    } else {
        "    \x1b[90m"@
    }
}

/// A selector row: id, name, media type and size in aligned columns.
pub open spec fn row_text(d: DiskView, selected: bool) -> Seq<char> {
    row_lead(selected) + pad_right(d.device_id, 6) + "\x1b[0m  \x1b[97m"@ + pad_right(
        d.friendly_name,
        35,
    ) + "\x1b[0m  \x1b[93m"@ + pad_right(d.media_type, 12) + "\x1b[0m  \x1b[92m"@ + gb_text(
        d.size_bytes,
    ) + "\x1b[0m"@
}

/// A selector row for a numbered Windows disk; an unknown size shows as `? GB`.
pub open spec fn numbered_row_text(d: DiskView, selected: bool) -> Seq<char> {
    row_lead(selected) + "Disk "@ + pad_right(d.device_id, 4) + "\x1b[0m  \x1b[97m"@ + pad_right(
        d.friendly_name,
        35,
    ) + "\x1b[0m  \x1b[93m"@ + pad_right(d.media_type, 12) + "\x1b[0m  \x1b[92m"@ + (if d.size_bytes
        > 0 {
        gb_text(d.size_bytes)
    } else {
        "? GB"@
    }) + "\x1b[0m"@
}

// ---------------------------------------------------------------------------
// Lemmas and laws
// ---------------------------------------------------------------------------

proof fn lemma_lex_less_trans(a: Seq<char>, b: Seq<char>, c: Seq<char>)
    requires
        lex_less(a, b),
        lex_less(b, c),
    ensures
        lex_less(a, c),
    decreases a.len(),
{
    if a.len() > 0 && b.len() > 0 && c.len() > 0 && a[0] == b[0] && b[0] == c[0] {
        lemma_lex_less_trans(a.drop_first(), b.drop_first(), c.drop_first());
    }
}

proof fn lemma_goes_after_trans(order: DiskOrder, a: DiskView, b: DiskView, c: DiskView)
    requires
        goes_after(order, a, b),
        goes_after(order, b, c),
    ensures
        goes_after(order, a, c),
{
    if order == DiskOrder::DeviceName {
        lemma_lex_less_trans(c.device_id, b.device_id, a.device_id);
    }
}

proof fn lemma_lex_less_irreflexive(a: Seq<char>)
    ensures
        !lex_less(a, a),
    decreases a.len(),
{
    if a.len() > 0 {
        lemma_lex_less_irreflexive(a.drop_first());
    }
}

proof fn lemma_goes_after_irreflexive(order: DiskOrder, a: DiskView)
    ensures
        !goes_after(order, a, a),
{
    lemma_lex_less_irreflexive(a.device_id);
}

proof fn lemma_insert_pos(order: DiskOrder, s: Seq<DiskView>, x: DiskView)
    ensures
        insert_pos(order, s, x) <= s.len(),
        forall|i: int| 0 <= i < insert_pos(order, s, x) ==> !goes_after(order, #[trigger] s[i], x),
        insert_pos(order, s, x) < s.len() ==> goes_after(order, s[insert_pos(order, s, x) as int], x),
    decreases s.len(),
{
    if s.len() > 0 && !goes_after(order, s[0], x) {
        lemma_insert_pos(order, s.drop_first(), x);
        assert forall|i: int| 0 <= i < insert_pos(order, s, x) implies !goes_after(
            order,
            #[trigger] s[i],
            x,
        ) by {
            if i > 0 {
                assert(s[i] == s.drop_first()[i - 1]);
            }
        }
    }
}

/// Listing drives in order keeps every drive, each as often as before.
pub proof fn law_ordered_keeps_drives(order: DiskOrder, s: Seq<DiskView>)
    ensures
        ordered(order, s).to_multiset() == s.to_multiset(),
        ordered(order, s).len() == s.len(),
    decreases s.len(),
{
    broadcast use vstd::seq_lib::to_multiset_insert;
    broadcast use vstd::seq_lib::group_to_multiset_ensures;

    if s.len() > 0 {
        let rest = ordered(order, s.drop_last());
        law_ordered_keeps_drives(order, s.drop_last());
        lemma_insert_pos(order, rest, s.last());
        assert(s =~= s.drop_last().push(s.last()));
        assert(s.to_multiset() == s.drop_last().to_multiset().insert(s.last()));
    }
}

/// Drives listed in order really are in order.
pub proof fn law_ordered_is_ordered(order: DiskOrder, s: Seq<DiskView>)
    ensures
        is_ordered(order, ordered(order, s)),
    decreases s.len(),
{
    if s.len() > 0 {
        let rest = ordered(order, s.drop_last());
        let x = s.last();
        law_ordered_is_ordered(order, s.drop_last());
        lemma_insert_pos(order, rest, x);
        let p: int = insert_pos(order, rest, x) as int;
        let r = rest.insert(p, x);
        assert forall|i: int, j: int| 0 <= i < j < r.len() implies !goes_after(
            order,
            #[trigger] r[i],
            #[trigger] r[j],
        ) by {
            if j < p {
                assert(r[i] == rest[i] && r[j] == rest[j]);
            } else if j == p {
                assert(r[i] == rest[i]);
            } else if i < p {
                assert(r[i] == rest[i] && r[j] == rest[j - 1]);
            } else if i == p {
                assert(r[j] == rest[j - 1]);
                assert(goes_after(order, rest[p], x));
                if goes_after(order, x, rest[j - 1]) {
                    lemma_goes_after_trans(order, rest[p], x, rest[j - 1]);
                    lemma_goes_after_irreflexive(order, rest[p]);
                    if p < j - 1 {
                        assert(!goes_after(order, rest[p], rest[j - 1]));
                    }
                }
            } else {
                assert(r[i] == rest[i - 1] && r[j] == rest[j - 1]);
            }
        }
    }
}

proof fn lemma_first_nvme(s: Seq<DiskView>)
    ensures
        match first_nvme(s) {
            Some(i) => i < s.len() && is_nvme_name(s[i as int].device_id) && forall|j: int|
                0 <= j < i ==> !is_nvme_name(#[trigger] s[j].device_id),
            None => forall|j: int| 0 <= j < s.len() ==> !is_nvme_name(#[trigger] s[j].device_id),
        },
    decreases s.len(),
{
    if s.len() > 0 && !is_nvme_name(s[0].device_id) {
        lemma_first_nvme(s.drop_first());
        match first_nvme(s.drop_first()) {
            Some(i) => {
                assert(s[i + 1int] == s.drop_first()[i as int]);
                assert forall|j: int| 0 <= j < i + 1 implies !is_nvme_name(#[trigger] s[j].device_id) by {
                    if j > 0 {
                        assert(s[j] == s.drop_first()[j - 1]);
                    }
                }
            },
            None => {
                assert forall|j: int| 0 <= j < s.len() implies !is_nvme_name(#[trigger] s[j].device_id) by {
                    if j > 0 {
                        assert(s[j] == s.drop_first()[j - 1]);
                    }
                }
            },
        }
    }
}

/// Without a choice, Linux monitors the first NVMe drive when there is one,
/// and otherwise the first drive listed; only an empty list leaves nothing.
pub proof fn law_linux_default_prefers_nvme(s: Seq<DiskView>)
    ensures
        linux_default(s) is None <==> s.len() == 0,
        s.len() > 0 && (forall|j: int| 0 <= j < s.len() ==> !is_nvme_name(#[trigger] s[j].device_id))
            ==> linux_default(s) == Some(0nat),
        forall|i: int|
            0 <= i < s.len() && is_nvme_name(#[trigger] s[i].device_id) && (forall|j: int|
                0 <= j < i ==> !is_nvme_name(#[trigger] s[j].device_id)) ==> linux_default(s)
                == Some(i as nat),
        match linux_default(s) {
            Some(i) => {
                &&& i < s.len()
                &&& (exists|j: int| 0 <= j < s.len() && is_nvme_name(#[trigger] s[j].device_id))
                    ==> is_nvme_name(s[i as int].device_id)
                &&& forall|j: int| 0 <= j < i ==> !is_nvme_name(#[trigger] s[j].device_id)
            },
            None => true,
        },
{
    lemma_first_nvme(s);
    assert forall|i: int|
        0 <= i < s.len() && is_nvme_name(#[trigger] s[i].device_id) && (forall|j: int|
            0 <= j < i ==> !is_nvme_name(#[trigger] s[j].device_id)) implies linux_default(s)
        == Some(i as nat) by {
        match first_nvme(s) {
            Some(k) => {
                if (k as int) < i {
                    assert(!is_nvme_name(s[k as int].device_id));
                } else if (k as int) > i {
                    assert(!is_nvme_name(s[i].device_id));
                }
            },
            None => {
                assert(!is_nvme_name(s[i].device_id));
            },
        }
    }
}

proof fn lemma_first_with_id(s: Seq<DiskView>, id: Seq<char>)
    ensures
        match first_with_id(s, id) {
            Some(i) => i < s.len() && s[i as int].device_id == id && forall|j: int|
                0 <= j < i ==> #[trigger] s[j].device_id != id,
            None => forall|j: int| 0 <= j < s.len() ==> #[trigger] s[j].device_id != id,
        },
    decreases s.len(),
{
    if s.len() > 0 && s[0].device_id != id {
        lemma_first_with_id(s.drop_first(), id);
        match first_with_id(s.drop_first(), id) {
            Some(i) => {
                assert(s[i + 1int] == s.drop_first()[i as int]);
                assert forall|j: int| 0 <= j < i + 1 implies #[trigger] s[j].device_id != id by {
                    if j > 0 {
                        assert(s[j] == s.drop_first()[j - 1]);
                    }
                }
            },
            None => {
                assert forall|j: int| 0 <= j < s.len() implies #[trigger] s[j].device_id != id by {
                    if j > 0 {
                        assert(s[j] == s.drop_first()[j - 1]);
                    }
                }
            },
        }
    }
}

/// Without a choice, Windows monitors disk `0` under the friendly name of the
/// first listed disk whose id is `0`, and under `Disk 0` when none is listed.
pub proof fn law_windows_default_name(s: Seq<DiskView>)
    ensures
        (forall|j: int| 0 <= j < s.len() ==> #[trigger] s[j].device_id != "0"@)
            ==> windows_default_name(s) == "Disk 0"@,
        forall|i: int|
            0 <= i < s.len() && #[trigger] s[i].device_id == "0"@ && (forall|j: int|
                0 <= j < i ==> #[trigger] s[j].device_id != "0"@) ==> windows_default_name(s)
                == s[i].friendly_name,
{
    lemma_first_with_id(s, "0"@);
    assert forall|i: int|
        0 <= i < s.len() && #[trigger] s[i].device_id == "0"@ && (forall|j: int|
            0 <= j < i ==> #[trigger] s[j].device_id != "0"@) implies windows_default_name(s)
        == s[i].friendly_name by {
        match first_with_id(s, "0"@) {
            Some(k) => {
                if (k as int) < i {
                    assert(s[k as int].device_id != "0"@);
                } else if (k as int) > i {
                    assert(s[i].device_id != "0"@);
                }
            },
            None => {
                assert(s[i].device_id != "0"@);
            },
        }
    }
}

/// A drive built from a Windows record keeps the record's id and friendly
/// name; codes 3, 4 and 5 name an HDD, an SSD and storage-class memory, any
/// other code is unknown; a missing size counts as zero bytes.
pub proof fn law_wmi_disk_fields(id: Seq<char>, name: Seq<char>, code: u16, size: Option<u64>)
    ensures
        wmi_disk(id, name, code, size).device_id == id,
        wmi_disk(id, name, code, size).friendly_name == name,
        code == 3 ==> wmi_disk(id, name, code, size).media_type == "HDD"@,
        code == 4 ==> wmi_disk(id, name, code, size).media_type == "SSD"@,
        code == 5 ==> wmi_disk(id, name, code, size).media_type == "SCM"@,
        (code < 3 || code > 5) ==> wmi_disk(id, name, code, size).media_type == "Unknown"@,
        size matches Some(b) ==> wmi_disk(id, name, code, size).size_bytes == b,
        size is None ==> wmi_disk(id, name, code, size).size_bytes == 0,
{
}

proof fn lemma_prefix_first(n: Seq<char>, p: Seq<char>)
    requires
        has_prefix(n, p),
        p.len() > 0,
    ensures
        n.len() > 0,
        n[0] == p[0],
{
    assert(n.take(p.len() as int)[0] == n[0]);
}

proof fn lemma_prefix_append(p: Seq<char>, x: Seq<char>)
    ensures
        has_prefix(p + x, p),
{
    assert((p + x).take(p.len() as int) =~= p);
}

/// The virtual block devices are exactly those named `loop…`, `ram…`, `dm-…`,
/// `zram…` or `sr…`: every such name is skipped, while a name that starts with
/// another letter, such as any NVMe device or `sd…` disk, is kept.
pub proof fn law_virtual_names(n: Seq<char>, x: Seq<char>)
    ensures
        is_virtual_name("loop"@ + x),
        is_virtual_name("ram"@ + x),
        is_virtual_name("dm-"@ + x),
        is_virtual_name("zram"@ + x),
        is_virtual_name("sr"@ + x),
        n.len() == 0 ==> !is_virtual_name(n),
        n.len() > 0 && n[0] != 'l' && n[0] != 'r' && n[0] != 'd' && n[0] != 'z' && n[0] != 's'
            ==> !is_virtual_name(n),
        is_nvme_name(n) ==> !is_virtual_name(n),
        has_prefix(n, "sd"@) ==> !is_virtual_name(n),
{
    reveal_strlit("loop");
    reveal_strlit("ram");
    reveal_strlit("dm-");
    reveal_strlit("zram");
    reveal_strlit("sr");
    reveal_strlit("sd");
    reveal_strlit("nvme");
    lemma_prefix_append("loop"@, x);
    lemma_prefix_append("ram"@, x);
    lemma_prefix_append("dm-"@, x);
    lemma_prefix_append("zram"@, x);
    lemma_prefix_append("sr"@, x);
    if has_prefix(n, "loop"@) {
        lemma_prefix_first(n, "loop"@);
    }
    if has_prefix(n, "ram"@) {
        lemma_prefix_first(n, "ram"@);
    }
    if has_prefix(n, "dm-"@) {
        lemma_prefix_first(n, "dm-"@);
    }
    if has_prefix(n, "zram"@) {
        lemma_prefix_first(n, "zram"@);
    }
    if has_prefix(n, "sr"@) {
        lemma_prefix_first(n, "sr"@);
        if has_prefix(n, "sd"@) {
            assert(n.take(2)[1] == 'r' && n.take(2)[1] == 'd');
        }
    }
    if is_nvme_name(n) {
        lemma_prefix_first(n, "nvme"@);
    }
    if has_prefix(n, "sd"@) {
        lemma_prefix_first(n, "sd"@);
    }
}

/// The drive described by sysfs is named after its block device; its model,
/// trimmed, is its name unless empty, when it is `Unknown`; NVMe devices are
/// NVMe drives whatever the rotational flag.
pub proof fn law_sysfs_identity(name: Seq<char>, model: Seq<char>, size_text: Seq<char>, rot: Seq<char>)
    ensures
        linux_disk(name, model, size_text, rot).device_id == name,
        trimmed(model).len() > 0 ==> linux_disk(name, model, size_text, rot).friendly_name == trimmed(model),
        trimmed(model).len() == 0 ==> linux_disk(name, model, size_text, rot).friendly_name == "Unknown"@,
        is_nvme_name(name) ==> linux_disk(name, model, size_text, rot).media_type == "NVMe"@,
{
}

/// The size of a drive depends on its `size` file alone: neither the device's
/// name, its model nor its rotational flag changes it.
pub proof fn law_sysfs_size_depends_on_size_file_only(
    name: Seq<char>,
    model: Seq<char>,
    size_text: Seq<char>,
    rot: Seq<char>,
    name2: Seq<char>,
    model2: Seq<char>,
    rot2: Seq<char>,
)
    ensures
        linux_disk(name, model, size_text, rot).size_bytes == linux_disk(name2, model2, size_text, rot2).size_bytes,
{
}

/// A `size` file holding `n` sectors (with any surrounding whitespace) gives
/// `n * 512` bytes, wrapped to 64 bits; a file that holds no number gives zero.
pub proof fn law_sysfs_size_in_sectors(name: Seq<char>, model: Seq<char>, size_text: Seq<char>, rot: Seq<char>, n: nat)
    ensures
        n <= 0xffff_ffff_ffff_ffff && trimmed(size_text) == dec(n) ==> linux_disk(name, model, size_text, rot).size_bytes
            == (n * 512) % 0x1_0000_0000_0000_0000,
        trimmed(size_text).len() == 0 ==> linux_disk(name, model, size_text, rot).size_bytes == 0,
{
    law_dec_round_trip(n);
}

/// A drive that is not NVMe is an SSD when its rotational flag reads 0 and an
/// HDD when it reads another number or cannot be read.
pub proof fn law_sysfs_media(name: Seq<char>, model: Seq<char>, size_text: Seq<char>, rot: Seq<char>, r: nat)
    requires
        !is_nvme_name(name),
    ensures
        trimmed(rot) == dec(0) ==> linux_disk(name, model, size_text, rot).media_type == "SSD"@,
        0 < r <= 255 && trimmed(rot) == dec(r) ==> linux_disk(name, model, size_text, rot).media_type == "HDD"@,
        trimmed(rot).len() == 0 ==> linux_disk(name, model, size_text, rot).media_type == "HDD"@,
{
    law_dec_round_trip(0);
    law_dec_round_trip(r);
}

/// A device id written as the number `n` sorts as `n` when it fits in a `u32`
/// and last otherwise; an empty id sorts last.
pub proof fn law_device_number(n: nat)
    ensures
        n <= 0xffff_ffff ==> device_number(dec(n)) == n,
        n > 0xffff_ffff ==> device_number(dec(n)) == 0xffff_ffff,
        device_number(Seq::empty()) == 0xffff_ffff,
{
    law_dec_round_trip(n);
}

/// Listed by device number, a drive numbered `m` goes after one numbered `n`
/// exactly when `m > n`, and an id that is not a number goes after every
/// numbered one. Listed by name, a drive goes after another exactly when its
/// id comes later character by character.
pub proof fn law_order_keys(a: DiskView, b: DiskView, m: nat, n: nat)
    ensures
        m <= 0xffff_ffff && n <= 0xffff_ffff && a.device_id == dec(m) && b.device_id == dec(n)
            ==> (goes_after(DiskOrder::DeviceNumber, a, b) <==> m > n),
        n < 0xffff_ffff && b.device_id == dec(n) && a.device_id.len() == 0 ==> goes_after(
            DiskOrder::DeviceNumber,
            a,
            b,
        ),
        goes_after(DiskOrder::DeviceName, a, b) <==> lex_less(b.device_id, a.device_id),
{
    law_device_number(m);
    law_device_number(n);
}

/// A proper prefix comes first, and otherwise the first differing character decides.
pub proof fn law_lex_order(a: Seq<char>, b: Seq<char>, c: char, d: char)
    ensures
        b.len() > 0 ==> lex_less(a, a + b),
        !lex_less(a + b, a),
        (c as u32) < (d as u32) ==> lex_less(a + seq![c] + b, a + seq![d]),
    decreases a.len(),
{
    if a.len() > 0 {
        law_lex_order(a.drop_first(), b, c, d);
        assert((a + b).drop_first() =~= a.drop_first() + b);
        assert((a + seq![c] + b).drop_first() =~= a.drop_first() + seq![c] + b);
        assert((a + seq![d]).drop_first() =~= a.drop_first() + seq![d]);
    } else {
        assert(a + b =~= b);
        assert(a + seq![c] + b =~= seq![c] + b);
        assert(a + seq![d] =~= seq![d]);
    }
}

/// Drives `a` and `b` tie in the given order.
pub open spec fn same_rank(order: DiskOrder, a: DiskView, b: DiskView) -> bool {
    match order {
        DiskOrder::DeviceNumber => device_number(a.device_id) == device_number(b.device_id),
        DiskOrder::DeviceName => a.device_id == b.device_id,
    }
}

/// The drives of `s` that tie with `r`, in their order in `s`.
pub open spec fn rank_class(order: DiskOrder, s: Seq<DiskView>, r: DiskView) -> Seq<DiskView> {
    s.filter(|d: DiskView| same_rank(order, d, r))
}

/// Drives that tie keep the order they came in: for every rank, the listing
/// holds the drives of that rank in the order in which they were given.
pub proof fn law_ordered_is_stable(order: DiskOrder, s: Seq<DiskView>, r: DiskView)
    ensures
        rank_class(order, ordered(order, s), r) == rank_class(order, s, r),
    decreases s.len(),
{
    let pred = |d: DiskView| same_rank(order, d, r);
    if s.len() > 0 {
        let rest = ordered(order, s.drop_last());
        let x = s.last();
        law_ordered_is_stable(order, s.drop_last(), r);
        law_ordered_is_ordered(order, s.drop_last());
        lemma_insert_pos(order, rest, x);
        let p: int = insert_pos(order, rest, x) as int;
        let a = rest.take(p);
        let b = rest.skip(p);
        assert(rest =~= a + b);
        assert(rest.insert(p, x) =~= a + seq![x] + b);
        Seq::filter_distributes_over_add(a, b, pred);
        Seq::filter_distributes_over_add(a + seq![x], b, pred);
        Seq::filter_distributes_over_add(a, seq![x], pred);
        assert(seq![x].drop_last() =~= Seq::<DiskView>::empty());
        reveal_with_fuel(Seq::<DiskView>::filter, 2);
        if pred(x) {
            assert forall|j: int| 0 <= j < b.len() implies !pred(#[trigger] b[j]) by {
                let y = rest[p + j];
                assert(b[j] == y);
                if pred(y) {
                    assert(goes_after(order, rest[p], y));
                    if j == 0 {
                        lemma_goes_after_irreflexive(order, rest[p]);
                    } else {
                        assert(!goes_after(order, rest[p], rest[p + j]));
                    }
                }
            }
            b.lemma_all_neg_filter_empty(pred);
            assert(b.filter(pred) =~= Seq::<DiskView>::empty());
            assert(seq![x].filter(pred) =~= seq![x]);
        } else {
            assert(seq![x].filter(pred) =~= Seq::<DiskView>::empty());
        }
        assert(rank_class(order, ordered(order, s), r) =~= rank_class(order, s, r));
    }
}

// ---------------------------------------------------------------------------
// Executable functions
// ---------------------------------------------------------------------------

/// The name of a Windows media type code: 3 is an HDD, 4 an SSD, 5 storage-class memory.
pub fn media_type_str(mt: u16) -> (s: &'static str)
    ensures
        s@ == media_type_name(mt),
{
    if mt == 3 {
        "HDD"
    } else if mt == 4 {
        "SSD"
    } else if mt == 5 {
        "SCM"
    } else {
        "Unknown"
    }
}

/// Whether `name` starts with `prefix`.
pub fn str_starts_with(name: &str, prefix: &str) -> (b: bool)
    ensures
        b == has_prefix(name@, prefix@),
{
    let n = chars_of(name);
    let p = chars_of(prefix);
    starts_with_chars(&n, &p)
}

/// Whether a block device is virtual rather than a drive.
pub fn is_virtual_device(name: &str) -> (b: bool)
    ensures
        b == is_virtual_name(name@),
{
    str_starts_with(name, "loop") || str_starts_with(name, "ram") || str_starts_with(name, "dm-")
        || str_starts_with(name, "zram") || str_starts_with(name, "sr")
}

/// Whether a device is an NVMe device.
pub fn is_nvme(name: &str) -> (b: bool)
    ensures
        b == is_nvme_name(name@),
{
    str_starts_with(name, "nvme")
}

/// A number read from a sysfs file, or `default` when the text is not one.
fn read_sysfs_number(text: &str, max: u64, default: u64) -> (v: u64)
    ensures
        v == sysfs_number(text@, max as nat, default as nat),
{
    let chars = chars_of(text);
    let t = trim_chars(&chars);
    match parse_unsigned_chars(&t, max) {
        Some(v) => v,
        None => default,
    }
}

impl Disk {
    /// The drive described by the sysfs files of block device `name`; the texts
    /// are the contents of `device/model`, `size` and `queue/rotational`, empty
    /// where a file could not be read.
    pub fn from_sysfs(name: &str, model_text: &str, size_text: &str, rotational_text: &str) -> (d:
        Disk)
        ensures
            d@ == linux_disk(name@, model_text@, size_text@, rotational_text@),
    {
        let model_chars = chars_of(model_text);
        let model = trim_chars(&model_chars);
        let friendly_name = if model.len() == 0 {
            String::from_str("Unknown")
        } else {
            string_of(&model)
        };
        let sectors: u64 = read_sysfs_number(size_text, 0xffff_ffff_ffff_ffff, 0);
        let rotational: u64 = read_sysfs_number(rotational_text, 255, 1);
        let media_type = if is_nvme(name) {
            String::from_str("NVMe")
        } else if rotational == 0 {
            String::from_str("SSD")
        } else {
            String::from_str("HDD")
        };
        let size_bytes: u64 = sectors.wrapping_mul(512);
        Disk { device_id: String::from_str(name), friendly_name, media_type, size_bytes }
    }

    /// The drive a Windows record describes.
    pub fn from_wmi(w: WmiDisk) -> (d: Disk)
        ensures
            d@ == wmi_disk(w.device_id@, w.friendly_name@, w.media_type, w.size),
    {
        let media_type = String::from_str(media_type_str(w.media_type));
        let size_bytes: u64 = match w.size {
            Some(b) => b,
            None => 0,
        };
        Disk { device_id: w.device_id, friendly_name: w.friendly_name, media_type, size_bytes }
    }
}

/// The number in a Windows device id, or the largest `u32` when the id is not one.
pub fn device_number_of(id: &str) -> (n: u32)
    ensures
        n as nat == device_number(id@),
{
    let chars = chars_of(id);
    match parse_unsigned_chars(&chars, 0xffff_ffff) {
        Some(v) => v as u32,
        None => 0xffff_ffff,
    }
}

/// Whether `a` comes before `b` character by character.
fn lex_less_chars(a: &[char], b: &[char]) -> (r: bool)
    ensures
        r == lex_less(a@, b@),
{
    let mut i: usize = 0;
    assert(a@.skip(0) =~= a@ && b@.skip(0) =~= b@);
    loop
        invariant
            i <= a.len(),
            i <= b.len(),
            lex_less(a@, b@) == lex_less(a@.skip(i as int), b@.skip(i as int)),
        decreases a.len() - i,
    {
        if i == a.len() {
            return i < b.len();
        }
        if i == b.len() {
            return false;
        }
        assert(a@.skip(i as int)[0] == a@[i as int] && b@.skip(i as int)[0] == b@[i as int]);
        if a[i] != b[i] {
            return (a[i] as u32) < (b[i] as u32);
        }
        assert(a@.skip(i as int).drop_first() =~= a@.skip(i + 1));
        assert(b@.skip(i as int).drop_first() =~= b@.skip(i + 1));
        i = i + 1;
    }
}

/// Whether drive `a` goes after drive `b` in the given order.
pub fn disk_goes_after(order: DiskOrder, a: &Disk, b: &Disk) -> (r: bool)
    ensures
        r == goes_after(order, a@, b@),
{
    match order {
        DiskOrder::DeviceNumber => device_number_of(a.device_id.as_str()) > device_number_of(
            b.device_id.as_str(),
        ),
        DiskOrder::DeviceName => {
            let x = chars_of(a.device_id.as_str());
            let y = chars_of(b.device_id.as_str());
            lex_less_chars(&y, &x)
        },
    }
}

/// The drives listed in the given order; drives that tie keep their order.
pub fn sort_disks(disks: Vec<Disk>, order: DiskOrder) -> (r: Vec<Disk>)
    ensures
        disk_views(r@) == ordered(order, disk_views(disks@)),
{
    let ghost orig = disk_views(disks@);
    let mut input = disks;
    let mut out: Vec<Disk> = Vec::new();
    let ghost mut k: int = 0;
    assert(orig.take(0) =~= Seq::<DiskView>::empty());
    assert(disk_views(input@) =~= orig.skip(0));
    while input.len() > 0
        invariant
            0 <= k <= orig.len(),
            disk_views(input@) == orig.skip(k),
            disk_views(out@) == ordered(order, orig.take(k)),
        decreases input.len(),
    {
        let ghost before = input@;
        proof {
            assert(disk_views(input@).len() == input@.len());
            assert(k < orig.len());
            assert(disk_views(before)[0] == before[0]@);
            assert(orig.skip(k)[0] == orig[k]);
        }
        let d = input.remove(0);
        proof {
            assert(d@ == orig[k]);
            assert(disk_views(input@) =~= orig.skip(k + 1)) by {
                assert(disk_views(input@) =~= disk_views(before).drop_first());
            }
        }
        let ghost rest = disk_views(out@);
        let mut j: usize = 0;
        assert(rest.skip(0) =~= rest);
        while j < out.len() && !disk_goes_after(order, &out[j], &d)
            invariant
                j <= out.len(),
                rest == disk_views(out@),
                insert_pos(order, rest, d@) == j + insert_pos(order, rest.skip(j as int), d@),
            decreases out.len() - j,
        {
            assert(rest.skip(j as int)[0] == rest[j as int]);
            assert(rest.skip(j as int).drop_first() =~= rest.skip(j + 1));
            j = j + 1;
        }
        proof {
            if j < out.len() {
                assert(rest.skip(j as int)[0] == rest[j as int]);
            }
        }
        out.insert(j, d);
        proof {
            assert(orig.take(k + 1).drop_last() =~= orig.take(k));
            assert(orig.take(k + 1).last() == d@);
            assert(disk_views(out@) =~= rest.insert(j as int, d@));
            k = k + 1;
        }
    }
    assert(orig.take(k) =~= orig);
    out
}

/// Index of the drive monitored on Linux without a choice: the first NVMe
/// drive, else the first drive; none when there is no drive.
pub fn linux_default_index(disks: &[Disk]) -> (r: Option<usize>)
    ensures
        match r {
            Some(i) => linux_default(disk_views(disks@)) == Some(i as nat),
            None => linux_default(disk_views(disks@)) is None,
        },
{
    let ghost s = disk_views(disks@);
    let mut i: usize = 0;
    assert(s.skip(0) =~= s);
    while i < disks.len()
        invariant
            i <= disks.len(),
            s == disk_views(disks@),
            first_nvme(s) == (match first_nvme(s.skip(i as int)) {
                Some(m) => Some((m + i) as nat),
                None => None::<nat>,
            }),
        decreases disks.len() - i,
    {
        assert(s.skip(i as int)[0] == s[i as int]);
        if is_nvme(disks[i].device_id.as_str()) {
            return Some(i);
        }
        assert(s.skip(i as int).drop_first() =~= s.skip(i + 1));
        i = i + 1;
    }
    if disks.len() > 0 {
        Some(0)
    } else {
        None
    }
}

/// The target monitored on Windows without a choice: disk `0`, named by its
/// friendly name when it is listed and `Disk 0` otherwise.
pub fn windows_default(disks: &[Disk]) -> (r: (String, String))
    ensures
        r.0@ == "0"@,
        r.1@ == windows_default_name(disk_views(disks@)),
{
    let ghost s = disk_views(disks@);
    let mut i: usize = 0;
    assert(s.skip(0) =~= s);
    while i < disks.len()
        invariant
            i <= disks.len(),
            s == disk_views(disks@),
            first_with_id(s, "0"@) == (match first_with_id(s.skip(i as int), "0"@) {
                Some(m) => Some((m + i) as nat),
                None => None::<nat>,
            }),
        decreases disks.len() - i,
    {
        assert(s.skip(i as int)[0] == s[i as int]);
        if str_equal(disks[i].device_id.as_str(), "0") {
            return (String::from_str("0"), disks[i].friendly_name.clone());
        }
        assert(s.skip(i as int).drop_first() =~= s.skip(i + 1));
        i = i + 1;
    }
    (String::from_str("0"), String::from_str("Disk 0"))
}

/// Appends the marker and style of a selector row.
fn push_row_lead(out: &mut String, selected: bool)
    ensures
        final(out)@ == old(out)@ + row_lead(selected),
{
    if selected {
        out.append("  \x1b[96m▶ \x1b[0m\x1b[1m\x1b[97m");
    } else {
        out.append("    \x1b[90m");
    }
}

/// The selector row of a drive.
pub fn disk_row(d: &Disk, selected: bool) -> (s: String)
    ensures
        s@ == row_text(d@, selected),
{
    let mut s = String::new();
    push_row_lead(&mut s, selected);
    push_padded(&mut s, d.device_id.as_str(), 6);
    s.append("\x1b[0m  \x1b[97m");
    push_padded(&mut s, d.friendly_name.as_str(), 35);
    s.append("\x1b[0m  \x1b[93m");
    push_padded(&mut s, d.media_type.as_str(), 12);
    s.append("\x1b[0m  \x1b[92m");
    push_gb(&mut s, d.size_bytes);
    s.append("\x1b[0m");
    assert(s@ =~= row_text(d@, selected));
    s
}

/// The selector row of a numbered Windows disk.
pub fn numbered_disk_row(d: &Disk, selected: bool) -> (s: String)
    ensures
        s@ == numbered_row_text(d@, selected),
{
    let mut s = String::new();
    push_row_lead(&mut s, selected);
    s.append("Disk ");
    push_padded(&mut s, d.device_id.as_str(), 4);
    s.append("\x1b[0m  \x1b[97m");
    push_padded(&mut s, d.friendly_name.as_str(), 35);
    s.append("\x1b[0m  \x1b[93m");
    push_padded(&mut s, d.media_type.as_str(), 12);
    s.append("\x1b[0m  \x1b[92m");
    if d.size_bytes > 0 {
        push_gb(&mut s, d.size_bytes);
    } else {
        s.append("? GB");
    }
    s.append("\x1b[0m");
    assert(s@ =~= numbered_row_text(d@, selected));
    s
}

} // verus!
