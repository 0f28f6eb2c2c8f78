//! The storage-device classifier: combines a device's name pattern, its
//! rotational and removable attributes (each a tri-state: present-true,
//! present-false, or absent), and its device-mapper UUID into a best-effort
//! device-type label. It never fails: unreadable attributes degrade to the
//! undetermined label.

use vstd::prelude::*;

use crate::text::{starts_with_spec, str_eq, str_starts_with, trim_spec, trim_str};

verus! {

/// Whether a device name matches the RAM-backed compressed block device
/// pattern: the literal `zram` followed by zero or more ASCII digits and
/// nothing else.
pub open spec fn is_zram_name(s: Seq<char>) -> bool {
    &&& s.len() >= 4
    &&& s.subrange(0, 4) == "zram"@
    &&& forall|k: int| 4 <= k < s.len() ==> crate::text::is_digit(#[trigger] s[k])
}

/// Relies on `regex::Regex::is_match` with the anchored pattern
/// `^zram[0-9]*$`: it accepts exactly the strings made of the literal
/// `zram` followed by zero or more ASCII digits. `Regex::new` cannot fail
/// on this fixed, well-formed pattern.
#[verifier::external_body]
fn zram_name_matches(name: &str) -> (r: bool)
    ensures
        r == is_zram_name(name@),
{
    regex::Regex::new(r"^zram[0-9]*$").unwrap().is_match(name)
}

/// The tri-state read of a single-line boolean attribute file: exactly
/// `0` or `1` after trimming; anything else counts as absent.
pub open spec fn spec_bool_attr(s: Seq<char>) -> Option<bool> {
    if trim_spec(s) == "0"@ {
        Some(false)
    } else if trim_spec(s) == "1"@ {
        Some(true)
    } else {
        None
    }
}

/// Read a boolean attribute file's content: `0` or `1` after trimming,
/// anything else is an absent signal, never an error.
pub fn parse_bool_attr(s: &str) -> (r: Option<bool>)
    ensures
        r == spec_bool_attr(s@),
{
    let t = trim_str(s);
    if str_eq(t.as_str(), "0") {
        Some(false)
    } else if str_eq(t.as_str(), "1") {
        Some(true)
    } else {
        None
    }
}

/// What the system can tell about one block device: the nearest thing it
/// has to a physical device.
#[derive(Debug, Clone, PartialEq)]
pub struct Disk {
    /// The kernel device name, like `sda` or `nvme0n1`.
    pub name: String,
    /// Whether the media spins: true for HDD, false for SSD, absent when
    /// the attribute was unreadable. Unreliable for USB-bridged devices.
    pub rotational: Option<bool>,
    /// Whether the system thinks the media is removable; absent when the
    /// attribute was unreadable. Unreliable for device-mapper devices.
    pub removable: Option<bool>,
    /// Whether the name marks a RAM-backed device.
    pub ram: bool,
    /// Whether the device-mapper UUID marks an LVM volume.
    pub lvm: bool,
    /// Whether the device-mapper UUID marks an encrypted volume.
    pub crypted: bool,
}

/// Whether a device-mapper UUID marks an encrypted volume.
pub open spec fn spec_crypted(dm_uuid: Option<Seq<char>>) -> bool {
    dm_uuid is Some && starts_with_spec(dm_uuid.unwrap(), "CRYPT-"@)
}

/// Whether a device-mapper UUID marks an LVM volume.
pub open spec fn spec_lvm(dm_uuid: Option<Seq<char>>) -> bool {
    dm_uuid is Some && starts_with_spec(dm_uuid.unwrap(), "LVM-"@)
}

/// The view of an optional UUID string.
pub open spec fn uuid_view(dm_uuid: Option<&str>) -> Option<Seq<char>> {
    match dm_uuid {
        Some(u) => Some(u@),
        None => None,
    }
}

impl Disk {
    /// Build the record for a named device from its probed attributes:
    /// the tri-state rotational and removable flags as read from the
    /// device's attribute files, and the raw device-mapper UUID, absent
    /// when the device is not device-mapper-backed.
    pub fn classify(
        name: String,
        rotational: Option<bool>,
        removable: Option<bool>,
        dm_uuid: Option<&str>,
    ) -> (d: Disk)
        ensures
            d.name == name,
            d.rotational == rotational,
            d.removable == removable,
            d.ram == is_zram_name(name@),
            d.crypted == spec_crypted(uuid_view(dm_uuid)),
            d.lvm == spec_lvm(uuid_view(dm_uuid)),
    {
        let ram = zram_name_matches(name.as_str());
        let crypted = match dm_uuid {
            Some(u) => str_starts_with(u, "CRYPT-"),
            None => false,
        };
        let lvm = match dm_uuid {
            Some(u) => str_starts_with(u, "LVM-"),
            None => false,
        };
        Disk { name, rotational, removable, ram, lvm, crypted }
    }

    /// A synthetic code for the kind of media, empty when the information
    /// could not be gathered. Meant for humans; the fixed priority order
    /// puts RAM, crypt and LVM identity above the less reliable removable
    /// and rotational signals.
    pub fn disk_type(&self) -> (r: &'static str)
        ensures
            r@ == label_of(self.ram, self.crypted, self.lvm, self.removable, self.rotational),
    {
        if self.ram {
            "RAM"
        } else if self.crypted {
            "crypt"
        } else if self.lvm {
            "LVM"
        } else {
            match (self.removable, self.rotational) {
                (Some(true), _) => "removable disk",
                (Some(false), Some(true)) => "HDD",
                (Some(false), Some(false)) => "SSD",
                _ => "",
            }
        }
    }
}

/// The device-type label, in fixed priority order: RAM identity, then
/// crypt, then LVM, then the removable signal, then the rotational signal;
/// empty when undetermined.
pub open spec fn label_of(
    ram: bool,
    crypted: bool,
    lvm: bool,
    removable: Option<bool>,
    rotational: Option<bool>,
) -> Seq<char> {
    if ram {
        "RAM"@
    } else if crypted {
        "crypt"@
    } else if lvm {
        "LVM"@
    } else if removable == Some(true) {
        "removable disk"@
    } else if removable == Some(false) && rotational == Some(true) {
        "HDD"@
    } else if removable == Some(false) && rotational == Some(false) {
        "SSD"@
    } else {
        ""@
    }
}

/// A RAM-pattern name wins over every other signal: whatever the
/// rotational, removable and UUID inputs say, the label is `RAM`.
pub proof fn lemma_ram_wins(
    crypted: bool,
    lvm: bool,
    removable: Option<bool>,
    rotational: Option<bool>,
)
    ensures
        label_of(true, crypted, lvm, removable, rotational) == "RAM"@,
{
}

/// An encrypted volume is labelled `crypt` even when it also reports as
/// removable or rotational, as long as its name is not a RAM pattern.
pub proof fn lemma_crypt_wins(lvm: bool, removable: Option<bool>, rotational: Option<bool>)
    ensures
        label_of(false, true, lvm, removable, rotational) == "crypt"@,
{
}

/// With no higher-priority identity, a removable device is labelled
/// `removable disk` whatever its rotational state; a non-removable device
/// is `HDD` when rotational and `SSD` when not.
pub proof fn lemma_plain_disk_labels(rotational: Option<bool>)
    ensures
        label_of(false, false, false, Some(true), rotational) == "removable disk"@,
        label_of(false, false, false, Some(false), Some(true)) == "HDD"@,
        label_of(false, false, false, Some(false), Some(false)) == "SSD"@,
{
}

/// When both attribute signals are absent and no identity matched, the
/// label is empty: undetermined, never an error.
pub proof fn lemma_unknown_is_undetermined()
    ensures
        label_of(false, false, false, None, None) == ""@,
        label_of(false, false, false, Some(false), None) == ""@,
        label_of(false, false, false, None, Some(true)) == ""@,
        label_of(false, false, false, None, Some(false)) == ""@,
{
}

/// Classification is a pure function of its four inputs: two calls on the
/// same inputs yield the same label. There is no hidden state.
pub proof fn lemma_classify_deterministic(d1: Disk, d2: Disk)
    requires
        d1.ram == d2.ram,
        d1.crypted == d2.crypted,
        d1.lvm == d2.lvm,
        d1.removable == d2.removable,
        d1.rotational == d2.rotational,
    ensures
        label_of(d1.ram, d1.crypted, d1.lvm, d1.removable, d1.rotational) == label_of(
            d2.ram,
            d2.crypted,
            d2.lvm,
            d2.removable,
            d2.rotational,
        ),
{
}

} // verus!
