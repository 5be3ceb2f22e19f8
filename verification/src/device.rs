//! The record describing one mounted filesystem, and its eligibility rules.

use vstd::prelude::*;

use crate::strcmp::str_eq;

verus! {

/// One mounted filesystem, as reported by the usage source.
///
/// A record is immutable once constructed: the pipeline only filters,
/// dedups and reorders collections of records.
pub struct Device {
    /// Category distinguishing physical/local devices from network, virtual
    /// or bind mounts.
    pub device_type: String,
    /// Count of available bytes; a plain magnitude.
    pub free: u64,
    /// Absolute path at which the device is mounted; identity and display key.
    pub mount_point: String,
    /// Filesystem implementation name (e.g. a pseudo-filesystem marker).
    pub fs_type: String,
}

/// The mathematical model of a [`Device`]: each string field as a sequence
/// of characters.
#[verifier::ext_equal]
pub struct DeviceModel {
    pub device_type: Seq<char>,
    pub free: u64,
    pub mount_point: Seq<char>,
    pub fs_type: Seq<char>,
}

impl View for Device {
    type V = DeviceModel;

    open spec fn view(&self) -> DeviceModel {
        DeviceModel {
            device_type: self.device_type@,
            free: self.free,
            mount_point: self.mount_point@,
            fs_type: self.fs_type@,
        }
    }
}

impl Device {
    /// Builds a record from its four fields.
    pub fn new(device_type: String, free: u64, mount_point: String, fs_type: String) -> (r: Device)
        ensures
            r@ == (DeviceModel {
                device_type: device_type@,
                free,
                mount_point: mount_point@,
                fs_type: fs_type@,
            }),
    {
        Device { device_type, free, mount_point, fs_type }
    }
}

impl Clone for Device {
    fn clone(&self) -> (r: Device)
        ensures
            r@ == self@,
    {
        Device {
            device_type: self.device_type.clone(),
            free: self.free,
            mount_point: self.mount_point.clone(),
            fs_type: self.fs_type.clone(),
        }
    }
}

/// The characters of `m` after its last path separator: the final path
/// component, or the empty sequence if `m` ends in a separator (as the
/// root mount point does).
pub open spec fn after_last_slash(m: Seq<char>) -> Seq<char>
    decreases m.len(),
{
    if m.len() == 0 {
        m
    } else if m.last() == '/' {
        Seq::empty()
    } else {
        after_last_slash(m.drop_last()).push(m.last())
    }
}

/// The mount point's final path component begins with the hidden-entry
/// marker (a leading dot).
pub open spec fn hidden_mount(m: Seq<char>) -> bool {
    after_last_slash(m).len() > 0 && after_last_slash(m)[0] == '.'
}

/// A record is an eligible candidate when it describes a local device on a
/// real (non-pseudo, non-automount) filesystem whose mount point is not a
/// hidden entry.
pub open spec fn eligible(d: DeviceModel) -> bool {
    &&& d.device_type == "local"@
    &&& d.fs_type != "ramfs"@
    &&& d.fs_type != "tmpfs"@
    &&& d.fs_type != "autofs"@
    &&& !hidden_mount(d.mount_point)
}

/// When every character from `i` on is a non-separator and `i` sits just
/// after a separator (or at the start), the final component is exactly the
/// suffix from `i`.
proof fn lemma_after_last_slash_suffix(m: Seq<char>, i: int)
    requires
        0 <= i <= m.len(),
        i == 0 || m[i - 1] == '/',
        forall|j: int| i <= j < m.len() ==> m[j] != '/',
    ensures
        after_last_slash(m) == m.subrange(i, m.len() as int),
    decreases m.len(),
{
    if i == m.len() {
        if m.len() == 0 {
            assert(after_last_slash(m) =~= m.subrange(0, 0));
        } else {
            assert(m.last() == '/');
            assert(after_last_slash(m) =~= m.subrange(i, m.len() as int));
        }
    } else {
        assert(m.last() != '/');
        lemma_after_last_slash_suffix(m.drop_last(), i);
        assert(m.drop_last().subrange(i, m.len() - 1) =~= m.subrange(i, m.len() - 1));
        assert(after_last_slash(m) =~= m.subrange(i, m.len() as int));
    }
}

/// Whether the mount point's final path component starts with a dot.
pub fn is_hidden_mount(m: &str) -> (r: bool)
    ensures
        r == hidden_mount(m@),
{
    let len = m.unicode_len();
    let mut i: usize = len;
    while i > 0 && m.get_char(i - 1) != '/'
        invariant
            i <= len,
            len == m@.len(),
            forall|j: int| i <= j < len ==> m@[j] != '/',
        decreases i,
    {
        i -= 1;
    }
    proof {
        lemma_after_last_slash_suffix(m@, i as int);
    }
    if i < len {
        let c = m.get_char(i);
        proof {
            assert(after_last_slash(m@)[0] == m@[i as int]);
        }
        c == '.'
    } else {
        false
    }
}

/// Whether a record passes every eligibility rule.
pub fn is_eligible(d: &Device) -> (r: bool)
    ensures
        r == eligible(d@),
{
    str_eq(d.device_type.as_str(), "local") && !str_eq(d.fs_type.as_str(), "ramfs")
        && !str_eq(d.fs_type.as_str(), "tmpfs") && !str_eq(d.fs_type.as_str(), "autofs")
        && !is_hidden_mount(d.mount_point.as_str())
}

/// Whether two records agree on all four fields.
pub fn device_eq(a: &Device, b: &Device) -> (r: bool)
    ensures
        r == (a@ == b@),
{
    let r = a.free == b.free && str_eq(a.device_type.as_str(), b.device_type.as_str())
        && str_eq(a.mount_point.as_str(), b.mount_point.as_str())
        && str_eq(a.fs_type.as_str(), b.fs_type.as_str());
    proof {
        if r {
            assert(a@ =~= b@);
        }
    }
    r
}

} // verus!
