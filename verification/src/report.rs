//! The Reporter: one output line per selected record, with the byte count
//! rendered by the external size formatter.

use vstd::prelude::*;

use vstd::string::StringExecFns;

use crate::device::Device;

verus! {

/// The human-readable, binary-prefix rendering of a byte count, as the
/// external size formatter produces it.
pub uninterp spec fn size_display(bytes: u64) -> Seq<char>;

/// Relies on humansize::format_size with the binary-prefix options
/// (KiB/MiB/GiB): the rendering is a fixed function of the byte count
/// alone.
#[verifier::external_body]
fn format_size_binary(bytes: u64) -> (r: String)
    ensures
        r@ == size_display(bytes),
{
    humansize::format_size(bytes, humansize::BINARY)
}

/// One output line for a record: `<mount_point>: <human-readable size>`.
pub fn report_line(d: &Device) -> (r: String)
    ensures
        r@ == d@.mount_point + ": "@ + size_display(d@.free),
{
    let size = format_size_binary(d.free);
    let line = String::from_str(d.mount_point.as_str());
    let line = line.concat(": ");
    let line = line.concat(size.as_str());
    proof {
        assert(line@ =~= d@.mount_point + ": "@ + size_display(d@.free));
    }
    line
}

/// One line per record, in the records' order.
pub fn report_lines(devices: &Vec<Device>) -> (r: Vec<String>)
    ensures
        r@.len() == devices@.len(),
        forall|i: int|
            0 <= i < devices@.len() ==> #[trigger] r@[i]@ == devices@[i]@.mount_point + ": "@
                + size_display(devices@[i]@.free),
{
    let mut r: Vec<String> = Vec::new();
    let mut i: usize = 0;
    while i < devices.len()
        invariant
            i <= devices@.len(),
            r@.len() == i,
            forall|j: int|
                0 <= j < i ==> #[trigger] r@[j]@ == devices@[j]@.mount_point + ": "@
                    + size_display(devices@[j]@.free),
        decreases devices@.len() - i,
    {
        let line = report_line(&devices[i]);
        r.push(line);
        i += 1;
    }
    r
}

} // verus!
