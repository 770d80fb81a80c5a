use vstd::prelude::*;
use vstd::string::*;
use crate::text::{has_prefix, starts_with};

verus! {

/// The unit in which an amount of memory is shown.
#[derive(Debug, Clone, Copy, PartialEq, Eq)]
pub enum ByteUnit {
    Gb,
    Mb,
    Kb,
}

/// The largest of GB (2^30 bytes), MB (2^20 bytes) and KB in which the amount
/// is at least one; KB for anything below a megabyte.
pub fn byte_unit(bytes: u64) -> (u: ByteUnit)
    ensures
        u == if bytes >= 0x4000_0000 {
            ByteUnit::Gb
        } else if bytes >= 0x10_0000 {
            ByteUnit::Mb
        } else {
            ByteUnit::Kb
        },
{
    if bytes >= 0x4000_0000 {
        ByteUnit::Gb
    } else if bytes >= 0x10_0000 {
        ByteUnit::Mb
    } else {
        ByteUnit::Kb
    }
}

/// Whether a line of `/proc/<pid>/status` gives the resident set size.
pub fn is_rss_line(line: &str) -> (r: bool)
    ensures
        r == has_prefix(line@, "VmRSS:"@),
{
    starts_with(line, "VmRSS:")
}

} // verus!
