use vstd::prelude::*;
use vstd::string::StringExecFns;

verus! {

/// Number of access-right bits that have a name.
pub const ACCESS_FLAG_COUNT: usize = 17;

/// The `k`-th named access-right bit, in reporting order.
pub open spec fn access_flag(k: int) -> u32 {
    if k == 0 { 0x8000_0000 }
    else if k == 1 { 0x4000_0000 }
    else if k == 2 { 0x2000_0000 }
    else if k == 3 { 0x0001_0000 }
    else if k == 4 { 0x0002_0000 }
    else if k == 5 { 0x0004_0000 }
    else if k == 6 { 0x0008_0000 }
    else if k == 7 { 0x0010_0000 }
    else if k == 8 { 0x1 }
    else if k == 9 { 0x2 }
    else if k == 10 { 0x4 }
    else if k == 11 { 0x8 }
    else if k == 12 { 0x10 }
    else if k == 13 { 0x20 }
    else if k == 14 { 0x40 }
    else if k == 15 { 0x80 }
    else { 0x100 }
}

/// The name of the `k`-th named access-right bit.
pub open spec fn access_name(k: int) -> Seq<char> {
    if k == 0 { "GENERIC_READ"@ }
    else if k == 1 { "GENERIC_WRITE"@ }
    else if k == 2 { "GENERIC_EXECUTE"@ }
    else if k == 3 { "DELETE"@ }
    else if k == 4 { "READ_CONTROL"@ }
    else if k == 5 { "WRITE_DAC"@ }
    else if k == 6 { "WRITE_OWNER"@ }
    else if k == 7 { "SYNCHRONIZE"@ }
    else if k == 8 { "FILE_READ_DATA"@ }
    else if k == 9 { "FILE_WRITE_DATA"@ }
    else if k == 10 { "FILE_APPEND_DATA"@ }
    else if k == 11 { "FILE_READ_EA"@ }
    else if k == 12 { "FILE_WRITE_EA"@ }
    else if k == 13 { "FILE_EXECUTE"@ }
    else if k == 14 { "FILE_DELETE_CHILD"@ }
    else if k == 15 { "FILE_READ_ATTRIBUTES"@ }
    else { "FILE_WRITE_ATTRIBUTES"@ }
}

fn flag_entry(k: usize) -> (r: (u32, &'static str))
    requires
        k < ACCESS_FLAG_COUNT,
    ensures
        r.0 == access_flag(k as int),
        r.1@ == access_name(k as int),
{
    if k == 0 { (0x8000_0000, "GENERIC_READ") }
    else if k == 1 { (0x4000_0000, "GENERIC_WRITE") }
    else if k == 2 { (0x2000_0000, "GENERIC_EXECUTE") }
    else if k == 3 { (0x0001_0000, "DELETE") }
    else if k == 4 { (0x0002_0000, "READ_CONTROL") }
    else if k == 5 { (0x0004_0000, "WRITE_DAC") }
    else if k == 6 { (0x0008_0000, "WRITE_OWNER") }
    else if k == 7 { (0x0010_0000, "SYNCHRONIZE") }
    else if k == 8 { (0x1, "FILE_READ_DATA") }
    else if k == 9 { (0x2, "FILE_WRITE_DATA") }
    else if k == 10 { (0x4, "FILE_APPEND_DATA") }
    else if k == 11 { (0x8, "FILE_READ_EA") }
    else if k == 12 { (0x10, "FILE_WRITE_EA") }
    else if k == 13 { (0x20, "FILE_EXECUTE") }
    else if k == 14 { (0x40, "FILE_DELETE_CHILD") }
    else if k == 15 { (0x80, "FILE_READ_ATTRIBUTES") }
    else { (0x100, "FILE_WRITE_ATTRIBUTES") }
}

/// Some of the first `k` named bits is set in `mask`.
pub open spec fn any_flag(mask: u32, k: int) -> bool
    decreases k,
{
    if k <= 0 { false } else { any_flag(mask, k - 1) || mask & access_flag(k - 1) != 0 }
}

/// The names of the first `k` named bits set in `mask`, joined by ` | `.
pub open spec fn flag_names(mask: u32, k: int) -> Seq<char>
    decreases k,
{
    if k <= 0 {
        seq![]
    } else {
        let prev = flag_names(mask, k - 1);
        if mask & access_flag(k - 1) == 0 {
            prev
        } else if any_flag(mask, k - 1) {
            prev + " | "@ + access_name(k - 1)
        } else {
            prev + access_name(k - 1)
        }
    }
}

/// The text of an access mask for diagnostics: `NO_ACCESS` for an empty
/// mask, else the names of its named bits joined by ` | `.
pub fn access_flags_to_string(desired_access: u32) -> (r: String)
    ensures
        r@ == if desired_access == 0 { "NO_ACCESS"@ } else { flag_names(desired_access, ACCESS_FLAG_COUNT as int) },
{
    if desired_access == 0 {
        return String::from_str("NO_ACCESS");
    }
    let mut out = String::from_str("");
    proof {
        reveal_strlit("");
    }
    let mut any = false;
    let mut k: usize = 0;
    while k < ACCESS_FLAG_COUNT
        invariant
            k <= ACCESS_FLAG_COUNT,
            out@ == flag_names(desired_access, k as int),
            any == any_flag(desired_access, k as int),
        decreases ACCESS_FLAG_COUNT - k,
    {
        let (bit, name) = flag_entry(k);
        if desired_access & bit != 0 {
            if any {
                out.append(" | ");
            }
            out.append(name);
            any = true;
        }
        k += 1;
    }
    out
}

} // verus!
