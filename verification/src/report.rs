//! The two summary lines printed after a run: the file count, and the total
//! size in GiB with two fractional digits.

use vstd::prelude::*;
use crate::digits::{dec_spec, digit_char, u64_to_string, digit_char_exec};
use crate::strutil::push_char;
use vstd::string::StringExecFns;
use vstd::string::StrSliceExecFns;

verus! {

/// The byte count in hundredths of a GiB, rounded half up.
pub open spec fn gib_hundredths(bytes: u64) -> int {
    (bytes * 100 + 0x20000000) / 0x40000000
}

/// The file-count line.
pub open spec fn created_files_line_spec(count: u64) -> Seq<char> {
    "Created files: "@ + dec_spec(count as int)
}

/// The total-size line: the GiB value with two fractional digits.
pub open spec fn total_size_line_spec(bytes: u64) -> Seq<char> {
    let h = gib_hundredths(bytes);
    "Total size: "@ + dec_spec(h / 100) + seq!['.', digit_char(h / 10 % 10), digit_char(h % 10)]
        + " GiB"@
}

/// Renders the file-count line.
pub fn created_files_line(count: u64) -> (s: String)
    ensures
        s@ == created_files_line_spec(count),
{
    let mut s = String::from_str("Created files: ");
    let d = u64_to_string(count);
    s.append(d.as_str());
    proof {
        assert(s@ =~= created_files_line_spec(count));
    }
    s
}

/// Renders the total-size line.
pub fn total_size_line(bytes: u64) -> (s: String)
    ensures
        s@ == total_size_line_spec(bytes),
{
    let h128: u128 = ((bytes as u128) * 100 + 0x20000000) / 0x40000000;
    proof {
        vstd::arithmetic::div_mod::lemma_div_is_ordered(
            bytes as int * 100 + 0x20000000,
            (0xFFFFFFFFFFFFFFFF as int) * 100 + 0x20000000,
            0x40000000,
        );
    }
    let h = h128 as u64;
    let q = h / 100;
    let d1 = (h / 10) % 10;
    let d0 = h % 10;
    let mut s = String::from_str("Total size: ");
    let digits = u64_to_string(q);
    s.append(digits.as_str());
    push_char(&mut s, '.');
    push_char(&mut s, digit_char_exec(d1));
    push_char(&mut s, digit_char_exec(d0));
    s.append(" GiB");
    proof {
        assert(s@ =~= total_size_line_spec(bytes));
    }
    s
}

} // verus!
