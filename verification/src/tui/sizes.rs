//! Sizes in words.

use crate::calendar::two_digits;
use crate::text::{concat3, decimal, decimal_of, digit_char, ends_with};
use crate::tui::rounding::{quotient, round_to, rounded, rounded_quotient, rounding_step_from};
use vstd::prelude::*;

verus! {

/// Sizes from here on are rounded to 53 binary digits before they are shown.
pub const EXACT_LIMIT: u64 = 9_007_199_254_740_992;

/// A size rounded to 53 binary digits.
pub open spec fn rounded_size(n: nat) -> nat {
    rounded(n, EXACT_LIMIT as nat)
}

/// The number of bytes of a unit and its name.
pub open spec fn unit_of(size: nat) -> (nat, Seq<char>) {
    if size < 0x400 {
        (1, "B"@)
    } else if size < 0x10_0000 {
        (0x400, "KiB"@)
    } else if size < 0x4000_0000 {
        (0x10_0000, "MiB"@)
    } else if size < 0x100_0000_0000 {
        (0x4000_0000, "GiB"@)
    } else {
        (0x100_0000_0000, "TiB"@)
    }
}

/// A size in the greatest unit that it reaches, with three digits or a few more.
pub open spec fn size_text(bytes: nat) -> Seq<char> {
    let size = rounded_size(bytes);
    let (unit, name) = unit_of(size);
    if unit == 1 {
        decimal(bytes) + " "@ + name
    } else if size >= 100 * unit {
        decimal(rounded_quotient(size, unit)) + " "@ + name
    } else if size >= 10 * unit {
        let tenths = rounded_quotient(10 * size, unit);
        decimal(tenths / 10) + "."@ + seq![digit_char((tenths % 10) as int)] + " "@ + name
    } else {
        let hundredths = rounded_quotient(100 * size, unit);
        decimal(hundredths / 100) + "."@ + two_digits((hundredths % 100) as int) + " "@ + name
    }
}

/// How much of how much was fetched, as far as it is known.
pub open spec fn progress_text(done: nat, total: Option<u64>) -> Seq<char> {
    if total is Some && total->0 > 0 {
        size_text(if done <= total->0 { done } else { total->0 as nat }) + " / "@ + size_text(
            total->0 as nat,
        )
    } else if done > 0 {
        size_text(done)
    } else {
        seq![]
    }
}

/// A size in the greatest unit that it reaches.
pub fn format_bytes(bytes: u64) -> (out: String)
    ensures
        out@ == size_text(bytes as nat),
{
    let size: u128 = round_to(bytes, EXACT_LIMIT);
    if size < 0x400 {
        let text = decimal_of(bytes);
        return concat3(text.as_str(), " ", "B");
    }
    let (unit, name): (u128, &str) = if size < 0x10_0000 {
        (0x400, "KiB")
    } else if size < 0x4000_0000 {
        (0x10_0000, "MiB")
    } else if size < 0x100_0000_0000 {
        (0x4000_0000, "GiB")
    } else {
        (0x100_0000_0000, "TiB")
    };
    if size >= 100 * unit {
        let whole: u128 = quotient(size, unit);
        let text = decimal_of(whole as u64);
        concat3(text.as_str(), " ", name)
    } else if size >= 10 * unit {
        let tenths: u128 = quotient(10 * size, unit);
        let mut text = decimal_of((tenths / 10) as u64);
        text.append(".");
        let ghost head = text@;
        text.push((48u8 + (tenths % 10) as u8) as char);
        assert(text@ =~= head + seq![digit_char((tenths % 10) as int)]);
        concat3(text.as_str(), " ", name)
    } else {
        let hundredths: u128 = quotient(100 * size, unit);
        let mut text = decimal_of((hundredths / 100) as u64);
        text.append(".");
        let ghost head = text@;
        let rest: u8 = (hundredths % 100) as u8;
        text.push((48u8 + rest / 10) as char);
        text.push((48u8 + rest % 10) as char);
        assert(text@ =~= head + two_digits((hundredths % 100) as int));
        concat3(text.as_str(), " ", name)
    }
}

/// How much of how much was fetched, as far as it is known.
pub fn format_byte_progress(downloaded_bytes: u64, total_bytes: Option<u64>) -> (out: String)
    ensures
        out@ == progress_text(downloaded_bytes as nat, total_bytes),
{
    if let Some(total) = total_bytes {
        if total > 0 {
            let done: u64 = if downloaded_bytes <= total { downloaded_bytes } else { total };
            let done_text = format_bytes(done);
            let total_text = format_bytes(total);
            return concat3(done_text.as_str(), " / ", total_text.as_str());
        }
    }
    if downloaded_bytes > 0 {
        return format_bytes(downloaded_bytes);
    }
    let empty = String::new();
    assert(empty@ =~= seq![]);
    empty
}

/// A size is shown in the greatest unit that it reaches, of bytes and the units of 1024 times as much
/// each. Below 1024 it is the number of bytes.
pub proof fn lemma_size_has_its_unit(bytes: u64, out: String)
    requires
        call_ensures(format_bytes, (bytes,), out),
        bytes < 0x20_0000_0000_0000,
    ensures
        bytes < 1024 ==> out@ == decimal(bytes as nat) + " B"@,
        1024 <= bytes < 1024 * 1024 ==> ends_with(out@, " KiB"@),
        1024 * 1024 <= bytes < 1024 * 1024 * 1024 ==> ends_with(out@, " MiB"@),
        1024 * 1024 * 1024 <= bytes < 1024 * 1024 * 1024 * 1024 ==> ends_with(out@, " GiB"@),
        1024 * 1024 * 1024 * 1024 <= bytes ==> ends_with(out@, " TiB"@),
{
    let n = bytes as nat;
    assert(rounding_step_from(n, 1, EXACT_LIMIT as nat) == 1);
    assert(n / 1 == n && n % 1 == 0);
    assert(rounded_size(n) == n);
    reveal_strlit(" ");
    reveal_strlit("B");
    reveal_strlit(" B");
    reveal_strlit("KiB");
    reveal_strlit(" KiB");
    reveal_strlit("MiB");
    reveal_strlit(" MiB");
    reveal_strlit("GiB");
    reveal_strlit(" GiB");
    reveal_strlit("TiB");
    reveal_strlit(" TiB");
    assert(" "@ + "B"@ =~= " B"@);
    assert(" "@ + "KiB"@ =~= " KiB"@);
    assert(" "@ + "MiB"@ =~= " MiB"@);
    assert(" "@ + "GiB"@ =~= " GiB"@);
    assert(" "@ + "TiB"@ =~= " TiB"@);
    let text = size_text(n);
    if n < 1024 {
        assert(text =~= decimal(n) + " B"@);
    } else {
        let (unit, name) = unit_of(n);
        let tail = " "@ + name;
        assert(text.skip(text.len() - tail.len()) =~= tail);
    }
}

/// Progress never shows more than the whole: it is what was fetched of the whole size, where that is
/// known, and nothing where nothing is known.
pub proof fn lemma_progress_is_shown(done: u64, total: Option<u64>, out: String, whole: String, part: String)
    requires
        call_ensures(format_byte_progress, (done, total), out),
        total is Some ==> call_ensures(format_bytes, (total->0,), whole),
        call_ensures(
            format_bytes,
            (if total is Some && total->0 > 0 && total->0 < done {
                total->0
            } else {
                done
            },),
            part,
        ),
    ensures
        total is Some && total->0 > 0 ==> out@ == part@ + " / "@ + whole@,
        !(total is Some && total->0 > 0) && done > 0 ==> out@ == part@,
        !(total is Some && total->0 > 0) && done == 0 ==> out@.len() == 0,
{
}

} // verus!
