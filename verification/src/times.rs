//! Instants, and the texts that give them.

use vstd::prelude::*;

verus! {

/// Whether `at`, in seconds since the Unix epoch and nanoseconds of that second,
/// is an instant of a calendar that reaches from the year -262143 to the year
/// 262142. The last second of a minute can be twice as long.
pub open spec fn is_instant(at: (i64, u32)) -> bool {
    &&& -8_334_601_228_800 <= at.0 <= 8_210_266_876_799
    &&& at.1 < 1_000_000_000 || (at.1 < 2_000_000_000 && at.0 % 60 == 59)
}

/// Whether a zone can be `offset` seconds ahead of UTC: by less than a day.
pub open spec fn is_offset(offset: i32) -> bool {
    -86_400 < offset < 86_400
}

/// `offset` in minutes, to the nearest.
pub open spec fn offset_minutes(offset: i32) -> int {
    if offset < 0 {
        -((30 - offset) / 60)
    } else {
        (offset + 30) / 60
    }
}

/// Whether the instant `at`, in a zone that is `offset` seconds ahead of UTC, can
/// be written so that it is read back: its year has four digits, and the offset
/// is less than a day to the nearest minute.
pub open spec fn is_writable(at: (i64, u32), offset: i32) -> bool {
    &&& -62_167_219_200 <= at.0 + offset < 253_402_300_800
    &&& -1440 < offset_minutes(offset) < 1440
}

/// The instant that is read back: the local time, less the offset in minutes.
pub open spec fn written_instant(at: (i64, u32), offset: i32) -> (i64, u32) {
    ((at.0 + offset - 60 * offset_minutes(offset)) as i64, at.1)
}

/// Whether `text` is beyond what RFC 3339 has: it begins with the sign of its
/// year, or ends with an offset of a whole day.
pub open spec fn beyond_rfc3339(text: Seq<char>) -> bool {
    ||| text.len() > 0 && (text[0] == '+' || text[0] == '-')
    ||| text.len() >= 5 && text.skip(text.len() - 5) == "24:00"@
}

/// What is read back is within half a minute of what was written, and is the
/// same instant where the zone is ahead of UTC by whole minutes.
pub proof fn law_written_instant_is_near(at: (i64, u32), offset: i32)
    requires
        is_instant(at),
        is_offset(offset),
    ensures
        -30 <= written_instant(at, offset).0 - at.0 <= 30,
        offset % 60 == 0 ==> written_instant(at, offset) == at,
{
}

/// Every instant from a day into the year 0 to a day before the year 10000 can
/// be written in every zone that is not a whole day off to the nearest minute.
pub proof fn law_common_instant_is_writable(at: (i64, u32), offset: i32)
    requires
        -62_167_132_800 <= at.0 < 253_402_214_400,
        -86_370 < offset < 86_370,
    ensures
        is_writable(at, offset),
{
}

} // verus!
