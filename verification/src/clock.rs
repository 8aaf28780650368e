//! Creation timestamps: reading the system clock, and rendering a clock
//! reading as a `YYYY-MM-DD HH:MM:SS` calendar string.

use vstd::prelude::*;

verus! {

/// The decimal digit `d` (for `d` from 0 through 9) as a character.
pub open spec fn digit_char(d: int) -> char {
    if d == 0 {
        '0'
    } else if d == 1 {
        '1'
    } else if d == 2 {
        '2'
    } else if d == 3 {
        '3'
    } else if d == 4 {
        '4'
    } else if d == 5 {
        '5'
    } else if d == 6 {
        '6'
    } else if d == 7 {
        '7'
    } else if d == 8 {
        '8'
    } else {
        '9'
    }
}

/// `n` rendered in decimal, most significant digit first.
pub open spec fn dec_seq(n: int) -> Seq<char>
    decreases n,
{
    if n < 10 {
        seq![digit_char(n)]
    } else {
        dec_seq(n / 10).push(digit_char(n % 10))
    }
}

/// `n` rendered as exactly two digits (meaningful for `n` up to 99).
pub open spec fn two_digit_seq(n: int) -> Seq<char> {
    seq![digit_char(n / 10), digit_char(n % 10)]
}

/// The calendar date that falls `days` whole days after 1970-01-01,
/// as (year, month, day), by era-based civil-calendar arithmetic.
/// The two guarded subtractions never clamp for real inputs; the guards
/// only keep every intermediate value well defined.
pub open spec fn civil_from_days(days: int) -> (int, int, int) {
    let z = days + 719468;
    let era = z / 146097;
    let doe = z % 146097;
    let approx = doe - doe / 1460 + doe / 36524 - doe / 146097;
    let yoe = approx / 365;
    let ystart = 365 * yoe + yoe / 4 - yoe / 100;
    let doy = if doe >= ystart {
        doe - ystart
    } else {
        0
    };
    let mp = (5 * doy + 2) / 153;
    let mdays = (153 * mp + 2) / 5;
    let d = if doy >= mdays {
        doy - mdays + 1
    } else {
        1
    };
    let m = if mp < 10 {
        mp + 3
    } else {
        mp - 9
    };
    let y = yoe + era * 400;
    if m <= 2 {
        (y + 1, m, d)
    } else {
        (y, m, d)
    }
}

/// The timestamp under which a clock reading of `secs` seconds past the
/// Unix epoch is recorded: date, a space, then time of day.
pub open spec fn timestamp_seq(secs: u64) -> Seq<char> {
    let days = secs as int / 86400;
    let rem = secs as int % 86400;
    let ymd = civil_from_days(days);
    dec_seq(ymd.0) + seq!['-'] + two_digit_seq(ymd.1) + seq!['-'] + two_digit_seq(ymd.2)
        + seq![' '] + two_digit_seq(rem / 3600) + seq![':'] + two_digit_seq((rem % 3600) / 60)
        + seq![':'] + two_digit_seq(rem % 60)
}

fn digit_str(d: u64) -> (r: &'static str)
    ensures
        r@.len() == 1,
        r@[0] == digit_char(d as int),
{
    proof {
        reveal_strlit("0");
        reveal_strlit("1");
        reveal_strlit("2");
        reveal_strlit("3");
        reveal_strlit("4");
        reveal_strlit("5");
        reveal_strlit("6");
        reveal_strlit("7");
        reveal_strlit("8");
        reveal_strlit("9");
    }
    if d == 0 {
        "0"
    } else if d == 1 {
        "1"
    } else if d == 2 {
        "2"
    } else if d == 3 {
        "3"
    } else if d == 4 {
        "4"
    } else if d == 5 {
        "5"
    } else if d == 6 {
        "6"
    } else if d == 7 {
        "7"
    } else if d == 8 {
        "8"
    } else {
        "9"
    }
}

/// `n` in decimal.
pub fn dec_string(n: u64) -> (r: String)
    ensures
        r@ == dec_seq(n as int),
    decreases n,
{
    if n < 10 {
        let r = String::from_str(digit_str(n));
        proof {
            assert(r@ =~= dec_seq(n as int));
        }
        r
    } else {
        let mut r = dec_string(n / 10);
        r.append(digit_str(n % 10));
        proof {
            assert(r@ =~= dec_seq(n as int));
        }
        r
    }
}

/// `n` as exactly two digits.
pub fn two_digit_string(n: u64) -> (r: String)
    ensures
        r@ == two_digit_seq(n as int),
{
    let mut r = String::from_str(digit_str(n / 10));
    r.append(digit_str(n % 10));
    proof {
        assert(r@ =~= two_digit_seq(n as int));
    }
    r
}

/// The (year, month, day) that `days` whole days after 1970-01-01 falls on.
pub fn civil_parts(days: u64) -> (r: (u64, u64, u64))
    requires
        days <= 0xFFFF_FFFF_FFFFu64,
    ensures
        (r.0 as int, r.1 as int, r.2 as int) == civil_from_days(days as int),
{
    let z = days + 719468;
    let era = z / 146097;
    let doe = z % 146097;
    proof {
        assert(doe / 1460 <= doe);
        assert(doe / 146097 == 0);
        assert(era * 146097 <= z);
    }
    let approx = doe - doe / 1460 + doe / 36524 - doe / 146097;
    let yoe = approx / 365;
    proof {
        assert(approx <= 146100);
        assert(yoe <= 400);
        assert(yoe / 100 <= 365 * yoe + yoe / 4);
        assert(era <= 2_000_000_000);
    }
    let ystart = 365 * yoe + yoe / 4 - yoe / 100;
    let doy = if doe >= ystart {
        doe - ystart
    } else {
        0
    };
    let mp = (5 * doy + 2) / 153;
    let mdays = (153 * mp + 2) / 5;
    let d = if doy >= mdays {
        doy - mdays + 1
    } else {
        1
    };
    let m = if mp < 10 {
        mp + 3
    } else {
        mp - 9
    };
    let y = yoe + era * 400;
    if m <= 2 {
        (y + 1, m, d)
    } else {
        (y, m, d)
    }
}

/// A clock reading rendered as the timestamp it is recorded under.
pub fn format_timestamp(secs: u64) -> (r: String)
    ensures
        r@ == timestamp_seq(secs),
        r@.len() > 0,
{
    let days = secs / 86400;
    let rem = secs % 86400;
    proof {
        assert(days <= 0xFFFF_FFFF_FFFFu64);
    }
    let ymd = civil_parts(days);
    let mut r = dec_string(ymd.0);
    r.append("-");
    let md = two_digit_string(ymd.1);
    r.append(md.as_str());
    r.append("-");
    let dd = two_digit_string(ymd.2);
    r.append(dd.as_str());
    r.append(" ");
    let hh = two_digit_string(rem / 3600);
    r.append(hh.as_str());
    r.append(":");
    let mm = two_digit_string((rem % 3600) / 60);
    r.append(mm.as_str());
    r.append(":");
    let ss = two_digit_string(rem % 60);
    r.append(ss.as_str());
    proof {
        reveal_strlit("-");
        reveal_strlit(" ");
        reveal_strlit(":");
        assert(r@ =~= timestamp_seq(secs));
    }
    r
}

/// Relies on std::time::SystemTime::now and duration_since(UNIX_EPOCH):
/// the system clock's reading as whole seconds since the Unix epoch, or 0
/// should the clock read earlier than the epoch. Nothing is assumed of
/// the value; callers state what holds of every reading.
#[verifier::external_body]
pub fn epoch_seconds() -> u64 {
    match std::time::SystemTime::now().duration_since(std::time::UNIX_EPOCH) {
        Ok(d) => d.as_secs(),
        Err(_) => 0,
    }
}

} // verus!
