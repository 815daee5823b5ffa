use vstd::prelude::*;
use vstd::string::StringExecFns;

verus! {

/// The characters that `humantime` renders a whole-second duration as
/// (for example 27120 seconds as "7h 32m"). The rendering depends on the
/// duration alone.
pub uninterp spec fn human_duration_of(secs: u64) -> Seq<char>;

/// Relies on humantime::format_duration: the rendered text is a function of
/// the duration value alone.
#[verifier::external_body]
pub(crate) fn fmt_duration(secs: u64) -> (r: String)
    ensures
        r@ == human_duration_of(secs),
{
    humantime::format_duration(std::time::Duration::from_secs(secs)).to_string()
}

/// The decimal digit `d` as a character.
pub open spec fn digit_char(d: int) -> char {
    if d == 0 {
        '0'
    } else if d == 1 {
        '1'
    } else if d == 2 {
        '2'
    } else if d == 3 {
        '3'
    } else if d == 4 {
        '4'
    } else if d == 5 {
        '5'
    } else if d == 6 {
        '6'
    } else if d == 7 {
        '7'
    } else if d == 8 {
        '8'
    } else {
        '9'
    }
}

fn digit_str(d: u8) -> (r: &'static str)
    requires
        d < 10,
    ensures
        r@ == seq![digit_char(d as int)],
{
    if d == 0 {
        proof {
            reveal_strlit("0");
            assert("0"@ =~= seq![digit_char(0)]);
        }
        "0"
    } else if d == 1 {
        proof {
            reveal_strlit("1");
            assert("1"@ =~= seq![digit_char(1)]);
        }
        "1"
    } else if d == 2 {
        proof {
            reveal_strlit("2");
            assert("2"@ =~= seq![digit_char(2)]);
        }
        "2"
    } else if d == 3 {
        proof {
            reveal_strlit("3");
            assert("3"@ =~= seq![digit_char(3)]);
        }
        "3"
    } else if d == 4 {
        proof {
            reveal_strlit("4");
            assert("4"@ =~= seq![digit_char(4)]);
        }
        "4"
    } else if d == 5 {
        proof {
            reveal_strlit("5");
            assert("5"@ =~= seq![digit_char(5)]);
        }
        "5"
    } else if d == 6 {
        proof {
            reveal_strlit("6");
            assert("6"@ =~= seq![digit_char(6)]);
        }
        "6"
    } else if d == 7 {
        proof {
            reveal_strlit("7");
            assert("7"@ =~= seq![digit_char(7)]);
        }
        "7"
    } else if d == 8 {
        proof {
            reveal_strlit("8");
            assert("8"@ =~= seq![digit_char(8)]);
        }
        "8"
    } else {
        proof {
            reveal_strlit("9");
            assert("9"@ =~= seq![digit_char(9)]);
        }
        "9"
    }
}

/// The hour shown on a 12-hour clock for the 24-hour value `h`.
pub open spec fn hour_display(h: int) -> int {
    if h % 12 == 0 {
        12
    } else {
        h % 12
    }
}

/// A time of day (seconds since midnight) rendered on a 12-hour clock with
/// no leading zero on the hour and a trailing am/pm marker, for example
/// "8:05 am" or "11:30 pm".
pub open spec fn time_12h(tod: int) -> Seq<char> {
    let h = tod / 3600;
    let m = (tod / 60) % 60;
    let hd = hour_display(h);
    let hour_part = if hd >= 10 {
        seq![digit_char(hd / 10), digit_char(hd % 10)]
    } else {
        seq![digit_char(hd)]
    };
    let suffix = if h < 12 {
        seq!['a', 'm']
    } else {
        seq!['p', 'm']
    };
    hour_part + seq![':', digit_char(m / 10), digit_char(m % 10), ' '] + suffix
}

/// Renders a time of day exactly as `time_12h` describes.
pub fn fmt_time_12h(tod: u64) -> (r: String)
    requires
        tod < 86400,
    ensures
        r@ == time_12h(tod as int),
{
    let h = tod / 3600;
    let m = (tod / 60) % 60;
    let hd = if h % 12 == 0 {
        12
    } else {
        h % 12
    };
    let mut s = String::new();
    if hd >= 10 {
        s.append(digit_str((hd / 10) as u8));
        s.append(digit_str((hd % 10) as u8));
    } else {
        s.append(digit_str(hd as u8));
    }
    s.append(":");
    s.append(digit_str((m / 10) as u8));
    s.append(digit_str((m % 10) as u8));
    s.append(" ");
    if h < 12 {
        s.append("am");
    } else {
        s.append("pm");
    }
    proof {
        reveal_strlit(":");
        reveal_strlit(" ");
        reveal_strlit("am");
        reveal_strlit("pm");
        assert(s@ =~= time_12h(tod as int));
    }
    s
}

} // verus!
