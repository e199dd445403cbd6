//! What is needed to start.
use crate::domain::DeviceClock;
use crate::text::{chars_of, is_digit, lower, lower_char};
use vstd::prelude::*;

verus! {

pub const ABI_VERSION: u32 = 1;

/// How many digits a capability has.
pub const CAPABILITY_DIGITS: usize = 64;

/// Whether a character is a hexadecimal digit.
pub open spec fn hex_digit(c: char) -> bool {
    is_digit(c) || 'a' <= c <= 'f' || 'A' <= c <= 'F'
}

/// A capability in small letters, if the text is one.
pub open spec fn capability_of(s: Seq<char>) -> Option<Seq<char>> {
    if s.len() == CAPABILITY_DIGITS && forall|i: int| 0 <= i < s.len() ==> hex_digit(
        #[trigger] s[i],
    ) {
        Some(s.map_values(|c: char| lower(c)))
    } else {
        None
    }
}

/// Reads a capability.
pub fn read_capability(text: &str) -> (r: Option<String>)
    ensures
        match r {
            Some(capability) => capability_of(text@) == Some(capability@),
            None => capability_of(text@) is None,
        },
{
    let v = chars_of(text);
    if v.len() != CAPABILITY_DIGITS {
        return None;
    }
    let mut out = String::new();
    let mut i: usize = 0;
    while i < v.len()
        invariant
            v@ == text@,
            i <= v@.len() == CAPABILITY_DIGITS,
            forall|j: int| 0 <= j < i ==> hex_digit(#[trigger] v@[j]),
            out@ == v@.take(i as int).map_values(|c: char| lower(c)),
        decreases v@.len() - i,
    {
        let c = v[i];
        if !(('0' <= c && c <= '9') || ('a' <= c && c <= 'f') || ('A' <= c && c <= 'F')) {
            proof {
                assert(!hex_digit(text@[i as int]));
            }
            return None;
        }
        let ghost before = out@;
        out.push(lower_char(c));
        proof {
            assert(out@ =~= v@.take(i + 1).map_values(|c: char| lower(c)));
        }
        i = i + 1;
    }
    proof {
        assert(out@ =~= text@.map_values(|c: char| lower(c)));
    }
    Some(out)
}

/// The hexadecimal digit of a number below sixteen, in small letters.
pub open spec fn hex_char(n: int) -> char {
    if n < 10 {
        ('0' as int + n) as char
    } else {
        ('a' as int + n - 10) as char
    }
}

/// Bytes in hexadecimal digits: two for each byte, the higher half first.
pub open spec fn hex_text(raw: Seq<u8>) -> Seq<char> {
    Seq::new(
        2 * raw.len(),
        |i: int|
            hex_char(
                if i % 2 == 0 {
                    raw[i / 2] as int / 16
                } else {
                    raw[i / 2] as int % 16
                },
            ),
    )
}

/// `encode` of `hex`: two digits in small letters for each byte, the one of the
/// higher four bits first.
#[verifier::external_body]
fn hex_encode(raw: &[u8]) -> (text: String)
    ensures
        text@ == hex_text(raw@),
{
    hex::encode(raw)
}

/// The capability that was given, or one made of random bytes.
pub fn choose_capability(given: Option<String>, random: &[u8]) -> (capability: String)
    ensures
        capability@ == match given {
            Some(text) => text@,
            None => hex_text(random@),
        },
{
    match given {
        Some(text) => text,
        None => hex_encode(random),
    }
}

/// The digits of half as many bytes as a capability has digits are a capability,
/// in small letters already.
pub proof fn law_made_capability(raw: Seq<u8>)
    requires
        2 * raw.len() == CAPABILITY_DIGITS,
    ensures
        capability_of(hex_text(raw)) == Some(hex_text(raw)),
{
    let s = hex_text(raw);
    assert forall|i: int| 0 <= i < s.len() implies hex_digit(#[trigger] s[i]) && lower(s[i])
        == s[i] by {
        assert(0 <= i / 2 < raw.len());
    }
    assert(s.map_values(|c: char| lower(c)) =~= s);
}

/// What a request to start leads to.
#[derive(Debug)]
pub enum StartPlan {
    /// It is not followed, and answered with a code.
    Refuse { code: i32 },
    /// The service is to be started.
    Start { capability: String, clock: DeviceClock },
}

/// The answer to a request to start that is not followed: there are arguments
/// missing, they are not readable or not what they must be, the clock is wrong, or
/// the service runs.
pub open spec fn start_code(
    present: bool,
    readable: bool,
    capability: Seq<char>,
    utc_offset_minutes: i32,
    running: bool,
) -> Option<i32> {
    if !present {
        Some((-1) as i32)
    } else if !readable || capability_of(capability) is None {
        Some((-2) as i32)
    } else if !(-840 <= utc_offset_minutes <= 840) {
        Some((-3) as i32)
    } else if running {
        Some(1)
    } else {
        None
    }
}

/// Decides on a request to start.
pub fn plan_start(
    present: bool,
    readable: bool,
    capability: &str,
    unix_seconds: i64,
    utc_offset_minutes: i32,
    running: bool,
) -> (plan: StartPlan)
    ensures
        match start_code(present, readable, capability@, utc_offset_minutes, running) {
            Some(code) => plan == (StartPlan::Refuse { code }),
            None => plan matches StartPlan::Start { capability: digits, clock } && Some(digits@)
                == capability_of(capability@) && clock == (DeviceClock {
                unix_seconds,
                utc_offset_minutes,
            }),
        },
{
    if !present {
        return StartPlan::Refuse { code: -1 };
    }
    if !readable {
        return StartPlan::Refuse { code: -2 };
    }
    let capability = match read_capability(capability) {
        Some(capability) => capability,
        None => {
            return StartPlan::Refuse { code: -2 };
        },
    };
    let clock = match DeviceClock::new(unix_seconds, utc_offset_minutes) {
        Ok(clock) => clock,
        Err(_) => {
            return StartPlan::Refuse { code: -3 };
        },
    };
    if running {
        return StartPlan::Refuse { code: 1 };
    }
    StartPlan::Start { capability, clock }
}

/// Seconds since 1970 as a signed number.
pub fn signed_seconds(seconds: u64) -> (r: i64)
    ensures
        r == if seconds <= i64::MAX {
            seconds as int
        } else {
            i64::MAX as int
        },
{
    if seconds <= i64::MAX as u64 {
        seconds as i64
    } else {
        i64::MAX
    }
}

} // verus!
