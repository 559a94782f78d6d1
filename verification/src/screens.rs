//! The screen payloads and the text each screen shows. Drawing is a plain
//! function of these values and lives in the process shell; every number
//! and label it prints is rendered here, verified, from plain values.
//! User-facing strings are in German, as the terminals are deployed.

use vstd::prelude::*;

use crate::strutil::{append_2digits, append_digit, append_u64, dec2_digits, dec_digits,
    digit_char, u64_to_string};

verus! {

/// The confirmation payload after clocking in, and for the offline screen.
pub struct ClockInData {
    pub employee_name: String,
    /// "HH:MM:SS" of the booked instant.
    pub timestamp: String,
    /// The scheduled workday, in minutes.
    pub scheduled_minutes: u32,
}

/// The summary payload after clocking out.
pub struct ClockOutData {
    pub employee_name: String,
    /// "HH:MM:SS" of the booked instant.
    pub timestamp: String,
    pub work_minutes: u32,
    pub break_minutes: u32,
    pub weekly_work_minutes: u32,
    pub weekly_target_minutes: u32,
    /// Signed; negative when under target.
    pub overtime_minutes: i32,
    /// Remaining vacation allowance, in tenths of a day.
    pub remaining_vacation_tenths: i32,
}

/// The error screen payload.
pub struct ErrorData {
    pub message: String,
    pub error_type: ErrorType,
}

/// The category an error screen announces.
pub enum ErrorType {
    BadgeNotRecognized,
    ServerUnavailable,
    NetworkError,
    Other,
}

/// The screens the terminal can show, as the rendering layer sees them.
pub enum Screen {
    Idle,
    ClockIn(ClockInData),
    ClockOut(ClockOutData),
    Error(ErrorData),
}

/// A span of minutes as the summary shows it: "7h 05min".
pub open spec fn spec_hm_text(minutes: nat) -> Seq<char> {
    dec_digits(minutes / 60) + "h "@ + dec2_digits(minutes % 60) + "min"@
}

/// Renders a span of minutes as "7h 05min".
pub fn format_hm(minutes: u32) -> (r: String)
    ensures
        r@ == spec_hm_text(minutes as nat),
{
    proof {
        reveal_strlit("h ");
        reveal_strlit("min");
    }
    let mut r = u64_to_string(minutes as u64 / 60);
    r.append("h ");
    append_2digits(&mut r, minutes as u64 % 60);
    r.append("min");
    proof {
        assert(r@ =~= spec_hm_text(minutes as nat));
    }
    r
}

/// The signed overtime line: a leading "+" for zero or more, the hours
/// truncated toward zero (so the sign of small deficits rides on the
/// minutes' hour part), and the minute remainder of the magnitude.
pub open spec fn spec_overtime_text(minutes: int) -> Seq<char> {
    let mag: nat = if minutes >= 0 {
        minutes as nat
    } else {
        (-minutes) as nat
    };
    let hours: Seq<char> = if minutes >= 0 {
        "+"@ + dec_digits(mag / 60)
    } else if mag >= 60 {
        "-"@ + dec_digits(mag / 60)
    } else {
        dec_digits(0)
    };
    hours + "h "@ + dec2_digits(mag % 60) + "min"@
}

/// Renders the overtime line, e.g. "+1h 05min".
pub fn format_overtime(minutes: i32) -> (r: String)
    ensures
        r@ == spec_overtime_text(minutes as int),
{
    proof {
        reveal_strlit("+");
        reveal_strlit("");
        reveal_strlit("-");
        reveal_strlit("h ");
        reveal_strlit("min");
    }
    let mut r = String::new();
    let mag: u64 = if minutes >= 0 {
        minutes as u64
    } else {
        (-(minutes as i64)) as u64
    };
    if minutes >= 0 {
        r.append("+");
        append_u64(&mut r, mag / 60);
    } else if mag >= 60 {
        r.append("-");
        append_u64(&mut r, mag / 60);
    } else {
        append_digit(&mut r, 0);
    }
    r.append("h ");
    append_2digits(&mut r, mag % 60);
    r.append("min");
    proof {
        assert(r@ =~= spec_overtime_text(minutes as int));
    }
    r
}

/// A tenths-of-a-day count as the screens show it: "25.0", "-2.5".
pub open spec fn spec_tenths_text(tenths: int) -> Seq<char> {
    let sign: Seq<char> = if tenths < 0 {
        "-"@
    } else {
        ""@
    };
    let mag: nat = if tenths < 0 {
        (-tenths) as nat
    } else {
        tenths as nat
    };
    sign + dec_digits(mag / 10) + "."@ + seq![digit_char(mag % 10)]
}

/// Renders a tenths-of-a-day count, e.g. "25.0".
pub fn format_tenths(tenths: i32) -> (r: String)
    ensures
        r@ == spec_tenths_text(tenths as int),
{
    proof {
        reveal_strlit("-");
        reveal_strlit("");
        reveal_strlit(".");
    }
    let mut r = String::new();
    let mag: u64 = if tenths < 0 {
        (-(tenths as i64)) as u64
    } else {
        tenths as u64
    };
    if tenths < 0 {
        r.append("-");
    }
    append_u64(&mut r, mag / 10);
    r.append(".");
    append_digit(&mut r, mag % 10);
    proof {
        assert(r@ =~= spec_tenths_text(tenths as int));
    }
    r
}

/// The countdown line at the foot of every transient screen.
pub open spec fn spec_countdown_text(seconds: nat) -> Seq<char> {
    "Zur\u{00FC}ck in "@ + dec_digits(seconds) + "s"@
}

/// Renders the countdown line, e.g. "Zurück in 5s".
pub fn format_countdown(seconds: u64) -> (r: String)
    ensures
        r@ == spec_countdown_text(seconds as nat),
{
    proof {
        reveal_strlit("Zur\u{00FC}ck in ");
        reveal_strlit("s");
    }
    let mut r = "Zur\u{00FC}ck in ".to_owned();
    append_u64(&mut r, seconds);
    r.append("s");
    proof {
        assert(r@ =~= spec_countdown_text(seconds as nat));
    }
    r
}

/// The idle screen's warning when the terminal is offline.
pub open spec fn spec_offline_banner_text(pending: nat) -> Seq<char> {
    "\u{26A0}  Offline  \u{2014}  "@ + dec_digits(pending) + " ausstehende Ereignisse"@
}

/// Renders the offline banner with the pending count.
pub fn format_offline_banner(pending: u32) -> (r: String)
    ensures
        r@ == spec_offline_banner_text(pending as nat),
{
    proof {
        reveal_strlit("\u{26A0}  Offline  \u{2014}  ");
        reveal_strlit(" ausstehende Ereignisse");
    }
    let mut r = "\u{26A0}  Offline  \u{2014}  ".to_owned();
    append_u64(&mut r, pending as u64);
    r.append(" ausstehende Ereignisse");
    proof {
        assert(r@ =~= spec_offline_banner_text(pending as nat));
    }
    r
}

/// The idle screen's note while buffered events are being replayed.
pub open spec fn spec_sync_banner_text(pending: nat) -> Seq<char> {
    "\u{2191}  "@ + dec_digits(pending) + " Ereignisse werden synchronisiert"@
}

/// Renders the sync banner with the pending count.
pub fn format_sync_banner(pending: u32) -> (r: String)
    ensures
        r@ == spec_sync_banner_text(pending as nat),
{
    proof {
        reveal_strlit("\u{2191}  ");
        reveal_strlit(" Ereignisse werden synchronisiert");
    }
    let mut r = "\u{2191}  ".to_owned();
    append_u64(&mut r, pending as u64);
    r.append(" Ereignisse werden synchronisiert");
    proof {
        assert(r@ =~= spec_sync_banner_text(pending as nat));
    }
    r
}

impl ErrorType {
    /// The headline of the error screen for this category.
    pub fn heading(&self) -> (r: String)
        ensures
            r@ == match *self {
                ErrorType::BadgeNotRecognized => "\u{26A0}  Ausweis nicht erkannt"@,
                ErrorType::ServerUnavailable => "\u{26A0}  Server nicht erreichbar"@,
                ErrorType::NetworkError => "\u{26A0}  Netzwerkfehler"@,
                ErrorType::Other => "\u{26A0}  Fehler"@,
            },
    {
        match self {
            ErrorType::BadgeNotRecognized => "\u{26A0}  Ausweis nicht erkannt".to_owned(),
            ErrorType::ServerUnavailable => "\u{26A0}  Server nicht erreichbar".to_owned(),
            ErrorType::NetworkError => "\u{26A0}  Netzwerkfehler".to_owned(),
            ErrorType::Other => "\u{26A0}  Fehler".to_owned(),
        }
    }

    /// The explanatory line under the headline.
    pub fn description(&self) -> (r: String)
        ensures
            r@ == match *self {
                ErrorType::BadgeNotRecognized => "Dieser Ausweis ist nicht registriert."@,
                ErrorType::ServerUnavailable => "Bitte versuchen Sie es sp\u{00E4}ter erneut."@,
                ErrorType::NetworkError => "Bitte versuchen Sie es sp\u{00E4}ter erneut."@,
                ErrorType::Other => "Ein unbekannter Fehler ist aufgetreten."@,
            },
    {
        match self {
            ErrorType::BadgeNotRecognized => "Dieser Ausweis ist nicht registriert.".to_owned(),
            ErrorType::ServerUnavailable => "Bitte versuchen Sie es sp\u{00E4}ter erneut."
                .to_owned(),
            ErrorType::NetworkError => "Bitte versuchen Sie es sp\u{00E4}ter erneut.".to_owned(),
            ErrorType::Other => "Ein unbekannter Fehler ist aufgetreten.".to_owned(),
        }
    }
}

} // verus!
