//! The configuration surface the terminal recognises, as plain values, with
//! the documented defaults and the verified "WxH" resolution parser.
//!
//! Reading a configuration file is a process concern; the shell around this
//! crate deserialises its own copy of these records and converts. The
//! playback volume and font scale are fractional display knobs of that
//! shell and are not part of the core's surface.

use vstd::prelude::*;

use crate::rfid::spec_trim;
use crate::rfid::trim_ws;
use crate::strutil::{all_digits, digits_val, spec_is_digit};

verus! {

pub struct DisplayConfig {
    pub resolution: String,
    pub fullscreen: bool,
    pub orientation: String,
    pub theme: String,
    pub idle_timeout_seconds: u64,
    pub error_timeout_seconds: u64,
}

pub struct ApiConfig {
    pub base_url: String,
    pub timeout_seconds: u64,
    pub retry_attempts: u32,
    /// Unique identifier for this terminal device; must be distinct per
    /// physical terminal.
    pub terminal_id: String,
}

pub struct OfflineConfig {
    pub buffer_path: String,
    pub sync_interval_seconds: u64,
    pub max_buffer_size: u32,
}

pub struct RfidConfig {
    pub input_device: String,
    pub debounce_ms: u64,
}

pub struct AudioConfig {
    pub enabled: bool,
    pub success_sound: String,
    pub error_sound: String,
}

pub struct LocaleConfig {
    pub language: String,
}

pub struct CompanyConfig {
    pub name: String,
    pub logo_path: String,
}

pub struct AppConfig {
    pub display: DisplayConfig,
    pub api: ApiConfig,
    pub offline: OfflineConfig,
    pub rfid: RfidConfig,
    pub audio: AudioConfig,
    pub locale: LocaleConfig,
    pub company: CompanyConfig,
}

/// What `u32` text parsing yields, with a fallback: the digits' value if
/// the run is nonempty, all digits, and in range; the fallback otherwise.
pub open spec fn spec_parse_u32_or(s: Seq<char>, fallback: int) -> int {
    if s.len() > 0 && all_digits(s, 0, s.len() as int) && digits_val(s, 0, s.len() as int)
        <= u32::MAX {
        digits_val(s, 0, s.len() as int)
    } else {
        fallback
    }
}

/// How many times `c` occurs in `s`.
pub open spec fn spec_count_char(s: Seq<char>, c: char) -> int
    decreases s.len(),
{
    if s.len() == 0 {
        0
    } else {
        spec_count_char(s.drop_last(), c) + if s.last() == c {
            1int
        } else {
            0int
        }
    }
}

/// The index of the first occurrence of `c` in `s`.
pub open spec fn spec_index_of(s: Seq<char>, c: char) -> int
    decreases s.len(),
{
    if s.len() == 0 {
        0
    } else if s[0] == c {
        0
    } else {
        1 + spec_index_of(s.drop_first(), c)
    }
}

/// The screen size written in a "WxH" resolution string; a string not of
/// that shape, or a side that does not read as a number, falls back to
/// 1024 by 600.
pub open spec fn spec_parse_resolution(s: Seq<char>) -> (int, int) {
    if spec_count_char(s, 'x') == 1 {
        let i = spec_index_of(s, 'x');
        (
            spec_parse_u32_or(spec_trim(s.subrange(0, i)), 1024),
            spec_parse_u32_or(spec_trim(s.subrange(i + 1, s.len() as int)), 600),
        )
    } else {
        (1024, 600)
    }
}

proof fn lemma_count_take_step(s: Seq<char>, c: char, i: int)
    requires
        0 <= i < s.len(),
    ensures
        spec_count_char(s.take(i + 1), c) == spec_count_char(s.take(i), c) + if s[i] == c {
            1int
        } else {
            0int
        },
{
    assert(s.take(i + 1).drop_last() =~= s.take(i));
    assert(s.take(i + 1).last() == s[i]);
}

proof fn lemma_count_nonneg(s: Seq<char>, c: char)
    ensures
        spec_count_char(s, c) >= 0,
    decreases s.len(),
{
    if s.len() > 0 {
        lemma_count_nonneg(s.drop_last(), c);
    }
}

/// A prefix that counts no occurrence holds no occurrence.
proof fn lemma_count_zero_no_occ(s: Seq<char>, c: char, k: int)
    requires
        0 <= k <= s.len(),
        spec_count_char(s.take(k), c) == 0,
    ensures
        forall|j: int| 0 <= j < k ==> s[j] != c,
    decreases k,
{
    if k > 0 {
        lemma_count_take_step(s, c, k - 1);
        lemma_count_nonneg(s.take(k - 1), c);
        lemma_count_zero_no_occ(s, c, k - 1);
    }
}

proof fn lemma_index_of_found(s: Seq<char>, c: char, k: int)
    requires
        0 <= k < s.len(),
        s[k] == c,
        forall|j: int| 0 <= j < k ==> s[j] != c,
    ensures
        spec_index_of(s, c) == k,
    decreases k,
{
    if k > 0 {
        lemma_index_of_found(s.drop_first(), c, k - 1);
    }
}

/// Reads a trimmed digit run as a `u32`, with a fallback for anything that
/// is not a small enough plain number.
fn parse_u32_or(s: &str, fallback: u32) -> (r: u32)
    ensures
        r as int == spec_parse_u32_or(s@, fallback as int),
{
    let n = s.unicode_len();
    if n == 0 {
        return fallback;
    }
    let mut i: usize = 0;
    let mut acc: u64 = 0;
    while i < n
        invariant
            0 <= i <= n,
            n == s@.len(),
            all_digits(s@, 0, i as int),
            acc as int == digits_val(s@, 0, i as int),
            acc <= u32::MAX,
        decreases n - i,
    {
        let c = s.get_char(i);
        if !('0' <= c && c <= '9') {
            return fallback;
        }
        let d = (c as u64) - ('0' as u64);
        let next = acc * 10 + d;
        if next > u32::MAX as u64 {
            proof {
                if all_digits(s@, 0, n as int) {
                    lemma_digits_val_overflow(s@, i as int + 1, n as int);
                }
            }
            return fallback;
        }
        acc = next;
        i += 1;
    }
    acc as u32
}

/// Once a digit prefix exceeds `u32::MAX`, the whole run does.
proof fn lemma_digits_val_overflow(s: Seq<char>, i: int, n: int)
    requires
        0 < i <= n <= s.len(),
        digits_val(s, 0, i) > u32::MAX,
        all_digits(s, 0, n),
    ensures
        digits_val(s, 0, n) > u32::MAX,
    decreases n - i,
{
    if i < n {
        assert(spec_is_digit(s[i]));
        assert(digits_val(s, 0, i + 1) == digits_val(s, 0, i) * 10 + ((s[i] as int) - (
        '0' as int)));
        assert(digits_val(s, 0, i) * 10 >= (u32::MAX + 1) * 10);
        lemma_digits_val_overflow(s, i + 1, n);
    }
}

impl DisplayConfig {
    /// The width written in the resolution string, 1024 if unreadable.
    pub fn resolution_width(&self) -> (w: u32)
        ensures
            w as int == spec_parse_resolution(self.resolution@).0,
    {
        self.parse_resolution().0
    }

    /// The height written in the resolution string, 600 if unreadable.
    pub fn resolution_height(&self) -> (h: u32)
        ensures
            h as int == spec_parse_resolution(self.resolution@).1,
    {
        self.parse_resolution().1
    }

    fn parse_resolution(&self) -> (r: (u32, u32))
        ensures
            r.0 as int == spec_parse_resolution(self.resolution@).0,
            r.1 as int == spec_parse_resolution(self.resolution@).1,
    {
        let s = self.resolution.as_str();
        let n = s.unicode_len();
        let mut i: usize = 0;
        let mut count: usize = 0;
        let mut first: usize = 0;
        proof {
            assert(s@.take(0) =~= Seq::<char>::empty());
        }
        while i < n
            invariant
                0 <= i <= n,
                n == s@.len(),
                count as int == spec_count_char(s@.take(i as int), 'x'),
                count <= i,
                count > 0 ==> (first < i && s@[first as int] == 'x' && forall|j: int|
                    0 <= j < first ==> s@[j] != 'x'),
            decreases n - i,
        {
            proof {
                lemma_count_take_step(s@, 'x', i as int);
            }
            if s.get_char(i) == 'x' {
                if count == 0 {
                    proof {
                        lemma_count_zero_no_occ(s@, 'x', i as int);
                    }
                    first = i;
                }
                count += 1;
            }
            i += 1;
        }
        proof {
            assert(s@.take(n as int) =~= s@);
        }
        if count != 1 {
            return (1024, 600);
        }
        proof {
            lemma_index_of_found(s@, 'x', first as int);
        }
        let left = s.substring_char(0, first);
        let right = s.substring_char(first + 1, n);
        let lt = trim_ws(left);
        let rt = trim_ws(right);
        let w = parse_u32_or(lt.as_str(), 1024);
        let h = parse_u32_or(rt.as_str(), 600);
        (w, h)
    }
}

impl Default for AppConfig {
    /// The defaults the terminal runs with when no configuration file can
    /// be read.
    fn default() -> (r: AppConfig)
        ensures
            r.display.resolution@ == "1024x600"@,
            r.display.fullscreen == true,
            r.display.orientation@ == "landscape"@,
            r.display.theme@ == "dark"@,
            r.display.idle_timeout_seconds == 8,
            r.display.error_timeout_seconds == 5,
            r.api.base_url@ == "http://localhost:8080/api"@,
            r.api.timeout_seconds == 10,
            r.api.retry_attempts == 3,
            r.api.terminal_id@ == "terminal-01"@,
            r.offline.buffer_path@ == "/var/lib/zeiterfassung/buffer.db"@,
            r.offline.sync_interval_seconds == 30,
            r.offline.max_buffer_size == 10000,
            r.rfid.input_device@ == "auto"@,
            r.rfid.debounce_ms == 500,
            r.audio.enabled == true,
            r.audio.success_sound@ == "assets/sounds/success.wav"@,
            r.audio.error_sound@ == "assets/sounds/error.wav"@,
            r.locale.language@ == "de"@,
            r.company.name@ == "Firma GmbH"@,
            r.company.logo_path@ == "assets/logo.png"@,
    {
        AppConfig {
            display: DisplayConfig {
                resolution: "1024x600".to_owned(),
                fullscreen: true,
                orientation: "landscape".to_owned(),
                theme: "dark".to_owned(),
                idle_timeout_seconds: 8,
                error_timeout_seconds: 5,
            },
            api: ApiConfig {
                base_url: "http://localhost:8080/api".to_owned(),
                timeout_seconds: 10,
                retry_attempts: 3,
                terminal_id: "terminal-01".to_owned(),
            },
            offline: OfflineConfig {
                buffer_path: "/var/lib/zeiterfassung/buffer.db".to_owned(),
                sync_interval_seconds: 30,
                max_buffer_size: 10000,
            },
            rfid: RfidConfig { input_device: "auto".to_owned(), debounce_ms: 500 },
            audio: AudioConfig {
                enabled: true,
                success_sound: "assets/sounds/success.wav".to_owned(),
                error_sound: "assets/sounds/error.wav".to_owned(),
            },
            locale: LocaleConfig { language: "de".to_owned() },
            company: CompanyConfig {
                name: "Firma GmbH".to_owned(),
                logo_path: "assets/logo.png".to_owned(),
            },
        }
    }
}

} // verus!
