//! Layout, colour, timing and path constants, plus the small value parsers
//! and colour bands that the pages share.

use vstd::prelude::*;
use crate::textutil::{is_digit, str_chars, string_of, trim, trim_chars};

verus! {

pub const FB: &'static str = "/dev/fb1";
pub const W: usize = 480;
pub const H: usize = 320;

// ---------------------------------------------------------------------------
// GitHub Dark theme palette, stored as 0xRRGGBB.
// ---------------------------------------------------------------------------
pub const BG: u32 = 0x0d1117;
pub const PANEL: u32 = 0x161b22;
pub const ACCENT: u32 = 0x30363d;
pub const GREEN: u32 = 0x3fb950;
pub const RED: u32 = 0xf85149;
pub const YELLOW: u32 = 0xd29922;
pub const WHITE: u32 = 0xe6edf3;
pub const GRAY: u32 = 0x7d8590;
pub const CYAN: u32 = 0x39c5cf;
pub const ORANGE: u32 = 0xf0883e;
pub const BLUE: u32 = 0x58a6ff;
pub const OVERLAY_BG: u32 = 0x333333;

// ---------------------------------------------------------------------------
// Semantic colour aliases used by the monitor page.
// ---------------------------------------------------------------------------
pub const OK: u32 = 0x3fb950;
pub const CAUTION: u32 = 0xd29922;
pub const ALARM: u32 = 0xff0000;
pub const COOL: u32 = 0x58a6ff;
pub const TREND_HOT: u32 = 0xf85149;
pub const ROW_STRIPE: u32 = 0x131a24;
pub const SCROLL_TRACK: u32 = 0x21262e;

pub const REFRESH_INTERVAL_MS: u64 = 67;
pub const SLOW_RENDER_INTERVAL_MS: u64 = 1000;
pub const SLOW_DATA_INTERVAL_MS: u64 = 5000;
pub const CPU_SMOOTH_WINDOW: usize = 5;
pub const HISTORY_CAPACITY: usize = 120;
pub const BOOT_TIMEOUT: u64 = 30;

pub const TOUCH_POLL_INTERVAL_MS: u64 = 50;

pub const CONTAINER_PAGE_SIZE: usize = 8;
pub const DOCKER_START_Y: i32 = 156;
pub const DOCKER_HEADER_Y: i32 = 156;
pub const DOCKER_LIST_Y: i32 = 176;
pub const DOCKER_LINE_HEIGHT: i32 = 14;

pub const IP_FILTER_ENABLED: bool = true;

pub const SOCKET_PATH: &'static str = "/var/lib/pi-dashboard/pi_dashboard.sock";

// ---------------------------------------------------------------------------
// Hostname selection.
// ---------------------------------------------------------------------------

/// Hostname chosen from the `PI_DASHBOARD_HOSTNAME` environment value and the
/// text of `/etc/hostname`: the trimmed environment value when it is
/// non-empty, then the trimmed file text when it is non-empty, else "pi".
pub open spec fn hostname_spec(env_value: Option<Seq<char>>, file_text: Option<Seq<char>>) -> Seq<
    char,
> {
    if env_value is Some && trim(env_value.unwrap()).len() > 0 {
        trim(env_value.unwrap())
    } else if file_text is Some && trim(file_text.unwrap()).len() > 0 {
        trim(file_text.unwrap())
    } else {
        "pi"@
    }
}

/// Resolve the hostname from the environment value and `/etc/hostname` text.
/// The result is never empty.
pub fn hostname(env_value: Option<&str>, file_text: Option<&str>) -> (r: String)
    ensures
        r@.len() > 0,
        r@ == hostname_spec(
            match env_value {
                Some(v) => Some(v@),
                None => None,
            },
            match file_text {
                Some(v) => Some(v@),
                None => None,
            },
        ),
{
    if let Some(v) = env_value {
        let t = trim_chars(&str_chars(v));
        if t.len() > 0 {
            return string_of(&t);
        }
    }
    if let Some(f) = file_text {
        let t = trim_chars(&str_chars(f));
        if t.len() > 0 {
            return string_of(&t);
        }
    }
    proof {
        reveal_strlit("pi");
    }
    "pi".to_owned()
}

// ---------------------------------------------------------------------------
// Number parsing through `f32`.
// ---------------------------------------------------------------------------

/// A character that may appear in a decimal number token.
pub open spec fn is_num_char(c: char) -> bool {
    is_digit(c) || c == '.'
}

/// Digits with at most one '.', and at least one digit: exactly the strings
/// over digits and '.' that `f32::from_str` accepts.
pub open spec fn is_decimal_literal(s: Seq<char>) -> bool {
    &&& forall|i: int| 0 <= i < s.len() ==> is_num_char(#[trigger] s[i])
    &&& forall|i: int, j: int| 0 <= i < j < s.len() && s[i] == '.' ==> s[j] != '.'
    &&& exists|i: int| 0 <= i < s.len() && is_digit(#[trigger] s[i])
}

fn check_decimal_literal(s: &Vec<char>) -> (r: bool)
    requires
        forall|i: int| 0 <= i < s@.len() ==> is_num_char(#[trigger] s@[i]),
    ensures
        r == is_decimal_literal(s@),
{
    let mut dot_at: Option<usize> = None;
    let mut digit_at: Option<usize> = None;
    let mut i: usize = 0;
    while i < s.len()
        invariant
            i <= s.len(),
            forall|k: int| 0 <= k < s@.len() ==> is_num_char(#[trigger] s@[k]),
            match dot_at {
                Some(d) => d < i && s@[d as int] == '.' && forall|k: int|
                    0 <= k < i && k != d ==> s@[k] != '.',
                None => forall|k: int| 0 <= k < i ==> s@[k] != '.',
            },
            match digit_at {
                Some(d) => d < i && is_digit(s@[d as int]),
                None => forall|k: int| 0 <= k < i ==> !is_digit(#[trigger] s@[k]),
            },
        decreases s.len() - i,
    {
        if s[i] == '.' {
            if let Some(d) = dot_at {
                assert(!(forall|a: int, b: int|
                    0 <= a < b < s@.len() && s@[a] == '.' ==> s@[b] != '.')) by {
                    assert(s@[d as int] == '.' && s@[i as int] == '.');
                }
                return false;
            }
            dot_at = Some(i);
        } else {
            digit_at = Some(i);
        }
        i = i + 1;
    }
    match digit_at {
        Some(d) => {
            assert(is_digit(s@[d as int]));
            assert forall|a: int, b: int|
                0 <= a < b < s@.len() && s@[a] == '.' implies s@[b] != '.' by {
                match dot_at {
                    Some(x) => {
                        if a != x {
                        } else {
                        }
                    },
                    None => {},
                }
            }
            true
        },
        None => {
            assert(!(exists|k: int| 0 <= k < s@.len() && is_digit(#[trigger] s@[k])));
            false
        },
    }
}

/// Characters kept inside a percentage token.
pub open spec fn is_pct_char(c: char) -> bool {
    is_digit(c) || c == '.' || c == '%'
}

/// Start of the run of percentage-token characters that ends at `n`.
pub open spec fn pct_run_start(s: Seq<char>, n: int) -> int
    decreases n,
{
    if 0 < n <= s.len() && is_pct_char(s[n - 1]) {
        pct_run_start(s, n - 1)
    } else {
        n
    }
}

/// Number literal of a percentage token: a token ending in '%' whose
/// remaining characters form a decimal literal.
pub open spec fn pct_token_literal(t: Seq<char>) -> Option<Seq<char>> {
    if t.len() > 0 && t.last() == '%' && is_decimal_literal(t.drop_last()) {
        Some(t.drop_last())
    } else {
        None
    }
}

/// The number literal of the last percentage token among the tokens of
/// `s[..n]` (tokens are the maximal runs of digits, '.' and '%').
pub open spec fn last_pct(s: Seq<char>, n: int) -> Option<Seq<char>>
    decreases n,
{
    if n <= 0 || n > s.len() {
        None
    } else {
        let a = pct_run_start(s, n);
        proof {
            lemma_pct_run_start(s, n);
        }
        let v = pct_token_literal(s.subrange(a, n));
        if v is Some {
            v
        } else if a == 0 {
            None
        } else {
            last_pct(s, a - 1)
        }
    }
}

pub proof fn lemma_pct_run_start(s: Seq<char>, n: int)
    requires
        0 <= n <= s.len(),
    ensures
        0 <= pct_run_start(s, n) <= n,
        forall|j: int| pct_run_start(s, n) <= j < n ==> is_pct_char(#[trigger] s[j]),
        pct_run_start(s, n) > 0 ==> !is_pct_char(s[pct_run_start(s, n) - 1]),
    decreases n,
{
    if 0 < n && is_pct_char(s[n - 1]) {
        lemma_pct_run_start(s, n - 1);
    }
}

/// The number literal of a percentage string such as "45%" or
/// "1234/4096MB (50%)": the last decimal literal that is directly followed by
/// '%' and forms a token of digits, '.' and '%'. Converting the literal to a
/// number goes through `f32`, which the caller does.
pub fn percent_literal(text: &str) -> (r: Option<String>)
    ensures
        match r {
            Some(l) => last_pct(text@, text@.len() as int) == Some(l@),
            None => last_pct(text@, text@.len() as int) is None,
        },
{
    let s = str_chars(text);
    let mut n = s.len();
    loop
        invariant
            n <= s.len(),
            s@ == text@,
            last_pct(s@, n as int) == last_pct(s@, s@.len() as int),
        decreases n,
    {
        if n == 0 {
            return None;
        }
        let mut a = n;
        while a > 0 && (('0' <= s[a - 1] && s[a - 1] <= '9') || s[a - 1] == '.' || s[a - 1] == '%')
            invariant
                a <= n <= s.len(),
                pct_run_start(s@, a as int) == pct_run_start(s@, n as int),
            decreases a,
        {
            a = a - 1;
        }
        proof {
            lemma_pct_run_start(s@, n as int);
        }
        let ghost tok = s@.subrange(a as int, n as int);
        if n - a >= 1 && s[n - 1] == '%' {
            let body = crate::textutil::slice_chars(&s, a, n - 1);
            assert(body@ =~= tok.drop_last());
            if has_percent(&body) {
                // Not a decimal literal: fall through to the previous token.
                assert(!is_decimal_literal(tok.drop_last()));
            } else {
                assert forall|i: int| 0 <= i < body@.len() implies is_num_char(#[trigger] body@[i]) by {
                    assert(body@[i] == s@[a + i]);
                    assert(is_pct_char(s@[a + i]));
                }
                if check_decimal_literal(&body) {
                    return Some(string_of(&body));
                }
            }
        }
        if a == 0 {
            return None;
        }
        n = a - 1;
    }
}

fn has_percent(v: &Vec<char>) -> (r: bool)
    ensures
        r == exists|i: int| 0 <= i < v@.len() && v@[i] == '%',
        !r ==> forall|i: int| 0 <= i < v@.len() ==> v@[i] != '%',
{
    let mut i: usize = 0;
    while i < v.len()
        invariant
            i <= v.len(),
            forall|k: int| 0 <= k < i ==> v@[k] != '%',
        decreases v.len() - i,
    {
        if v[i] == '%' {
            return true;
        }
        i = i + 1;
    }
    false
}

/// End of the run of number characters starting at `i`.
pub open spec fn num_run_end(s: Seq<char>, i: int) -> int
    decreases s.len() - i,
{
    if 0 <= i < s.len() && is_num_char(s[i]) {
        num_run_end(s, i + 1)
    } else {
        i
    }
}

/// The number literal of a temperature string such as "42C" or "42.5C": the
/// leading run of digits and dots, when it is a decimal literal. Converting
/// the literal to a number goes through `f32`, which the caller does.
pub fn temp_literal(text: &str) -> (r: Option<String>)
    ensures
        match r {
            Some(l) => is_decimal_literal(text@.take(num_run_end(text@, 0))) && l@ == text@.take(
                num_run_end(text@, 0),
            ),
            None => !is_decimal_literal(text@.take(num_run_end(text@, 0))),
        },
{
    let s = str_chars(text);
    let mut i: usize = 0;
    while i < s.len() && (('0' <= s[i] && s[i] <= '9') || s[i] == '.')
        invariant
            i <= s.len(),
            num_run_end(s@, i as int) == num_run_end(s@, 0),
            forall|k: int| 0 <= k < i ==> is_num_char(#[trigger] s@[k]),
        decreases s.len() - i,
    {
        i = i + 1;
    }
    let tok = crate::textutil::slice_chars(&s, 0, i);
    assert(tok@ =~= s@.take(i as int));
    if check_decimal_literal(&tok) {
        Some(string_of(&tok))
    } else {
        None
    }
}

// ---------------------------------------------------------------------------
// Colour bands.
// ---------------------------------------------------------------------------

/// Hard temperature band colour used for the temperature value.
pub fn temp_band_color(t: i32) -> (r: u32)
    ensures
        r == if t < 50 {
            COOL
        } else if t < 65 {
            OK
        } else if t < 75 {
            CAUTION
        } else if t < 80 {
            ORANGE
        } else {
            ALARM
        },
{
    if t < 50 {
        COOL
    } else if t < 65 {
        OK
    } else if t < 75 {
        CAUTION
    } else if t < 80 {
        ORANGE
    } else {
        ALARM
    }
}

/// Usage percentage colour for numeric text labels (CPU/MEM/DISK/container CPU).
pub fn usage_text_color(pct: i32) -> (r: u32)
    ensures
        r == if pct < 80 {
            OK
        } else if pct < 90 {
            CAUTION
        } else {
            ALARM
        },
{
    if pct < 80 {
        OK
    } else if pct < 90 {
        CAUTION
    } else {
        ALARM
    }
}

} // verus!
