//! Weather island: the wttr.in request URL, sunrise / sunset times, and the
//! glyph chosen for the current conditions.
use vstd::prelude::*;

use crate::config::{opt_ref_view, owned};
use crate::text::{
    append_str, chars_of, contains, contains_chars, eq_ci, eq_ci_chars, find_char,
    find_char_idx, lower, lower_chars, parse_u32, parse_u32_chars, string_of, sub_chars, trim,
    trim_chars,
};

verus! {

broadcast use vstd::string::group_string_axioms;

// ---------------------------------------------------------------------------
// Request URL
// ---------------------------------------------------------------------------

/// Upper-case hexadecimal digit.
pub open spec fn hex_digit(d: int) -> char {
    if d < 10 {
        ('0' as int + d) as char
    } else {
        ('A' as int + d - 10) as char
    }
}

/// Bytes kept as they are in a location.
pub open spec fn keeps_byte(b: u8) -> bool {
    ||| 0x41 <= b <= 0x5a
    ||| 0x61 <= b <= 0x7a
    ||| 0x30 <= b <= 0x39
    ||| b == 0x2d
    ||| b == 0x5f
    ||| b == 0x2e
    ||| b == 0x2c
}

/// One byte of a location in the URL: space as `+`, letters, digits and
/// `-_.,` as they are, everything else as `%XX`.
pub open spec fn encode_byte(b: u8) -> Seq<char> {
    if b == 0x20 {
        seq!['+']
    } else if keeps_byte(b) {
        seq![b as char]
    } else {
        seq!['%', hex_digit(b as int / 16), hex_digit(b as int % 16)]
    }
}

/// The URL encoding of a byte string.
pub open spec fn encode_bytes(bs: Seq<u8>) -> Seq<char>
    decreases bs.len(),
{
    if bs.len() == 0 {
        Seq::empty()
    } else {
        encode_bytes(bs.drop_last()) + encode_byte(bs.last())
    }
}

/// A location as it appears in a wttr.in URL: its trimmed UTF-8 bytes,
/// encoded one by one.
pub open spec fn spec_encode_location(loc: Seq<char>) -> Seq<char> {
    encode_bytes(vstd::utf8::encode_utf8(trim(loc)))
}

/// The wttr.in JSON URL for a location (the caller's own location when the
/// location is blank).
pub open spec fn spec_wttr_url(location: Seq<char>) -> Seq<char> {
    if trim(location).len() == 0 {
        "https://wttr.in/?format=j1"@
    } else {
        "https://wttr.in/"@ + spec_encode_location(trim(location)) + "?format=j1"@
    }
}

fn hex_char(d: u8) -> (c: char)
    requires
        d < 16,
    ensures
        c == hex_digit(d as int),
{
    if d < 10 {
        ('0' as u8 + d) as char
    } else {
        ('A' as u8 + d - 10) as char
    }
}

/// URL-encodes a location for wttr.in.
pub fn encode_location(loc: &str) -> (r: String)
    ensures
        r@ == spec_encode_location(loc@),
{
    let c = chars_of(loc);
    let t = trim_chars(&c);
    let ts = string_of(&t);
    let bytes = ts.as_str().as_bytes();
    let ghost bs = vstd::utf8::encode_utf8(trim(loc@));
    assert(bytes@ == bs);
    let mut out: Vec<char> = Vec::new();
    let mut i: usize = 0;
    while i < bytes.len()
        invariant
            i <= bytes@.len(),
            bytes@ == bs,
            out@ == encode_bytes(bs.take(i as int)),
        decreases bytes@.len() - i,
    {
        let b = bytes[i];
        assert(bs.take(i + 1).drop_last() == bs.take(i as int));
        assert(bs.take(i + 1).last() == b);
        if b == 0x20 {
            out.push('+');
        } else if (0x41 <= b && b <= 0x5a) || (0x61 <= b && b <= 0x7a) || (0x30 <= b && b <= 0x39)
            || b == 0x2d || b == 0x5f || b == 0x2e || b == 0x2c {
            out.push(b as char);
        } else {
            out.push('%');
            out.push(hex_char(b / 16));
            out.push(hex_char(b % 16));
        }
        assert(out@ =~= encode_bytes(bs.take(i as int)) + encode_byte(b));
        i += 1;
    }
    assert(bs.take(i as int) == bs);
    string_of(&out)
}

/// The wttr.in JSON URL for a location.
pub fn wttr_url(location: &str) -> (r: String)
    ensures
        r@ == spec_wttr_url(location@),
{
    let c = chars_of(location);
    let t = trim_chars(&c);
    if t.len() == 0 {
        return owned("https://wttr.in/?format=j1");
    }
    let ts = string_of(&t);
    let enc = encode_location(ts.as_str());
    let mut out = chars_of("https://wttr.in/");
    let ec = chars_of(enc.as_str());
    crate::text::append_chars(&mut out, &ec);
    append_str(&mut out, "?format=j1");
    string_of(&out)
}

// ---------------------------------------------------------------------------
// Sunrise / sunset
// ---------------------------------------------------------------------------

/// The index of the last space in `s`.
pub open spec fn last_space(s: Seq<char>) -> Option<int>
    decreases s.len(),
{
    if s.len() == 0 {
        None
    } else if s.last() == ' ' {
        Some(s.len() - 1)
    } else {
        last_space(s.drop_last())
    }
}

/// The parts of a `07:12 AM` time: hour, minute and whether it is PM; `None`
/// when the text is not of that form.
pub open spec fn ampm_parts(s: Seq<char>) -> Option<(u32, u32, bool)> {
    let t = trim(s);
    match last_space(t) {
        Some(sp) => {
            let time = t.take(sp);
            let ampm = t.skip(sp + 1);
            match find_char(time, ':') {
                Some(c) => match (parse_u32(time.take(c)), parse_u32(time.skip(c + 1))) {
                    (Some(h), Some(m)) => if eq_ci(ampm, "pm"@) {
                        Some((h, m, true))
                    } else if eq_ci(ampm, "am"@) {
                        Some((h, m, false))
                    } else {
                        None
                    },
                    _ => None,
                },
                None => None,
            }
        },
        None => None,
    }
}

/// Minutes after midnight of a 12-hour clock time (12 AM is midnight).
pub open spec fn ampm_minutes(h: u32, m: u32, pm: bool) -> int {
    let hour = if h == 12 {
        0
    } else {
        h as int
    };
    (if pm {
        hour + 12
    } else {
        hour
    }) * 60 + m
}

/// The time fits the `u32` arithmetic of the conversion (the hour and minute
/// fields are not absurdly large).
pub open spec fn spec_ampm_fits(s: Seq<char>) -> bool {
    match ampm_parts(s) {
        Some((h, m, pm)) => (if h == 12 {
            0
        } else {
            h as int
        }) + (if pm {
            12int
        } else {
            0
        }) <= u32::MAX && ampm_minutes(h, m, pm) <= u32::MAX,
        None => true,
    }
}

/// The minutes after midnight of a `h:mm AM|PM` time.
pub open spec fn spec_parse_ampm_minutes(s: Seq<char>) -> Option<int> {
    match ampm_parts(s) {
        Some((h, m, pm)) => Some(ampm_minutes(h, m, pm)),
        None => None,
    }
}

fn last_space_idx(s: &Vec<char>) -> (r: Option<usize>)
    ensures
        match r {
            Some(i) => last_space(s@) == Some(i as int) && i < s@.len(),
            None => last_space(s@) is None,
        },
{
    let mut j: usize = s.len();
    assert(s@.take(s.len() as int) == s@);
    while j > 0
        invariant
            j <= s@.len(),
            last_space(s@) == last_space(s@.take(j as int)),
        decreases j,
    {
        assert(s@.take(j as int).last() == s@[j - 1]);
        if s[j - 1] == ' ' {
            return Some(j - 1);
        }
        assert(s@.take(j as int).drop_last() == s@.take(j - 1));
        j -= 1;
    }
    None
}

fn ampm_parts_exec(s: &str) -> (r: Option<(u32, u32, bool)>)
    ensures
        r == ampm_parts(s@),
{
    let c = chars_of(s);
    let t = trim_chars(&c);
    let sp = match last_space_idx(&t) {
        Some(sp) => sp,
        None => return None,
    };
    let time = sub_chars(&t, 0, sp);
    let ampm = sub_chars(&t, sp + 1, t.len());
    assert(time@ == t@.take(sp as int));
    assert(ampm@ == t@.skip(sp + 1));
    let colon = match find_char_idx(&time, ':') {
        Some(k) => k,
        None => return None,
    };
    proof {
        crate::network::lemma_find_char_bound(time@, ':');
    }
    let hs = sub_chars(&time, 0, colon);
    let ms = sub_chars(&time, colon + 1, time.len());
    assert(hs@ == time@.take(colon as int));
    assert(ms@ == time@.skip(colon + 1));
    let h = match parse_u32_chars(&hs) {
        Some(h) => h,
        None => return None,
    };
    let m = match parse_u32_chars(&ms) {
        Some(m) => m,
        None => return None,
    };
    let pm_lit = chars_of("pm");
    let am_lit = chars_of("am");
    if eq_ci_chars(&ampm, &pm_lit) {
        Some((h, m, true))
    } else if eq_ci_chars(&ampm, &am_lit) {
        Some((h, m, false))
    } else {
        None
    }
}

/// The conversion of this time fits in `u32` arithmetic.
pub fn ampm_fits(s: &str) -> (r: bool)
    ensures
        r == spec_ampm_fits(s@),
{
    match ampm_parts_exec(s) {
        Some((h, m, pm)) => {
            let hour: u64 = if h == 12 {
                0
            } else {
                h as u64
            };
            let hour = if pm {
                hour + 12
            } else {
                hour
            };
            hour <= 0xffff_ffff && hour * 60 + m as u64 <= 0xffff_ffff
        },
        None => true,
    }
}

/// Minutes after midnight of a `h:mm AM|PM` time (12 AM is midnight).
pub fn parse_ampm_minutes(s: &str) -> (r: Option<u32>)
    requires
        spec_ampm_fits(s@),
    ensures
        match r {
            Some(v) => spec_parse_ampm_minutes(s@) == Some(v as int),
            None => spec_parse_ampm_minutes(s@) is None,
        },
{
    match ampm_parts_exec(s) {
        Some((h, m, pm)) => {
            let mut hour = h;
            if hour == 12 {
                hour = 0;
            }
            if pm {
                hour += 12;
            }
            Some(hour * 60 + m)
        },
        None => None,
    }
}

/// At `now` minutes after midnight it is night: before sunrise or from
/// sunset on. Unknown or unreadable times count as day.
pub open spec fn spec_is_night_at(now: int, sunrise: Option<String>, sunset: Option<String>) -> bool {
    match (sunrise, sunset) {
        (Some(r), Some(s)) => match (spec_parse_ampm_minutes(r@), spec_parse_ampm_minutes(s@)) {
            (Some(rise), Some(set)) => now < rise || now >= set,
            _ => false,
        },
        _ => false,
    }
}

/// Both times, when present, convert within `u32` arithmetic.
pub open spec fn times_fit(sunrise: Option<String>, sunset: Option<String>) -> bool {
    &&& sunrise matches Some(r) ==> spec_ampm_fits(r@)
    &&& sunset matches Some(s) ==> spec_ampm_fits(s@)
}

/// Whether it is night at `now` minutes after midnight.
pub fn is_night_at(now: u32, sunrise: &Option<String>, sunset: &Option<String>) -> (r: bool)
    requires
        times_fit(*sunrise, *sunset),
    ensures
        r == spec_is_night_at(now as int, *sunrise, *sunset),
{
    let (Some(rise), Some(set)) = (sunrise, sunset) else {
        return false;
    };
    let Some(rise) = parse_ampm_minutes(rise.as_str()) else {
        return false;
    };
    let Some(set) = parse_ampm_minutes(set.as_str()) else {
        return false;
    };
    now < rise || now >= set
}

// ---------------------------------------------------------------------------
// Condition glyphs
// ---------------------------------------------------------------------------

/// The glyph of a WWO weather code, when the code is known.
pub open spec fn spec_emoji_from_wwo_code(code: u32, night: bool) -> Option<Seq<char>> {
    if code == 113 {
        Some(
            if night {
                "🌙"@
            } else {
                "☀️"@
            },
        )
    } else if code == 116 {
        Some("⛅"@)
    } else if code == 119 || code == 122 {
        Some("☁️"@)
    } else if code == 143 || code == 248 || code == 260 {
        Some("🌫️"@)
    } else if code == 176 || code == 263 || code == 266 || code == 293 || code == 353 {
        Some("🌦️"@)
    } else if code == 179 || code == 182 || code == 317 || code == 320 || code == 323 || code
        == 326 || code == 350 || code == 362 || code == 365 || code == 368 || code == 374 || code
        == 377 {
        Some("🌨️"@)
    } else if code == 185 || code == 281 || code == 284 || code == 296 || code == 299 || code
        == 302 || code == 305 || code == 308 || code == 311 || code == 314 || code == 356 || code
        == 359 {
        Some("🌧️"@)
    } else if code == 200 || code == 386 || code == 389 || code == 392 || code == 395 {
        Some("⛈️"@)
    } else if code == 227 || code == 230 || code == 329 || code == 332 || code == 335 || code
        == 338 || code == 371 {
        Some("❄️"@)
    } else {
        None
    }
}

/// A WWO rain code (light to torrential rain and showers, freezing drizzle).
pub open spec fn is_rain_code(code: u32) -> bool {
    code == 185 || code == 281 || code == 284 || code == 296 || code == 299 || code == 302
        || code == 305 || code == 308 || code == 311 || code == 314 || code == 356 || code == 359
}

/// Law: every rain code shows the rain glyph, by day and by night, and none
/// shows the snow glyph.
pub proof fn lemma_rain_codes_show_rain(code: u32, night: bool)
    requires
        is_rain_code(code),
    ensures
        spec_emoji_from_wwo_code(code, night) matches Some(g) && g == "🌧️"@ && g != "🌨️"@,
{
    reveal_strlit("🌧️");
    reveal_strlit("🌨️");
    assert("🌧️"@[0] != "🌨️"@[0]);
}

/// The glyph of a WWO weather code (wttr.in `weatherCode`).
pub fn emoji_from_wwo_code(code: u32, night: bool) -> (r: Option<&'static str>)
    ensures
        opt_ref_view(r) == spec_emoji_from_wwo_code(code, night),
{
    if code == 113 {
        Some(
            if night {
                "🌙"
            } else {
                "☀️"
            },
        )
    } else if code == 116 {
        Some("⛅")
    } else if code == 119 || code == 122 {
        Some("☁️")
    } else if code == 143 || code == 248 || code == 260 {
        Some("🌫️")
    } else if code == 176 || code == 263 || code == 266 || code == 293 || code == 353 {
        Some("🌦️")
    } else if code == 179 || code == 182 || code == 317 || code == 320 || code == 323 || code
        == 326 || code == 350 || code == 362 || code == 365 || code == 368 || code == 374 || code
        == 377 {
        Some("🌨️")
    } else if code == 185 || code == 281 || code == 284 || code == 296 || code == 299 || code
        == 302 || code == 305 || code == 308 || code == 311 || code == 314 || code == 356 || code
        == 359 {
        Some("🌧️")
    } else if code == 200 || code == 386 || code == 389 || code == 392 || code == 395 {
        Some("⛈️")
    } else if code == 227 || code == 230 || code == 329 || code == 332 || code == 335 || code
        == 338 || code == 371 {
        Some("❄️")
    } else {
        None
    }
}

/// The glyph for a free-text condition, by keywords of its ASCII-lowercased
/// text.
pub open spec fn spec_emoji_from_desc(desc: Seq<char>, night: bool) -> Seq<char> {
    let d = lower(desc);
    if contains(d, "thunder"@) {
        "⛈️"@
    } else if contains(d, "blizzard"@) || contains(d, "snow"@) {
        if contains(d, "rain"@) || contains(d, "sleet"@) {
            "🌨️"@
        } else {
            "❄️"@
        }
    } else if contains(d, "sleet"@) || contains(d, "ice pellet"@) {
        "🌨️"@
    } else if contains(d, "drizzle"@) || (contains(d, "rain"@) && contains(d, "patchy"@)) {
        "🌦️"@
    } else if contains(d, "rain"@) || contains(d, "shower"@) {
        "🌧️"@
    } else if contains(d, "fog"@) || contains(d, "mist"@) || contains(d, "haze"@) {
        "🌫️"@
    } else if contains(d, "overcast"@) || contains(d, "cloud"@) {
        if contains(d, "partly"@) {
            "⛅"@
        } else {
            "☁️"@
        }
    } else if contains(d, "clear"@) || contains(d, "sunny"@) {
        if night {
            "🌙"@
        } else {
            "☀️"@
        }
    } else {
        "🌡️"@
    }
}

fn has(d: &Vec<char>, word: &str) -> (r: bool)
    ensures
        r == contains(d@, word@),
{
    let w = chars_of(word);
    contains_chars(d, &w)
}

/// The glyph for a free-text weather description.
pub fn emoji_from_desc(desc: &str, night: bool) -> (r: &'static str)
    ensures
        r@ == spec_emoji_from_desc(desc@, night),
{
    let dc = chars_of(desc);
    let d = lower_chars(&dc);
    if has(&d, "thunder") {
        "⛈️"
    } else if has(&d, "blizzard") || has(&d, "snow") {
        if has(&d, "rain") || has(&d, "sleet") {
            "🌨️"
        } else {
            "❄️"
        }
    } else if has(&d, "sleet") || has(&d, "ice pellet") {
        "🌨️"
    } else if has(&d, "drizzle") || (has(&d, "rain") && has(&d, "patchy")) {
        "🌦️"
    } else if has(&d, "rain") || has(&d, "shower") {
        "🌧️"
    } else if has(&d, "fog") || has(&d, "mist") || has(&d, "haze") {
        "🌫️"
    } else if has(&d, "overcast") || has(&d, "cloud") {
        if has(&d, "partly") {
            "⛅"
        } else {
            "☁️"
        }
    } else if has(&d, "clear") || has(&d, "sunny") {
        if night {
            "🌙"
        } else {
            "☀️"
        }
    } else {
        "🌡️"
    }
}

/// The glyph for the current conditions: by weather code when it is known,
/// else by the description.
pub open spec fn spec_emoji_for_code(code: Option<u32>, desc: Seq<char>, night: bool) -> Seq<char> {
    match code {
        Some(c) if spec_emoji_from_wwo_code(c, night) is Some => spec_emoji_from_wwo_code(
            c,
            night,
        )->0,
        _ => spec_emoji_from_desc(desc, night),
    }
}

/// The glyph for the current conditions.
pub fn emoji_for_code(code: Option<u32>, desc: &str, night: bool) -> (r: String)
    ensures
        r@ == spec_emoji_for_code(code, desc@, night),
{
    if let Some(c) = code {
        if let Some(e) = emoji_from_wwo_code(c, night) {
            return owned(e);
        }
    }
    owned(emoji_from_desc(desc, night))
}

// ---------------------------------------------------------------------------
// Refresh pacing
// ---------------------------------------------------------------------------

/// The weather refresh period: the configured interval, at least one minute
/// so that a typo does not hammer wttr.in.
pub fn refresh_interval_ms(configured: u64) -> (r: u64)
    ensures
        r == if configured < 60_000 {
            60_000
        } else {
            configured
        },
{
    if configured < 60_000 {
        60_000
    } else {
        configured
    }
}

/// The next slice of a sliced sleep of `total` ms of which `slept` are done:
/// at most 200 ms, so that a change of settings is noticed promptly.
pub fn sleep_slice(total: u64, slept: u64) -> (r: u64)
    requires
        slept < total,
    ensures
        r == if total - slept < 200 {
            total - slept
        } else {
            200
        },
        0 < r <= 200,
        slept + r <= total,
{
    let left = total - slept;
    if left < 200 {
        left
    } else {
        200
    }
}

} // verus!

verus! {

/// The place shown for a forecast: the area's name, followed by its region
/// when that is set and differs from the name (ignoring ASCII case); `Local`
/// when the area has no name.
pub open spec fn area_text(name: Option<Seq<char>>, region: Option<Seq<char>>) -> Seq<char> {
    match name {
        Some(n) if n.len() > 0 => match region {
            Some(r) if r.len() > 0 && !crate::text::eq_ci(r, n) => n + ", "@ + r,
            _ => n,
        },
        _ => "Local"@,
    }
}

pub fn area_label(name: Option<&str>, region: Option<&str>) -> (r: String)
    ensures
        r@ == area_text(
            match name {
                Some(n) => Some(n@),
                None => None,
            },
            match region {
                Some(g) => Some(g@),
                None => None,
            },
        ),
{
    let n = match name {
        Some(n) => chars_of(n),
        None => {
            return owned("Local");
        },
    };
    if n.len() == 0 {
        return owned("Local");
    }
    let mut out = crate::text::sub_chars(&n, 0, n.len());
    if let Some(g) = region {
        let gc = chars_of(g);
        if gc.len() > 0 && !crate::text::eq_ci_chars(&gc, &n) {
            crate::text::append_str(&mut out, ", ");
            crate::text::append_chars(&mut out, &gc);
        }
    }
    string_of(&out)
}

} // verus!
