//! Network status: which interface is primary, what kind of link it is, and
//! the parsing of the text that `ip`, `iw`, `wpa_cli`, `busctl` and
//! `/proc/net/wireless` print.
use vstd::prelude::*;

use crate::compositor::opt_is;
use crate::config::owned;
use crate::text::{
    chars_eq, chars_of, contains, contains_chars, drop_trailing, drop_trailing_chars, find_char,
    find_char_idx, first_word, first_word_chars, lines, lines_of, parse_i32, parse_i32_chars,
    starts_with, starts_with_chars, string_of, strip_prefix, strip_prefix_chars, sub_chars, trim,
    trim_chars, trim_start, trim_start_chars, views, words, words_of, is_ws, trim_end,
};

verus! {

broadcast use vstd::string::group_string_axioms;

/// What the network module shows.
#[derive(Debug, Clone, PartialEq)]
pub struct NetworkSnapshot {
    pub connected: bool,
    /// Display label (SSID, connection name, or interface).
    pub label: String,
    pub strength: Option<u8>,
    /// Underlying interface when known (`wlan0`, `enp…`).
    pub interface: Option<String>,
    /// `wifi`, `ethernet`, or other.
    pub kind: Option<String>,
}

impl Default for NetworkSnapshot {
    fn default() -> (r: Self)
        ensures
            !r.connected,
            r.label@.len() == 0,
            r.strength is None,
            r.interface is None,
            r.kind is None,
    {
        NetworkSnapshot {
            connected: false,
            label: String::new(),
            strength: None,
            interface: None,
            kind: None,
        }
    }
}

/// The snapshot shown when no interface is up.
pub fn offline() -> (r: NetworkSnapshot)
    ensures
        !r.connected,
        r.label@ == "offline"@,
        r.strength is None,
        r.interface is None,
        r.kind is None,
{
    NetworkSnapshot {
        connected: false,
        label: owned("offline"),
        strength: None,
        interface: None,
        kind: None,
    }
}

// ---------------------------------------------------------------------------
// Signal strength
// ---------------------------------------------------------------------------

/// Integer division rounding toward zero (Rust's `/` on signed integers).
pub open spec fn div_trunc(a: int, b: int) -> int {
    if a >= 0 {
        a / b
    } else {
        -((-a) / b)
    }
}

pub open spec fn clamp(v: int, lo: int, hi: int) -> int {
    if v < lo {
        lo
    } else if v > hi {
        hi
    } else {
        v
    }
}

/// Signal level in dBm mapped linearly onto 0..=100 % (-100 dBm → 0 %,
/// -40 dBm → 100 %).
pub open spec fn spec_dbm_to_percent(dbm: int) -> int {
    clamp(div_trunc((dbm + 100) * 100, 60), 0, 100)
}

/// Signal level in dBm as a percentage.
pub fn dbm_to_percent(dbm: i32) -> (r: u8)
    ensures
        r == spec_dbm_to_percent(dbm as int),
{
    let v: i64 = (dbm as i64 + 100) * 100;
    let pct: i64 = if v >= 0 {
        v / 60
    } else {
        -((-v) / 60)
    };
    if pct < 0 {
        0
    } else if pct > 100 {
        100
    } else {
        pct as u8
    }
}

// ---------------------------------------------------------------------------
// Interfaces
// ---------------------------------------------------------------------------

/// Interface names of wired ethernet links (`eth*`, `en*`, `em*`, `eno*`).
pub open spec fn spec_is_ethernet(iface: Seq<char>) -> bool {
    starts_with(iface, "eth"@) || starts_with(iface, "en"@) || starts_with(iface, "em"@)
        || starts_with(iface, "eno"@)
}

/// The interface name looks like wired ethernet.
pub fn is_ethernet(iface: &str) -> (r: bool)
    ensures
        r == spec_is_ethernet(iface@),
{
    let c = chars_of(iface);
    let eth = chars_of("eth");
    let en = chars_of("en");
    let em = chars_of("em");
    let eno = chars_of("eno");
    starts_with_chars(&c, &eth) || starts_with_chars(&c, &en) || starts_with_chars(&c, &em)
        || starts_with_chars(&c, &eno)
}

/// One entry of `ip -j link`.
#[derive(Debug, Clone)]
pub struct Link {
    pub ifname: String,
    pub flags: Vec<String>,
}

/// One entry of `ip -j route show default`.
#[derive(Debug, Clone)]
pub struct Route {
    pub dev: Option<String>,
    pub metric: u32,
}

/// `flag` is one of `flags`.
pub open spec fn has_flag(flags: Seq<String>, flag: Seq<char>) -> bool {
    exists|i: int| 0 <= i < flags.len() && (#[trigger] flags[i])@ == flag
}

/// A link is up when it is both `UP` and `LOWER_UP`.
pub open spec fn spec_link_up(l: Link) -> bool {
    has_flag(l.flags@, "UP"@) && has_flag(l.flags@, "LOWER_UP"@)
}

fn has_flag_exec(flags: &Vec<String>, flag: &str) -> (r: bool)
    ensures
        r == has_flag(flags@, flag@),
{
    let f = chars_of(flag);
    let mut i: usize = 0;
    while i < flags.len()
        invariant
            i <= flags@.len(),
            f@ == flag@,
            forall|j: int| 0 <= j < i ==> (#[trigger] flags@[j])@ != flag@,
        decreases flags@.len() - i,
    {
        let c = chars_of(flags[i].as_str());
        if chars_eq(&c, &f) {
            assert((flags@[i as int])@ == flag@);
            return true;
        }
        i += 1;
    }
    false
}

/// `(name, up)` for every link, in order (what `ip -j link` reports).
pub fn ip_links(links: &Vec<Link>) -> (r: Vec<(String, bool)>)
    ensures
        r@.len() == links@.len(),
        forall|i: int|
            0 <= i < links@.len() ==> (#[trigger] r@[i]).0@ == links@[i].ifname@ && r@[i].1
                == spec_link_up(links@[i]),
{
    let mut r: Vec<(String, bool)> = Vec::new();
    let mut i: usize = 0;
    while i < links.len()
        invariant
            i <= links@.len(),
            r@.len() == i,
            forall|k: int|
                0 <= k < i ==> (#[trigger] r@[k]).0@ == links@[k].ifname@ && r@[k].1
                    == spec_link_up(links@[k]),
        decreases links@.len() - i,
    {
        let l = &links[i];
        let up = has_flag_exec(&l.flags, "UP") && has_flag_exec(&l.flags, "LOWER_UP");
        r.push((l.ifname.clone(), up));
        i += 1;
    }
    r
}

/// The up-state of the first link named `iface`; `false` when there is none.
pub open spec fn spec_link_is_up(links: Seq<(String, bool)>, iface: Seq<char>) -> bool
    decreases links.len(),
{
    if links.len() == 0 {
        false
    } else if links[0].0@ == iface {
        links[0].1
    } else {
        spec_link_is_up(links.drop_first(), iface)
    }
}

/// The first link named `iface` is up.
pub fn link_is_up(links: &Vec<(String, bool)>, iface: &str) -> (r: bool)
    ensures
        r == spec_link_is_up(links@, iface@),
{
    let n = chars_of(iface);
    let mut i: usize = 0;
    assert(links@.skip(0) == links@);
    while i < links.len()
        invariant
            i <= links@.len(),
            n@ == iface@,
            spec_link_is_up(links@, iface@) == spec_link_is_up(links@.skip(i as int), iface@),
        decreases links@.len() - i,
    {
        assert(links@.skip(i as int)[0] == links@[i as int]);
        let c = chars_of(links[i].0.as_str());
        if chars_eq(&c, &n) {
            return links[i].1;
        }
        assert(links@.skip(i as int).drop_first() == links@.skip(i + 1));
        i += 1;
    }
    false
}

/// Virtual links that never carry the primary connection.
pub open spec fn is_virtual_link(name: Seq<char>) -> bool {
    name == "lo"@ || starts_with(name, "br-"@) || starts_with(name, "docker"@) || starts_with(
        name,
        "veth"@,
    )
}

/// The first non-virtual link that is up.
pub open spec fn first_up_link(links: Seq<(String, bool)>) -> Option<Seq<char>>
    decreases links.len(),
{
    if links.len() == 0 {
        None
    } else if !is_virtual_link(links[0].0@) && links[0].1 {
        Some(links[0].0@)
    } else {
        first_up_link(links.drop_first())
    }
}

/// The primary interface: the default-route device when its link is up,
/// else the first non-virtual link that is up.
pub open spec fn spec_primary_iface(default_dev: Option<String>, links: Seq<(String, bool)>) -> Option<
    Seq<char>,
> {
    match default_dev {
        Some(d) if spec_link_is_up(links, d@) => Some(d@),
        _ => first_up_link(links),
    }
}

/// Default-route device from `ip`, else first non-loopback UP+LOWER_UP link.
pub fn primary_iface(default_dev: Option<String>, links: &Vec<(String, bool)>) -> (r: Option<
    String,
>)
    ensures
        opt_view_string(r) == spec_primary_iface(default_dev, links@),
{
    if let Some(dev) = &default_dev {
        if link_is_up(links, dev.as_str()) {
            return Some(dev.clone());
        }
    }
    let lo = chars_of("lo");
    let br = chars_of("br-");
    let docker = chars_of("docker");
    let veth = chars_of("veth");
    let mut i: usize = 0;
    assert(links@.skip(0) == links@);
    while i < links.len()
        invariant
            i <= links@.len(),
            lo@ == "lo"@,
            br@ == "br-"@,
            docker@ == "docker"@,
            veth@ == "veth"@,
            spec_primary_iface(default_dev, links@) == first_up_link(links@.skip(i as int)),
        decreases links@.len() - i,
    {
        assert(links@.skip(i as int)[0] == links@[i as int]);
        let name = chars_of(links[i].0.as_str());
        let virt = chars_eq(&name, &lo) || starts_with_chars(&name, &br) || starts_with_chars(
            &name,
            &docker,
        ) || starts_with_chars(&name, &veth);
        if !virt && links[i].1 {
            return Some(links[i].0.clone());
        }
        assert(links@.skip(i as int).drop_first() == links@.skip(i + 1));
        i += 1;
    }
    None
}

/// The view of an optional string.
pub open spec fn opt_view_string(o: Option<String>) -> Option<Seq<char>> {
    match o {
        Some(s) => Some(s@),
        None => None,
    }
}

/// A route that names a device.
pub open spec fn route_has_dev(r: Route) -> bool {
    r.dev matches Some(d) && d@.len() > 0
}

/// The device of the default route with the lowest metric (the first such
/// route on a tie) among the routes that name a device.
pub open spec fn is_best_route(routes: Seq<Route>, i: int) -> bool {
    &&& 0 <= i < routes.len()
    &&& route_has_dev(routes[i])
    &&& forall|j: int|
        0 <= j < routes.len() && route_has_dev(#[trigger] routes[j]) ==> routes[i].metric
            < routes[j].metric || (routes[i].metric == routes[j].metric && i <= j)
}

/// The device of the best default route: routes ordered by metric (stably),
/// the first that names a non-empty device.
pub fn route_dev(routes: &Vec<Route>) -> (r: Option<String>)
    ensures
        match r {
            Some(d) => exists|i: int| is_best_route(routes@, i) && routes@[i].dev->0@ == d@,
            None => forall|i: int| 0 <= i < routes@.len() ==> !route_has_dev(#[trigger] routes@[i]),
        },
{
    let mut best: Option<usize> = None;
    let mut i: usize = 0;
    while i < routes.len()
        invariant
            i <= routes@.len(),
            match best {
                Some(b) => b < i && route_has_dev(routes@[b as int]) && forall|j: int|
                    0 <= j < i && route_has_dev(#[trigger] routes@[j]) ==> routes@[b as int].metric
                        < routes@[j].metric || (routes@[b as int].metric == routes@[j].metric && b
                        <= j),
                None => forall|j: int| 0 <= j < i ==> !route_has_dev(#[trigger] routes@[j]),
            },
        decreases routes@.len() - i,
    {
        let r = &routes[i];
        let has = match &r.dev {
            Some(d) => !d.as_str().is_empty(),
            None => false,
        };
        if has {
            match best {
                Some(b) => {
                    if r.metric < routes[b].metric {
                        best = Some(i);
                    }
                },
                None => {
                    best = Some(i);
                },
            }
        }
        i += 1;
    }
    match best {
        Some(b) => {
            assert(is_best_route(routes@, b as int));
            match &routes[b].dev {
                Some(d) => Some(d.clone()),
                None => None,
            }
        },
        None => None,
    }
}

// ---------------------------------------------------------------------------
// Probe decision
// ---------------------------------------------------------------------------

/// What was learnt about a wireless interface.
#[derive(Debug, Clone)]
pub struct WifiInfo {
    pub ssid: Option<String>,
    pub strength: Option<u8>,
}

/// The snapshot for the primary interface: offline when there is none; a
/// wireless link labelled by its SSID (else the interface); an ethernet link
/// labelled `Ethernet`; any other link labelled by its interface.
pub open spec fn probe_ok(r: NetworkSnapshot, iface: Option<String>, wifi: Option<WifiInfo>) -> bool {
    match iface {
        None => !r.connected && r.label@ == "offline"@ && r.strength is None && r.interface is None
            && r.kind is None,
        Some(i) => r.connected && opt_is(r.interface, i@) && match wifi {
            Some(w) => r.label@ == (match w.ssid {
                Some(s) => s@,
                None => i@,
            }) && r.strength == w.strength && opt_is(r.kind, "wifi"@),
            None => if spec_is_ethernet(i@) {
                r.label@ == "Ethernet"@ && r.strength is None && opt_is(r.kind, "ethernet"@)
            } else {
                r.label@ == i@ && r.strength is None && r.kind is None
            },
        },
    }
}

/// Builds the network snapshot from the primary interface and, when that
/// interface is wireless, what was learnt about the Wi-Fi link.
pub fn probe(iface: Option<String>, wifi: Option<WifiInfo>) -> (r: NetworkSnapshot)
    ensures
        probe_ok(r, iface, wifi),
{
    let Some(iface) = iface else {
        return offline();
    };
    match wifi {
        Some(w) => {
            let label = match w.ssid {
                Some(s) => s,
                None => iface.clone(),
            };
            NetworkSnapshot {
                connected: true,
                label,
                strength: w.strength,
                interface: Some(iface),
                kind: Some(owned("wifi")),
            }
        },
        None => {
            if is_ethernet(iface.as_str()) {
                NetworkSnapshot {
                    connected: true,
                    label: owned("Ethernet"),
                    strength: None,
                    interface: Some(iface),
                    kind: Some(owned("ethernet")),
                }
            } else {
                NetworkSnapshot {
                    connected: true,
                    label: iface.clone(),
                    strength: None,
                    interface: Some(iface),
                    kind: None,
                }
            }
        },
    }
}


// ---------------------------------------------------------------------------
// Parsing command output
// ---------------------------------------------------------------------------

/// A value as `busctl` prints it: `"quoted"` (up to the next quote), else the
/// bare trimmed text when it is not empty.
pub open spec fn spec_parse_quoted(rest: Seq<char>) -> Option<Seq<char>> {
    let r = trim(rest);
    if r.len() > 0 && r[0] == '"' {
        match find_char(r.drop_first(), '"') {
            Some(e) => Some(r.drop_first().take(e)),
            None => None,
        }
    } else if r.len() > 0 {
        Some(r)
    } else {
        None
    }
}

fn parse_quoted_chars(rest: &Vec<char>) -> (r: Option<Vec<char>>)
    ensures
        match r {
            Some(v) => spec_parse_quoted(rest@) == Some(v@),
            None => spec_parse_quoted(rest@) is None,
        },
{
    let r = trim_chars(rest);
    if r.len() > 0 && r[0] == '"' {
        let inner = sub_chars(&r, 1, r.len());
        assert(inner@ == r@.drop_first());
        match find_char_idx(&inner, '"') {
            Some(e) => {
                proof {
                    lemma_find_char_bound(inner@, '"');
                }
                Some(sub_chars(&inner, 0, e))
            },
            None => None,
        }
    } else if r.len() > 0 {
        Some(r)
    } else {
        None
    }
}

pub proof fn lemma_find_char_bound(s: Seq<char>, c: char)
    ensures
        find_char(s, c) matches Some(i) ==> 0 <= i < s.len() && s[i] == c,
    decreases s.len(),
{
    if s.len() > 0 && s[0] != c {
        lemma_find_char_bound(s.drop_first(), c);
    }
}

/// The value in `busctl` output after its type letter.
pub fn parse_quoted(rest: &str) -> (r: Option<String>)
    ensures
        opt_view_string(r) == spec_parse_quoted(rest@),
{
    let c = chars_of(rest);
    match parse_quoted_chars(&c) {
        Some(v) => Some(string_of(&v)),
        None => None,
    }
}

/// A `busctl get-property` reply of type `tag` (`s "name"`, `o "/path"`).
pub open spec fn spec_parse_busctl(text: Seq<char>, tag: Seq<char>) -> Option<Seq<char>> {
    match strip_prefix(trim(text), tag) {
        Some(rest) => spec_parse_quoted(trim(rest)),
        None => None,
    }
}

fn parse_busctl(text: &str, tag: &str) -> (r: Option<String>)
    ensures
        opt_view_string(r) == spec_parse_busctl(text@, tag@),
{
    let c = chars_of(text);
    let t = trim_chars(&c);
    let g = chars_of(tag);
    match strip_prefix_chars(&t, &g) {
        Some(rest) => {
            let rt = trim_chars(&rest);
            match parse_quoted_chars(&rt) {
                Some(v) => Some(string_of(&v)),
                None => None,
            }
        },
        None => None,
    }
}

/// The string in a `busctl get-property` reply of type `s`.
pub fn parse_busctl_string(text: &str) -> (r: Option<String>)
    ensures
        opt_view_string(r) == spec_parse_busctl(text@, "s"@),
{
    parse_busctl(text, "s")
}

/// The object path in a `busctl get-property` reply of type `o`.
pub fn parse_busctl_object(text: &str) -> (r: Option<String>)
    ensures
        opt_view_string(r) == spec_parse_busctl(text@, "o"@),
{
    parse_busctl(text, "o")
}

/// The SSID on an `iw dev <iface> link` line (`SSID: name`).
pub open spec fn iw_ssid_line(line: Seq<char>) -> Option<Seq<char>> {
    match strip_prefix(trim(line), "SSID:"@) {
        Some(rest) => if trim(rest).len() > 0 {
            Some(trim(rest))
        } else {
            None
        },
        None => None,
    }
}

/// The SSID of the first line that names one.
pub open spec fn iw_ssid(ls: Seq<Seq<char>>) -> Option<Seq<char>>
    decreases ls.len(),
{
    if ls.len() == 0 {
        None
    } else if iw_ssid_line(ls[0]) is Some {
        iw_ssid_line(ls[0])
    } else {
        iw_ssid(ls.drop_first())
    }
}

/// The SSID in the output of `iw dev <iface> link`.
pub fn ssid_from_iw_output(text: &str) -> (r: Option<String>)
    ensures
        opt_view_string(r) == iw_ssid(lines(text@)),
{
    let c = chars_of(text);
    let ls = lines_of(&c);
    let ghost lsv = views(ls@);
    let p = chars_of("SSID:");
    let mut i: usize = 0;
    assert(lsv.skip(0) == lsv);
    while i < ls.len()
        invariant
            i <= ls@.len(),
            lsv == views(ls@),
            lsv.len() == ls@.len(),
            p@ == "SSID:"@,
            iw_ssid(lines(text@)) == iw_ssid(lsv.skip(i as int)),
        decreases ls@.len() - i,
    {
        assert(lsv.skip(i as int)[0] == ls@[i as int]@);
        let t = trim_chars(&ls[i]);
        if let Some(rest) = strip_prefix_chars(&t, &p) {
            let s = trim_chars(&rest);
            if s.len() > 0 {
                return Some(string_of(&s));
            }
        }
        assert(lsv.skip(i as int).drop_first() == lsv.skip(i + 1));
        i += 1;
    }
    None
}

/// The signal percentage on an `iw dev <iface> link` line (`signal: -55 dBm`).
pub open spec fn iw_signal_line(line: Seq<char>) -> Option<int> {
    match strip_prefix(trim(line), "signal:"@) {
        Some(rest) => match first_word(rest) {
            Some(w) => match parse_i32(w) {
                Some(dbm) => Some(spec_dbm_to_percent(dbm as int)),
                None => None,
            },
            None => None,
        },
        None => None,
    }
}

/// The signal of the first line that reports a parsable one.
pub open spec fn iw_signal(ls: Seq<Seq<char>>) -> Option<int>
    decreases ls.len(),
{
    if ls.len() == 0 {
        None
    } else if iw_signal_line(ls[0]) is Some {
        iw_signal_line(ls[0])
    } else {
        iw_signal(ls.drop_first())
    }
}

/// The opt view of an optional byte as an integer.
pub open spec fn opt_u8_int(o: Option<u8>) -> Option<int> {
    match o {
        Some(v) => Some(v as int),
        None => None,
    }
}

/// The signal strength percentage in the output of `iw dev <iface> link`.
pub fn signal_from_iw_output(text: &str) -> (r: Option<u8>)
    ensures
        opt_u8_int(r) == iw_signal(lines(text@)),
{
    let c = chars_of(text);
    let ls = lines_of(&c);
    let ghost lsv = views(ls@);
    let p = chars_of("signal:");
    let mut i: usize = 0;
    assert(lsv.skip(0) == lsv);
    while i < ls.len()
        invariant
            i <= ls@.len(),
            lsv == views(ls@),
            lsv.len() == ls@.len(),
            p@ == "signal:"@,
            iw_signal(lines(text@)) == iw_signal(lsv.skip(i as int)),
        decreases ls@.len() - i,
    {
        assert(lsv.skip(i as int)[0] == ls@[i as int]@);
        let t = trim_chars(&ls[i]);
        if let Some(rest) = strip_prefix_chars(&t, &p) {
            if let Some(w) = first_word_chars(&rest) {
                if let Some(dbm) = parse_i32_chars(&w) {
                    return Some(dbm_to_percent(dbm));
                }
            }
        }
        assert(lsv.skip(i as int).drop_first() == lsv.skip(i + 1));
        i += 1;
    }
    None
}

/// Reading `/proc/net/wireless` for `iface`: the first line (leading
/// whitespace ignored) that starts with the interface name and has at least
/// four fields decides; its fourth field (trailing dots dropped) is the link
/// level: negative values are dBm, others a percentage clamped to 0..=100. An
/// unparsable level gives `None`.
pub open spec fn proc_signal(ls: Seq<Seq<char>>, iface: Seq<char>) -> Option<int>
    decreases ls.len(),
{
    if ls.len() == 0 {
        None
    } else {
        let line = trim_start(ls[0]);
        let parts = words(line);
        if !starts_with(line, iface) || parts.len() < 4 {
            proc_signal(ls.drop_first(), iface)
        } else {
            match parse_i32(drop_trailing(parts[3], '.')) {
                Some(level) => if level < 0 {
                    Some(spec_dbm_to_percent(level as int))
                } else {
                    Some(clamp(level as int, 0, 100))
                },
                None => None,
            }
        }
    }
}

/// The signal strength of `iface` in the text of `/proc/net/wireless`.
pub fn signal_from_proc_text(text: &str, iface: &str) -> (r: Option<u8>)
    ensures
        opt_u8_int(r) == proc_signal(lines(text@), iface@),
{
    let c = chars_of(text);
    let ls = lines_of(&c);
    let ghost lsv = views(ls@);
    let ic = chars_of(iface);
    let mut i: usize = 0;
    assert(lsv.skip(0) == lsv);
    while i < ls.len()
        invariant
            i <= ls@.len(),
            lsv == views(ls@),
            lsv.len() == ls@.len(),
            ic@ == iface@,
            proc_signal(lines(text@), iface@) == proc_signal(lsv.skip(i as int), iface@),
        decreases ls@.len() - i,
    {
        assert(lsv.skip(i as int)[0] == ls@[i as int]@);
        let line = trim_start_chars(&ls[i]);
        if starts_with_chars(&line, &ic) {
            let parts = words_of(&line);
            if parts.len() >= 4 {
                assert(views(parts@)[3] == parts@[3]@);
                let lv = drop_trailing_chars(&parts[3], '.');
                return match parse_i32_chars(&lv) {
                    Some(level) => {
                        if level < 0 {
                            Some(dbm_to_percent(level))
                        } else if level > 100 {
                            Some(100)
                        } else {
                            Some(level as u8)
                        }
                    },
                    None => None,
                };
            }
        }
        assert(lsv.skip(i as int).drop_first() == lsv.skip(i + 1));
        i += 1;
    }
    None
}

/// Scanning `wpa_cli status`: the last non-empty `ssid=` value, and whether
/// some other line reports `wpa_state=COMPLETED`.
pub open spec fn wpa_scan(ls: Seq<Seq<char>>) -> (Option<Seq<char>>, bool)
    decreases ls.len(),
{
    if ls.len() == 0 {
        (None, false)
    } else {
        let (ssid, done) = wpa_scan(ls.drop_last());
        let line = ls.last();
        match strip_prefix(line, "ssid="@) {
            Some(rest) => if trim(rest).len() > 0 {
                (Some(trim(rest)), done)
            } else {
                (ssid, done)
            },
            None => (ssid, done || contains(line, "wpa_state=COMPLETED"@)),
        }
    }
}

/// The SSID from `wpa_cli status`, only once the association completed.
pub open spec fn spec_wpa_cli_ssid(text: Seq<char>) -> Option<Seq<char>> {
    let (ssid, done) = wpa_scan(lines(text));
    if done {
        ssid
    } else {
        None
    }
}

/// The SSID in the output of `wpa_cli -i <iface> status`.
pub fn wpa_cli_ssid(text: &str) -> (r: Option<String>)
    ensures
        opt_view_string(r) == spec_wpa_cli_ssid(text@),
{
    let c = chars_of(text);
    let ls = lines_of(&c);
    let ghost lsv = views(ls@);
    let pre = chars_of("ssid=");
    let done_marker = chars_of("wpa_state=COMPLETED");
    let mut ssid: Option<Vec<char>> = None;
    let mut completed = false;
    let mut i: usize = 0;
    while i < ls.len()
        invariant
            i <= ls@.len(),
            lsv == views(ls@),
            lsv.len() == ls@.len(),
            pre@ == "ssid="@,
            done_marker@ == "wpa_state=COMPLETED"@,
            wpa_scan(lsv.take(i as int)) == (
                match ssid {
                    Some(v) => Some(v@),
                    None => None,
                },
                completed,
            ),
        decreases ls@.len() - i,
    {
        assert(lsv.take(i + 1).drop_last() == lsv.take(i as int));
        assert(lsv.take(i + 1).last() == ls@[i as int]@);
        let line = &ls[i];
        match strip_prefix_chars(line, &pre) {
            Some(rest) => {
                let s = trim_chars(&rest);
                if s.len() > 0 {
                    ssid = Some(s);
                }
            },
            None => {
                if contains_chars(line, &done_marker) {
                    completed = true;
                }
            },
        }
        i += 1;
    }
    assert(lsv.take(i as int) == lsv);
    if completed {
        match ssid {
            Some(v) => Some(string_of(&v)),
            None => None,
        }
    } else {
        None
    }
}

/// The trimmed text, when it is not empty (the SSID `iwgetid -r` prints).
pub fn iwgetid_ssid(text: &str) -> (r: Option<String>)
    ensures
        opt_view_string(r) == (if trim(text@).len() > 0 {
            Some(trim(text@))
        } else {
            None
        }),
{
    let c = chars_of(text);
    let t = trim_chars(&c);
    if t.len() > 0 {
        Some(string_of(&t))
    } else {
        None
    }
}

/// The object paths in `busctl tree --list` output: trimmed lines that start
/// with `/`.
pub open spec fn object_paths(ls: Seq<Seq<char>>) -> Seq<Seq<char>>
    decreases ls.len(),
{
    if ls.len() == 0 {
        Seq::empty()
    } else {
        let rest = object_paths(ls.drop_last());
        let t = trim(ls.last());
        if t.len() > 0 && t[0] == '/' {
            rest.push(t)
        } else {
            rest
        }
    }
}

/// The object paths listed by `busctl tree --list net.connman.iwd`.
pub fn iwd_object_paths(text: &str) -> (r: Vec<String>)
    ensures
        r@.map_values(|s: String| s@) == object_paths(lines(text@)),
{
    let c = chars_of(text);
    let ls = lines_of(&c);
    let ghost lsv = views(ls@);
    let mut r: Vec<String> = Vec::new();
    let mut i: usize = 0;
    assert(r@.map_values(|s: String| s@) =~= Seq::<Seq<char>>::empty());
    while i < ls.len()
        invariant
            i <= ls@.len(),
            lsv == views(ls@),
            lsv.len() == ls@.len(),
            r@.map_values(|s: String| s@) == object_paths(lsv.take(i as int)),
        decreases ls@.len() - i,
    {
        assert(lsv.take(i + 1).drop_last() == lsv.take(i as int));
        assert(lsv.take(i + 1).last() == ls@[i as int]@);
        let t = trim_chars(&ls[i]);
        if t.len() > 0 && t[0] == '/' {
            let ghost before = r@.map_values(|s: String| s@);
            let st = string_of(&t);
            r.push(st);
            assert(r@.map_values(|s: String| s@) =~= before.push(t@));
        }
        i += 1;
    }
    assert(lsv.take(i as int) == lsv);
    r
}

// ---------------------------------------------------------------------------
// Finding the SSID through iwd
// ---------------------------------------------------------------------------

/// A property iwd returned over D-Bus for one device object (`None` when the
/// query failed or its output did not parse).
#[derive(Debug, Clone)]
pub enum IwdReply {
    /// The device's `Name`.
    DeviceName(Option<String>),
    /// The station's `State`.
    StationState(Option<String>),
    /// The station's `ConnectedNetwork` object path.
    ConnectedNetwork(Option<String>),
    /// The connected network's `Name`.
    NetworkName(Option<String>),
}

/// What to do next while looking for the network of interface `iface`.
#[derive(Debug, Clone)]
pub enum IwdAction {
    AskStationState,
    AskConnectedNetwork,
    /// Ask the `Name` of the network object at this path.
    AskNetworkName(String),
    /// This device object is not the connected `iface`: try the next one.
    NextDevice,
    /// The search ends with this SSID (or none).
    Answer(Option<String>),
}

/// One step of the iwd search for a device object: ask its name; when it is
/// `iface`, its station state; when that is `connected`, its network; the
/// network's name is the answer. Any missing reply moves on to the next
/// device, except the network name, which ends the search either way.
pub fn iwd_step(iface: &str, reply: IwdReply) -> (r: IwdAction)
    ensures
        match reply {
            IwdReply::DeviceName(Some(n)) => if n@ == iface@ {
                r is AskStationState
            } else {
                r is NextDevice
            },
            IwdReply::StationState(Some(st)) => if st@ == "connected"@ {
                r is AskConnectedNetwork
            } else {
                r is NextDevice
            },
            IwdReply::ConnectedNetwork(Some(p)) => r matches IwdAction::AskNetworkName(q) && q@
                == p@,
            IwdReply::NetworkName(n) => r matches IwdAction::Answer(a) && opt_view_string(a)
                == opt_view_string(n),
            _ => r is NextDevice,
        },
{
    match reply {
        IwdReply::DeviceName(Some(n)) => {
            if chars_eq(&chars_of(n.as_str()), &chars_of(iface)) {
                IwdAction::AskStationState
            } else {
                IwdAction::NextDevice
            }
        },
        IwdReply::StationState(Some(st)) => {
            if chars_eq(&chars_of(st.as_str()), &chars_of("connected")) {
                IwdAction::AskConnectedNetwork
            } else {
                IwdAction::NextDevice
            }
        },
        IwdReply::ConnectedNetwork(Some(p)) => IwdAction::AskNetworkName(p),
        IwdReply::NetworkName(n) => IwdAction::Answer(n),
        _ => IwdAction::NextDevice,
    }
}


// ---------------------------------------------------------------------------
// Laws
// ---------------------------------------------------------------------------

/// The up-state of the first entry named `name` is what `spec_link_is_up`
/// reads.
proof fn lemma_first_entry_up(links: Seq<(String, bool)>, name: Seq<char>, k: int)
    requires
        0 <= k < links.len(),
        links[k].0@ == name,
        forall|j: int| 0 <= j < k ==> (#[trigger] links[j]).0@ != name,
    ensures
        spec_link_is_up(links, name) == links[k].1,
    decreases k,
{
    if k > 0 {
        assert(links[0].0@ != name);
        let rest = links.drop_first();
        assert forall|j: int| 0 <= j < k - 1 implies (#[trigger] rest[j]).0@ != name by {
            assert(rest[j] == links[j + 1]);
        }
        assert(rest[k - 1] == links[k]);
        lemma_first_entry_up(rest, name, k - 1);
    }
}

/// Law: when the default route's device is up (its first entry in the link
/// list says so), it is the primary interface, whatever other links are up.
pub proof fn lemma_default_route_wins(dev: String, links: Seq<(String, bool)>)
    requires
        exists|k: int|
            0 <= k < links.len() && (#[trigger] links[k]).0@ == dev@ && links[k].1 && forall|j: int|
                0 <= j < k ==> (#[trigger] links[j]).0@ != dev@,
    ensures
        spec_primary_iface(Some(dev), links) == Some(dev@),
{
    let k = choose|k: int|
        0 <= k < links.len() && (#[trigger] links[k]).0@ == dev@ && links[k].1 && forall|j: int|
            0 <= j < k ==> (#[trigger] links[j]).0@ != dev@;
    lemma_first_entry_up(links, dev@, k);
}

/// Law: the primary interface is always a link that is up: the default
/// route's device, or else a non-virtual link of the list.
pub proof fn lemma_primary_is_up(default_dev: Option<String>, links: Seq<(String, bool)>)
    ensures
        spec_primary_iface(default_dev, links) matches Some(n) ==> exists|k: int|
            0 <= k < links.len() && (#[trigger] links[k]).0@ == n && links[k].1,
    decreases links.len(),
{
    match default_dev {
        Some(d) => {
            if spec_link_is_up(links, d@) {
                lemma_link_up_has_entry(links, d@);
            } else {
                lemma_first_up_link_is_up(links);
            }
        },
        None => lemma_first_up_link_is_up(links),
    }
}

proof fn lemma_link_up_has_entry(links: Seq<(String, bool)>, name: Seq<char>)
    ensures
        spec_link_is_up(links, name) ==> exists|k: int|
            0 <= k < links.len() && (#[trigger] links[k]).0@ == name && links[k].1,
    decreases links.len(),
{
    if links.len() > 0 && links[0].0@ != name {
        lemma_link_up_has_entry(links.drop_first(), name);
        if spec_link_is_up(links, name) {
            let k = choose|k: int|
                0 <= k < links.drop_first().len() && (#[trigger] links.drop_first()[k]).0@ == name
                    && links.drop_first()[k].1;
            assert(links[k + 1] == links.drop_first()[k]);
        }
    } else if links.len() > 0 {
        assert(links[0].0@ == name);
    }
}

proof fn lemma_first_up_link_is_up(links: Seq<(String, bool)>)
    ensures
        first_up_link(links) matches Some(n) ==> !is_virtual_link(n) && exists|k: int|
            0 <= k < links.len() && (#[trigger] links[k]).0@ == n && links[k].1,
    decreases links.len(),
{
    if links.len() > 0 {
        if !is_virtual_link(links[0].0@) && links[0].1 {
            assert(links[0].0@ == links[0].0@);
        } else {
            lemma_first_up_link_is_up(links.drop_first());
            if first_up_link(links) is Some {
                let n = first_up_link(links)->0;
                let k = choose|k: int|
                    0 <= k < links.drop_first().len() && (#[trigger] links.drop_first()[k]).0@ == n
                        && links.drop_first()[k].1;
                assert(links[k + 1] == links.drop_first()[k]);
            }
        }
    }
}

/// Law: an `SSID:` line gives the whole SSID after it, spaces inside it
/// included (`s` is the SSID as written, without surrounding blanks).
pub proof fn lemma_ssid_line_whole(s: Seq<char>)
    requires
        s.len() > 0,
        !is_ws(s[0]),
        !is_ws(s.last()),
    ensures
        iw_ssid_line("SSID: "@ + s) == Some(s),
{
    reveal_strlit("SSID: ");
    reveal_strlit("SSID:");
    let line = "SSID: "@ + s;
    assert(line[0] == 'S');
    assert(!is_ws('S'));
    assert(trim_start(line) == line);
    assert(line.last() == s.last());
    assert(trim_end(line) == line);
    assert(line.take(5) =~= "SSID:"@);
    let rest = line.skip(5);
    assert(rest =~= seq![' '] + s);
    assert(rest[0] == ' ');
    assert(is_ws(' '));
    assert(rest.drop_first() =~= s);
    assert(trim_start(s) == s);
    assert(trim_start(rest) == s);
    assert(trim_end(s) == s);
}

/// Law: output of `iw dev <iface> link` whose first line is `SSID: s` names
/// the SSID `s` whole, whatever follows.
pub proof fn lemma_iw_ssid_whole(s: Seq<char>, ls: Seq<Seq<char>>)
    requires
        s.len() > 0,
        !is_ws(s[0]),
        !is_ws(s.last()),
        ls.len() > 0,
        ls[0] == "SSID: "@ + s,
    ensures
        iw_ssid(ls) == Some(s),
{
    lemma_ssid_line_whole(s);
}

/// Law: a negative link level in `/proc/net/wireless` is a dBm value: the
/// strength is its dBm-to-percent mapping, which is above zero for any level
/// above -100 dBm.
pub proof fn lemma_proc_level_is_dbm(ls: Seq<Seq<char>>, iface: Seq<char>, level: i32)
    requires
        ls.len() > 0,
        starts_with(trim_start(ls[0]), iface),
        words(trim_start(ls[0])).len() >= 4,
        parse_i32(drop_trailing(words(trim_start(ls[0]))[3], '.')) == Some(level),
        level < 0,
    ensures
        proc_signal(ls, iface) == Some(clamp(div_trunc((level + 100) * 100, 60), 0, 100)),
        level > -100 ==> proc_signal(ls, iface)->0 > 0,
{
    if level > -100 {
        assert((level + 100) * 100 >= 100);
        assert(div_trunc((level + 100) * 100, 60) >= 1) by (nonlinear_arith)
            requires
                (level + 100) * 100 >= 100,
                (level + 100) * 100 <= 10000;
    }
}

/// Law: a wireless link whose SSID is known is labelled by that SSID; the
/// interface name is the label only when the SSID is unknown.
pub proof fn lemma_wifi_label(r: NetworkSnapshot, iface: String, w: WifiInfo)
    requires
        probe_ok(r, Some(iface), Some(w)),
    ensures
        r.connected,
        w.ssid matches Some(s) ==> r.label@ == s@,
        w.ssid is None ==> r.label@ == iface@,
        r.strength == w.strength,
{
}

} // verus!
