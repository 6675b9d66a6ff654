//! Audio sink decisions: whether the default sink is a Bluetooth device, the
//! short device label the volume island shows, and which `pactl subscribe`
//! lines announce a change.
use vstd::prelude::*;

use crate::config::strip_all_prefix;
use crate::config::strip_all_prefix_chars;
use crate::text::char_width;
use crate::text::char_width_of;
use crate::text::chars_of;
use crate::text::contains;
use crate::text::contains_chars;
use crate::text::is_ws;
use crate::text::is_ws_char;
use crate::text::lemma_utf8_len_prefix_le;
use crate::text::lemma_utf8_len_push;
use crate::text::lines;
use crate::text::lines_of;
use crate::text::starts_with;
use crate::text::string_of;
use crate::text::sub_chars;
use crate::text::trim;
use crate::text::trim_chars;
use crate::text::utf8_len_at_most;
use crate::config::opt_str_view;

verus! {

broadcast use vstd::string::group_string_axioms;

/// The Unicode lowercase of `s` (`str::to_lowercase`).
pub uninterp spec fn lowercase_of(s: Seq<char>) -> Seq<char>;

/// `str::to_lowercase`: the result is claimed to be `lowercase_of(s)`;
/// nothing more of Unicode case mapping is stated.
#[verifier::external_body]
pub(crate) fn to_lowercase(s: &str) -> (r: String)
    ensures
        r@ == lowercase_of(s@),
{
    s.to_lowercase()
}

fn contains_lit(s: &Vec<char>, lit: &str) -> (r: bool)
    ensures
        r == contains(s@, lit@),
{
    let p = chars_of(lit);
    contains_chars(s, &p)
}

/// A sink or device name that names a Bluetooth device.
pub open spec fn names_bluetooth(name: Seq<char>) -> bool {
    let l = lowercase_of(name);
    contains(l, "bluez"@) || contains(l, "bluetooth"@)
}

pub fn sink_name_is_bluetooth(name: &str) -> (r: bool)
    ensures
        r == names_bluetooth(name@),
{
    let lower = chars_of(to_lowercase(name).as_str());
    contains_lit(&lower, "bluez") || contains_lit(&lower, "bluetooth")
}

/// A `pactl subscribe` line about a sink or the server (which may change the
/// default sink's volume).
pub open spec fn is_sink_event(line: Seq<char>) -> bool {
    let l = lowercase_of(line);
    contains(l, " on sink"@) || contains(l, " on server"@)
}

pub fn sink_event(line: &str) -> (r: bool)
    ensures
        r == is_sink_event(line@),
{
    let lower = chars_of(to_lowercase(line).as_str());
    contains_lit(&lower, " on sink") || contains_lit(&lower, " on server")
}

// ---------------------------------------------------------------------------
// Device label
// ---------------------------------------------------------------------------

pub open spec fn is_label_sep(c: char) -> bool {
    c == '.' || c == '_' || c == '-'
}

/// The pieces of `rest` split at `.`, `_` and `-`, where `cur` holds the
/// piece being read (`str::split` with those separators; empty pieces stay).
pub open spec fn pieces_from(cur: Seq<char>, rest: Seq<char>) -> Seq<Seq<char>>
    decreases rest.len(),
{
    if rest.len() == 0 {
        seq![cur]
    } else if is_label_sep(rest[0]) {
        seq![cur] + pieces_from(Seq::empty(), rest.drop_first())
    } else {
        pieces_from(cur.push(rest[0]), rest.drop_first())
    }
}

pub open spec fn is_ascii_alpha(c: char) -> bool {
    ('a' <= c <= 'z') || ('A' <= c <= 'Z')
}

/// A piece that reads like a name: it has a letter and takes more than two
/// bytes.
pub open spec fn name_like(p: Seq<char>) -> bool {
    (exists|i: int| 0 <= i < p.len() && is_ascii_alpha(#[trigger] p[i]))
        && vstd::utf8::encode_utf8(p).len() > 2
}

/// The last name-like piece.
pub open spec fn last_name_like(ps: Seq<Seq<char>>) -> Option<Seq<char>>
    decreases ps.len(),
{
    if ps.len() == 0 {
        None
    } else if name_like(ps.last()) {
        Some(ps.last())
    } else {
        last_name_like(ps.drop_last())
    }
}

/// The sink name without surrounding space and its `bluez_output.` /
/// `bluez_sink.` prefixes.
pub open spec fn cleaned_sink(raw: Seq<char>) -> Seq<char> {
    strip_all_prefix(strip_all_prefix(trim(raw), "bluez_output."@), "bluez_sink."@)
}

/// The label before it is cut: the last name-like piece, else the whole
/// cleaned name with `_` read as spaces.
pub open spec fn uncut_label(raw: Seq<char>) -> Seq<char> {
    let c = cleaned_sink(raw);
    match last_name_like(pieces_from(Seq::empty(), c)) {
        Some(p) => p,
        None => c.map_values(|ch: char| if ch == '_' { ' ' } else { ch }),
    }
}

/// Labels over 18 bytes are cut to 17 bytes, which must end on a character
/// boundary (as `String::truncate` demands).
pub open spec fn label_cut_ok(raw: Seq<char>) -> bool {
    let l = uncut_label(raw);
    vstd::utf8::encode_utf8(l).len() <= 18 || exists|k: int|
        0 <= k <= l.len() && vstd::utf8::encode_utf8(#[trigger] l.take(k)).len() == 17
}

/// The short label of a (Bluetooth) sink: `None` for a blank name, else the
/// uncut label, cut to its first 17 bytes plus an ellipsis when over 18
/// bytes.
pub open spec fn short_label(raw: Seq<char>, result: Option<Seq<char>>) -> bool {
    if cleaned_sink(raw).len() == 0 {
        result is None
    } else {
        let l = uncut_label(raw);
        result matches Some(r) && if vstd::utf8::encode_utf8(l).len() <= 18 {
            r == l
        } else {
            exists|k: int|
                0 <= k <= l.len() && vstd::utf8::encode_utf8(#[trigger] l.take(k)).len() == 17
                    && r == l.take(k).push('…')
        }
    }
}

fn split_label_pieces(s: &Vec<char>) -> (r: Vec<Vec<char>>)
    ensures
        crate::text::views(r@) == pieces_from(Seq::empty(), s@),
{
    let mut out: Vec<Vec<char>> = Vec::new();
    let mut cur: Vec<char> = Vec::new();
    let mut i: usize = 0;
    assert(s@.skip(0) =~= s@);
    assert(crate::text::views(out@) =~= Seq::<Seq<char>>::empty());
    while i < s.len()
        invariant
            i <= s@.len(),
            crate::text::views(out@) + pieces_from(cur@, s@.skip(i as int)) == pieces_from(
                Seq::empty(),
                s@,
            ),
        decreases s@.len() - i,
    {
        let c = s[i];
        assert(s@.skip(i as int)[0] == c);
        assert(s@.skip(i as int).drop_first() =~= s@.skip(i + 1));
        if c == '.' || c == '_' || c == '-' {
            let ghost before = crate::text::views(out@);
            let ghost cv = cur@;
            out.push(cur);
            cur = Vec::new();
            assert(crate::text::views(out@) =~= before.push(cv));
            assert(before.push(cv) + pieces_from(Seq::empty(), s@.skip(i + 1)) =~= before + (seq![
                cv,
            ] + pieces_from(Seq::empty(), s@.skip(i + 1))));
        } else {
            cur.push(c);
        }
        i += 1;
    }
    assert(s@.skip(i as int) =~= Seq::<char>::empty());
    let ghost before = crate::text::views(out@);
    let ghost cv = cur@;
    out.push(cur);
    assert(crate::text::views(out@) =~= before.push(cv));
    assert(before + seq![cv] =~= before.push(cv));
    out
}

fn has_ascii_alpha(p: &Vec<char>) -> (r: bool)
    ensures
        r == exists|i: int| 0 <= i < p@.len() && is_ascii_alpha(#[trigger] p@[i]),
{
    let mut i: usize = 0;
    while i < p.len()
        invariant
            i <= p@.len(),
            forall|j: int| 0 <= j < i ==> !is_ascii_alpha(#[trigger] p@[j]),
        decreases p@.len() - i,
    {
        let c = p[i];
        if ('a' <= c && c <= 'z') || ('A' <= c && c <= 'Z') {
            return true;
        }
        i += 1;
    }
    false
}

/// Whether the cleaned sink name is blank, and the label before it is cut.
fn uncut_label_chars(raw: &str) -> (r: (bool, Vec<char>))
    ensures
        r.0 == (cleaned_sink(raw@).len() == 0),
        r.1@ == uncut_label(raw@),
{
    let cs = chars_of(raw);
    let t = trim_chars(&cs);
    let c1 = strip_all_prefix_chars(&t, &chars_of("bluez_output."));
    let c = strip_all_prefix_chars(&c1, &chars_of("bluez_sink."));
    let pieces = split_label_pieces(&c);
    let ghost ps = pieces_from(Seq::<char>::empty(), c@);
    let mut found: Option<usize> = None;
    let mut i = pieces.len();
    assert(ps.take(i as int) =~= ps);
    while i > 0 && found.is_none()
        invariant
            i <= pieces@.len(),
            ps == crate::text::views(pieces@),
            found is None ==> last_name_like(ps) == last_name_like(ps.take(i as int)),
            found matches Some(k) ==> k < pieces@.len() && last_name_like(ps) == Some(ps[k as int]),
        decreases i, if found is None { 1int } else { 0int },
    {
        assert(ps.take(i as int).drop_last() =~= ps.take(i - 1));
        assert(ps.take(i as int).last() == pieces@[i - 1]@);
        let p = &pieces[i - 1];
        if has_ascii_alpha(p) && !utf8_len_at_most(p, 2) {
            found = Some(i - 1);
        } else {
            i -= 1;
        }
    }
    if found.is_none() {
        assert(ps.take(i as int) =~= Seq::<Seq<char>>::empty());
    }
    let label: Vec<char> = match found {
        Some(k) => sub_chars(&pieces[k], 0, pieces[k].len()),
        None => {
            let mut v: Vec<char> = Vec::new();
            let mut j: usize = 0;
            while j < c.len()
                invariant
                    j <= c@.len(),
                    v@ == c@.take(j as int).map_values(|ch: char| if ch == '_' { ' ' } else { ch }),
                decreases c@.len() - j,
            {
                let ch = c[j];
                v.push(if ch == '_' { ' ' } else { ch });
                assert(c@.take(j + 1).map_values(|ch: char| if ch == '_' { ' ' } else { ch })
                    =~= c@.take(j as int).map_values(|ch: char| if ch == '_' { ' ' } else { ch }).push(
                    if ch == '_' { ' ' } else { ch },
                ));
                j += 1;
            }
            assert(c@.take(j as int) =~= c@);
            v
        },
    };
    (c.len() == 0, label)
}

/// Whether cutting the label of `raw` (see `label_cut_ok`) lands on a
/// character boundary.
pub fn label_cut_fits(raw: &str) -> (r: bool)
    ensures
        r == label_cut_ok(raw@),
{
    let (_, label) = uncut_label_chars(raw);
    let ghost l = uncut_label(raw@);
    if utf8_len_at_most(&label, 18) {
        return true;
    }
    let mut n: usize = 0;
    let mut k: usize = 0;
    let len = label.len();
    assert(label@.take(0) =~= Seq::<char>::empty());
    while n < 17
        invariant
            k <= label@.len(),
            len == label@.len(),
            label@ == l,
            n == vstd::utf8::encode_utf8(label@.take(k as int)).len(),
            vstd::utf8::encode_utf8(label@).len() > 18,
            forall|j: int| 0 <= j < k ==> vstd::utf8::encode_utf8(#[trigger] label@.take(j)).len() < 17,
            n < 17 ==> forall|j: int| 0 <= j <= k ==> vstd::utf8::encode_utf8(#[trigger] label@.take(j)).len() < 17,
        decreases label@.len() - k,
    {
        proof {
            if k >= label@.len() {
                assert(label@.take(k as int) =~= label@);
            }
        }
        proof {
            assert(label@.take(k + 1) =~= label@.take(k as int).push(label@[k as int]));
            lemma_utf8_len_push(label@.take(k as int), label@[k as int]);
        }
        let w = char_width_of(label[k]);
        n = n + w;
        k += 1;
    }
    proof {
        if n == 17 {
            assert(vstd::utf8::encode_utf8(l.take(k as int)).len() == 17);
        } else {
            assert forall|j: int| 0 <= j <= l.len() implies vstd::utf8::encode_utf8(
                #[trigger] l.take(j),
            ).len() != 17 by {
                if j > k {
                    assert(l.take(j).take(k as int) =~= l.take(k as int));
                    lemma_utf8_len_prefix_le(l.take(j), k as int);
                }
            }
        }
    }
    n == 17
}

/// The short label of a sink name (see `short_label`).
pub fn short_device_label(raw: &str) -> (r: Option<String>)
    requires
        label_cut_ok(raw@),
    ensures
        short_label(raw@, opt_str_view(r)),
{
    let (blank, label) = uncut_label_chars(raw);
    if blank {
        return None;
    }
    let ghost l = uncut_label(raw@);
    assert(label@ == l);
    if utf8_len_at_most(&label, 18) {
        return Some(string_of(&label));
    }
    // Cut after the characters that take the first 17 bytes.
    let mut n: usize = 0;
    let mut k: usize = 0;
    let len = label.len();
    assert(label@.take(0) =~= Seq::<char>::empty());
    while n < 17
        invariant
            k <= label@.len(),
            len == label@.len(),
            n == vstd::utf8::encode_utf8(label@.take(k as int)).len(),
            vstd::utf8::encode_utf8(label@).len() > 18,
            forall|j: int| 0 <= j < k ==> vstd::utf8::encode_utf8(#[trigger] label@.take(j)).len() < 17,
            n < 17 ==> forall|j: int| 0 <= j <= k ==> vstd::utf8::encode_utf8(#[trigger] label@.take(j)).len() < 17,
        decreases label@.len() - k,
    {
        proof {
            if k >= label@.len() {
                assert(label@.take(k as int) =~= label@);
            }
        }
        proof {
            assert(label@.take(k + 1) =~= label@.take(k as int).push(label@[k as int]));
            lemma_utf8_len_push(label@.take(k as int), label@[k as int]);
        }
        let w = char_width_of(label[k]);
        n = n + w;
        k += 1;
    }
    proof {
        assert(label_cut_ok(raw@));
        assert(vstd::utf8::encode_utf8(l).len() > 18);
        let kk = choose|kk: int|
            0 <= kk <= l.len() && vstd::utf8::encode_utf8(#[trigger] l.take(kk)).len() == 17;
        assert(l.take(kk) == label@.take(kk));
        if kk > k {
            assert(l.take(kk).take(k as int) =~= l.take(k as int));
            lemma_utf8_len_prefix_le(l.take(kk), k as int);
        } else if kk < k {
            assert(vstd::utf8::encode_utf8(label@.take(kk)).len() < 17);
        }
        assert(n == 17);
    }
    let mut cut = sub_chars(&label, 0, k);
    cut.push('…');
    assert(cut@ =~= l.take(k as int).push('…'));
    Some(string_of(&cut))
}

// ---------------------------------------------------------------------------
// Bluetooth detection
// ---------------------------------------------------------------------------

/// A default sink is Bluetooth when detection is on and its name, its
/// description or one of its ports says so; such a sink gets a short label
/// from its description, else its name.
pub open spec fn sink_is_bluetooth(
    detect: bool,
    name: Seq<char>,
    desc: Seq<char>,
    ports: Seq<(Seq<char>, Seq<char>)>,
) -> bool {
    detect && (names_bluetooth(name) || contains(lowercase_of(desc), "bluetooth"@) || exists|i: int|
        0 <= i < ports.len() && ({
            let n = lowercase_of((#[trigger] ports[i]).0);
            let d = lowercase_of(ports[i].1);
            contains(n, "bluetooth"@) || contains(d, "bluetooth"@) || contains(n, "bluez"@)
        }))
}

/// A sink port's name and description (empty when unset).
#[derive(Debug, Clone)]
pub struct SinkPort {
    pub name: String,
    pub description: String,
}

pub open spec fn port_views(ports: Seq<SinkPort>) -> Seq<(Seq<char>, Seq<char>)> {
    ports.map_values(|p: SinkPort| (p.name@, p.description@))
}

/// The label source of a sink: its description, else its name.
pub open spec fn sink_label_source(name: Seq<char>, desc: Seq<char>) -> Seq<char> {
    if desc.len() == 0 {
        name
    } else {
        desc
    }
}

/// Whether the default sink (name, description, ports; empty strings for
/// unset ones) is Bluetooth, and its device label when it is.
pub fn sink_bluetooth(detect: bool, name: &str, desc: &str, ports: &Vec<SinkPort>) -> (r: (
    bool,
    Option<String>,
))
    requires
        sink_is_bluetooth(detect, name@, desc@, port_views(ports@)) ==> label_cut_ok(
            sink_label_source(name@, desc@),
        ),
    ensures
        r.0 == sink_is_bluetooth(detect, name@, desc@, port_views(ports@)),
        r.0 ==> short_label(sink_label_source(name@, desc@), opt_str_view(r.1)),
        !r.0 ==> r.1 is None,
{
    if !sink_is_bt(detect, name, desc, ports) {
        return (false, None);
    }
    let source = if desc.is_empty() {
        name
    } else {
        desc
    };
    (true, short_device_label(source))
}

/// `sink_bluetooth` for any sink: `None` when the sink is Bluetooth and its
/// label would be cut inside a character (where `sink_bluetooth` is not
/// defined), else `Some` of its result.
pub fn sink_bluetooth_checked(detect: bool, name: &str, desc: &str, ports: &Vec<SinkPort>) -> (r:
    Option<(bool, Option<String>)>)
    ensures
        match r {
            None => sink_is_bluetooth(detect, name@, desc@, port_views(ports@)) && !label_cut_ok(
                sink_label_source(name@, desc@),
            ),
            Some(v) => {
                &&& !sink_is_bluetooth(detect, name@, desc@, port_views(ports@)) || label_cut_ok(
                    sink_label_source(name@, desc@),
                )
                &&& v.0 == sink_is_bluetooth(detect, name@, desc@, port_views(ports@))
                &&& v.0 ==> short_label(sink_label_source(name@, desc@), opt_str_view(v.1))
                &&& !v.0 ==> v.1 is None
            },
        },
{
    if sink_is_bt(detect, name, desc, ports) {
        let source = if desc.is_empty() {
            name
        } else {
            desc
        };
        if !label_cut_fits(source) {
            return None;
        }
    }
    Some(sink_bluetooth(detect, name, desc, ports))
}

/// Whether the default sink (name, description, ports) is Bluetooth (see
/// `sink_is_bluetooth`).
pub fn sink_is_bt(detect: bool, name: &str, desc: &str, ports: &Vec<SinkPort>) -> (r: bool)
    ensures
        r == sink_is_bluetooth(detect, name@, desc@, port_views(ports@)),
{
    if !detect {
        return false;
    }
    let mut bt = sink_name_is_bluetooth(name);
    if !bt {
        let d = chars_of(to_lowercase(desc).as_str());
        bt = contains_lit(&d, "bluetooth");
    }
    if !bt {
        let mut i: usize = 0;
        while i < ports.len() && !bt
            invariant
                i <= ports@.len(),
                !bt ==> forall|j: int|
                    0 <= j < i ==> !({
                        let n = lowercase_of((#[trigger] port_views(ports@)[j]).0);
                        let d = lowercase_of(port_views(ports@)[j].1);
                        contains(n, "bluetooth"@) || contains(d, "bluetooth"@) || contains(
                            n,
                            "bluez"@,
                        )
                    }),
                bt ==> exists|j: int|
                    0 <= j < ports@.len() && ({
                        let n = lowercase_of((#[trigger] port_views(ports@)[j]).0);
                        let d = lowercase_of(port_views(ports@)[j].1);
                        contains(n, "bluetooth"@) || contains(d, "bluetooth"@) || contains(
                            n,
                            "bluez"@,
                        )
                    }),
            decreases ports@.len() - i, if bt { 0int } else { 1int },
        {
            let n = chars_of(to_lowercase(ports[i].name.as_str()).as_str());
            let d = chars_of(to_lowercase(ports[i].description.as_str()).as_str());
            assert(port_views(ports@)[i as int] == (ports@[i as int].name@, ports@[i as int].description@));
            if contains_lit(&n, "bluetooth") || contains_lit(&d, "bluetooth") || contains_lit(
                &n,
                "bluez",
            ) {
                bt = true;
            } else {
                i += 1;
            }
        }
    }
    bt
}

/// Whether line `t` of `wpctl status` (already trimmed) marks the default
/// device as Bluetooth: it has the `*` of the default and names Bluetooth.
pub open spec fn marks_bluetooth_default(t: Seq<char>) -> bool {
    contains(t, seq!['*']) && names_bluetooth(t)
}

/// The characters that lead a `wpctl status` device line: `*` and space.
pub open spec fn drop_marks(s: Seq<char>) -> Seq<char>
    decreases s.len(),
{
    if s.len() > 0 && (s[0] == '*' || is_ws(s[0])) {
        drop_marks(s.drop_first())
    } else {
        s
    }
}

/// The pieces of `rest` split at `.`, with `cur` the piece being read.
pub open spec fn dot_pieces(cur: Seq<char>, rest: Seq<char>) -> Seq<Seq<char>>
    decreases rest.len(),
{
    if rest.len() == 0 {
        seq![cur]
    } else if rest[0] == '.' {
        seq![cur] + dot_pieces(Seq::empty(), rest.drop_first())
    } else {
        dot_pieces(cur.push(rest[0]), rest.drop_first())
    }
}

/// The device label on a marked line: the text after the first `.` (up to
/// the next one) without the marks, else the whole line; trimmed.
pub open spec fn marked_label(t: Seq<char>) -> Seq<char> {
    let ps = dot_pieces(Seq::empty(), drop_marks(t));
    trim(if ps.len() > 1 {
        ps[1]
    } else {
        t
    })
}

/// The raw label of the first `wpctl status` line that marks the default
/// device as Bluetooth.
pub open spec fn status_bluetooth_label(ls: Seq<Seq<char>>) -> Option<Seq<char>>
    decreases ls.len(),
{
    if ls.len() == 0 {
        None
    } else if marks_bluetooth_default(trim(ls[0])) {
        Some(marked_label(trim(ls[0])))
    } else {
        status_bluetooth_label(ls.drop_first())
    }
}

fn drop_marks_chars(s: &Vec<char>) -> (r: Vec<char>)
    ensures
        r@ == drop_marks(s@),
{
    let mut i: usize = 0;
    assert(s@.skip(0) =~= s@);
    while i < s.len() && (s[i] == '*' || is_ws_char(s[i]))
        invariant
            i <= s@.len(),
            drop_marks(s@) == drop_marks(s@.skip(i as int)),
        decreases s@.len() - i,
    {
        assert(s@.skip(i as int)[0] == s@[i as int]);
        assert(s@.skip(i as int).drop_first() =~= s@.skip(i + 1));
        i += 1;
    }
    sub_chars(s, i, s.len())
}

/// The second `.`-piece of `s`, if it has one.
fn second_dot_piece(s: &Vec<char>) -> (r: Option<Vec<char>>)
    ensures
        ({
            let ps = dot_pieces(Seq::empty(), s@);
            match r {
                Some(p) => ps.len() > 1 && p@ == ps[1],
                None => ps.len() <= 1,
            }
        }),
{
    let mut out: Vec<Vec<char>> = Vec::new();
    let mut cur: Vec<char> = Vec::new();
    let mut i: usize = 0;
    assert(s@.skip(0) =~= s@);
    assert(crate::text::views(out@) =~= Seq::<Seq<char>>::empty());
    while i < s.len()
        invariant
            i <= s@.len(),
            crate::text::views(out@) + dot_pieces(cur@, s@.skip(i as int)) == dot_pieces(
                Seq::empty(),
                s@,
            ),
        decreases s@.len() - i,
    {
        let c = s[i];
        assert(s@.skip(i as int)[0] == c);
        assert(s@.skip(i as int).drop_first() =~= s@.skip(i + 1));
        if c == '.' {
            let ghost before = crate::text::views(out@);
            let ghost cv = cur@;
            out.push(cur);
            cur = Vec::new();
            assert(crate::text::views(out@) =~= before.push(cv));
            assert(before.push(cv) + dot_pieces(Seq::empty(), s@.skip(i + 1)) =~= before + (seq![
                cv,
            ] + dot_pieces(Seq::empty(), s@.skip(i + 1))));
        } else {
            cur.push(c);
        }
        i += 1;
    }
    assert(s@.skip(i as int) =~= Seq::<char>::empty());
    let ghost before = crate::text::views(out@);
    let ghost cv = cur@;
    out.push(cur);
    assert(crate::text::views(out@) =~= before.push(cv));
    assert(before + seq![cv] =~= before.push(cv));
    if out.len() > 1 {
        Some(sub_chars(&out[1], 0, out[1].len()))
    } else {
        None
    }
}

/// Bluetooth detection from `wpctl status` output: `Some` with the device
/// label (see `short_label`) of the first line marking the default device as
/// Bluetooth, `None` when there is none.
pub fn status_bluetooth(status: &str) -> (r: Option<Option<String>>)
    requires
        status_bluetooth_label(lines(status@)) matches Some(l) ==> label_cut_ok(l),
    ensures
        match status_bluetooth_label(lines(status@)) {
            Some(l) => r matches Some(d) && short_label(l, opt_str_view(d)),
            None => r is None,
        },
{
    match status_bluetooth_source(status) {
        Some(l) => Some(short_device_label(l.as_str())),
        None => None,
    }
}

/// `status_bluetooth` for any `wpctl status` output: `None` when the
/// Bluetooth line's label would be cut inside a character (where
/// `status_bluetooth` is not defined), else `Some` of its result.
pub fn status_bluetooth_checked(status: &str) -> (r: Option<Option<Option<String>>>)
    ensures
        match status_bluetooth_label(lines(status@)) {
            Some(l) => if label_cut_ok(l) {
                r matches Some(Some(d)) && short_label(l, opt_str_view(d))
            } else {
                r is None
            },
            None => r == Some(None::<Option<String>>),
        },
{
    if let Some(l) = status_bluetooth_source(status) {
        if !label_cut_fits(l.as_str()) {
            return None;
        }
    }
    Some(status_bluetooth(status))
}

/// The uncut device text of the first line of `wpctl status` output that
/// marks the default device as Bluetooth (see `status_bluetooth_label`).
pub fn status_bluetooth_source(status: &str) -> (r: Option<String>)
    ensures
        opt_str_view(r) == status_bluetooth_label(lines(status@)),
{
    let cs = chars_of(status);
    let ls = lines_of(&cs);
    let ghost lv = crate::text::views(ls@);
    let mut i: usize = 0;
    assert(lv.skip(0) =~= lv);
    while i < ls.len()
        invariant
            i <= ls@.len(),
            lv == crate::text::views(ls@),
            lv == lines(status@),
            status_bluetooth_label(lv) == status_bluetooth_label(lv.skip(i as int)),
        decreases ls@.len() - i,
    {
        assert(lv.skip(i as int)[0] == ls@[i as int]@);
        assert(lv.skip(i as int).drop_first() =~= lv.skip(i + 1));
        let t = trim_chars(&ls[i]);
        let mut starv: Vec<char> = Vec::new();
        starv.push('*');
        assert(starv@ =~= seq!['*']);
        let star = contains_chars(&t, &starv);
        if star {
            let ts = string_of(&t);
            if sink_name_is_bluetooth(ts.as_str()) {
                let marks = drop_marks_chars(&t);
                let label = match second_dot_piece(&marks) {
                    Some(p) => trim_chars(&p),
                    None => trim_chars(&t),
                };
                return Some(string_of(&label));
            }
        }
        i += 1;
    }
    None
}

} // verus!

verus! {

/// After toggling mute, the re-read sink keeps the Bluetooth state and
/// device label of the previous one when the re-read did not resolve it.
pub fn keep_bluetooth(fresh: (bool, Option<String>), previous: (bool, Option<String>)) -> (r: (
    bool,
    Option<String>,
))
    ensures
        r == if !fresh.0 && previous.0 {
            (true, previous.1)
        } else {
            fresh
        },
{
    if !fresh.0 && previous.0 {
        (true, previous.1)
    } else {
        fresh
    }
}

} // verus!
