//! Icon lookup for tray items: the names an icon is searched by, the files
//! of an icon theme that are tried and in what order, which image types the
//! bar can draw, and which `.desktop` entry names an application's icon.
use vstd::prelude::*;

use crate::audio::lowercase_of;
use crate::text::append_chars;
use crate::text::chars_of;
use crate::text::contains;
use crate::text::contains_chars;
use crate::text::eq_ci;
use crate::text::eq_ci_chars;
use crate::text::lines;
use crate::text::lines_of;
use crate::text::starts_with;
use crate::text::starts_with_chars;
use crate::text::string_of;
use crate::text::strip_prefix;
use crate::text::sub_chars;
use crate::text::trim;
use crate::text::trim_chars;
use crate::text::utf8_len_at_most;
use crate::tray::TrayItemSnapshot;
use crate::config::opt_str_view;

verus! {

broadcast use vstd::string::group_string_axioms;

// ---------------------------------------------------------------------------
// Fixed lists
// ---------------------------------------------------------------------------

/// Image extensions the bar draws, in the order they are tried.
pub open spec fn raster_exts() -> Seq<Seq<char>> {
    seq!["png"@, "xpm"@, "jpg"@, "jpeg"@, "webp"@]
}

/// Icon themes looked into under an icons directory, in order.
pub open spec fn theme_names() -> Seq<Seq<char>> {
    seq![
        "hicolor"@,
        "Adwaita"@,
        "Papirus"@,
        "Papirus-Dark"@,
        "breeze"@,
        "Breeze"@,
        "Tela"@,
        "Tela-dark"@,
    ]
}

/// Icon sizes tried, in order.
pub open spec fn icon_sizes() -> Seq<Seq<char>> {
    seq![
        "24x24"@,
        "22x22"@,
        "32x32"@,
        "48x48"@,
        "16x16"@,
        "64x64"@,
        "128x128"@,
        "scalable"@,
    ]
}

/// Icon categories tried, in order.
pub open spec fn icon_categories() -> Seq<Seq<char>> {
    seq![
        "status"@,
        "apps"@,
        "devices"@,
        "panel"@,
        "categories"@,
        "actions"@,
        "places"@,
        "emblems"@,
    ]
}

pub open spec fn str_list_views(v: Seq<&str>) -> Seq<Seq<char>> {
    v.map_values(|s: &str| s@)
}

pub fn raster_ext_list() -> (r: Vec<&'static str>)
    ensures
        str_list_views(r@) == raster_exts(),
{
    let mut r: Vec<&'static str> = Vec::new();
    r.push("png");
    r.push("xpm");
    r.push("jpg");
    r.push("jpeg");
    r.push("webp");
    assert(str_list_views(r@) =~= raster_exts());
    r
}

pub fn theme_name_list() -> (r: Vec<&'static str>)
    ensures
        str_list_views(r@) == theme_names(),
{
    let mut r: Vec<&'static str> = Vec::new();
    r.push("hicolor");
    r.push("Adwaita");
    r.push("Papirus");
    r.push("Papirus-Dark");
    r.push("breeze");
    r.push("Breeze");
    r.push("Tela");
    r.push("Tela-dark");
    assert(str_list_views(r@) =~= theme_names());
    r
}

fn icon_size_list() -> (r: Vec<&'static str>)
    ensures
        str_list_views(r@) == icon_sizes(),
{
    let mut r: Vec<&'static str> = Vec::new();
    r.push("24x24");
    r.push("22x22");
    r.push("32x32");
    r.push("48x48");
    r.push("16x16");
    r.push("64x64");
    r.push("128x128");
    r.push("scalable");
    assert(str_list_views(r@) =~= icon_sizes());
    r
}

fn icon_category_list() -> (r: Vec<&'static str>)
    ensures
        str_list_views(r@) == icon_categories(),
{
    let mut r: Vec<&'static str> = Vec::new();
    r.push("status");
    r.push("apps");
    r.push("devices");
    r.push("panel");
    r.push("categories");
    r.push("actions");
    r.push("places");
    r.push("emblems");
    assert(str_list_views(r@) =~= icon_categories());
    r
}

// ---------------------------------------------------------------------------
// Image types
// ---------------------------------------------------------------------------

/// A file extension the bar can draw (compared ignoring ASCII case).
pub open spec fn raster_ext(ext: Seq<char>) -> bool {
    exists|i: int| 0 <= i < raster_exts().len() && eq_ci(ext, #[trigger] raster_exts()[i])
}

/// Whether a file with extension `ext` (`Path::extension`, `None` when it
/// has none or it is not UTF-8) is an image the bar can draw.
pub fn is_raster(ext: Option<&str>) -> (r: bool)
    ensures
        r == (ext matches Some(e) && raster_ext(e@)),
{
    let e = match ext {
        Some(e) => chars_of(e),
        None => {
            return false;
        },
    };
    let exts = raster_ext_list();
    let mut i: usize = 0;
    while i < exts.len()
        invariant
            i <= exts@.len(),
            str_list_views(exts@) == raster_exts(),
            ext matches Some(x) && e@ == x@,
            forall|k: int| 0 <= k < i ==> !eq_ci(e@, #[trigger] raster_exts()[k]),
        decreases exts@.len() - i,
    {
        let x = chars_of(exts[i]);
        assert(raster_exts()[i as int] == exts@[i as int]@);
        if eq_ci_chars(&e, &x) {
            assert(eq_ci(e@, raster_exts()[i as int]));
            return true;
        }
        i += 1;
    }
    false
}

// ---------------------------------------------------------------------------
// Theme files
// ---------------------------------------------------------------------------

/// `name.ext`.
pub open spec fn file_name(name: Seq<char>, ext: Seq<char>) -> Seq<char> {
    name + seq!['.'] + ext
}

/// Number of files tried under one theme root.
pub open spec fn theme_candidate_count() -> int {
    325
}

/// The `i`th file tried under a theme root, as path components below it:
/// every size, category and extension (`<size>/<category>/<name>.<ext>`),
/// then the flat `<name>.<ext>` files.
pub open spec fn theme_candidate(name: Seq<char>, i: int) -> Seq<Seq<char>> {
    if i < 320 {
        seq![
            icon_sizes()[i / 40],
            icon_categories()[(i / 5) % 8],
            file_name(name, raster_exts()[i % 5]),
        ]
    } else {
        seq![file_name(name, raster_exts()[i - 320])]
    }
}

pub open spec fn path_views(v: Seq<Vec<String>>) -> Seq<Seq<Seq<char>>> {
    v.map_values(|p: Vec<String>| p@.map_values(|c: String| c@))
}

fn file_name_of(name: &str, ext: &str) -> (r: String)
    ensures
        r@ == file_name(name@, ext@),
{
    let mut v = chars_of(name);
    v.push('.');
    let e = chars_of(ext);
    append_chars(&mut v, &e);
    assert(v@ =~= file_name(name@, ext@));
    string_of(&v)
}

proof fn lemma_candidate_index(s: int, c: int, e: int)
    requires
        0 <= s < 8,
        0 <= c < 8,
        0 <= e < 5,
    ensures
        (s * 40 + c * 5 + e) / 40 == s,
        ((s * 40 + c * 5 + e) / 5) % 8 == c,
        (s * 40 + c * 5 + e) % 5 == e,
        0 <= s * 40 + c * 5 + e < 320,
{
    assert((s * 40 + c * 5 + e) / 40 == s) by (nonlinear_arith)
        requires
            0 <= s < 8,
            0 <= c < 8,
            0 <= e < 5,
    ;
    assert((s * 40 + c * 5 + e) / 5 == s * 8 + c) by (nonlinear_arith)
        requires
            0 <= s < 8,
            0 <= c < 8,
            0 <= e < 5,
    ;
    assert((s * 8 + c) % 8 == c) by (nonlinear_arith)
        requires
            0 <= s < 8,
            0 <= c < 8,
    ;
    assert((s * 40 + c * 5 + e) % 5 == e) by (nonlinear_arith)
        requires
            0 <= s < 8,
            0 <= c < 8,
            0 <= e < 5,
    ;
}

/// The files tried under a theme root for icon `name`, in order (see
/// `theme_candidate`); the first that exists is the icon.
pub fn theme_root_candidates(name: &str) -> (r: Vec<Vec<String>>)
    ensures
        r@.len() == theme_candidate_count(),
        forall|i: int| 0 <= i < r@.len() ==> (#[trigger] path_views(r@)[i]) == theme_candidate(
            name@,
            i,
        ),
{
    let sizes = icon_size_list();
    let cats = icon_category_list();
    let exts = raster_ext_list();
    assert(sizes@.len() == 8 && cats@.len() == 8 && exts@.len() == 5) by {
        assert(icon_sizes().len() == 8);
        assert(icon_categories().len() == 8);
        assert(raster_exts().len() == 5);
    }
    let mut r: Vec<Vec<String>> = Vec::new();
    let mut s: usize = 0;
    while s < 8
        invariant
            s <= 8,
            str_list_views(sizes@) == icon_sizes(),
            str_list_views(cats@) == icon_categories(),
            str_list_views(exts@) == raster_exts(),
            sizes@.len() == 8 && cats@.len() == 8 && exts@.len() == 5,
            r@.len() == s * 40,
            forall|i: int| 0 <= i < r@.len() ==> (#[trigger] path_views(r@)[i]) == theme_candidate(
                name@,
                i,
            ),
        decreases 8 - s,
    {
        let mut c: usize = 0;
        while c < 8
            invariant
                s < 8,
                c <= 8,
                str_list_views(sizes@) == icon_sizes(),
                str_list_views(cats@) == icon_categories(),
                str_list_views(exts@) == raster_exts(),
                sizes@.len() == 8 && cats@.len() == 8 && exts@.len() == 5,
            sizes@.len() == 8 && cats@.len() == 8 && exts@.len() == 5,
                r@.len() == s * 40 + c * 5,
                forall|i: int|
                    0 <= i < r@.len() ==> (#[trigger] path_views(r@)[i]) == theme_candidate(
                        name@,
                        i,
                    ),
            decreases 8 - c,
        {
            let mut e: usize = 0;
            while e < 5
                invariant
                    s < 8,
                    c < 8,
                    e <= 5,
                    str_list_views(sizes@) == icon_sizes(),
                    str_list_views(cats@) == icon_categories(),
                    str_list_views(exts@) == raster_exts(),
                    sizes@.len() == 8 && cats@.len() == 8 && exts@.len() == 5,
                sizes@.len() == 8 && cats@.len() == 8 && exts@.len() == 5,
            sizes@.len() == 8 && cats@.len() == 8 && exts@.len() == 5,
                    r@.len() == s * 40 + c * 5 + e,
                    forall|i: int|
                        0 <= i < r@.len() ==> (#[trigger] path_views(r@)[i]) == theme_candidate(
                            name@,
                            i,
                        ),
                decreases 5 - e,
            {
                let mut p: Vec<String> = Vec::new();
                p.push(sizes[s].to_string());
                p.push(cats[c].to_string());
                p.push(file_name_of(name, exts[e]));
                let ghost idx: int = s * 40 + c * 5 + e;
                proof {
                    lemma_candidate_index(s as int, c as int, e as int);
                    assert(icon_sizes()[s as int] == sizes@[s as int]@);
                    assert(icon_categories()[c as int] == cats@[c as int]@);
                    assert(raster_exts()[e as int] == exts@[e as int]@);
                }
                let ghost before = r@;
                r.push(p);
                assert forall|i: int| 0 <= i < r@.len() implies (#[trigger] path_views(r@)[i])
                    == theme_candidate(name@, i) by {
                    if i < before.len() {
                        assert(path_views(r@)[i] == path_views(before)[i]);
                    } else {
                        assert(i == idx);
                        assert(path_views(r@)[i] =~= theme_candidate(name@, i));
                    }
                }
                e += 1;
            }
            c += 1;
        }
        s += 1;
    }
    let mut e: usize = 0;
    while e < 5
        invariant
            e <= 5,
            str_list_views(exts@) == raster_exts(),
            exts@.len() == 5,
            r@.len() == 320 + e,
            forall|i: int| 0 <= i < r@.len() ==> (#[trigger] path_views(r@)[i]) == theme_candidate(
                name@,
                i,
            ),
        decreases 5 - e,
    {
        let mut p: Vec<String> = Vec::new();
        p.push(file_name_of(name, exts[e]));
        assert(raster_exts()[e as int] == exts@[e as int]@);
        let ghost before = r@;
        r.push(p);
        assert forall|i: int| 0 <= i < r@.len() implies (#[trigger] path_views(r@)[i])
            == theme_candidate(name@, i) by {
            if i < before.len() {
                assert(path_views(r@)[i] == path_views(before)[i]);
            } else {
                assert(path_views(r@)[i] =~= theme_candidate(name@, i));
            }
        }
        e += 1;
    }
    r
}

// ---------------------------------------------------------------------------
// Icon names of a tray item
// ---------------------------------------------------------------------------

/// The text after the last `c` of `s`, or all of `s` when it has none
/// (`s.rsplit(c).next()`).
pub open spec fn after_last(s: Seq<char>, c: char) -> Seq<char>
    decreases s.len(),
{
    if s.len() == 0 {
        s
    } else if s.last() == c {
        Seq::empty()
    } else {
        after_last(s.drop_last(), c).push(s.last())
    }
}

fn after_last_chars(s: &Vec<char>, c: char) -> (r: Vec<char>)
    ensures
        r@ == after_last(s@, c),
{
    let mut i = s.len();
    assert(s@.take(i as int) =~= s@);
    assert(s@.subrange(i as int, s@.len() as int) =~= Seq::<char>::empty());
    assert(after_last(s@, c) + Seq::<char>::empty() =~= after_last(s@, c));
    while i > 0 && s[i - 1] != c
        invariant
            i <= s@.len(),
            after_last(s@, c) == after_last(s@.take(i as int), c) + s@.subrange(i as int, s@.len() as int),
        decreases i,
    {
        assert(s@.take(i as int).drop_last() =~= s@.take(i - 1));
        assert(s@.take(i as int).last() == s@[i - 1]);
        assert(after_last(s@.take(i - 1), c).push(s@[i - 1]) + s@.subrange(i as int, s@.len() as int)
            =~= after_last(s@.take(i - 1), c) + s@.subrange(i - 1, s@.len() as int));
        i -= 1;
    }
    if i > 0 {
        assert(s@.take(i as int).last() == s@[i - 1]);
    } else {
        assert(s@.take(0) =~= Seq::<char>::empty());
    }
    let r = sub_chars(s, i, s.len());
    assert(r@ =~= after_last(s@.take(i as int), c) + s@.subrange(i as int, s@.len() as int));
    r
}

/// `s` with every space replaced by `-`.
pub open spec fn dashed(s: Seq<char>) -> Seq<char> {
    s.map_values(|ch: char| if ch == ' ' { '-' } else { ch })
}

/// The names a tray item's icon is searched by, in order: its attention icon
/// while it asks for attention, its icon, its application id and the last
/// dotted part of that (when over one byte), and its lowercased title with
/// dashes for spaces (when over one byte); empty names are skipped.
pub open spec fn icon_names(item: TrayItemSnapshot) -> Seq<Seq<char>> {
    let a: Seq<Seq<char>> = match (item.needs_attention, item.attention_icon_name) {
        (true, Some(n)) => seq![n@],
        _ => Seq::empty(),
    };
    let b: Seq<Seq<char>> = match item.icon_name {
        Some(n) => seq![n@],
        None => Seq::empty(),
    };
    let short = after_last(item.app_id@, '.');
    let c: Seq<Seq<char>> = if item.app_id@.len() == 0 {
        Seq::empty()
    } else if vstd::utf8::encode_utf8(short).len() > 1 {
        seq![item.app_id@, short]
    } else {
        seq![item.app_id@]
    };
    let t = dashed(lowercase_of(item.title@));
    let d: Seq<Seq<char>> = if vstd::utf8::encode_utf8(t).len() > 1 {
        seq![t]
    } else {
        Seq::empty()
    };
    (a + b + c + d).filter(|n: Seq<char>| n.len() > 0)
}

fn push_non_empty(out: &mut Vec<String>, n: String, Ghost(acc): Ghost<Seq<Seq<char>>>)
    requires
        crate::compositor::str_views(old(out)@) == acc.filter(|x: Seq<char>| x.len() > 0),
    ensures
        crate::compositor::str_views(final(out)@) == acc.push(n@).filter(
            |x: Seq<char>| x.len() > 0,
        ),
{
    proof {
        reveal(Seq::filter);
        assert(acc.push(n@).drop_last() =~= acc);
    }
    if !n.as_str().is_empty() {
        let ghost before = old(out)@;
        out.push(n);
        assert(crate::compositor::str_views(out@) =~= crate::compositor::str_views(before).push(
            out@.last()@,
        ));
    }
}

/// The names a tray item's icon is searched by (see `icon_names`).
pub fn icon_name_candidates(item: &TrayItemSnapshot) -> (r: Vec<String>)
    ensures
        crate::compositor::str_views(r@) == icon_names(*item),
{
    let mut out: Vec<String> = Vec::new();
    let ghost mut acc: Seq<Seq<char>> = Seq::empty();
    assert(crate::compositor::str_views(out@) =~= acc.filter(|x: Seq<char>| x.len() > 0)) by {
        reveal(Seq::filter);
    }
    if item.needs_attention {
        if let Some(n) = &item.attention_icon_name {
            push_non_empty(&mut out, n.clone(), Ghost(acc));
            proof {
                acc = acc.push(n@);
            }
        }
    }
    if let Some(n) = &item.icon_name {
        push_non_empty(&mut out, n.clone(), Ghost(acc));
        proof {
            acc = acc.push(n@);
        }
    }
    if !item.app_id.as_str().is_empty() {
        push_non_empty(&mut out, item.app_id.clone(), Ghost(acc));
        proof {
            acc = acc.push(item.app_id@);
        }
        let app = chars_of(item.app_id.as_str());
        let short = after_last_chars(&app, '.');
        if !utf8_len_at_most(&short, 1) {
            push_non_empty(&mut out, string_of(&short), Ghost(acc));
            proof {
                acc = acc.push(short@);
            }
        }
    }
    let lower = chars_of(crate::audio::to_lowercase(item.title.as_str()).as_str());
    let mut t: Vec<char> = Vec::new();
    let mut i: usize = 0;
    while i < lower.len()
        invariant
            i <= lower@.len(),
            t@ == dashed(lower@.take(i as int)),
        decreases lower@.len() - i,
    {
        let ch = lower[i];
        t.push(if ch == ' ' { '-' } else { ch });
        assert(dashed(lower@.take(i + 1)) =~= dashed(lower@.take(i as int)).push(
            if ch == ' ' { '-' } else { ch },
        ));
        i += 1;
    }
    assert(lower@.take(i as int) =~= lower@);
    if !utf8_len_at_most(&t, 1) {
        push_non_empty(&mut out, string_of(&t), Ghost(acc));
        proof {
            acc = acc.push(t@);
        }
    }
    proof {
        let item = *item;
        let a: Seq<Seq<char>> = match (item.needs_attention, item.attention_icon_name) {
            (true, Some(n)) => seq![n@],
            _ => Seq::empty(),
        };
        let b: Seq<Seq<char>> = match item.icon_name {
            Some(n) => seq![n@],
            None => Seq::empty(),
        };
        let short = after_last(item.app_id@, '.');
        let c: Seq<Seq<char>> = if item.app_id@.len() == 0 {
            Seq::empty()
        } else if vstd::utf8::encode_utf8(short).len() > 1 {
            seq![item.app_id@, short]
        } else {
            seq![item.app_id@]
        };
        let tt = dashed(lowercase_of(item.title@));
        let d: Seq<Seq<char>> = if vstd::utf8::encode_utf8(tt).len() > 1 {
            seq![tt]
        } else {
            Seq::empty()
        };
        assert(acc =~= a + b + c + d);
    }
    out
}

// ---------------------------------------------------------------------------
// Desktop entries
// ---------------------------------------------------------------------------

/// A `.desktop` file named `stem` is about the application `key` by name:
/// equal names, equal last dotted parts, or one name containing the other's
/// last part (all lowercased).
pub open spec fn desktop_name_match(stem: Seq<char>, key: Seq<char>) -> bool {
    let s = lowercase_of(stem);
    let k = lowercase_of(key);
    let ks = after_last(k, '.');
    let ss = after_last(s, '.');
    s == k || ss == ks || contains(s, ks) || contains(k, ss)
}

/// A `.desktop` file whose `Name=` or `StartupWMClass=` line mentions the
/// application `key` (lowercased, or its last dotted part).
pub open spec fn desktop_soft_match(contents: Seq<char>, key: Seq<char>) -> bool {
    let k = lowercase_of(key);
    let ks = after_last(k, '.');
    exists|i: int|
        0 <= i < lines(contents).len() && ({
            let l = lowercase_of(#[trigger] lines(contents)[i]);
            (starts_with(l, "name="@) || starts_with(l, "startupwmclass="@)) && (contains(l, k)
                || contains(l, ks))
        })
}

/// The icon of an `Icon=` line (trimmed), when it names one.
pub open spec fn icon_of_line(line: Seq<char>) -> Option<Seq<char>> {
    match strip_prefix(trim(line), "Icon="@) {
        Some(rest) => if trim(rest).len() > 0 {
            Some(trim(rest))
        } else {
            None
        },
        None => None,
    }
}

/// The first icon named by the lines `ls`.
pub open spec fn first_icon(ls: Seq<Seq<char>>) -> Option<Seq<char>>
    decreases ls.len(),
{
    if ls.len() == 0 {
        None
    } else if icon_of_line(ls[0]) is Some {
        icon_of_line(ls[0])
    } else {
        first_icon(ls.drop_first())
    }
}

/// The icon a `.desktop` file (stem `stem`, text `contents`) gives the
/// application `key`: its first `Icon=` when the file is about `key`.
pub open spec fn desktop_icon(stem: Seq<char>, contents: Seq<char>, key: Seq<char>) -> Option<
    Seq<char>,
> {
    if desktop_name_match(stem, key) || desktop_soft_match(contents, key) {
        first_icon(lines(contents))
    } else {
        None
    }
}

fn contains_lit(s: &Vec<char>, lit: &str) -> (r: bool)
    ensures
        r == contains(s@, lit@),
{
    let p = chars_of(lit);
    contains_chars(s, &p)
}

fn starts_with_lit(s: &Vec<char>, lit: &str) -> (r: bool)
    ensures
        r == starts_with(s@, lit@),
{
    let p = chars_of(lit);
    starts_with_chars(s, &p)
}

/// The icon a `.desktop` file with file stem `stem` and text `contents`
/// gives the application `key`, if any (see `desktop_icon`).
pub fn desktop_entry_icon(stem: &str, contents: &str, key: &str) -> (r: Option<String>)
    ensures
        opt_str_view(r) == desktop_icon(stem@, contents@, key@),
{
    let s = chars_of(crate::audio::to_lowercase(stem).as_str());
    let k = chars_of(crate::audio::to_lowercase(key).as_str());
    let ks = after_last_chars(&k, '.');
    let ss = after_last_chars(&s, '.');
    let name_match = crate::text::chars_eq(&s, &k) || crate::text::chars_eq(&ss, &ks)
        || contains_chars(&s, &ks) || contains_chars(&k, &ss);
    let cs = chars_of(contents);
    let ls = lines_of(&cs);
    let ghost lv = crate::text::views(ls@);
    let mut matched = name_match;
    if !matched {
        let mut i: usize = 0;
        while i < ls.len() && !matched
            invariant
                i <= ls@.len(),
                lv == crate::text::views(ls@),
                lv == lines(contents@),
                k@ == lowercase_of(key@),
                ks@ == after_last(lowercase_of(key@), '.'),
                !matched ==> forall|j: int|
                    0 <= j < i ==> !({
                        let l = lowercase_of(#[trigger] lines(contents@)[j]);
                        (starts_with(l, "name="@) || starts_with(l, "startupwmclass="@)) && (
                        contains(l, lowercase_of(key@)) || contains(
                            l,
                            after_last(lowercase_of(key@), '.'),
                        ))
                    }),
                matched ==> desktop_soft_match(contents@, key@),
            decreases ls@.len() - i, if matched { 0int } else { 1int },
        {
            let line = string_of(&ls[i]);
            assert(lv[i as int] == ls@[i as int]@);
            let l = chars_of(crate::audio::to_lowercase(line.as_str()).as_str());
            if (starts_with_lit(&l, "name=") || starts_with_lit(&l, "startupwmclass="))
                && (contains_chars(&l, &k) || contains_chars(&l, &ks)) {
                matched = true;
            } else {
                i += 1;
            }
        }
    }
    if !matched {
        return None;
    }
    assert(desktop_name_match(stem@, key@) || desktop_soft_match(contents@, key@));
    let mut i: usize = 0;
    assert(lv.skip(0) =~= lv);
    while i < ls.len()
        invariant
            i <= ls@.len(),
            lv == crate::text::views(ls@),
            lv == lines(contents@),
            desktop_name_match(stem@, key@) || desktop_soft_match(contents@, key@),
            first_icon(lv) == first_icon(lv.skip(i as int)),
        decreases ls@.len() - i,
    {
        assert(lv.skip(i as int)[0] == ls@[i as int]@);
        assert(lv.skip(i as int).drop_first() =~= lv.skip(i + 1));
        let t = trim_chars(&ls[i]);
        let p = chars_of("Icon=");
        if starts_with_chars(&t, &p) {
            let rest = sub_chars(&t, p.len(), t.len());
            let icon = trim_chars(&rest);
            if icon.len() > 0 {
                return Some(string_of(&icon));
            }
        }
        i += 1;
    }
    assert(lv.skip(i as int) =~= Seq::<Seq<char>>::empty());
    None
}

} // verus!
