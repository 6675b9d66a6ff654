//! Which font a configured font name means, and the Nerd Fonts tried for
//! status glyphs.
use vstd::prelude::*;

use crate::text::chars_of;
use crate::text::eq_ci;
use crate::text::eq_ci_chars;
use crate::text::string_of;
use crate::text::trim;
use crate::text::trim_chars;

verus! {

broadcast use vstd::string::group_string_axioms;

/// A font as the theme names it.
#[derive(Debug, Clone, PartialEq, Eq)]
pub enum FontChoice {
    /// The renderer's default font.
    Default,
    Monospace,
    Serif,
    /// A font family by name.
    Named(String),
}

pub enum FontChoiceView {
    Default,
    Monospace,
    Serif,
    Named(Seq<char>),
}

impl View for FontChoice {
    type V = FontChoiceView;

    open spec fn view(&self) -> FontChoiceView {
        match self {
            FontChoice::Default => FontChoiceView::Default,
            FontChoice::Monospace => FontChoiceView::Monospace,
            FontChoice::Serif => FontChoiceView::Serif,
            FontChoice::Named(n) => FontChoiceView::Named(n@),
        }
    }
}

/// The font a configured name means: blank or `default` (any ASCII case) is
/// the default font, `monospace`/`mono` and `serif` the generic families,
/// anything else a family of that (trimmed) name.
pub open spec fn font_meaning(name: Seq<char>) -> FontChoiceView {
    let t = trim(name);
    if t.len() == 0 || eq_ci(t, "default"@) {
        FontChoiceView::Default
    } else if eq_ci(t, "monospace"@) || eq_ci(t, "mono"@) {
        FontChoiceView::Monospace
    } else if eq_ci(t, "serif"@) {
        FontChoiceView::Serif
    } else {
        FontChoiceView::Named(t)
    }
}

fn eq_ci_lit(a: &Vec<char>, lit: &str) -> (r: bool)
    ensures
        r == eq_ci(a@, lit@),
{
    let l = chars_of(lit);
    eq_ci_chars(a, &l)
}

pub fn font_choice(name: &str) -> (r: FontChoice)
    ensures
        r@ == font_meaning(name@),
{
    let t = trim_chars(&chars_of(name));
    if t.len() == 0 || eq_ci_lit(&t, "default") {
        FontChoice::Default
    } else if eq_ci_lit(&t, "monospace") || eq_ci_lit(&t, "mono") {
        FontChoice::Monospace
    } else if eq_ci_lit(&t, "serif") {
        FontChoice::Serif
    } else {
        FontChoice::Named(string_of(&t))
    }
}

/// The font name emoji are drawn with: the emoji font when one is set, else
/// the UI font.
pub fn emoji_font_name<'a>(ui_font: &'a str, emoji_font: &'a str) -> (r: &'a str)
    ensures
        r@ == if trim(emoji_font@).len() == 0 {
            ui_font@
        } else {
            emoji_font@
        },
{
    let t = trim_chars(&chars_of(emoji_font));
    if t.len() == 0 {
        ui_font
    } else {
        emoji_font
    }
}

/// Nerd Fonts tried for status glyphs, most preferred first.
pub open spec fn nerd_fonts() -> Seq<Seq<char>> {
    seq![
        "DejaVuSansM Nerd Font Propo"@,
        "DejaVuSansM Nerd Font Mono"@,
        "DejaVuSansM Nerd Font"@,
        "Symbols Nerd Font Mono"@,
        "Symbols Nerd Font"@,
        "FiraCode Nerd Font Mono"@,
        "FiraCode Nerd Font"@,
        "JetBrainsMono Nerd Font Mono"@,
        "JetBrainsMono Nerd Font"@,
        "MesloLGS NF"@,
        "Hack Nerd Font Mono"@,
        "Hack Nerd Font"@,
    ]
}

pub fn nerd_font_candidates() -> (r: Vec<&'static str>)
    ensures
        crate::icons::str_list_views(r@) == nerd_fonts(),
{
    let mut r: Vec<&'static str> = Vec::new();
    r.push("DejaVuSansM Nerd Font Propo");
    r.push("DejaVuSansM Nerd Font Mono");
    r.push("DejaVuSansM Nerd Font");
    r.push("Symbols Nerd Font Mono");
    r.push("Symbols Nerd Font");
    r.push("FiraCode Nerd Font Mono");
    r.push("FiraCode Nerd Font");
    r.push("JetBrainsMono Nerd Font Mono");
    r.push("JetBrainsMono Nerd Font");
    r.push("MesloLGS NF");
    r.push("Hack Nerd Font Mono");
    r.push("Hack Nerd Font");
    assert(crate::icons::str_list_views(r@) =~= nerd_fonts());
    r
}

} // verus!
