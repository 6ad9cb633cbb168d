//! Theme colors written as `#rrggbb`, and the built-in themes.

use vstd::prelude::*;
use crate::text::chars_of;
use crate::update::is_hex;

verus! {

/// The value of a hexadecimal digit.
pub open spec fn hex_value(c: char) -> int {
    if '0' as u32 <= c as u32 && c as u32 <= '9' as u32 {
        c as u32 - '0' as u32
    } else if 'a' as u32 <= c as u32 && c as u32 <= 'f' as u32 {
        c as u32 - 'a' as u32 + 10
    } else {
        c as u32 - 'A' as u32 + 10
    }
}

/// A two-character channel as `u8::from_str_radix(_, 16)` reads it: two hex
/// digits, or `+` and one hex digit.
pub open spec fn channel(a: char, b: char) -> Option<u8> {
    if is_hex(a) && is_hex(b) {
        Some((hex_value(a) * 16 + hex_value(b)) as u8)
    } else if a == '+' && is_hex(b) {
        Some(hex_value(b) as u8)
    } else {
        None
    }
}

/// `s` without its leading `#` characters.
pub open spec fn strip_hashes(s: Seq<char>) -> Seq<char>
    decreases s.len(),
{
    if s.len() > 0 && s[0] == '#' {
        strip_hashes(s.drop_first())
    } else {
        s
    }
}

/// The color a hex text names: after the leading `#`s, three channels of
/// two characters each; later characters are ignored. `None` when the text
/// is too short or a channel does not parse.
pub open spec fn color_of(s: Seq<char>) -> Option<(u8, u8, u8)> {
    let h = strip_hashes(s);
    if h.len() < 6 {
        None
    } else {
        match (channel(h[0], h[1]), channel(h[2], h[3]), channel(h[4], h[5])) {
            (Some(r), Some(g), Some(b)) => Some((r, g, b)),
            _ => None,
        }
    }
}

fn is_hex_char(c: char) -> (r: bool)
    ensures
        r == is_hex(c),
{
    ('0' <= c && c <= '9') || ('a' <= c && c <= 'f') || ('A' <= c && c <= 'F')
}

fn hex_digit_value(c: char) -> (r: u8)
    requires
        is_hex(c),
    ensures
        r == hex_value(c),
{
    if '0' <= c && c <= '9' {
        (c as u32 - '0' as u32) as u8
    } else if 'a' <= c && c <= 'f' {
        (c as u32 - 'a' as u32 + 10) as u8
    } else {
        (c as u32 - 'A' as u32 + 10) as u8
    }
}

fn channel_of(a: char, b: char) -> (r: Option<u8>)
    ensures
        r == channel(a, b),
{
    if is_hex_char(a) && is_hex_char(b) {
        Some(hex_digit_value(a) * 16 + hex_digit_value(b))
    } else if a == '+' && is_hex_char(b) {
        Some(hex_digit_value(b))
    } else {
        None
    }
}

proof fn lemma_strip_from(s: Seq<char>, i: int)
    requires
        0 <= i <= s.len(),
        forall|k: int| 0 <= k < i ==> s[k] == '#',
    ensures
        strip_hashes(s) == strip_hashes(s.subrange(i, s.len() as int)),
    decreases i,
{
    if i > 0 {
        lemma_strip_from(s.drop_first(), i - 1);
        assert(s.drop_first().subrange(i - 1, s.drop_first().len() as int) =~= s.subrange(
            i,
            s.len() as int,
        ));
    } else {
        assert(s.subrange(0, s.len() as int) =~= s);
    }
}

/// Reads a theme color (`#rrggbb`).
pub fn rgb(hex: &str) -> (r: Option<(u8, u8, u8)>)
    ensures
        r == color_of(hex@),
{
    let v = chars_of(hex);
    let mut i: usize = 0;
    while i < v.len() && v[i] == '#'
        invariant
            0 <= i <= v.len(),
            v@ == hex@,
            forall|k: int| 0 <= k < i ==> v@[k] == '#',
        decreases v.len() - i,
    {
        i += 1;
    }
    proof {
        lemma_strip_from(v@, i as int);
        let t = v@.subrange(i as int, v@.len() as int);
        if t.len() > 0 {
            assert(t[0] != '#');
        }
        assert(strip_hashes(t) == t);
    }
    if v.len() - i < 6 {
        return None;
    }
    let r = channel_of(v[i], v[i + 1]);
    let g = channel_of(v[i + 2], v[i + 3]);
    let b = channel_of(v[i + 4], v[i + 5]);
    match (r, g, b) {
        (Some(r), Some(g), Some(b)) => Some((r, g, b)),
        _ => None,
    }
}

// ---------------------------------------------------------------------------
// The built-in themes
// ---------------------------------------------------------------------------

/// A theme: its name and its colors, in the order main background, main
/// text, title, highlight, selected background, selected text, inactive
/// text, graph text, box, status good, status danger, graph start,
/// divider, popup background.
pub struct ThemeSpec {
    pub name: String,
    pub colors: Vec<(u8, u8, u8)>,
}

/// The colors a theme has.
pub const THEME_COLORS: usize = 14;

/// The names of the built-in themes, in cycling order.
pub open spec fn theme_names() -> Seq<Seq<char>> {
    seq!["btop"@, "dracula"@, "nord"@, "gruvbox-dark"@, "ayu-light"@, "archwave"@]
}

/// The colors of each built-in theme, as hex texts.
pub open spec fn theme_hexes() -> Seq<Seq<Seq<char>>> {
    seq![
        seq!["#161a22"@, "#c8ccd4"@, "#eef0f6"@, "#8fb573"@, "#3f4a3e"@, "#e8f0e4"@, "#5a6375"@, "#a8adb9"@, "#5a6375"@, "#a3be8c"@, "#dc6d6d"@, "#8fb573"@, "#2c313c"@, "#1c1f28"@],
        seq!["#282a36"@, "#f8f8f2"@, "#f8f8f2"@, "#bd93f9"@, "#44475a"@, "#f8f8f2"@, "#6272a4"@, "#c0c2d0"@, "#44475a"@, "#50fa7b"@, "#ff5555"@, "#50fa7b"@, "#21222c"@, "#21222c"@],
        seq!["#2e3440"@, "#d8dee9"@, "#eceff4"@, "#88c0d0"@, "#4c566a"@, "#eceff4"@, "#4c566a"@, "#b5bcc9"@, "#4c566a"@, "#a3be8c"@, "#bf616a"@, "#a3be8c"@, "#3b4252"@, "#242933"@],
        seq!["#282828"@, "#ebdbb2"@, "#ebdbb2"@, "#b8bb26"@, "#504945"@, "#ebdbb2"@, "#665c54"@, "#bdae93"@, "#504945"@, "#b8bb26"@, "#fb4934"@, "#98971a"@, "#3c3836"@, "#1d2021"@],
        seq!["#f8f9fa"@, "#5c6166"@, "#3199e1"@, "#ea6c6d"@, "#f7f7f7"@, "#5c6166"@, "#c7c7c7"@, "#5c6166"@, "#9e75c7"@, "#6cbf43"@, "#ea6c6d"@, "#6cbf43"@, "#c7c7c7"@, "#f8f9fa"@],
        seq!["#1a0d2e"@, "#d4a5ff"@, "#5ffbf1"@, "#f9f871"@, "#2d1b4e"@, "#5ffbf1"@, "#543a6e"@, "#fef6ff"@, "#ff6ec7"@, "#5ffbf1"@, "#ff6ec7"@, "#8b9aff"@, "#8b9aff"@, "#1a0d2e"@],
    ]
}

/// `p` is the theme named `name` with the colors the texts `hexes` name.
pub open spec fn palette_ok(p: ThemeSpec, name: Seq<char>, hexes: Seq<Seq<char>>) -> bool {
    &&& p.name@ == name
    &&& p.colors@.len() == hexes.len()
    &&& forall|k: int| 0 <= k < hexes.len() ==> Some(#[trigger] p.colors@[k]) == color_of(hexes[k])
}

/// `#` and six hex digits.
pub open spec fn hex7(s: Seq<char>) -> bool {
    &&& s.len() == 7
    &&& s[0] == '#'
    &&& forall|i: int| 1 <= i < 7 ==> is_hex(#[trigger] s[i])
}

proof fn lemma_hex7_color(s: Seq<char>)
    requires
        hex7(s),
    ensures
        color_of(s) is Some,
{
    reveal_with_fuel(strip_hashes, 2);
    let t = s.drop_first();
    assert(t[0] == s[1]);
    assert(is_hex(s[1]));
    assert(strip_hashes(t) == t);
    assert(strip_hashes(s) == t);
    assert(is_hex(s[2]) && is_hex(s[3]) && is_hex(s[4]) && is_hex(s[5]) && is_hex(s[6]));
    assert(t[1] == s[2] && t[2] == s[3] && t[3] == s[4] && t[4] == s[5] && t[5] == s[6]);
}

fn palette(name: &str, hexes: &Vec<&'static str>) -> (r: ThemeSpec)
    requires
        forall|k: int| 0 <= k < hexes.len() ==> hex7(#[trigger] hexes@[k]@),
    ensures
        palette_ok(r, name@, hexes@.map_values(|h: &'static str| h@)),
{
    let mut colors: Vec<(u8, u8, u8)> = Vec::new();
    let mut k: usize = 0;
    while k < hexes.len()
        invariant
            0 <= k <= hexes.len(),
            forall|j: int| 0 <= j < hexes.len() ==> hex7(#[trigger] hexes@[j]@),
            colors.len() == k,
            forall|j: int| 0 <= j < k ==> Some(#[trigger] colors@[j]) == color_of(hexes@[j]@),
        decreases hexes.len() - k,
    {
        proof {
            lemma_hex7_color(hexes@[k as int]@);
        }
        let c = rgb(hexes[k]);
        colors.push(c.unwrap());
        k += 1;
    }
    ThemeSpec { name: name.to_string(), colors }
}

fn theme_btop() -> (r: ThemeSpec)
    ensures
        palette_ok(r, theme_names()[0], theme_hexes()[0]),
{
    let hexes: Vec<&'static str> = vec!["#161a22", "#c8ccd4", "#eef0f6", "#8fb573", "#3f4a3e", "#e8f0e4", "#5a6375", "#a8adb9", "#5a6375", "#a3be8c", "#dc6d6d", "#8fb573", "#2c313c", "#1c1f28"];
    proof {
        reveal_strlit("#161a22");
        reveal_strlit("#1c1f28");
        reveal_strlit("#2c313c");
        reveal_strlit("#3f4a3e");
        reveal_strlit("#5a6375");
        reveal_strlit("#8fb573");
        reveal_strlit("#a3be8c");
        reveal_strlit("#a8adb9");
        reveal_strlit("#c8ccd4");
        reveal_strlit("#dc6d6d");
        reveal_strlit("#e8f0e4");
        reveal_strlit("#eef0f6");
        assert(hex7(hexes@[0]@));
        assert(hex7(hexes@[1]@));
        assert(hex7(hexes@[2]@));
        assert(hex7(hexes@[3]@));
        assert(hex7(hexes@[4]@));
        assert(hex7(hexes@[5]@));
        assert(hex7(hexes@[6]@));
        assert(hex7(hexes@[7]@));
        assert(hex7(hexes@[8]@));
        assert(hex7(hexes@[9]@));
        assert(hex7(hexes@[10]@));
        assert(hex7(hexes@[11]@));
        assert(hex7(hexes@[12]@));
        assert(hex7(hexes@[13]@));
        assert(hexes@.map_values(|h: &'static str| h@) =~= theme_hexes()[0]);
    }
    palette("btop", &hexes)
}

fn theme_dracula() -> (r: ThemeSpec)
    ensures
        palette_ok(r, theme_names()[1], theme_hexes()[1]),
{
    let hexes: Vec<&'static str> = vec!["#282a36", "#f8f8f2", "#f8f8f2", "#bd93f9", "#44475a", "#f8f8f2", "#6272a4", "#c0c2d0", "#44475a", "#50fa7b", "#ff5555", "#50fa7b", "#21222c", "#21222c"];
    proof {
        reveal_strlit("#21222c");
        reveal_strlit("#282a36");
        reveal_strlit("#44475a");
        reveal_strlit("#50fa7b");
        reveal_strlit("#6272a4");
        reveal_strlit("#bd93f9");
        reveal_strlit("#c0c2d0");
        reveal_strlit("#f8f8f2");
        reveal_strlit("#ff5555");
        assert(hex7(hexes@[0]@));
        assert(hex7(hexes@[1]@));
        assert(hex7(hexes@[2]@));
        assert(hex7(hexes@[3]@));
        assert(hex7(hexes@[4]@));
        assert(hex7(hexes@[5]@));
        assert(hex7(hexes@[6]@));
        assert(hex7(hexes@[7]@));
        assert(hex7(hexes@[8]@));
        assert(hex7(hexes@[9]@));
        assert(hex7(hexes@[10]@));
        assert(hex7(hexes@[11]@));
        assert(hex7(hexes@[12]@));
        assert(hex7(hexes@[13]@));
        assert(hexes@.map_values(|h: &'static str| h@) =~= theme_hexes()[1]);
    }
    palette("dracula", &hexes)
}

fn theme_nord() -> (r: ThemeSpec)
    ensures
        palette_ok(r, theme_names()[2], theme_hexes()[2]),
{
    let hexes: Vec<&'static str> = vec!["#2e3440", "#d8dee9", "#eceff4", "#88c0d0", "#4c566a", "#eceff4", "#4c566a", "#b5bcc9", "#4c566a", "#a3be8c", "#bf616a", "#a3be8c", "#3b4252", "#242933"];
    proof {
        reveal_strlit("#242933");
        reveal_strlit("#2e3440");
        reveal_strlit("#3b4252");
        reveal_strlit("#4c566a");
        reveal_strlit("#88c0d0");
        reveal_strlit("#a3be8c");
        reveal_strlit("#b5bcc9");
        reveal_strlit("#bf616a");
        reveal_strlit("#d8dee9");
        reveal_strlit("#eceff4");
        assert(hex7(hexes@[0]@));
        assert(hex7(hexes@[1]@));
        assert(hex7(hexes@[2]@));
        assert(hex7(hexes@[3]@));
        assert(hex7(hexes@[4]@));
        assert(hex7(hexes@[5]@));
        assert(hex7(hexes@[6]@));
        assert(hex7(hexes@[7]@));
        assert(hex7(hexes@[8]@));
        assert(hex7(hexes@[9]@));
        assert(hex7(hexes@[10]@));
        assert(hex7(hexes@[11]@));
        assert(hex7(hexes@[12]@));
        assert(hex7(hexes@[13]@));
        assert(hexes@.map_values(|h: &'static str| h@) =~= theme_hexes()[2]);
    }
    palette("nord", &hexes)
}

fn theme_gruvbox_dark() -> (r: ThemeSpec)
    ensures
        palette_ok(r, theme_names()[3], theme_hexes()[3]),
{
    let hexes: Vec<&'static str> = vec!["#282828", "#ebdbb2", "#ebdbb2", "#b8bb26", "#504945", "#ebdbb2", "#665c54", "#bdae93", "#504945", "#b8bb26", "#fb4934", "#98971a", "#3c3836", "#1d2021"];
    proof {
        reveal_strlit("#1d2021");
        reveal_strlit("#282828");
        reveal_strlit("#3c3836");
        reveal_strlit("#504945");
        reveal_strlit("#665c54");
        reveal_strlit("#98971a");
        reveal_strlit("#b8bb26");
        reveal_strlit("#bdae93");
        reveal_strlit("#ebdbb2");
        reveal_strlit("#fb4934");
        assert(hex7(hexes@[0]@));
        assert(hex7(hexes@[1]@));
        assert(hex7(hexes@[2]@));
        assert(hex7(hexes@[3]@));
        assert(hex7(hexes@[4]@));
        assert(hex7(hexes@[5]@));
        assert(hex7(hexes@[6]@));
        assert(hex7(hexes@[7]@));
        assert(hex7(hexes@[8]@));
        assert(hex7(hexes@[9]@));
        assert(hex7(hexes@[10]@));
        assert(hex7(hexes@[11]@));
        assert(hex7(hexes@[12]@));
        assert(hex7(hexes@[13]@));
        assert(hexes@.map_values(|h: &'static str| h@) =~= theme_hexes()[3]);
    }
    palette("gruvbox-dark", &hexes)
}

fn theme_ayu_light() -> (r: ThemeSpec)
    ensures
        palette_ok(r, theme_names()[4], theme_hexes()[4]),
{
    let hexes: Vec<&'static str> = vec!["#f8f9fa", "#5c6166", "#3199e1", "#ea6c6d", "#f7f7f7", "#5c6166", "#c7c7c7", "#5c6166", "#9e75c7", "#6cbf43", "#ea6c6d", "#6cbf43", "#c7c7c7", "#f8f9fa"];
    proof {
        reveal_strlit("#3199e1");
        reveal_strlit("#5c6166");
        reveal_strlit("#6cbf43");
        reveal_strlit("#9e75c7");
        reveal_strlit("#c7c7c7");
        reveal_strlit("#ea6c6d");
        reveal_strlit("#f7f7f7");
        reveal_strlit("#f8f9fa");
        assert(hex7(hexes@[0]@));
        assert(hex7(hexes@[1]@));
        assert(hex7(hexes@[2]@));
        assert(hex7(hexes@[3]@));
        assert(hex7(hexes@[4]@));
        assert(hex7(hexes@[5]@));
        assert(hex7(hexes@[6]@));
        assert(hex7(hexes@[7]@));
        assert(hex7(hexes@[8]@));
        assert(hex7(hexes@[9]@));
        assert(hex7(hexes@[10]@));
        assert(hex7(hexes@[11]@));
        assert(hex7(hexes@[12]@));
        assert(hex7(hexes@[13]@));
        assert(hexes@.map_values(|h: &'static str| h@) =~= theme_hexes()[4]);
    }
    palette("ayu-light", &hexes)
}

fn theme_archwave() -> (r: ThemeSpec)
    ensures
        palette_ok(r, theme_names()[5], theme_hexes()[5]),
{
    let hexes: Vec<&'static str> = vec!["#1a0d2e", "#d4a5ff", "#5ffbf1", "#f9f871", "#2d1b4e", "#5ffbf1", "#543a6e", "#fef6ff", "#ff6ec7", "#5ffbf1", "#ff6ec7", "#8b9aff", "#8b9aff", "#1a0d2e"];
    proof {
        reveal_strlit("#1a0d2e");
        reveal_strlit("#2d1b4e");
        reveal_strlit("#543a6e");
        reveal_strlit("#5ffbf1");
        reveal_strlit("#8b9aff");
        reveal_strlit("#d4a5ff");
        reveal_strlit("#f9f871");
        reveal_strlit("#fef6ff");
        reveal_strlit("#ff6ec7");
        assert(hex7(hexes@[0]@));
        assert(hex7(hexes@[1]@));
        assert(hex7(hexes@[2]@));
        assert(hex7(hexes@[3]@));
        assert(hex7(hexes@[4]@));
        assert(hex7(hexes@[5]@));
        assert(hex7(hexes@[6]@));
        assert(hex7(hexes@[7]@));
        assert(hex7(hexes@[8]@));
        assert(hex7(hexes@[9]@));
        assert(hex7(hexes@[10]@));
        assert(hex7(hexes@[11]@));
        assert(hex7(hexes@[12]@));
        assert(hex7(hexes@[13]@));
        assert(hexes@.map_values(|h: &'static str| h@) =~= theme_hexes()[5]);
    }
    palette("archwave", &hexes)
}

/// The built-in themes, in cycling order, each with its fourteen colors.
pub fn theme_table() -> (r: Vec<ThemeSpec>)
    ensures
        r@.len() == theme_names().len() == 6,
        forall|t: int|
            0 <= t < 6 ==> #[trigger] r@[t].colors@.len() == THEME_COLORS && palette_ok(
                r@[t],
                theme_names()[t],
                theme_hexes()[t],
            ),
{
    let r = vec![theme_btop(), theme_dracula(), theme_nord(), theme_gruvbox_dark(), theme_ayu_light(), theme_archwave()];
    r
}

} // verus!
