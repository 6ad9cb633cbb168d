//! The key-hint menu at the bottom of the screen: which hints fit into its
//! two rows, with full labels, short labels, bare keys, or a `+N more [M]`
//! overflow marker.

use vstd::prelude::*;
use crate::text::{chars_of, push_decimal, string_from_chars, decimal};

verus! {

/// The menu box always holds this many rows.
pub const MENU_ROWS: usize = 2;

/// The hints with full labels, as (key, label) texts.
pub open spec fn full_hint_texts() -> Seq<(Seq<char>, Seq<char>)> {
    seq![
        ("↑/↓"@, "select"@),
        ("Space"@, "ping now"@),
        ("a"@, "add"@),
        ("d"@, "delete"@),
        ("e"@, "edit"@),
        ("h"@, "history"@),
        ("c"@, "clear stats"@),
        ("i"@, "import"@),
        ("E"@, "export"@),
        ("g"@, "group"@),
        ("f"@, "filter"@),
        ("s"@, "sort"@),
        ("/"@, "search"@),
        ("?"@, "keys"@),
        ("t"@, "theme"@),
        ("u"@, "update"@),
        ("q"@, "quit"@),
    ]
}

/// The hints with abbreviated labels.
pub open spec fn short_hint_texts() -> Seq<(Seq<char>, Seq<char>)> {
    seq![
        ("↑↓"@, "sel"@),
        ("Spc"@, "ping"@),
        ("a"@, "add"@),
        ("d"@, "del"@),
        ("e"@, "edit"@),
        ("h"@, "hist"@),
        ("c"@, "clear"@),
        ("i"@, "imp"@),
        ("E"@, "exp"@),
        ("g"@, "grp"@),
        ("f"@, "flt"@),
        ("s"@, "sort"@),
        ("/"@, "find"@),
        ("?"@, "keys"@),
        ("t"@, "thm"@),
        ("u"@, "upd"@),
        ("q"@, "quit"@),
    ]
}

/// Every binding as a bare key, for the narrowest menus.
pub open spec fn menu_key_texts() -> Seq<Seq<char>> {
    seq![
        "↑↓"@,
        "Spc"@,
        "a"@,
        "d"@,
        "e"@,
        "h"@,
        "c"@,
        "i"@,
        "E"@,
        "g"@,
        "f"@,
        "s"@,
        "/"@,
        "?"@,
        "t"@,
        "u"@,
        "q"@,
        "Esc"@,
    ]
}

pub open spec fn hint_views(s: Seq<(&'static str, &'static str)>) -> Seq<(Seq<char>, Seq<char>)> {
    s.map_values(|p: (&'static str, &'static str)| (p.0@, p.1@))
}

pub fn footer_hints() -> (r: Vec<(&'static str, &'static str)>)
    ensures
        hint_views(r@) == full_hint_texts(),
{
    let r = vec![
        ("↑/↓", "select"),
        ("Space", "ping now"),
        ("a", "add"),
        ("d", "delete"),
        ("e", "edit"),
        ("h", "history"),
        ("c", "clear stats"),
        ("i", "import"),
        ("E", "export"),
        ("g", "group"),
        ("f", "filter"),
        ("s", "sort"),
        ("/", "search"),
        ("?", "keys"),
        ("t", "theme"),
        ("u", "update"),
        ("q", "quit"),
    ];
    assert(hint_views(r@) =~= full_hint_texts());
    r
}

/// Abbreviated labels used when the full menu doesn't fit in its rows.
pub fn short_footer_hints() -> (r: Vec<(&'static str, &'static str)>)
    ensures
        hint_views(r@) == short_hint_texts(),
{
    let r = vec![
        ("↑↓", "sel"),
        ("Spc", "ping"),
        ("a", "add"),
        ("d", "del"),
        ("e", "edit"),
        ("h", "hist"),
        ("c", "clear"),
        ("i", "imp"),
        ("E", "exp"),
        ("g", "grp"),
        ("f", "flt"),
        ("s", "sort"),
        ("/", "find"),
        ("?", "keys"),
        ("t", "thm"),
        ("u", "upd"),
        ("q", "quit"),
    ];
    assert(hint_views(r@) =~= short_hint_texts());
    r
}

pub fn menu_keys() -> (r: Vec<&'static str>)
    ensures
        r@.map_values(|k: &'static str| k@) == menu_key_texts(),
{
    let r = vec!["↑↓", "Spc", "a", "d", "e", "h", "c", "i", "E", "g", "f", "s", "/", "?", "t", "u", "q", "Esc"];
    assert(r@.map_values(|k: &'static str| k@) =~= menu_key_texts());
    r
}

/// The columns a hint takes: ` [key] label`.
pub open spec fn hint_width(key: Seq<char>, label: Seq<char>) -> int {
    (key.len() + label.len() + 4) as int
}

pub fn hint_cell_width(key: &str, label: &str) -> (r: usize)
    requires
        key@.len() + label@.len() + 4 <= usize::MAX,
    ensures
        r == hint_width(key@, label@),
{
    let k = chars_of(key);
    let l = chars_of(label);
    k.len() + l.len() + 4
}

// ---------------------------------------------------------------------------
// Packing
// ---------------------------------------------------------------------------

/// Greedy packing of cells of the given widths into rows of `max` columns,
/// each row starting with a two-column margin; a cell that does not fit
/// starts the next row, and a third row fails. On success: the row of each
/// cell, the number of rows used, and the columns used on the last row.
pub open spec fn pack(ws: Seq<int>, max: int) -> Option<(Seq<int>, int, int)>
    decreases ws.len(),
{
    if ws.len() == 0 {
        Some((Seq::empty(), 1, 2))
    } else {
        match pack(ws.drop_last(), max) {
            None => None,
            Some((rows, n, used)) => {
                let w = ws.last();
                if used + w > max {
                    if n >= MENU_ROWS {
                        None
                    } else {
                        Some((rows.push(n), n + 1, 2 + w))
                    }
                } else {
                    Some((rows.push(n - 1), n, used + w))
                }
            },
        }
    }
}

/// The layout of a menu: the row of each hint, and the row of the badge.
pub open spec fn pack_with_badge(ws: Seq<int>, badge: Option<int>, max: int) -> Option<
    (Seq<int>, Option<int>),
> {
    match pack(ws, max) {
        None => None,
        Some((rows, n, used)) => match badge {
            None => Some((rows, None)),
            Some(bw) => if used + bw > max {
                if n >= MENU_ROWS {
                    None
                } else {
                    Some((rows, Some(n)))
                }
            } else {
                Some((rows, Some(n - 1)))
            },
        },
    }
}

pub open spec fn usize_ints(s: Seq<usize>) -> Seq<int> {
    s.map_values(|x: usize| x as int)
}

proof fn lemma_pack_bounds(ws: Seq<int>, max: int)
    ensures
        pack(ws, max) matches Some((rows, n, used)) ==> 1 <= n <= MENU_ROWS && rows.len()
            == ws.len() && forall|i: int| 0 <= i < rows.len() ==> 0 <= #[trigger] rows[i] < n,
    decreases ws.len(),
{
    if ws.len() > 0 {
        lemma_pack_bounds(ws.drop_last(), max);
    }
}

/// Tries to pack all hints (and the badge) into the menu's rows; `None`
/// when they do not fit.
pub fn pack_menu_rows(widths: &Vec<usize>, badge: Option<usize>, max_width: usize) -> (r: Option<
    (Vec<usize>, Option<usize>),
>)
    ensures
        match pack_with_badge(
            usize_ints(widths@),
            match badge {
                Some(b) => Some(b as int),
                None => None,
            },
            max_width as int,
        ) {
            None => r is None,
            Some((rows, b)) => r matches Some((rv, rb)) && usize_ints(rv@) == rows && match rb {
                Some(x) => b == Some(x as int),
                None => b is None,
            },
        },
{
    let ghost ws = usize_ints(widths@);
    let mut rows: Vec<usize> = Vec::new();
    let mut n: usize = 1;
    let mut used: u128 = 2;
    let mut i: usize = 0;
    while i < widths.len()
        invariant
            0 <= i <= widths.len(),
            ws == usize_ints(widths@),
            1 <= n <= MENU_ROWS,
            rows.len() == i,
            used <= usize::MAX as u128 + 2,
            pack(ws.take(i as int), max_width as int) == Some((usize_ints(rows@), n as int, used as int)),
        decreases widths.len() - i,
    {
        assert(ws.take(i + 1).drop_last() =~= ws.take(i as int));
        assert(ws.take(i + 1).last() == widths@[i as int] as int);
        let w = widths[i];
        let ghost before = rows@;
        if used + (w as u128) > max_width as u128 {
            if n >= MENU_ROWS {
                proof {
                    lemma_pack_none_extends(ws, max_width as int, i + 1);
                }
                return None;
            }
            rows.push(n);
            n += 1;
            used = 2 + (w as u128);
        } else {
            rows.push(n - 1);
            used = used + (w as u128);
        }
        assert(usize_ints(rows@) =~= usize_ints(before).push(rows@[i as int] as int));
        i += 1;
    }
    assert(ws.take(widths.len() as int) =~= ws);
    match badge {
        None => Some((rows, None)),
        Some(bw) => {
            if used + (bw as u128) > max_width as u128 {
                if n >= MENU_ROWS {
                    None
                } else {
                    Some((rows, Some(n)))
                }
            } else {
                Some((rows, Some(n - 1)))
            }
        },
    }
}

proof fn lemma_pack_none_extends(ws: Seq<int>, max: int, i: int)
    requires
        0 <= i <= ws.len(),
        pack(ws.take(i), max) is None,
    ensures
        pack(ws, max) is None,
    decreases ws.len() - i,
{
    if i < ws.len() {
        assert(ws.take(i + 1).drop_last() =~= ws.take(i));
        lemma_pack_none_extends(ws, max, i + 1);
    } else {
        assert(ws.take(i) =~= ws);
    }
}

/// Bare keys packed until the rows run out: the row of each key that fits,
/// in order (later keys are dropped).
pub open spec fn pack_keys(ws: Seq<int>, max: int) -> (Seq<int>, int, int)
    decreases ws.len(),
{
    if ws.len() == 0 {
        (Seq::empty(), 1, 2)
    } else {
        let (rows, n, used) = pack_keys(ws.drop_last(), max);
        if rows.len() < ws.len() - 1 {
            (rows, n, used)
        } else {
            let w = ws.last();
            if used + w > max {
                if n >= MENU_ROWS {
                    (rows, n, used)
                } else {
                    (rows.push(n), n + 1, 2 + w)
                }
            } else {
                (rows.push(n - 1), n, used + w)
            }
        }
    }
}

proof fn lemma_pack_keys_len(ws: Seq<int>, max: int)
    ensures
        pack_keys(ws, max).0.len() <= ws.len(),
        1 <= pack_keys(ws, max).1 <= MENU_ROWS,
    decreases ws.len(),
{
    if ws.len() > 0 {
        lemma_pack_keys_len(ws.drop_last(), max);
    }
}

/// Keys-only last resort: the row of each bare key that fits, in order,
/// with the rows used and the columns used on the last row.
pub fn keys_only_layout(widths: &Vec<usize>, max_width: usize) -> (r: (Vec<usize>, usize, u128))
    ensures
        (usize_ints(r.0@), r.1 as int, r.2 as int) == pack_keys(usize_ints(widths@), max_width as int),
        r.2 <= usize::MAX as u128 + 2,
{
    let ghost ws = usize_ints(widths@);
    let mut rows: Vec<usize> = Vec::new();
    let mut n: usize = 1;
    let mut used: u128 = 2;
    let mut i: usize = 0;
    while i < widths.len()
        invariant
            0 <= i <= widths.len(),
            ws == usize_ints(widths@),
            1 <= n <= MENU_ROWS,
            rows.len() == i,
            used <= usize::MAX as u128 + 2,
            pack_keys(ws.take(i as int), max_width as int) == (usize_ints(rows@), n as int, used as int),
        decreases widths.len() - i,
    {
        assert(ws.take(i + 1).drop_last() =~= ws.take(i as int));
        assert(ws.take(i + 1).last() == widths@[i as int] as int);
        let w = widths[i];
        let ghost before = rows@;
        if used + (w as u128) > max_width as u128 {
            if n >= MENU_ROWS {
                // Every later key is dropped too.
                proof {
                    lemma_pack_keys_stops(ws, max_width as int, i as int);
                }
                return (rows, n, used);
            }
            rows.push(n);
            n += 1;
            used = 2 + (w as u128);
        } else {
            rows.push(n - 1);
            used = used + (w as u128);
        }
        assert(usize_ints(rows@) =~= usize_ints(before).push(rows@[i as int] as int));
        i += 1;
    }
    assert(ws.take(widths.len() as int) =~= ws);
    (rows, n, used)
}

proof fn lemma_pack_keys_stops(ws: Seq<int>, max: int, i: int)
    requires
        0 <= i < ws.len(),
        pack_keys(ws.take(i), max).0.len() == i,
        pack_keys(ws.take(i), max).1 >= MENU_ROWS,
        pack_keys(ws.take(i), max).2 + ws[i] > max,
    ensures
        pack_keys(ws, max) == pack_keys(ws.take(i), max),
    decreases ws.len() - i,
{
    let k = ws.len() as int;
    lemma_pack_keys_prefix_stuck(ws, max, i, k);
    assert(ws.take(k) =~= ws);
}

proof fn lemma_pack_keys_prefix_stuck(ws: Seq<int>, max: int, i: int, j: int)
    requires
        0 <= i < j <= ws.len(),
        pack_keys(ws.take(i), max).0.len() == i,
        pack_keys(ws.take(i), max).1 >= MENU_ROWS,
        pack_keys(ws.take(i), max).2 + ws[i] > max,
    ensures
        pack_keys(ws.take(j), max) == pack_keys(ws.take(i), max),
    decreases j - i,
{
    let t = ws.take(j);
    assert(t.drop_last() =~= ws.take(j - 1));
    if j - 1 > i {
        lemma_pack_keys_prefix_stuck(ws, max, i, j - 1);
        lemma_pack_keys_len(ws.take(i), max);
    } else {
        assert(t.last() == ws[i]);
    }
}

// ---------------------------------------------------------------------------
// The whole menu
// ---------------------------------------------------------------------------

/// How the menu rows are filled.
#[derive(Debug)]
pub enum FooterPlan {
    /// All hints with full labels; the row of each hint and of the badge.
    Full { rows: Vec<usize>, badge_row: Option<usize> },
    /// All hints with short labels.
    Short { rows: Vec<usize>, badge_row: Option<usize> },
    /// Bare keys, as many as fit; when some are left out, a marker that
    /// counts them.
    KeysOnly { rows: Vec<usize>, more: Option<MoreMarker> },
    /// The short hints that fit, then a marker with the update badge that
    /// counts the hints left out.
    Overflow { rows: Vec<usize>, tail: MoreMarker },
}

/// The `+N more [M]` marker closing a menu that could not show everything.
#[derive(Debug)]
pub struct MoreMarker {
    /// The marker's text.
    pub text: String,
    /// The menu row it stands on.
    pub row: usize,
    /// It stands alone on its row: it did not fit after the items there,
    /// so it took their place.
    pub alone: bool,
}

pub open spec fn hint_widths(h: Seq<(Seq<char>, Seq<char>)>) -> Seq<int> {
    h.map_values(|p: (Seq<char>, Seq<char>)| hint_width(p.0, p.1))
}

pub open spec fn key_widths(k: Seq<Seq<char>>) -> Seq<int> {
    k.map_values(|x: Seq<char>| (x.len() + 3) as int)
}

/// Short hints placed while they fit, stopping at the first that would need
/// a third row or does not fit a fresh row: rows of the placed hints, rows
/// used, and columns used on the last row.
pub open spec fn fill(ws: Seq<int>, max: int) -> (Seq<int>, int, int)
    decreases ws.len(),
{
    if ws.len() == 0 {
        (Seq::empty(), 1, 2)
    } else {
        let (rows, n, used) = fill(ws.drop_last(), max);
        if rows.len() < ws.len() - 1 {
            (rows, n, used)
        } else {
            let w = ws.last();
            if used + w > max {
                if n >= MENU_ROWS || 2 + w > max {
                    (rows, if n >= MENU_ROWS {
                        n
                    } else {
                        n + 1
                    }, if n >= MENU_ROWS {
                        used
                    } else {
                        2
                    })
                } else {
                    (rows.push(n), n + 1, 2 + w)
                }
            } else {
                (rows.push(n - 1), n, used + w)
            }
        }
    }
}

/// A marker counting `left_out` bindings that are not shown, after `head`.
pub open spec fn more_text(head: Seq<char>, left_out: nat) -> Seq<char> {
    head + "+"@ + decimal(left_out) + " more [M]"@
}

/// What the marker starts with: the update badge, if any.
pub open spec fn update_head(update: Option<Seq<char>>) -> Seq<char> {
    match update {
        Some(v) => "↑v"@ + v + " · "@,
        None => Seq::empty(),
    }
}

/// The overflow marker: the update badge (if any), then how many short
/// hints were left out.
pub open spec fn overflow_tail(update: Option<Seq<char>>, left_out: nat) -> Seq<char> {
    more_text(update_head(update), left_out)
}

/// How many leading entries of `s` are below `r`.
pub open spec fn lead_below(s: Seq<int>, r: int) -> nat
    decreases s.len(),
{
    if s.len() == 0 {
        0
    } else if s[0] >= r {
        0
    } else {
        1 + lead_below(s.drop_first(), r)
    }
}

/// Closes a layout of `total` items, of which those on rows `fr` were
/// placed (`n` rows used, `used` columns on the last), with a marker after
/// `head`: the rows of the items still shown, the marker's text, its row,
/// and whether it stands alone. The marker goes after the last row's items
/// when it fits there; otherwise it takes that row and the items there are
/// counted too.
pub open spec fn close_with_marker(
    fr: Seq<int>,
    n: int,
    used: int,
    total: nat,
    head: Seq<char>,
    max: int,
) -> (Seq<int>, Seq<char>, int, bool) {
    let first = more_text(head, (total - fr.len()) as nat);
    if used + first.len() + 1 > max {
        let k = lead_below(fr, n - 1);
        (fr.take(k as int), more_text(head, (total - k) as nat), n - 1, true)
    } else {
        (fr, first, n - 1, false)
    }
}

/// `rows` and `m` are the layout `c` computed by `close_with_marker`.
pub open spec fn marker_is(rows: Seq<usize>, m: MoreMarker, c: (Seq<int>, Seq<char>, int, bool)) -> bool {
    &&& usize_ints(rows) == c.0
    &&& m.text@ == c.1
    &&& m.row == c.2
    &&& m.alone == c.3
}

/// The badge shown for an available update: `↑v1.2.3`.
pub open spec fn badge_text(v: Seq<char>) -> Seq<char> {
    "↑v"@ + v
}

/// The menu plan for a box `max_width` columns wide (at least 20): full
/// labels if they fit, else short labels, else bare keys when there is no
/// update badge, else short hints with an overflow marker. Whatever does
/// not fit is counted by a `+N more [M]` marker.
pub open spec fn footer_plan_ok(p: FooterPlan, update: Option<Seq<char>>, max_width: usize) -> bool {
    let max: int = if max_width < 20 {
        20
    } else {
        max_width as int
    };
    let badge: Option<int> = match update {
        Some(v) => Some((badge_text(v).len() + 1) as int),
        None => None,
    };
    let full = pack_with_badge(hint_widths(full_hint_texts()), badge, max);
    let short = pack_with_badge(hint_widths(short_hint_texts()), badge, max);
    match p {
        FooterPlan::Full { rows, badge_row } => full matches Some((fr, fb)) && usize_ints(rows@)
            == fr && (match badge_row {
            Some(x) => fb == Some(x as int),
            None => fb is None,
        }),
        FooterPlan::Short { rows, badge_row } => full is None && (short matches Some((sr, sb))
            && usize_ints(rows@) == sr && (match badge_row {
            Some(x) => sb == Some(x as int),
            None => sb is None,
        })),
        FooterPlan::KeysOnly { rows, more } => {
            let (kr, n, used) = pack_keys(key_widths(menu_key_texts()), max);
            &&& full is None
            &&& short is None
            &&& update is None
            &&& if kr.len() == menu_key_texts().len() {
                more is None && usize_ints(rows@) == kr
            } else {
                more matches Some(m) && marker_is(
                    rows@,
                    m,
                    close_with_marker(kr, n, used, menu_key_texts().len(), Seq::empty(), max),
                )
            }
        },
        FooterPlan::Overflow { rows, tail } => {
            let (fr, n, used) = fill(hint_widths(short_hint_texts()), max);
            &&& full is None
            &&& short is None
            &&& update is Some
            &&& marker_is(
                rows@,
                tail,
                close_with_marker(fr, n, used, short_hint_texts().len(), update_head(update), max),
            )
        },
    }
}

fn widths_of_hints(h: &Vec<(&'static str, &'static str)>) -> (r: Vec<usize>)
    requires
        forall|i: int|
            0 <= i < h.len() ==> (#[trigger] hint_views(h@)[i]).0.len() + hint_views(h@)[i].1.len()
                <= 20,
    ensures
        usize_ints(r@) == hint_widths(hint_views(h@)),
{
    let mut r: Vec<usize> = Vec::new();
    let mut i: usize = 0;
    while i < h.len()
        invariant
            0 <= i <= h.len(),
            forall|k: int|
                0 <= k < h.len() ==> (#[trigger] hint_views(h@)[k]).0.len() + hint_views(h@)[k].1.len()
                    <= 20,
            r.len() == i,
            usize_ints(r@) == hint_widths(hint_views(h@)).take(i as int),
        decreases h.len() - i,
    {
        let (k, l) = h[i];
        assert(hint_views(h@)[i as int] == (k@, l@));
        r.push(hint_cell_width(k, l));
        assert(usize_ints(r@) =~= hint_widths(hint_views(h@)).take(i + 1));
        i += 1;
    }
    assert(hint_widths(hint_views(h@)).take(h.len() as int) =~= hint_widths(hint_views(h@)));
    r
}

proof fn lemma_hint_lengths()
    ensures
        forall|i: int|
            0 <= i < 17 ==> (#[trigger] full_hint_texts()[i]).0.len() + full_hint_texts()[i].1.len()
                <= 20,
        forall|i: int|
            0 <= i < 17 ==> (#[trigger] short_hint_texts()[i]).0.len() + short_hint_texts()[i].1.len()
                <= 20,
        forall|i: int| 0 <= i < 18 ==> (#[trigger] menu_key_texts()[i]).len() <= 3,
{
    reveal_strlit("↑/↓");
    reveal_strlit("select");
    reveal_strlit("Space");
    reveal_strlit("ping now");
    reveal_strlit("a");
    reveal_strlit("add");
    reveal_strlit("d");
    reveal_strlit("delete");
    reveal_strlit("e");
    reveal_strlit("edit");
    reveal_strlit("h");
    reveal_strlit("history");
    reveal_strlit("c");
    reveal_strlit("clear stats");
    reveal_strlit("i");
    reveal_strlit("import");
    reveal_strlit("E");
    reveal_strlit("export");
    reveal_strlit("g");
    reveal_strlit("group");
    reveal_strlit("f");
    reveal_strlit("filter");
    reveal_strlit("s");
    reveal_strlit("sort");
    reveal_strlit("/");
    reveal_strlit("search");
    reveal_strlit("?");
    reveal_strlit("keys");
    reveal_strlit("t");
    reveal_strlit("theme");
    reveal_strlit("u");
    reveal_strlit("update");
    reveal_strlit("q");
    reveal_strlit("quit");
    reveal_strlit("↑↓");
    reveal_strlit("sel");
    reveal_strlit("Spc");
    reveal_strlit("ping");
    reveal_strlit("del");
    reveal_strlit("hist");
    reveal_strlit("clear");
    reveal_strlit("imp");
    reveal_strlit("exp");
    reveal_strlit("grp");
    reveal_strlit("flt");
    reveal_strlit("find");
    reveal_strlit("thm");
    reveal_strlit("upd");
    reveal_strlit("Esc");
}

fn push_str(v: &mut Vec<char>, s: &str)
    ensures
        final(v)@ == old(v)@ + s@,
{
    let t = chars_of(s);
    let ghost v0 = v@;
    let mut j: usize = 0;
    while j < t.len()
        invariant
            0 <= j <= t.len(),
            v@ == v0 + t@.take(j as int),
        decreases t.len() - j,
    {
        v.push(t[j]);
        assert(v@ =~= v0 + t@.take(j + 1));
        j += 1;
    }
    assert(t@.take(t.len() as int) =~= t@);
}

/// The characters of the marker counting `left_out` bindings.
fn marker_chars(update: Option<&str>, left_out: usize) -> (r: Vec<char>)
    ensures
        r@ == more_text(
            update_head(
                match update {
                    Some(v) => Some(v@),
                    None => None,
                },
            ),
            left_out as nat,
        ),
{
    let mut t: Vec<char> = Vec::new();
    match update {
        Some(v) => {
            push_str(&mut t, "↑v");
            push_str(&mut t, v);
            push_str(&mut t, " · ");
        },
        None => {},
    }
    push_str(&mut t, "+");
    push_decimal(&mut t, left_out as u64);
    push_str(&mut t, " more [M]");
    t
}

proof fn lemma_lead_below_is(s: Seq<int>, r: int, k: int)
    requires
        0 <= k <= s.len(),
        forall|j: int| 0 <= j < k ==> #[trigger] s[j] < r,
        k == s.len() || s[k] >= r,
    ensures
        lead_below(s, r) == k,
    decreases k,
{
    if k > 0 {
        let t = s.drop_first();
        assert forall|j: int| 0 <= j < k - 1 implies #[trigger] t[j] < r by {
            assert(t[j] == s[j + 1]);
        }
        if k < s.len() {
            assert(t[k - 1] == s[k]);
        }
        lemma_lead_below_is(t, r, k - 1);
    }
}

proof fn lemma_lead_below_bounds(s: Seq<int>, r: int)
    ensures
        lead_below(s, r) <= s.len(),
        forall|j: int| 0 <= j < lead_below(s, r) ==> #[trigger] s[j] < r,
    decreases s.len(),
{
    if s.len() > 0 && s[0] < r {
        let t = s.drop_first();
        lemma_lead_below_bounds(t, r);
        assert forall|j: int| 0 <= j < lead_below(s, r) implies #[trigger] s[j] < r by {
            if j > 0 {
                assert(s[j] == t[j - 1]);
            }
        }
    }
}

/// Closes a layout of `total` items with a `+N more [M]` marker: after the
/// last row's items when it fits there, else in their place.
fn close_layout(
    rows: Vec<usize>,
    n: usize,
    used: u128,
    total: usize,
    update: Option<&str>,
    max: usize,
) -> (r: (Vec<usize>, MoreMarker))
    requires
        rows.len() <= total,
        1 <= n <= MENU_ROWS,
        used <= usize::MAX as u128 + 24,
    ensures
        marker_is(
            r.0@,
            r.1,
            close_with_marker(
                usize_ints(rows@),
                n as int,
                used as int,
                total as nat,
                update_head(
                    match update {
                        Some(v) => Some(v@),
                        None => None,
                    },
                ),
                max as int,
            ),
        ),
{
    let ghost fr = usize_ints(rows@);
    let first = marker_chars(update, total - rows.len());
    if used + (first.len() as u128) + 1 > max as u128 {
        let mut rows = rows;
        let mut k: usize = 0;
        while k < rows.len() && rows[k] < n - 1
            invariant
                0 <= k <= rows.len(),
                1 <= n,
                fr == usize_ints(rows@),
                forall|j: int| 0 <= j < k ==> #[trigger] fr[j] < n - 1,
            decreases rows.len() - k,
        {
            k += 1;
        }
        proof {
            lemma_lead_below_is(fr, n - 1, k as int);
        }
        let text = marker_chars(update, total - k);
        rows.truncate(k);
        assert(usize_ints(rows@) =~= fr.take(k as int));
        (rows, MoreMarker { text: string_from_chars(&text), row: n - 1, alone: true })
    } else {
        (rows, MoreMarker { text: string_from_chars(&first), row: n - 1, alone: false })
    }
}

/// Plans the fixed menu rows: full labels, then abbreviated labels, then
/// bare keys or short hints plus a `+N more [M]` marker so nothing silently
/// vanishes on narrow windows.
pub fn build_footer_plan(update_available: Option<&str>, max_width: usize) -> (r: FooterPlan)
    requires
        update_available matches Some(v) ==> v@.len() + 3 <= usize::MAX,
    ensures
        footer_plan_ok(
            r,
            match update_available {
                Some(v) => Some(v@),
                None => None,
            },
            max_width,
        ),
{
    proof {
        lemma_hint_lengths();
    }
    let max = if max_width < 20 {
        20
    } else {
        max_width
    };
    let badge: Option<usize> = match update_available {
        Some(v) => {
            let c = chars_of(v);
            proof {
                reveal_strlit("↑v");
            }
            Some(c.len() + 3)
        },
        None => None,
    };
    let full = footer_hints();
    assert(hint_views(full@).len() == full.len());
    let fw = widths_of_hints(&full);
    if let Some((rows, badge_row)) = pack_menu_rows(&fw, badge, max) {
        return FooterPlan::Full { rows, badge_row };
    }
    let short = short_footer_hints();
    assert(hint_views(short@).len() == short.len());
    let sw = widths_of_hints(&short);
    if let Some((rows, badge_row)) = pack_menu_rows(&sw, badge, max) {
        return FooterPlan::Short { rows, badge_row };
    }
    if update_available.is_none() {
        let keys = menu_keys();
        let mut kw: Vec<usize> = Vec::new();
        let mut i: usize = 0;
        while i < keys.len()
            invariant
                0 <= i <= keys.len(),
                keys@.map_values(|k: &'static str| k@) == menu_key_texts(),
                forall|j: int| 0 <= j < 18 ==> (#[trigger] menu_key_texts()[j]).len() <= 3,
                kw.len() == i,
                usize_ints(kw@) == key_widths(menu_key_texts()).take(i as int),
            decreases keys.len() - i,
        {
            assert(keys@[i as int]@ == menu_key_texts()[i as int]);
            let c = chars_of(keys[i]);
            kw.push(c.len() + 3);
            assert(usize_ints(kw@) =~= key_widths(menu_key_texts()).take(i + 1));
            i += 1;
        }
        assert(key_widths(menu_key_texts()).take(18) =~= key_widths(menu_key_texts()));
        let (rows, n, used) = keys_only_layout(&kw, max);
        proof {
            lemma_pack_keys_len(key_widths(menu_key_texts()), max as int);
        }
        if rows.len() == keys.len() {
            return FooterPlan::KeysOnly { rows, more: None };
        }
        let (rows, more) = close_layout(rows, n, used, keys.len(), None, max);
        return FooterPlan::KeysOnly { rows, more: Some(more) };
    }
    // Very narrow: fill rows with short hints, put the rest behind [M].
    let ghost ws = hint_widths(short_hint_texts());
    let mut rows: Vec<usize> = Vec::new();
    let mut n: usize = 1;
    let mut used: u128 = 2;
    let mut i: usize = 0;
    let mut stopped = false;
    while i < sw.len() && !stopped
        invariant
            0 <= i <= sw.len() == 17,
            usize_ints(sw@) == ws,
            forall|j: int| 0 <= j < 17 ==> #[trigger] ws[j] <= 24,
            1 <= n <= MENU_ROWS,
            2 <= used <= max + 24,
            max >= 20,
            !stopped ==> rows.len() == i,
            stopped ==> rows.len() < i,
            fill(ws.take(i as int), max as int) == (usize_ints(rows@), n as int, used as int),
        decreases sw.len() - i,
    {
        assert(ws.take(i + 1).drop_last() =~= ws.take(i as int));
        assert(ws.take(i + 1).last() == sw@[i as int] as int);
        let w = sw[i] as u128;
        let ghost before = rows@;
        if used + w > max as u128 {
            if n >= MENU_ROWS {
                stopped = true;
            } else {
                n += 1;
                used = 2;
                if used + w > max as u128 {
                    stopped = true;
                } else {
                    rows.push(n - 1);
                    used += w;
                }
            }
        } else {
            rows.push(n - 1);
            used += w;
        }
        assert(usize_ints(rows@) =~= (if rows.len() > before.len() {
            usize_ints(before).push(rows@[before.len() as int] as int)
        } else {
            usize_ints(before)
        }));
        i += 1;
    }
    proof {
        if stopped {
            lemma_fill_stuck(ws, max as int, i as int);
        } else {
            assert(ws.take(17) =~= ws);
        }
    }
    proof {
        lemma_fill_len(ws, max as int);
    }
    let (rows, tail) = close_layout(rows, n, used, sw.len(), update_available, max);
    FooterPlan::Overflow { rows, tail }
}

proof fn lemma_fill_len(ws: Seq<int>, max: int)
    ensures
        fill(ws, max).0.len() <= ws.len(),
    decreases ws.len(),
{
    if ws.len() > 0 {
        lemma_fill_len(ws.drop_last(), max);
    }
}

proof fn lemma_fill_stuck(ws: Seq<int>, max: int, i: int)
    requires
        0 < i <= ws.len(),
        fill(ws.take(i), max).0.len() < i,
    ensures
        fill(ws, max) == fill(ws.take(i), max),
    decreases ws.len() - i,
{
    if i < ws.len() {
        let t = ws.take(i + 1);
        assert(t.drop_last() =~= ws.take(i));
        lemma_fill_len(ws.take(i), max);
        lemma_fill_stuck(ws, max, i + 1);
    } else {
        assert(ws.take(i) =~= ws);
    }
}

proof fn lemma_pack_keys_rows(ws: Seq<int>, max: int)
    ensures
        1 <= pack_keys(ws, max).1 <= MENU_ROWS,
        forall|i: int|
            0 <= i < pack_keys(ws, max).0.len() ==> 0 <= #[trigger] pack_keys(ws, max).0[i]
                < pack_keys(ws, max).1,
    decreases ws.len(),
{
    if ws.len() > 0 {
        lemma_pack_keys_rows(ws.drop_last(), max);
    }
}

proof fn lemma_fill_rows(ws: Seq<int>, max: int)
    ensures
        1 <= fill(ws, max).1 <= MENU_ROWS,
        forall|i: int|
            0 <= i < fill(ws, max).0.len() ==> 0 <= #[trigger] fill(ws, max).0[i] < fill(ws, max).1,
    decreases ws.len(),
{
    if ws.len() > 0 {
        lemma_fill_rows(ws.drop_last(), max);
    }
}

/// The menu keeps its fixed height: whatever the width and the update
/// badge, every hint, key, badge and marker it shows sits on one of its
/// rows, and a marker that stands alone shares its row with nothing.
pub proof fn law_footer_fixed_height(p: FooterPlan, update: Option<Seq<char>>, max_width: usize)
    requires
        footer_plan_ok(p, update, max_width),
    ensures
        match p {
            FooterPlan::Full { rows, badge_row } => (forall|i: int|
                0 <= i < rows.len() ==> #[trigger] rows@[i] < MENU_ROWS) && (badge_row matches Some(
                b,
            ) ==> b < MENU_ROWS),
            FooterPlan::Short { rows, badge_row } => (forall|i: int|
                0 <= i < rows.len() ==> #[trigger] rows@[i] < MENU_ROWS) && (badge_row matches Some(
                b,
            ) ==> b < MENU_ROWS),
            FooterPlan::KeysOnly { rows, more } => (forall|i: int|
                0 <= i < rows.len() ==> #[trigger] rows@[i] < MENU_ROWS) && (more matches Some(m)
                ==> marker_placed(rows@, m)),
            FooterPlan::Overflow { rows, tail } => (forall|i: int|
                0 <= i < rows.len() ==> #[trigger] rows@[i] < MENU_ROWS) && marker_placed(rows@, tail),
        },
{
    let max: int = if max_width < 20 {
        20
    } else {
        max_width as int
    };
    let fw = hint_widths(full_hint_texts());
    let sw = hint_widths(short_hint_texts());
    let kw = key_widths(menu_key_texts());
    lemma_pack_bounds(fw, max);
    lemma_pack_bounds(sw, max);
    lemma_pack_keys_rows(kw, max);
    lemma_fill_rows(sw, max);
    match p {
        FooterPlan::Full { rows, badge_row } => {
            assert forall|i: int| 0 <= i < rows.len() implies #[trigger] rows@[i] < MENU_ROWS by {
                assert(usize_ints(rows@)[i] == rows@[i] as int);
            }
        },
        FooterPlan::Short { rows, badge_row } => {
            assert forall|i: int| 0 <= i < rows.len() implies #[trigger] rows@[i] < MENU_ROWS by {
                assert(usize_ints(rows@)[i] == rows@[i] as int);
            }
        },
        FooterPlan::KeysOnly { rows, more } => {
            let (kr, n, used) = pack_keys(kw, max);
            lemma_close_placed(kr, n, used, menu_key_texts().len(), Seq::empty(), max);
            assert forall|i: int| 0 <= i < rows.len() implies #[trigger] rows@[i] < MENU_ROWS by {
                assert(usize_ints(rows@)[i] == rows@[i] as int);
            }
            if let Some(m) = more {
                lemma_marker_placed(rows@, m, close_with_marker(kr, n, used, menu_key_texts().len(), Seq::empty(), max));
            }
        },
        FooterPlan::Overflow { rows, tail } => {
            let (fr, n, used) = fill(sw, max);
            lemma_close_placed(fr, n, used, short_hint_texts().len(), update_head(update), max);
            assert forall|i: int| 0 <= i < rows.len() implies #[trigger] rows@[i] < MENU_ROWS by {
                assert(usize_ints(rows@)[i] == rows@[i] as int);
            }
            lemma_marker_placed(rows@, tail, close_with_marker(fr, n, used, short_hint_texts().len(), update_head(update), max));
        },
    }
}

/// The marker sits on a menu row, and when it stands alone no shown item
/// shares that row.
pub open spec fn marker_placed(rows: Seq<usize>, m: MoreMarker) -> bool {
    &&& m.row < MENU_ROWS
    &&& m.alone ==> forall|i: int| 0 <= i < rows.len() ==> #[trigger] rows[i] != m.row
}

/// What `close_with_marker` gives when the placed rows lie on the rows used.
pub open spec fn close_placed(fr: Seq<int>, n: int, c: (Seq<int>, Seq<char>, int, bool)) -> bool {
    &&& 0 <= c.2 < MENU_ROWS
    &&& c.0.len() <= fr.len()
    &&& forall|i: int| 0 <= i < c.0.len() ==> 0 <= #[trigger] c.0[i] < MENU_ROWS
    &&& c.3 ==> forall|i: int| 0 <= i < c.0.len() ==> #[trigger] c.0[i] != c.2
}

proof fn lemma_close_placed(fr: Seq<int>, n: int, used: int, total: nat, head: Seq<char>, max: int)
    requires
        1 <= n <= MENU_ROWS,
        forall|i: int| 0 <= i < fr.len() ==> 0 <= #[trigger] fr[i] < n,
    ensures
        close_placed(fr, n, close_with_marker(fr, n, used, total, head, max)),
{
    lemma_lead_below_bounds(fr, n - 1);
}

proof fn lemma_marker_placed(rows: Seq<usize>, m: MoreMarker, c: (Seq<int>, Seq<char>, int, bool))
    requires
        marker_is(rows, m, c),
        0 <= c.2 < MENU_ROWS,
        c.3 ==> forall|i: int| 0 <= i < c.0.len() ==> #[trigger] c.0[i] != c.2,
    ensures
        marker_placed(rows, m),
{
    if m.alone {
        assert forall|i: int| 0 <= i < rows.len() implies #[trigger] rows[i] != m.row by {
            assert(usize_ints(rows)[i] == rows[i] as int);
        }
    }
}

/// No binding vanishes without notice: with full or short labels every
/// hint is shown; otherwise the first bindings, in order, are shown and a
/// `+N more [M]` marker counts exactly the others (bare keys need none when
/// all of them fit).
pub proof fn law_footer_counts_every_binding(
    p: FooterPlan,
    update: Option<Seq<char>>,
    max_width: usize,
)
    requires
        footer_plan_ok(p, update, max_width),
    ensures
        match p {
            FooterPlan::Full { rows, .. } => rows.len() == full_hint_texts().len(),
            FooterPlan::Short { rows, .. } => rows.len() == short_hint_texts().len(),
            FooterPlan::KeysOnly { rows, more } => rows.len() <= menu_key_texts().len() && match more {
                None => rows.len() == menu_key_texts().len(),
                Some(m) => m.text@ == more_text(
                    Seq::empty(),
                    (menu_key_texts().len() - rows.len()) as nat,
                ),
            },
            FooterPlan::Overflow { rows, tail } => rows.len() <= short_hint_texts().len()
                && tail.text@ == overflow_tail(update, (short_hint_texts().len() - rows.len()) as nat),
        },
{
    let max: int = if max_width < 20 {
        20
    } else {
        max_width as int
    };
    let fw = hint_widths(full_hint_texts());
    let sw = hint_widths(short_hint_texts());
    let kw = key_widths(menu_key_texts());
    lemma_pack_bounds(fw, max);
    lemma_pack_bounds(sw, max);
    match p {
        FooterPlan::Full { rows, .. } => {
            assert(usize_ints(rows@).len() == rows.len());
        },
        FooterPlan::Short { rows, .. } => {
            assert(usize_ints(rows@).len() == rows.len());
        },
        FooterPlan::KeysOnly { rows, more } => {
            let (kr, n, used) = pack_keys(kw, max);
            lemma_pack_keys_len(kw, max);
            lemma_lead_below_bounds(kr, n - 1);
            assert(usize_ints(rows@).len() == rows.len());
        },
        FooterPlan::Overflow { rows, tail } => {
            let (fr, n, used) = fill(sw, max);
            lemma_fill_len(sw, max);
            lemma_lead_below_bounds(fr, n - 1);
            assert(usize_ints(rows@).len() == rows.len());
        },
    }
}

} // verus!
