//! Which rows the host table shows, and in what order: filtering by group,
//! status and search, the sort modes, status/group section headers, and the
//! grouped view with collapsible groups.

use vstd::prelude::*;
use crate::config::{blank, default_group, default_group_name, is_blank, SortMode};
use crate::hoststate::{state_label, state_views, HostState, HostStateView};
use crate::order::{
    arrange, compare_chars, lemma_arrange_is, lemma_lex_irreflexive, lemma_lex_total,
    lemma_lex_transitive, lex_lt, same_elems, sorted_by, strict_total_on,
};
use crate::text::{
    chars_eq, chars_of, contains_chars, contains_seq, lowercase, string_from_chars, to_lowercase,
};

verus! {

// ---------------------------------------------------------------------------
// Filtering
// ---------------------------------------------------------------------------

/// The group a host is listed under: its group, or `default` when empty.
pub open spec fn norm_group(h: HostStateView) -> Seq<char> {
    if h.group.len() == 0 {
        default_group_name()
    } else {
        h.group
    }
}

/// A search matches a host when it is absent or blank, or when its lowercase
/// form occurs in the lowercase name, alias or group.
pub open spec fn search_matches(h: HostStateView, search: Option<Seq<char>>) -> bool {
    match search {
        None => true,
        Some(q) => blank(q) || contains_seq(lowercase(h.name), lowercase(q)) || (match h.alias {
            Some(a) => contains_seq(lowercase(a), lowercase(q)),
            None => false,
        }) || contains_seq(lowercase(h.group), lowercase(q)),
    }
}

pub fn host_matches_search(h: &HostState, search: Option<&str>) -> (r: bool)
    ensures
        r == search_matches(
            h@,
            match search {
                Some(q) => Some(q@),
                None => None,
            },
        ),
{
    match search {
        None => true,
        Some(q) => {
            if is_blank(q) {
                return true;
            }
            let lq = chars_of(to_lowercase(q).as_str());
            let ln = chars_of(to_lowercase(h.name.as_str()).as_str());
            if contains_chars(&ln, &lq) {
                return true;
            }
            match &h.alias {
                Some(a) => {
                    let la = chars_of(to_lowercase(a.as_str()).as_str());
                    if contains_chars(&la, &lq) {
                        return true;
                    }
                },
                None => {},
            }
            let lg = chars_of(to_lowercase(h.group.as_str()).as_str());
            contains_chars(&lg, &lq)
        },
    }
}

pub open spec fn opt_str(o: Option<&str>) -> Option<Seq<char>> {
    match o {
        Some(s) => Some(s@),
        None => None,
    }
}

/// A host is listed when it is in the filtered group (if any), is down when
/// the mode is down-only, and matches the search.
pub open spec fn is_listed(
    h: HostStateView,
    group_filter: Option<Seq<char>>,
    mode: SortMode,
    search: Option<Seq<char>>,
) -> bool {
    &&& match group_filter {
        Some(f) => norm_group(h) == f,
        None => true,
    }
    &&& (mode != SortMode::DownOnly || !h.up)
    &&& search_matches(h, search)
}

/// The indices below `n` of the listed hosts, in increasing order.
pub open spec fn listed_upto(
    hs: Seq<HostStateView>,
    group_filter: Option<Seq<char>>,
    mode: SortMode,
    search: Option<Seq<char>>,
    n: int,
) -> Seq<usize>
    decreases n,
{
    if n <= 0 {
        Seq::empty()
    } else {
        let prev = listed_upto(hs, group_filter, mode, search, n - 1);
        if is_listed(hs[n - 1], group_filter, mode, search) {
            prev.push((n - 1) as usize)
        } else {
            prev
        }
    }
}

/// Strictly increasing and below `n`.
pub open spec fn increasing_below(s: Seq<usize>, n: int) -> bool {
    &&& forall|a: int, b: int| 0 <= a < b < s.len() ==> s[a] < s[b]
    &&& forall|a: int| 0 <= a < s.len() ==> #[trigger] s[a] < n
}

proof fn lemma_listed_upto(
    hs: Seq<HostStateView>,
    group_filter: Option<Seq<char>>,
    mode: SortMode,
    search: Option<Seq<char>>,
    n: int,
)
    requires
        0 <= n <= usize::MAX,
    ensures
        increasing_below(listed_upto(hs, group_filter, mode, search, n), n),
        forall|i: usize|
            listed_upto(hs, group_filter, mode, search, n).contains(i) <==> (i < n && is_listed(
                hs[i as int],
                group_filter,
                mode,
                search,
            )),
    decreases n,
{
    if n > 0 {
        lemma_listed_upto(hs, group_filter, mode, search, n - 1);
        let prev = listed_upto(hs, group_filter, mode, search, n - 1);
        let cur = listed_upto(hs, group_filter, mode, search, n);
        if is_listed(hs[n - 1], group_filter, mode, search) {
            assert(cur == prev.push((n - 1) as usize));
            assert(((n - 1) as usize) as int == n - 1);
            assert forall|a: int, b: int| 0 <= a < b < cur.len() implies cur[a] < cur[b] by {
                if b < prev.len() {
                    assert(cur[a] == prev[a] && cur[b] == prev[b]);
                } else {
                    assert(cur[a] == prev[a]);
                    assert(prev[a] < n - 1);
                }
            }
            assert forall|a: int| 0 <= a < cur.len() implies #[trigger] cur[a] < n by {
                if a < prev.len() {
                    assert(cur[a] == prev[a]);
                }
            }
            assert forall|i: usize| cur.contains(i) <==> (i < n && is_listed(
                hs[i as int],
                group_filter,
                mode,
                search,
            )) by {
                if i == n - 1 {
                    assert(cur[cur.len() - 1] == i);
                } else {
                    if cur.contains(i) {
                        let k = choose|k: int| 0 <= k < cur.len() && cur[k] == i;
                        if k == cur.len() - 1 {
                            assert(cur[k] == (n - 1) as usize);
                        }
                        assert(prev[k] == i);
                    }
                    if prev.contains(i) {
                        let k = choose|k: int| 0 <= k < prev.len() && prev[k] == i;
                        assert(cur[k] == i);
                    }
                }
            }
        } else {
            assert(cur == prev);
        }
    }
}

proof fn lemma_all_listed(hs: Seq<HostStateView>, mode: SortMode, n: int)
    requires
        0 <= n <= usize::MAX,
        n <= hs.len(),
        mode != SortMode::DownOnly,
    ensures
        listed_upto(hs, None, mode, None, n).len() == n,
        forall|a: int| 0 <= a < n ==> #[trigger] listed_upto(hs, None, mode, None, n)[a] == a,
    decreases n,
{
    if n > 0 {
        lemma_all_listed(hs, mode, n - 1);
        assert(is_listed(hs[n - 1], None, mode, None));
    }
}

/// Which hosts the table lists, in config order: under down-only only down
/// hosts; under a group filter only hosts of that group (an empty group
/// being `default`); a host that passes every filter is listed; with no
/// filter, no search and a mode other than down-only, every host.
pub proof fn law_listed_hosts(
    hs: Seq<HostStateView>,
    group_filter: Option<Seq<char>>,
    mode: SortMode,
    search: Option<Seq<char>>,
)
    requires
        hs.len() <= usize::MAX,
    ensures
        ({
            let l = listed_upto(hs, group_filter, mode, search, hs.len() as int);
            &&& forall|a: int, b: int| 0 <= a < b < l.len() ==> l[a] < l[b]
            &&& forall|a: int| 0 <= a < l.len() ==> #[trigger] l[a] < hs.len()
            &&& mode == SortMode::DownOnly ==> forall|a: int|
                0 <= a < l.len() ==> !(#[trigger] hs[l[a] as int]).up
            &&& group_filter matches Some(f) ==> forall|a: int|
                0 <= a < l.len() ==> norm_group(#[trigger] hs[l[a] as int]) == f
            &&& forall|i: usize|
                i < hs.len() && (mode == SortMode::DownOnly ==> !hs[i as int].up) && (
                group_filter matches Some(f) ==> norm_group(hs[i as int]) == f) && search_matches(
                    hs[i as int],
                    search,
                ) ==> #[trigger] l.contains(i)
            &&& group_filter is None && search is None && mode != SortMode::DownOnly ==> l.len()
                == hs.len() && forall|a: int| 0 <= a < l.len() ==> #[trigger] l[a] == a
        }),
{
    let n = hs.len() as int;
    lemma_listed_upto(hs, group_filter, mode, search, n);
    let l = listed_upto(hs, group_filter, mode, search, n);
    assert forall|a: int| 0 <= a < l.len() implies is_listed(
        hs[l[a] as int],
        group_filter,
        mode,
        search,
    ) by {
        assert(l.contains(l[a]));
    }
    if group_filter is None && search is None && mode != SortMode::DownOnly {
        lemma_all_listed(hs, mode, n);
    }
}

/// The indices of the listed hosts, in config order.
pub fn listed_indices(
    hosts: &Vec<HostState>,
    group_filter: Option<&str>,
    mode: SortMode,
    search: Option<&str>,
) -> (r: Vec<usize>)
    ensures
        r@ == listed_upto(
            state_views(hosts@),
            opt_str(group_filter),
            mode,
            opt_str(search),
            hosts.len() as int,
        ),
{
    let ghost hs = state_views(hosts@);
    let mut r: Vec<usize> = Vec::new();
    let mut i: usize = 0;
    while i < hosts.len()
        invariant
            0 <= i <= hosts.len(),
            hs == state_views(hosts@),
            r@ == listed_upto(hs, opt_str(group_filter), mode, opt_str(search), i as int),
        decreases hosts.len() - i,
    {
        let h = &hosts[i];
        let in_group = match group_filter {
            Some(f) => {
                let g = if h.group.as_str().is_empty() {
                    default_group()
                } else {
                    h.group.clone()
                };
                let gv = chars_of(g.as_str());
                let fv = chars_of(f);
                chars_eq(&gv, &fv)
            },
            None => true,
        };
        let listed = in_group && (mode != SortMode::DownOnly || !h.up) && host_matches_search(
            h,
            search,
        );
        assert(hs[i as int] == h@);
        if listed {
            r.push(i);
        }
        i += 1;
    }
    r
}

// ---------------------------------------------------------------------------
// Ordering
// ---------------------------------------------------------------------------

/// Name order with config position as the tie-breaker.
pub open spec fn label_before(hs: Seq<HostStateView>, i: usize, j: usize) -> bool {
    lex_lt(state_label(hs[i as int]), state_label(hs[j as int])) || (state_label(hs[i as int])
        == state_label(hs[j as int]) && i < j)
}

/// `i` is listed before `j` under `mode`: down hosts first (then by name),
/// up hosts first (then by name), by name, or by group (then by name); ties
/// keep config order, and the other modes keep config order.
pub open spec fn before(mode: SortMode, hs: Seq<HostStateView>, i: usize, j: usize) -> bool {
    match mode {
        SortMode::DownFirst => (!hs[i as int].up && hs[j as int].up) || (hs[i as int].up
            == hs[j as int].up && label_before(hs, i, j)),
        SortMode::UpFirst => (hs[i as int].up && !hs[j as int].up) || (hs[i as int].up
            == hs[j as int].up && label_before(hs, i, j)),
        SortMode::Name => label_before(hs, i, j),
        SortMode::Group => lex_lt(hs[i as int].group, hs[j as int].group) || (hs[i as int].group
            == hs[j as int].group && label_before(hs, i, j)),
        _ => i < j,
    }
}

pub open spec fn before_fn(mode: SortMode, hs: Seq<HostStateView>) -> spec_fn(usize, usize) -> bool {
    |i: usize, j: usize| before(mode, hs, i, j)
}

proof fn lemma_label_order(hs: Seq<HostStateView>, i: usize, j: usize, k: usize)
    ensures
        !label_before(hs, i, i),
        i != j ==> label_before(hs, i, j) || label_before(hs, j, i),
        !(label_before(hs, i, j) && label_before(hs, j, i)),
        label_before(hs, i, j) && label_before(hs, j, k) ==> label_before(hs, i, k),
{
    let (a, b, c) = (
        state_label(hs[i as int]),
        state_label(hs[j as int]),
        state_label(hs[k as int]),
    );
    lemma_lex_irreflexive(a);
    lemma_lex_total(a, b);
    lemma_lex_total(b, c);
    lemma_lex_total(a, c);
    if lex_lt(a, b) && lex_lt(b, c) {
        lemma_lex_transitive(a, b, c);
    }
}

proof fn lemma_before_order(mode: SortMode, hs: Seq<HostStateView>, i: usize, j: usize, k: usize)
    ensures
        !before(mode, hs, i, i),
        i != j ==> before(mode, hs, i, j) || before(mode, hs, j, i),
        before(mode, hs, i, j) && before(mode, hs, j, k) ==> before(mode, hs, i, k),
{
    lemma_label_order(hs, i, j, k);
    lemma_label_order(hs, j, i, k);
    lemma_label_order(hs, i, k, j);
    let (a, b, c) = (hs[i as int].group, hs[j as int].group, hs[k as int].group);
    lemma_lex_irreflexive(a);
    lemma_lex_total(a, b);
    lemma_lex_total(b, c);
    lemma_lex_total(a, c);
    if lex_lt(a, b) && lex_lt(b, c) {
        lemma_lex_transitive(a, b, c);
    }
}

proof fn lemma_before_strict_total(mode: SortMode, hs: Seq<HostStateView>, s: Seq<usize>)
    ensures
        strict_total_on(s, before_fn(mode, hs)),
{
    let lt = before_fn(mode, hs);
    assert forall|x: usize| s.contains(x) implies !#[trigger] lt(x, x) by {
        lemma_before_order(mode, hs, x, x, x);
    }
    assert forall|x: usize, y: usize, z: usize|
        s.contains(x) && s.contains(y) && s.contains(z) && #[trigger] lt(x, y) && #[trigger] lt(
            y,
            z,
        ) implies lt(x, z) by {
        lemma_before_order(mode, hs, x, y, z);
    }
    assert forall|x: usize, y: usize|
        s.contains(x) && s.contains(y) && x != y implies #[trigger] lt(x, y) || #[trigger] lt(
            y,
            x,
        ) by {
        lemma_before_order(mode, hs, x, y, x);
    }
}

// ---------------------------------------------------------------------------
// What each ordering guarantees
// ---------------------------------------------------------------------------

/// Up-first lists every up host before every down host, and hosts of the
/// same status by label.
pub proof fn law_up_first_lists_up_hosts_first(hs: Seq<HostStateView>, r: Seq<usize>)
    requires
        sorted_by(r, before_fn(SortMode::UpFirst, hs)),
    ensures
        forall|a: int, b: int|
            #![trigger r[a], r[b]]
            0 <= a < b < r.len() ==> (hs[r[b] as int].up ==> hs[r[a] as int].up),
        forall|a: int, b: int|
            #![trigger r[a], r[b]]
            0 <= a < b < r.len() && hs[r[a] as int].up == hs[r[b] as int].up ==> !lex_lt(
                state_label(hs[r[b] as int]),
                state_label(hs[r[a] as int]),
            ),
{
    assert forall|a: int, b: int| #![trigger r[a], r[b]] 0 <= a < b < r.len() implies (hs[r[b] as int].up
        ==> hs[r[a] as int].up) && (hs[r[a] as int].up == hs[r[b] as int].up ==> !lex_lt(
        state_label(hs[r[b] as int]),
        state_label(hs[r[a] as int]),
    )) by {
        assert(before_fn(SortMode::UpFirst, hs)(r[a], r[b]));
        lemma_label_order(hs, r[a], r[b], r[a]);
        lemma_lex_total(state_label(hs[r[a] as int]), state_label(hs[r[b] as int]));
        lemma_lex_irreflexive(state_label(hs[r[a] as int]));
        if lex_lt(state_label(hs[r[a] as int]), state_label(hs[r[b] as int])) && lex_lt(
            state_label(hs[r[b] as int]),
            state_label(hs[r[a] as int]),
        ) {
            lemma_lex_transitive(
                state_label(hs[r[a] as int]),
                state_label(hs[r[b] as int]),
                state_label(hs[r[a] as int]),
            );
        }
    }
}

/// Down-first lists every down host before every up host, and hosts of the
/// same status by label.
pub proof fn law_down_first_lists_down_hosts_first(hs: Seq<HostStateView>, r: Seq<usize>)
    requires
        sorted_by(r, before_fn(SortMode::DownFirst, hs)),
    ensures
        forall|a: int, b: int|
            #![trigger r[a], r[b]]
            0 <= a < b < r.len() ==> (hs[r[a] as int].up ==> hs[r[b] as int].up),
        forall|a: int, b: int|
            #![trigger r[a], r[b]]
            0 <= a < b < r.len() && hs[r[a] as int].up == hs[r[b] as int].up ==> !lex_lt(
                state_label(hs[r[b] as int]),
                state_label(hs[r[a] as int]),
            ),
{
    assert forall|a: int, b: int| #![trigger r[a], r[b]] 0 <= a < b < r.len() implies (hs[r[a] as int].up
        ==> hs[r[b] as int].up) && (hs[r[a] as int].up == hs[r[b] as int].up ==> !lex_lt(
        state_label(hs[r[b] as int]),
        state_label(hs[r[a] as int]),
    )) by {
        assert(before_fn(SortMode::DownFirst, hs)(r[a], r[b]));
        lemma_lex_total(state_label(hs[r[a] as int]), state_label(hs[r[b] as int]));
        lemma_lex_irreflexive(state_label(hs[r[a] as int]));
        if lex_lt(state_label(hs[r[a] as int]), state_label(hs[r[b] as int])) && lex_lt(
            state_label(hs[r[b] as int]),
            state_label(hs[r[a] as int]),
        ) {
            lemma_lex_transitive(
                state_label(hs[r[a] as int]),
                state_label(hs[r[b] as int]),
                state_label(hs[r[a] as int]),
            );
        }
    }
}

/// By-name lists hosts in label order.
pub proof fn law_name_order_lists_by_label(hs: Seq<HostStateView>, r: Seq<usize>)
    requires
        sorted_by(r, before_fn(SortMode::Name, hs)),
    ensures
        forall|a: int, b: int|
            #![trigger r[a], r[b]]
            0 <= a < b < r.len() ==> !lex_lt(state_label(hs[r[b] as int]), state_label(hs[r[a] as int])),
{
    assert forall|a: int, b: int| #![trigger r[a], r[b]] 0 <= a < b < r.len() implies !lex_lt(
        state_label(hs[r[b] as int]),
        state_label(hs[r[a] as int]),
    ) by {
        assert(before_fn(SortMode::Name, hs)(r[a], r[b]));
        lemma_lex_irreflexive(state_label(hs[r[a] as int]));
        if lex_lt(state_label(hs[r[a] as int]), state_label(hs[r[b] as int])) && lex_lt(
            state_label(hs[r[b] as int]),
            state_label(hs[r[a] as int]),
        ) {
            lemma_lex_transitive(
                state_label(hs[r[a] as int]),
                state_label(hs[r[b] as int]),
                state_label(hs[r[a] as int]),
            );
        }
    }
}

/// By-group lists hosts in group order, and each group's hosts by label.
pub proof fn law_group_order_lists_by_group(hs: Seq<HostStateView>, r: Seq<usize>)
    requires
        sorted_by(r, before_fn(SortMode::Group, hs)),
    ensures
        forall|a: int, b: int|
            #![trigger r[a], r[b]]
            0 <= a < b < r.len() ==> !lex_lt(hs[r[b] as int].group, hs[r[a] as int].group),
        forall|a: int, b: int|
            #![trigger r[a], r[b]]
            0 <= a < b < r.len() && hs[r[a] as int].group == hs[r[b] as int].group ==> !lex_lt(
                state_label(hs[r[b] as int]),
                state_label(hs[r[a] as int]),
            ),
{
    assert forall|a: int, b: int| #![trigger r[a], r[b]] 0 <= a < b < r.len() implies !lex_lt(
        hs[r[b] as int].group,
        hs[r[a] as int].group,
    ) && (hs[r[a] as int].group == hs[r[b] as int].group ==> !lex_lt(
        state_label(hs[r[b] as int]),
        state_label(hs[r[a] as int]),
    )) by {
        assert(before_fn(SortMode::Group, hs)(r[a], r[b]));
        let (ga, gb) = (hs[r[a] as int].group, hs[r[b] as int].group);
        let (la, lb) = (state_label(hs[r[a] as int]), state_label(hs[r[b] as int]));
        lemma_lex_irreflexive(ga);
        lemma_lex_irreflexive(la);
        if lex_lt(ga, gb) && lex_lt(gb, ga) {
            lemma_lex_transitive(ga, gb, ga);
        }
        if lex_lt(la, lb) && lex_lt(lb, la) {
            lemma_lex_transitive(la, lb, la);
        }
    }
}

/// The display label of every host, as characters.
pub fn host_labels(hosts: &Vec<HostState>) -> (r: Vec<Vec<char>>)
    ensures
        r.len() == hosts.len(),
        forall|i: int| 0 <= i < hosts.len() ==> #[trigger] r@[i]@ == state_label(hosts@[i]@),
{
    let mut r: Vec<Vec<char>> = Vec::new();
    let mut i: usize = 0;
    while i < hosts.len()
        invariant
            0 <= i <= hosts.len(),
            r.len() == i,
            forall|k: int| 0 <= k < i ==> #[trigger] r@[k]@ == state_label(hosts@[k]@),
        decreases hosts.len() - i,
    {
        let d = hosts[i].display_name();
        r.push(chars_of(d.as_str()));
        i += 1;
    }
    r
}

fn before_exec(
    mode: SortMode,
    hosts: &Vec<HostState>,
    labels: &Vec<Vec<char>>,
    i: usize,
    j: usize,
) -> (r: bool)
    requires
        i < hosts.len(),
        j < hosts.len(),
        labels.len() == hosts.len(),
        forall|k: int| 0 <= k < hosts.len() ==> #[trigger] labels@[k]@ == state_label(hosts@[k]@),
    ensures
        r == before(mode, state_views(hosts@), i, j),
{
    let ghost hs = state_views(hosts@);
    assert(hs[i as int] == hosts@[i as int]@ && hs[j as int] == hosts@[j as int]@);
    let c = compare_chars(&labels[i], &labels[j]);
    let by_label = c < 0 || (c == 0 && i < j);
    let ui = hosts[i].up;
    let uj = hosts[j].up;
    match mode {
        SortMode::DownFirst => (!ui && uj) || (ui == uj && by_label),
        SortMode::UpFirst => (ui && !uj) || (ui == uj && by_label),
        SortMode::Name => by_label,
        SortMode::Group => {
            let gi = chars_of(hosts[i].group.as_str());
            let gj = chars_of(hosts[j].group.as_str());
            let gc = compare_chars(&gi, &gj);
            gc < 0 || (gc == 0 && by_label)
        },
        _ => i < j,
    }
}

/// Orders the listed host indices for `mode`. The indices come in increasing
/// order; the modes without an ordering keep it.
pub fn sort_host_indices(indices: &mut Vec<usize>, hosts: &Vec<HostState>, mode: SortMode)
    requires
        increasing_below(old(indices)@, hosts.len() as int),
    ensures
        final(indices)@ == arrange(old(indices)@, before_fn(mode, state_views(hosts@))),
        sorted_by(final(indices)@, before_fn(mode, state_views(hosts@))),
        same_elems(final(indices)@, old(indices)@),
        final(indices).len() == old(indices).len(),
        forall|a: int| 0 <= a < final(indices).len() ==> #[trigger] final(indices)@[a] < hosts.len(),
{
    let ghost hs = state_views(hosts@);
    let ghost lt = before_fn(mode, hs);
    let ghost input = indices@;
    proof {
        lemma_before_strict_total(mode, hs, input);
    }
    if mode == SortMode::Off || mode == SortMode::DownOnly {
        assert(sorted_by(input, lt));
        assert(same_elems(input, input));
        proof {
            lemma_arrange_is(input, input, lt);
        }
        return;
    }
    let labels = host_labels(hosts);
    let n = indices.len();
    let mut out: Vec<usize> = Vec::new();
    let mut i: usize = 0;
    while i < n
        invariant
            0 <= i <= n == indices.len(),
            indices@ == input,
            increasing_below(input, hosts.len() as int),
            hs == state_views(hosts@),
            lt == before_fn(mode, hs),
            labels.len() == hosts.len(),
            forall|k: int| 0 <= k < hosts.len() ==> #[trigger] labels@[k]@ == state_label(hosts@[k]@),
            out.len() == i,
            sorted_by(out@, lt),
            same_elems(out@, input.take(i as int)),
            forall|a: int| 0 <= a < out.len() ==> #[trigger] out@[a] < hosts.len(),
        decreases n - i,
    {
        let x = indices[i];
        let mut p: usize = 0;
        while p < out.len() && !before_exec(mode, hosts, &labels, x, out[p])
            invariant
                0 <= p <= out.len() == i,
                i < n == indices.len(),
                indices@ == input,
                x == input[i as int],
                increasing_below(input, hosts.len() as int),
                hs == state_views(hosts@),
                lt == before_fn(mode, hs),
                labels.len() == hosts.len(),
                forall|k: int|
                    0 <= k < hosts.len() ==> #[trigger] labels@[k]@ == state_label(hosts@[k]@),
                same_elems(out@, input.take(i as int)),
                forall|a: int| 0 <= a < out.len() ==> #[trigger] out@[a] < hosts.len(),
                forall|k: int| 0 <= k < p ==> !lt(x, #[trigger] out@[k]),
            decreases out.len() - p,
        {
            p += 1;
        }
        let ghost old_out = out@;
        proof {
            // Every element already placed comes earlier in the input, so it
            // differs from `x` and is ordered against it.
            assert forall|k: int| 0 <= k < old_out.len() implies #[trigger] old_out[k] != x
                && old_out[k] < hosts.len() by {
                assert(old_out.contains(old_out[k]));
                assert(input.take(i as int).contains(old_out[k]));
                let m = choose|m: int| 0 <= m < i && input.take(i as int)[m] == old_out[k];
                assert(input[m] == old_out[k]);
            }
            assert forall|k: int| 0 <= k < p implies #[trigger] lt(old_out[k], x) by {
                lemma_before_order(mode, hs, x, old_out[k], x);
            }
            if p < old_out.len() {
                assert(lt(x, old_out[p as int]));
            }
        }
        out.insert(p, x);
        proof {
            let o = out@;
            assert forall|a: int| 0 <= a < o.len() implies #[trigger] o[a] < hosts.len() by {
                if a < p {
                    assert(o[a] == old_out[a]);
                } else if a > p {
                    assert(o[a] == old_out[a - 1]);
                }
            }
            assert(o == old_out.insert(p as int, x));
            assert forall|a: int, b: int| 0 <= a < b < o.len() implies #[trigger] lt(o[a], o[b]) by {
                if b < p {
                    assert(o[a] == old_out[a] && o[b] == old_out[b]);
                } else if b == p {
                    assert(o[a] == old_out[a]);
                } else if a < p {
                    assert(o[a] == old_out[a] && o[b] == old_out[b - 1]);
                    assert(lt(old_out[a], x));
                    assert(lt(x, old_out[p as int]));
                    if b - 1 > p {
                        assert(lt(old_out[p as int], old_out[b - 1]));
                        lemma_before_order(mode, hs, x, old_out[p as int], old_out[b - 1]);
                    }
                    lemma_before_order(mode, hs, old_out[a], x, old_out[b - 1]);
                } else if a == p {
                    assert(o[b] == old_out[b - 1]);
                    if b - 1 > p {
                        assert(lt(old_out[p as int], old_out[b - 1]));
                        lemma_before_order(mode, hs, x, old_out[p as int], old_out[b - 1]);
                    }
                } else {
                    assert(o[a] == old_out[a - 1] && o[b] == old_out[b - 1]);
                }
            }
            let ti = input.take(i as int);
            let tn = input.take(i + 1);
            assert(tn =~= ti.push(x));
            assert forall|y: usize| #[trigger] o.contains(y) <==> tn.contains(y) by {
                if o.contains(y) {
                    let k = choose|k: int| 0 <= k < o.len() && o[k] == y;
                    if k < p {
                        assert(old_out[k] == y);
                        assert(old_out.contains(y));
                        assert(ti.contains(y));
                        let m = choose|m: int| 0 <= m < ti.len() && ti[m] == y;
                        assert(tn[m] == y);
                    } else if k == p {
                        assert(tn[i as int] == y);
                    } else {
                        assert(old_out[k - 1] == y);
                        assert(old_out.contains(y));
                        assert(ti.contains(y));
                        let m = choose|m: int| 0 <= m < ti.len() && ti[m] == y;
                        assert(tn[m] == y);
                    }
                }
                if tn.contains(y) {
                    let m = choose|m: int| 0 <= m < tn.len() && tn[m] == y;
                    if m == i {
                        assert(o[p as int] == y);
                    } else {
                        assert(ti[m] == y);
                        assert(ti.contains(y));
                        assert(old_out.contains(y));
                        let k = choose|k: int| 0 <= k < old_out.len() && old_out[k] == y;
                        if k < p {
                            assert(o[k] == y);
                        } else {
                            assert(o[k + 1] == y);
                        }
                    }
                }
            }
        }
        i += 1;
    }
    proof {
        assert(input.take(n as int) =~= input);
        lemma_arrange_is(input, out@, lt);
    }
    *indices = out;
}

// ---------------------------------------------------------------------------
// Rows
// ---------------------------------------------------------------------------

#[derive(Debug)]
pub enum RowKind {
    GroupHeader { name: String, collapsed: bool, hidden: usize },
    Host,
}

/// One line of the host table: a section header or a host.
#[derive(Debug)]
pub struct VisibleRow {
    pub kind: RowKind,
    pub host_idx: Option<usize>,
}

pub ghost enum RowV {
    /// A header: its name, whether the group is collapsed, and how many
    /// hosts it hides.
    Header(Seq<char>, bool, usize),
    /// The host at this index.
    Host(usize),
    /// A row with a kind and index that do not fit together.
    Malformed,
}

impl View for VisibleRow {
    type V = RowV;

    open spec fn view(&self) -> RowV {
        match self.kind {
            RowKind::GroupHeader { name, collapsed, hidden } => if self.host_idx is None {
                RowV::Header(name@, collapsed, hidden)
            } else {
                RowV::Malformed
            },
            RowKind::Host => match self.host_idx {
                Some(i) => RowV::Host(i),
                None => RowV::Malformed,
            },
        }
    }
}

pub open spec fn row_views(s: Seq<VisibleRow>) -> Seq<RowV> {
    s.map_values(|r: VisibleRow| r@)
}

fn header_row(name: String, collapsed: bool, hidden: usize) -> (r: VisibleRow)
    ensures
        r@ == RowV::Header(name@, collapsed, hidden),
{
    VisibleRow { kind: RowKind::GroupHeader { name, collapsed, hidden }, host_idx: None }
}

fn host_row(i: usize) -> (r: VisibleRow)
    ensures
        r@ == RowV::Host(i),
{
    VisibleRow { kind: RowKind::Host, host_idx: Some(i) }
}

pub open spec fn host_rows(s: Seq<usize>) -> Seq<RowV> {
    s.map_values(|i: usize| RowV::Host(i))
}

pub open spec fn status_name(up: bool) -> Seq<char> {
    if up {
        "Up"@
    } else {
        "Down"@
    }
}

/// Host rows with an `Up`/`Down` header before each run of hosts that share
/// a status.
pub open spec fn status_rows(hs: Seq<HostStateView>, s: Seq<usize>) -> Seq<RowV>
    decreases s.len(),
{
    if s.len() == 0 {
        Seq::empty()
    } else {
        let i = s.last();
        let new_run = s.len() == 1 || hs[s[s.len() - 2] as int].up != hs[i as int].up;
        status_rows(hs, s.drop_last()) + (if new_run {
            seq![RowV::Header(status_name(hs[i as int].up), false, 0)]
        } else {
            Seq::empty()
        }) + seq![RowV::Host(i)]
    }
}

/// The section a host is shown under in the flat group and down-only views.
pub open spec fn section_name(mode: SortMode, h: HostStateView) -> Seq<char> {
    if mode == SortMode::DownOnly {
        "Down"@
    } else {
        norm_group(h)
    }
}

/// Host rows with a header before each run of hosts that share a section.
pub open spec fn section_rows(mode: SortMode, hs: Seq<HostStateView>, s: Seq<usize>) -> Seq<RowV>
    decreases s.len(),
{
    if s.len() == 0 {
        Seq::empty()
    } else {
        let i = s.last();
        let new_run = s.len() == 1 || section_name(mode, hs[s[s.len() - 2] as int])
            != section_name(mode, hs[i as int]);
        section_rows(mode, hs, s.drop_last()) + (if new_run {
            seq![RowV::Header(section_name(mode, hs[i as int]), false, 0)]
        } else {
            Seq::empty()
        }) + seq![RowV::Host(i)]
    }
}

/// The rows of the flat (ungrouped) view for hosts already ordered.
pub open spec fn flat_rows(mode: SortMode, hs: Seq<HostStateView>, sorted: Seq<usize>) -> Seq<RowV> {
    if mode == SortMode::DownFirst || mode == SortMode::UpFirst {
        status_rows(hs, sorted)
    } else if mode == SortMode::Group || mode == SortMode::DownOnly {
        section_rows(mode, hs, sorted)
    } else {
        host_rows(sorted)
    }
}

pub(crate) fn norm_group_chars(h: &HostState) -> (r: Vec<char>)
    ensures
        r@ == norm_group(h@),
{
    if h.group.as_str().is_empty() {
        chars_of(default_group().as_str())
    } else {
        chars_of(h.group.as_str())
    }
}

fn section_name_chars(mode: SortMode, h: &HostState) -> (r: Vec<char>)
    ensures
        r@ == section_name(mode, h@),
{
    if mode == SortMode::DownOnly {
        chars_of("Down")
    } else {
        norm_group_chars(h)
    }
}

fn build_flat_rows(hosts: &Vec<HostState>, sorted: &Vec<usize>, mode: SortMode) -> (r: Vec<
    VisibleRow,
>)
    requires
        forall|a: int| 0 <= a < sorted.len() ==> #[trigger] sorted@[a] < hosts.len(),
    ensures
        row_views(r@) == flat_rows(mode, state_views(hosts@), sorted@),
{
    let ghost hs = state_views(hosts@);
    let mut rows: Vec<VisibleRow> = Vec::new();
    let n = sorted.len();
    if mode == SortMode::DownFirst || mode == SortMode::UpFirst {
        let mut last_up: Option<bool> = None;
        let mut k: usize = 0;
        while k < n
            invariant
                0 <= k <= n == sorted.len(),
                hs == state_views(hosts@),
                forall|a: int| 0 <= a < sorted.len() ==> #[trigger] sorted@[a] < hosts.len(),
                row_views(rows@) == status_rows(hs, sorted@.take(k as int)),
                last_up == (if k == 0 {
                    None
                } else {
                    Some(hs[sorted@[k - 1] as int].up)
                }),
            decreases n - k,
        {
            let idx = sorted[k];
            let up = hosts[idx].up;
            assert(hs[idx as int] == hosts@[idx as int]@);
            let ghost t = sorted@.take(k + 1);
            assert(t.drop_last() =~= sorted@.take(k as int));
            assert(t.last() == idx);
            if k > 0 {
                assert(t[t.len() - 2] == sorted@[k - 1]);
            }
            let ghost before_rows = row_views(rows@);
            if last_up != Some(up) {
                let name = if up {
                    "Up".to_owned()
                } else {
                    "Down".to_owned()
                };
                rows.push(header_row(name, false, 0));
                last_up = Some(up);
            }
            rows.push(host_row(idx));
            assert(row_views(rows@) =~= status_rows(hs, t));
            k += 1;
        }
        assert(sorted@.take(n as int) =~= sorted@);
    } else if mode == SortMode::Group || mode == SortMode::DownOnly {
        let mut last: Option<Vec<char>> = None;
        let mut k: usize = 0;
        while k < n
            invariant
                0 <= k <= n == sorted.len(),
                hs == state_views(hosts@),
                mode == SortMode::Group || mode == SortMode::DownOnly,
                forall|a: int| 0 <= a < sorted.len() ==> #[trigger] sorted@[a] < hosts.len(),
                row_views(rows@) == section_rows(mode, hs, sorted@.take(k as int)),
                k == 0 <==> last is None,
                k > 0 ==> (last matches Some(l) && l@ == section_name(
                    mode,
                    hs[sorted@[k - 1] as int],
                )),
            decreases n - k,
        {
            let idx = sorted[k];
            assert(hs[idx as int] == hosts@[idx as int]@);
            let header = section_name_chars(mode, &hosts[idx]);
            let ghost t = sorted@.take(k + 1);
            assert(t.drop_last() =~= sorted@.take(k as int));
            assert(t.last() == idx);
            if k > 0 {
                assert(t[t.len() - 2] == sorted@[k - 1]);
            }
            let same = match &last {
                Some(l) => chars_eq(l, &header),
                None => false,
            };
            if !same {
                rows.push(header_row(string_from_chars(&header), false, 0));
            }
            rows.push(host_row(idx));
            assert(row_views(rows@) =~= section_rows(mode, hs, t));
            last = Some(header);
            k += 1;
        }
        assert(sorted@.take(n as int) =~= sorted@);
    } else {
        let mut k: usize = 0;
        while k < n
            invariant
                0 <= k <= n == sorted.len(),
                rows.len() == k,
                row_views(rows@) == host_rows(sorted@.take(k as int)),
            decreases n - k,
        {
            let ghost prev = rows@;
            rows.push(host_row(sorted[k]));
            assert(rows@ == prev.push(rows@[k as int]));
            assert(row_views(rows@) =~= host_rows(sorted@.take(k + 1))) by {
                assert forall|a: int| 0 <= a < k + 1 implies row_views(rows@)[a] == host_rows(
                    sorted@.take(k + 1),
                )[a] by {
                    if a < k {
                        assert(row_views(rows@)[a] == row_views(prev)[a]);
                    }
                }
            }
            k += 1;
        }
        assert(sorted@.take(n as int) =~= sorted@);
    }
    rows
}

// ---------------------------------------------------------------------------
// Grouped view
// ---------------------------------------------------------------------------

pub open spec fn char_views(s: Seq<Vec<char>>) -> Seq<Seq<char>> {
    s.map_values(|v: Vec<char>| v@)
}

/// The group of each listed host, in listing order (with repeats).
pub open spec fn group_names(hs: Seq<HostStateView>, vis: Seq<usize>) -> Seq<Seq<char>> {
    vis.map_values(|i: usize| norm_group(hs[i as int]))
}

/// Some listed host of group `g` is down.
pub open spec fn has_down(hs: Seq<HostStateView>, vis: Seq<usize>, g: Seq<char>) -> bool {
    exists|k: int|
        0 <= k < vis.len() && norm_group(hs[vis[k] as int]) == g && !hs[#[trigger] vis[k] as int].up
}

/// Groups with a down host come first; then by name.
pub open spec fn group_before(hs: Seq<HostStateView>, vis: Seq<usize>, a: Seq<char>, b: Seq<char>) -> bool {
    (has_down(hs, vis, a) && !has_down(hs, vis, b)) || (has_down(hs, vis, a) == has_down(
        hs,
        vis,
        b,
    ) && lex_lt(a, b))
}

pub open spec fn group_lt(hs: Seq<HostStateView>, vis: Seq<usize>) -> spec_fn(Seq<char>, Seq<char>) -> bool {
    |a: Seq<char>, b: Seq<char>| group_before(hs, vis, a, b)
}

/// The groups of the listed hosts, each once, in display order.
pub open spec fn group_order(hs: Seq<HostStateView>, vis: Seq<usize>) -> Seq<Seq<char>> {
    arrange(group_names(hs, vis), group_lt(hs, vis))
}

/// The listed hosts of group `g`, in listing order.
pub open spec fn members(hs: Seq<HostStateView>, vis: Seq<usize>, g: Seq<char>) -> Seq<usize>
    decreases vis.len(),
{
    if vis.len() == 0 {
        Seq::empty()
    } else {
        let prev = members(hs, vis.drop_last(), g);
        if norm_group(hs[vis.last() as int]) == g {
            prev.push(vis.last())
        } else {
            prev
        }
    }
}

/// Inside a group the default order is down-first; an explicit mode wins.
pub open spec fn inner_mode(mode: SortMode) -> SortMode {
    if mode == SortMode::Off {
        SortMode::DownFirst
    } else {
        mode
    }
}

/// A group's header, then its ordered hosts unless it is collapsed; a
/// collapsed header counts the hosts it hides.
pub open spec fn group_block(
    hs: Seq<HostStateView>,
    vis: Seq<usize>,
    mode: SortMode,
    collapsed: Seq<Seq<char>>,
    g: Seq<char>,
) -> Seq<RowV> {
    let m = arrange(members(hs, vis, g), before_fn(inner_mode(mode), hs));
    if collapsed.contains(g) {
        seq![RowV::Header(g, true, m.len() as usize)]
    } else {
        seq![RowV::Header(g, false, 0)] + host_rows(m)
    }
}

pub open spec fn grouped_rows(
    hs: Seq<HostStateView>,
    vis: Seq<usize>,
    mode: SortMode,
    collapsed: Seq<Seq<char>>,
    order: Seq<Seq<char>>,
) -> Seq<RowV>
    decreases order.len(),
{
    if order.len() == 0 {
        Seq::empty()
    } else {
        grouped_rows(hs, vis, mode, collapsed, order.drop_last()) + group_block(
            hs,
            vis,
            mode,
            collapsed,
            order.last(),
        )
    }
}

/// The rows of the host table.
pub open spec fn visible_rows(
    hs: Seq<HostStateView>,
    group_by: bool,
    group_filter: Option<Seq<char>>,
    mode: SortMode,
    search: Option<Seq<char>>,
    collapsed: Seq<Seq<char>>,
) -> Seq<RowV> {
    let vis = listed_upto(hs, group_filter, mode, search, hs.len() as int);
    if !group_by {
        flat_rows(mode, hs, arrange(vis, before_fn(mode, hs)))
    } else {
        grouped_rows(hs, vis, mode, collapsed, group_order(hs, vis))
    }
}

proof fn lemma_has_down_push(hs: Seq<HostStateView>, t: Seq<usize>, x: usize, g: Seq<char>)
    ensures
        has_down(hs, t.push(x), g) == (has_down(hs, t, g) || (norm_group(hs[x as int]) == g
            && !hs[x as int].up)),
{
    let u = t.push(x);
    if has_down(hs, u, g) {
        let k = choose|k: int|
            0 <= k < u.len() && norm_group(hs[u[k] as int]) == g && !hs[#[trigger] u[k] as int].up;
        if k < t.len() {
            assert(u[k] == t[k]);
        }
    }
    if has_down(hs, t, g) {
        let k = choose|k: int|
            0 <= k < t.len() && norm_group(hs[t[k] as int]) == g && !hs[#[trigger] t[k] as int].up;
        assert(u[k] == t[k]);
    }
    if norm_group(hs[x as int]) == g && !hs[x as int].up {
        assert(u[t.len() as int] == x);
    }
}

proof fn lemma_group_lt_total(hs: Seq<HostStateView>, vis: Seq<usize>, s: Seq<Seq<char>>)
    ensures
        strict_total_on(s, group_lt(hs, vis)),
{
    let lt = group_lt(hs, vis);
    assert forall|x: Seq<char>| s.contains(x) implies !#[trigger] lt(x, x) by {
        lemma_lex_irreflexive(x);
    }
    assert forall|x: Seq<char>, y: Seq<char>, z: Seq<char>|
        s.contains(x) && s.contains(y) && s.contains(z) && #[trigger] lt(x, y) && #[trigger] lt(
            y,
            z,
        ) implies lt(x, z) by {
        if lex_lt(x, y) && lex_lt(y, z) {
            lemma_lex_transitive(x, y, z);
        }
    }
    assert forall|x: Seq<char>, y: Seq<char>|
        s.contains(x) && s.contains(y) && x != y implies #[trigger] lt(x, y) || #[trigger] lt(
            y,
            x,
        ) by {
        lemma_lex_total(x, y);
    }
}

proof fn lemma_members(hs: Seq<HostStateView>, vis: Seq<usize>, g: Seq<char>, n: int)
    requires
        increasing_below(vis, n),
    ensures
        increasing_below(members(hs, vis, g), n),
        forall|x: usize| #[trigger]
            members(hs, vis, g).contains(x) <==> (vis.contains(x) && norm_group(hs[x as int]) == g),
    decreases vis.len(),
{
    if vis.len() > 0 {
        let d = vis.drop_last();
        assert(increasing_below(d, n)) by {
            assert forall|a: int, b: int| 0 <= a < b < d.len() implies d[a] < d[b] by {
                assert(d[a] == vis[a] && d[b] == vis[b]);
            }
            assert forall|a: int| 0 <= a < d.len() implies #[trigger] d[a] < n by {
                assert(d[a] == vis[a]);
            }
        }
        lemma_members(hs, d, g, n);
        let prev = members(hs, d, g);
        let cur = members(hs, vis, g);
        let x0 = vis.last();
        assert forall|a: int| 0 <= a < prev.len() implies prev[a] < x0 by {
            assert(prev.contains(prev[a]));
            assert(d.contains(prev[a]));
            let k = choose|k: int| 0 <= k < d.len() && d[k] == prev[a];
            assert(vis[k] < vis[vis.len() - 1]);
        }
        if norm_group(hs[x0 as int]) == g {
            assert(cur == prev.push(x0));
            assert forall|a: int, b: int| 0 <= a < b < cur.len() implies cur[a] < cur[b] by {
                if b < prev.len() {
                    assert(cur[a] == prev[a] && cur[b] == prev[b]);
                } else {
                    assert(cur[a] == prev[a]);
                }
            }
            assert forall|a: int| 0 <= a < cur.len() implies #[trigger] cur[a] < n by {
                if a < prev.len() {
                    assert(cur[a] == prev[a]);
                    assert(prev[a] < n);
                }
            }
        }
        assert forall|x: usize| #[trigger] cur.contains(x) <==> (vis.contains(x) && norm_group(
            hs[x as int],
        ) == g) by {
            if cur.contains(x) {
                let k = choose|k: int| 0 <= k < cur.len() && cur[k] == x;
                if k < prev.len() && norm_group(hs[x0 as int]) == g {
                    assert(prev[k] == x);
                    assert(prev.contains(x));
                } else if norm_group(hs[x0 as int]) != g {
                    assert(prev.contains(x));
                }
                if prev.contains(x) {
                    let m = choose|m: int| 0 <= m < d.len() && d[m] == x;
                    assert(vis[m] == x);
                }
            }
            if vis.contains(x) && norm_group(hs[x as int]) == g {
                let m = choose|m: int| 0 <= m < vis.len() && vis[m] == x;
                if m < d.len() {
                    assert(d[m] == x);
                    assert(prev.contains(x));
                    let k = choose|k: int| 0 <= k < prev.len() && prev[k] == x;
                    if norm_group(hs[x0 as int]) == g {
                        assert(cur[k] == x);
                    }
                } else {
                    assert(cur[cur.len() - 1] == x);
                }
            }
        }
    }
}

/// The distinct groups of the listed hosts, in first-appearance order, each
/// with whether any of its listed hosts is down.
fn distinct_groups(hosts: &Vec<HostState>, vis: &Vec<usize>) -> (r: (Vec<Vec<char>>, Vec<bool>))
    requires
        forall|a: int| 0 <= a < vis.len() ==> #[trigger] vis@[a] < hosts.len(),
    ensures
        r.0.len() == r.1.len(),
        same_elems(char_views(r.0@), group_names(state_views(hosts@), vis@)),
        forall|a: int, b: int| 0 <= a < b < r.0.len() ==> r.0@[a]@ != r.0@[b]@,
        forall|p: int|
            0 <= p < r.0.len() ==> #[trigger] r.1@[p] == has_down(
                state_views(hosts@),
                vis@,
                r.0@[p]@,
            ),
{
    let ghost hs = state_views(hosts@);
    let mut names: Vec<Vec<char>> = Vec::new();
    let mut downs: Vec<bool> = Vec::new();
    let mut k: usize = 0;
    while k < vis.len()
        invariant
            0 <= k <= vis.len(),
            hs == state_views(hosts@),
            forall|a: int| 0 <= a < vis.len() ==> #[trigger] vis@[a] < hosts.len(),
            names.len() == downs.len(),
            same_elems(char_views(names@), group_names(hs, vis@.take(k as int))),
            forall|a: int, b: int| 0 <= a < b < names.len() ==> names@[a]@ != names@[b]@,
            forall|p: int|
                0 <= p < names.len() ==> #[trigger] downs@[p] == has_down(
                    hs,
                    vis@.take(k as int),
                    names@[p]@,
                ),
        decreases vis.len() - k,
    {
        let idx = vis[k];
        assert(hs[idx as int] == hosts@[idx as int]@);
        let g = norm_group_chars(&hosts[idx]);
        let down = !hosts[idx].up;
        let ghost t = vis@.take(k as int);
        let ghost t2 = vis@.take(k + 1);
        assert(t2 =~= t.push(idx));
        assert(group_names(hs, t2) =~= group_names(hs, t).push(g@));
        proof {
            assert forall|q: Seq<char>| true implies has_down(hs, t2, q) == (has_down(hs, t, q) || (
            norm_group(hs[idx as int]) == q && !hs[idx as int].up)) by {
                lemma_has_down_push(hs, t, idx, q);
            }
        }
        let mut p: usize = 0;
        while p < names.len() && !chars_eq(&names[p], &g)
            invariant
                0 <= p <= names.len(),
                forall|a: int| 0 <= a < p ==> (#[trigger] names@[a])@ != g@,
            decreases names.len() - p,
        {
            p += 1;
        }
        let found = p < names.len();
        let ghost old_names = names@;
        let ghost old_downs = downs@;
        if found {
            let d = downs[p] || down;
            downs.set(p, d);
            proof {
                assert(char_views(names@) == char_views(old_names));
                assert forall|x: Seq<char>| #[trigger] char_views(names@).contains(x)
                    <==> group_names(hs, t2).contains(x) by {
                    if group_names(hs, t2).contains(x) {
                        let m = choose|m: int| 0 <= m < group_names(hs, t2).len() && group_names(
                            hs,
                            t2,
                        )[m] == x;
                        if m < t.len() {
                            assert(group_names(hs, t)[m] == x);
                            assert(group_names(hs, t).contains(x));
                        } else {
                            assert(char_views(names@)[p as int] == x);
                        }
                    }
                    if char_views(names@).contains(x) {
                        assert(char_views(old_names).contains(x));
                        assert(group_names(hs, t).contains(x));
                        let m = choose|m: int| 0 <= m < group_names(hs, t).len() && group_names(
                            hs,
                            t,
                        )[m] == x;
                        assert(group_names(hs, t2)[m] == x);
                    }
                }
            }
        } else {
            names.push(g);
            downs.push(down);
            proof {
                assert forall|x: Seq<char>| #[trigger] char_views(names@).contains(x)
                    <==> group_names(hs, t2).contains(x) by {
                    if group_names(hs, t2).contains(x) {
                        let m = choose|m: int| 0 <= m < group_names(hs, t2).len() && group_names(
                            hs,
                            t2,
                        )[m] == x;
                        if m < t.len() {
                            assert(group_names(hs, t)[m] == x);
                            assert(group_names(hs, t).contains(x));
                            assert(char_views(old_names).contains(x));
                            let j = choose|j: int| 0 <= j < old_names.len() && char_views(
                                old_names,
                            )[j] == x;
                            assert(char_views(names@)[j] == x);
                        } else {
                            assert(char_views(names@)[old_names.len() as int] == x);
                        }
                    }
                    if char_views(names@).contains(x) {
                        let j = choose|j: int| 0 <= j < names.len() && char_views(names@)[j] == x;
                        if j < old_names.len() {
                            assert(char_views(old_names)[j] == x);
                            assert(char_views(old_names).contains(x));
                            assert(group_names(hs, t).contains(x));
                            let m = choose|m: int| 0 <= m < group_names(hs, t).len() && group_names(
                                hs,
                                t,
                            )[m] == x;
                            assert(group_names(hs, t2)[m] == x);
                        } else {
                            assert(group_names(hs, t2)[t.len() as int] == x);
                        }
                    }
                }
                assert forall|a: int| 0 <= a < old_names.len() implies char_views(old_names)[a]
                    != g@ by {
                    assert(char_views(old_names)[a] == old_names[a]@);
                }
                assert(!char_views(old_names).contains(g@));
                assert(!group_names(hs, t).contains(g@));
                assert(!has_down(hs, t, g@)) by {
                    if has_down(hs, t, g@) {
                        let m = choose|m: int|
                            0 <= m < t.len() && norm_group(hs[t[m] as int]) == g@ && !hs[#[trigger] t[m] as int].up;
                        assert(group_names(hs, t)[m] == g@);
                    }
                }
            }
        }
        k += 1;
    }
    assert(vis@.take(vis.len() as int) =~= vis@);
    (names, downs)
}

fn group_before_exec(a: &Vec<char>, da: bool, b: &Vec<char>, db: bool) -> (r: bool)
    ensures
        r == ((da && !db) || (da == db && lex_lt(a@, b@))),
{
    (da && !db) || (da == db && compare_chars(a, b) < 0)
}

/// Orders distinct group names: groups with a down host first, then by name.
fn sort_groups(
    names: &Vec<Vec<char>>,
    downs: &Vec<bool>,
    Ghost(hs): Ghost<Seq<HostStateView>>,
    Ghost(vis): Ghost<Seq<usize>>,
) -> (r: Vec<Vec<char>>)
    requires
        names.len() == downs.len(),
        forall|a: int, b: int| 0 <= a < b < names.len() ==> names@[a]@ != names@[b]@,
        forall|p: int| 0 <= p < names.len() ==> #[trigger] downs@[p] == has_down(hs, vis, names@[p]@),
    ensures
        sorted_by(char_views(r@), group_lt(hs, vis)),
        same_elems(char_views(r@), char_views(names@)),
{
    let ghost lt = group_lt(hs, vis);
    let n = names.len();
    let mut out: Vec<Vec<char>> = Vec::new();
    let mut outd: Vec<bool> = Vec::new();
    let mut i: usize = 0;
    while i < n
        invariant
            0 <= i <= n == names.len() == downs.len(),
            lt == group_lt(hs, vis),
            forall|a: int, b: int| 0 <= a < b < names.len() ==> names@[a]@ != names@[b]@,
            forall|p: int| 0 <= p < names.len() ==> #[trigger] downs@[p] == has_down(hs, vis, names@[p]@),
            out.len() == outd.len(),
            forall|p: int| 0 <= p < out.len() ==> #[trigger] outd@[p] == has_down(hs, vis, out@[p]@),
            sorted_by(char_views(out@), lt),
            same_elems(char_views(out@), char_views(names@.take(i as int))),
        decreases n - i,
    {
        let x = names[i].clone();
        let dx = downs[i];
        assert(x@ == names@[i as int]@);
        let mut p: usize = 0;
        while p < out.len() && !group_before_exec(&x, dx, &out[p], outd[p])
            invariant
                0 <= p <= out.len() == outd.len(),
                lt == group_lt(hs, vis),
                dx == has_down(hs, vis, x@),
                forall|q: int| 0 <= q < out.len() ==> #[trigger] outd@[q] == has_down(hs, vis, out@[q]@),
                forall|k: int| 0 <= k < p ==> !lt(x@, #[trigger] char_views(out@)[k]),
            decreases out.len() - p,
        {
            p += 1;
        }
        let ghost old_out = char_views(out@);
        let ghost ti = char_views(names@.take(i as int));
        let ghost tn = char_views(names@.take(i + 1));
        assert(tn =~= ti.push(x@));
        proof {
            lemma_group_lt_total(hs, vis, old_out.push(x@));
            assert forall|k: int| 0 <= k < old_out.len() implies #[trigger] old_out[k] != x@ by {
                assert(old_out.contains(old_out[k]));
                assert(ti.contains(old_out[k]));
                let m = choose|m: int| 0 <= m < ti.len() && ti[m] == old_out[k];
                assert(names@[m]@ == old_out[k]);
            }
            assert forall|k: int| 0 <= k < p implies #[trigger] lt(old_out[k], x@) by {
                assert(old_out.push(x@)[k] == old_out[k]);
                assert(old_out.push(x@).contains(old_out[k]));
                assert(old_out.push(x@)[old_out.len() as int] == x@);
                assert(old_out.push(x@).contains(x@));
            }
            if p < old_out.len() {
                assert(lt(x@, old_out[p as int]));
            }
        }
        out.insert(p, x);
        outd.insert(p, dx);
        proof {
            let o = char_views(out@);
            assert(o =~= old_out.insert(p as int, x@));
            let all = old_out.push(x@);
            assert forall|a: int, b: int| 0 <= a < b < o.len() implies #[trigger] lt(o[a], o[b]) by {
                assert(all.contains(o[a])) by {
                    if a < p {
                        assert(all[a] == o[a]);
                    } else if a == p {
                        assert(all[old_out.len() as int] == o[a]);
                    } else {
                        assert(all[a - 1] == o[a]);
                    }
                }
                assert(all.contains(o[b])) by {
                    if b < p {
                        assert(all[b] == o[b]);
                    } else if b == p {
                        assert(all[old_out.len() as int] == o[b]);
                    } else {
                        assert(all[b - 1] == o[b]);
                    }
                }
                if b < p {
                    assert(o[a] == old_out[a] && o[b] == old_out[b]);
                } else if b == p {
                    assert(o[a] == old_out[a]);
                } else if a < p {
                    assert(o[a] == old_out[a] && o[b] == old_out[b - 1]);
                    assert(lt(old_out[a], x@));
                    if b - 1 > p {
                        assert(lt(old_out[p as int], old_out[b - 1]));
                        assert(all[p as int] == old_out[p as int]);
                        assert(all.contains(old_out[p as int]));
                    }
                    assert(all[old_out.len() as int] == x@);
                    assert(all.contains(x@));
                } else if a == p {
                    assert(o[b] == old_out[b - 1]);
                    if b - 1 > p {
                        assert(lt(old_out[p as int], old_out[b - 1]));
                        assert(all[p as int] == old_out[p as int]);
                        assert(all.contains(old_out[p as int]));
                    }
                } else {
                    assert(o[a] == old_out[a - 1] && o[b] == old_out[b - 1]);
                }
            }
            assert forall|y: Seq<char>| #[trigger] o.contains(y) <==> tn.contains(y) by {
                if o.contains(y) {
                    let k = choose|k: int| 0 <= k < o.len() && o[k] == y;
                    if k < p {
                        assert(old_out[k] == y);
                        assert(old_out.contains(y));
                        assert(ti.contains(y));
                        let m = choose|m: int| 0 <= m < ti.len() && ti[m] == y;
                        assert(tn[m] == y);
                    } else if k == p {
                        assert(tn[i as int] == y);
                    } else {
                        assert(old_out[k - 1] == y);
                        assert(old_out.contains(y));
                        assert(ti.contains(y));
                        let m = choose|m: int| 0 <= m < ti.len() && ti[m] == y;
                        assert(tn[m] == y);
                    }
                }
                if tn.contains(y) {
                    let m = choose|m: int| 0 <= m < tn.len() && tn[m] == y;
                    if m == i {
                        assert(o[p as int] == y);
                    } else {
                        assert(ti[m] == y);
                        assert(ti.contains(y));
                        assert(old_out.contains(y));
                        let k = choose|k: int| 0 <= k < old_out.len() && old_out[k] == y;
                        if k < p {
                            assert(o[k] == y);
                        } else {
                            assert(o[k + 1] == y);
                        }
                    }
                }
            }
            assert forall|q: int| 0 <= q < out.len() implies #[trigger] outd@[q] == has_down(
                hs,
                vis,
                out@[q]@,
            ) by {
                if q > p {
                    assert(out@[q]@ == old_out[q - 1]);
                }
            }
        }
        i += 1;
    }
    assert(names@.take(n as int) =~= names@);
    out
}

fn group_members(hosts: &Vec<HostState>, vis: &Vec<usize>, g: &Vec<char>) -> (r: Vec<usize>)
    requires
        forall|a: int| 0 <= a < vis.len() ==> #[trigger] vis@[a] < hosts.len(),
    ensures
        r@ == members(state_views(hosts@), vis@, g@),
{
    let ghost hs = state_views(hosts@);
    let mut r: Vec<usize> = Vec::new();
    let mut k: usize = 0;
    while k < vis.len()
        invariant
            0 <= k <= vis.len(),
            hs == state_views(hosts@),
            forall|a: int| 0 <= a < vis.len() ==> #[trigger] vis@[a] < hosts.len(),
            r@ == members(hs, vis@.take(k as int), g@),
        decreases vis.len() - k,
    {
        let idx = vis[k];
        assert(hs[idx as int] == hosts@[idx as int]@);
        let ng = norm_group_chars(&hosts[idx]);
        assert(vis@.take(k + 1).drop_last() =~= vis@.take(k as int));
        if chars_eq(&ng, g) {
            r.push(idx);
        }
        k += 1;
    }
    assert(vis@.take(vis.len() as int) =~= vis@);
    r
}

/// Whether `g` is one of the `names`.
pub fn names_contain(names: &Vec<String>, g: &Vec<char>) -> (r: bool)
    ensures
        r == crate::config::string_views(names@).contains(g@),
{
    let mut i: usize = 0;
    while i < names.len()
        invariant
            0 <= i <= names.len(),
            forall|k: int| 0 <= k < i ==> names@[k]@ != g@,
        decreases names.len() - i,
    {
        let v = chars_of(names[i].as_str());
        if chars_eq(&v, g) {
            assert(crate::config::string_views(names@)[i as int] == g@);
            return true;
        }
        i += 1;
    }
    assert forall|k: int| 0 <= k < names.len() implies crate::config::string_views(names@)[k]
        != g@ by {}
    false
}

/// The rows of the host table: listed hosts in the order of `sort_mode`,
/// with section headers; in the grouped view, one block per group.
pub fn build_visible_rows(
    hosts: &Vec<HostState>,
    group_by: bool,
    group_filter: Option<&str>,
    sort_mode: SortMode,
    search: Option<&str>,
    collapsed: &Vec<String>,
) -> (r: Vec<VisibleRow>)
    ensures
        row_views(r@) == visible_rows(
            state_views(hosts@),
            group_by,
            opt_str(group_filter),
            sort_mode,
            opt_str(search),
            crate::config::string_views(collapsed@),
        ),
{
    let ghost hs = state_views(hosts@);
    let vis = listed_indices(hosts, group_filter, sort_mode, search);
    proof {
        lemma_listed_upto(hs, opt_str(group_filter), sort_mode, opt_str(search), hosts.len() as int);
    }
    if !group_by {
        let mut sorted = vis;
        sort_host_indices(&mut sorted, hosts, sort_mode);
        return build_flat_rows(hosts, &sorted, sort_mode);
    }
    let (names, downs) = distinct_groups(hosts, &vis);
    let order = sort_groups(&names, &downs, Ghost(hs), Ghost(vis@));
    proof {
        lemma_group_lt_total(hs, vis@, group_names(hs, vis@));
        lemma_arrange_is(group_names(hs, vis@), char_views(order@), group_lt(hs, vis@));
    }
    let ghost cv = crate::config::string_views(collapsed@);
    let mut rows: Vec<VisibleRow> = Vec::new();
    let inner = if sort_mode == SortMode::Off {
        SortMode::DownFirst
    } else {
        sort_mode
    };
    let mut t: usize = 0;
    while t < order.len()
        invariant
            0 <= t <= order.len(),
            hs == state_views(hosts@),
            cv == crate::config::string_views(collapsed@),
            inner == inner_mode(sort_mode),
            increasing_below(vis@, hosts.len() as int),
            row_views(rows@) == grouped_rows(hs, vis@, sort_mode, cv, char_views(order@).take(t as int)),
        decreases order.len() - t,
    {
        let g = &order[t];
        let mut mem = group_members(hosts, &vis, g);
        proof {
            lemma_members(hs, vis@, g@, hosts.len() as int);
        }
        sort_host_indices(&mut mem, hosts, inner);
        let ghost prev = row_views(rows@);
        let ghost ot = char_views(order@).take(t + 1);
        assert(ot.drop_last() =~= char_views(order@).take(t as int));
        assert(ot.last() == g@);
        if names_contain(collapsed, g) {
            rows.push(header_row(string_from_chars(g), true, mem.len()));
            assert(row_views(rows@) =~= prev + group_block(hs, vis@, sort_mode, cv, g@));
        } else {
            rows.push(header_row(string_from_chars(g), false, 0));
            let mut k: usize = 0;
            while k < mem.len()
                invariant
                    0 <= k <= mem.len(),
                    row_views(rows@) == prev + seq![RowV::Header(g@, false, 0)] + host_rows(
                        mem@.take(k as int),
                    ),
                decreases mem.len() - k,
            {
                let ghost before_push = row_views(rows@);
                rows.push(host_row(mem[k]));
                assert(row_views(rows@) =~= before_push.push(RowV::Host(mem@[k as int])));
                assert(host_rows(mem@.take(k + 1)) =~= host_rows(mem@.take(k as int)).push(
                    RowV::Host(mem@[k as int]),
                ));
                assert(row_views(rows@) =~= prev + seq![RowV::Header(g@, false, 0)] + host_rows(
                    mem@.take(k + 1),
                ));
                k += 1;
            }
            assert(mem@.take(mem.len() as int) =~= mem@);
            assert(row_views(rows@) =~= prev + group_block(hs, vis@, sort_mode, cv, g@));
        }
        t += 1;
    }
    assert(char_views(order@).take(order.len() as int) =~= char_views(order@));
    rows
}

// ---------------------------------------------------------------------------
// Selection
// ---------------------------------------------------------------------------

/// The host a row shows, if it is a host row.
pub open spec fn row_host(v: RowV) -> Option<usize> {
    match v {
        RowV::Host(i) => Some(i),
        _ => None,
    }
}

/// For each row, the host it shows.
pub open spec fn shown_hosts(s: Seq<RowV>) -> Seq<Option<usize>> {
    s.map_values(|v: RowV| row_host(v))
}

pub open spec fn row_hosts(rows: Seq<VisibleRow>) -> Seq<Option<usize>> {
    shown_hosts(row_views(rows))
}

fn row_host_of(r: &VisibleRow) -> (h: Option<usize>)
    ensures
        h == row_host(r@),
{
    match r.kind {
        RowKind::Host => r.host_idx,
        RowKind::GroupHeader { .. } => None,
    }
}

/// The first position at or after `i` that shows host `sel`.
pub open spec fn pos_from(s: Seq<Option<usize>>, sel: usize, i: int) -> Option<int>
    decreases s.len() - i,
{
    if i < 0 || i >= s.len() {
        None
    } else if s[i] == Some(sel) {
        Some(i)
    } else {
        pos_from(s, sel, i + 1)
    }
}

/// The last position before `p` that shows a host.
pub open spec fn prev_host(s: Seq<Option<usize>>, p: int) -> Option<int>
    decreases p,
{
    if p <= 0 {
        None
    } else if s[p - 1] is Some {
        Some(p - 1)
    } else {
        prev_host(s, p - 1)
    }
}

/// The first position after `p` that shows a host.
pub open spec fn next_host(s: Seq<Option<usize>>, p: int) -> Option<int>
    decreases s.len() - p,
{
    if p + 1 >= s.len() || p < -1 {
        None
    } else if s[p + 1] is Some {
        Some(p + 1)
    } else {
        next_host(s, p + 1)
    }
}

proof fn lemma_pos_from_range(s: Seq<Option<usize>>, sel: usize, i: int)
    ensures
        pos_from(s, sel, i) matches Some(p) ==> i <= p < s.len() && s[p] == Some(sel),
    decreases s.len() - i,
{
    if 0 <= i < s.len() && s[i] != Some(sel) {
        lemma_pos_from_range(s, sel, i + 1);
    }
}

fn position_from(rows: &Vec<VisibleRow>, sel: usize) -> (r: Option<usize>)
    ensures
        match pos_from(row_hosts(rows@), sel, 0) {
            Some(p) => r == Some(p as usize) && 0 <= p < rows.len(),
            None => r is None,
        },
{
    proof {
        lemma_pos_from_range(row_hosts(rows@), sel, 0);
    }
    let ghost s = row_hosts(rows@);
    let mut i: usize = 0;
    while i < rows.len()
        invariant
            0 <= i <= rows.len(),
            s == row_hosts(rows@),
            pos_from(s, sel, 0) == pos_from(s, sel, i as int),
        decreases rows.len() - i,
    {
        assert(s[i as int] == row_host(rows@[i as int]@));
        if row_host_of(&rows[i]) == Some(sel) {
            return Some(i);
        }
        i += 1;
    }
    None
}

/// The position of the row showing host `selected_idx`, if any.
pub fn selected_visible_position(rows: &Vec<VisibleRow>, selected_idx: usize) -> (r: Option<usize>)
    ensures
        match pos_from(row_hosts(rows@), selected_idx, 0) {
            Some(p) => r == Some(p as usize),
            None => r is None,
        },
{
    position_from(rows, selected_idx)
}

/// Moving the selection one host up or down: the host shown on the nearest
/// host row above (or below) the selected one, and the table position of
/// that host's row. `None` when the selection is not shown or no host row
/// lies in that direction.
pub open spec fn selection_step(rows: Seq<VisibleRow>, selected: usize, up: bool) -> Option<(usize, Option<usize>)> {
    host_step(row_hosts(rows), selected, up)
}

/// `selection_step` over the hosts the rows show.
pub open spec fn host_step(s: Seq<Option<usize>>, selected: usize, up: bool) -> Option<(usize, Option<usize>)> {
    match pos_from(s, selected, 0) {
        None => None,
        Some(p) => match (if up {
            prev_host(s, p)
        } else {
            next_host(s, p)
        }) {
            None => None,
            Some(i) => {
                let idx = s[i]->0;
                Some(
                    (
                        idx,
                        match pos_from(s, idx, 0) {
                            Some(q) => Some(q as usize),
                            None => None,
                        },
                    ),
                )
            },
        },
    }
}

pub fn move_selection(rows: &Vec<VisibleRow>, selected: usize, up: bool) -> (r: Option<
    (usize, Option<usize>),
>)
    ensures
        r == selection_step(rows@, selected, up),
{
    let ghost s = row_hosts(rows@);
    let pos = match position_from(rows, selected) {
        Some(p) => p,
        None => {
            return None;
        },
    };
    let mut found: Option<usize> = None;
    if up {
        let mut i = pos;
        while i > 0 && row_host_of(&rows[i - 1]).is_none()
            invariant
                0 <= i <= pos < rows.len(),
                s == row_hosts(rows@),
                prev_host(s, pos as int) == prev_host(s, i as int),
            decreases i,
        {
            assert(s[i - 1] == row_host(rows@[i - 1]@));
            i -= 1;
        }
        if i > 0 {
            assert(s[i - 1] == row_host(rows@[i - 1]@));
            found = Some(i - 1);
        }
        assert(match prev_host(s, pos as int) {
            Some(q) => found == Some(q as usize),
            None => found is None,
        });
    } else {
        let mut i = pos;
        while i + 1 < rows.len() && row_host_of(&rows[i + 1]).is_none()
            invariant
                pos <= i < rows.len(),
                s == row_hosts(rows@),
                next_host(s, pos as int) == next_host(s, i as int),
            decreases rows.len() - i,
        {
            assert(s[i + 1] == row_host(rows@[i + 1]@));
            i += 1;
        }
        if i + 1 < rows.len() {
            assert(s[i + 1] == row_host(rows@[i + 1]@));
            found = Some(i + 1);
        }
        assert(match next_host(s, pos as int) {
            Some(q) => found == Some(q as usize),
            None => found is None,
        });
    }
    match found {
        None => None,
        Some(i) => {
            assert(s[i as int] == row_host(rows@[i as int]@));
            let idx = match row_host_of(&rows[i]) {
                Some(x) => x,
                None => 0,
            };
            Some((idx, position_from(rows, idx)))
        },
    }
}

// ---------------------------------------------------------------------------
// Section header counts
// ---------------------------------------------------------------------------

/// Whether a header name is one of the status pseudo-groups.
pub open spec fn is_status_header(name: Seq<char>) -> bool {
    name == "Down"@ || name == "Up"@
}

/// A host belongs under a header: by status for `Up`/`Down`, else by its
/// (raw) group.
pub open spec fn under_header(name: Seq<char>, h: HostStateView) -> bool {
    if is_status_header(name) {
        h.up == (name == "Up"@)
    } else {
        h.group == name
    }
}

pub open spec fn count_under(name: Seq<char>, hs: Seq<HostStateView>) -> nat
    decreases hs.len(),
{
    if hs.len() == 0 {
        0
    } else {
        count_under(name, hs.drop_last()) + if under_header(name, hs.last()) {
            1nat
        } else {
            0nat
        }
    }
}

pub open spec fn count_up_under(name: Seq<char>, hs: Seq<HostStateView>) -> nat
    decreases hs.len(),
{
    if hs.len() == 0 {
        0
    } else {
        count_up_under(name, hs.drop_last()) + if under_header(name, hs.last())
            && hs.last().up {
            1nat
        } else {
            0nat
        }
    }
}

proof fn lemma_count_up_le(name: Seq<char>, hs: Seq<HostStateView>)
    ensures
        count_up_under(name, hs) <= count_under(name, hs),
        count_under(name, hs) <= hs.len(),
    decreases hs.len(),
{
    if hs.len() > 0 {
        lemma_count_up_le(name, hs.drop_last());
    }
}

/// A group header counts the hosts of that group, the up ones among them,
/// and the down ones; a status header counts the hosts of that status.
pub proof fn law_header_counts_are_tallies(name: Seq<char>, hs: Seq<HostStateView>)
    ensures
        !is_status_header(name) ==> count_under(name, hs) == hs.filter(
            |h: HostStateView| h.group == name,
        ).len(),
        !is_status_header(name) ==> count_up_under(name, hs) == hs.filter(
            |h: HostStateView| h.group == name && h.up,
        ).len(),
        !is_status_header(name) ==> count_under(name, hs) - count_up_under(name, hs) == hs.filter(
            |h: HostStateView| h.group == name && !h.up,
        ).len(),
        name == "Up"@ ==> count_under(name, hs) == hs.filter(|h: HostStateView| h.up).len(),
        name == "Down"@ ==> count_under(name, hs) == hs.filter(|h: HostStateView| !h.up).len(),
    decreases hs.len(),
{
    reveal_strlit("Up");
    reveal_strlit("Down");
    reveal(Seq::filter);
    assert("Down"@.len() != "Up"@.len());
    assert("Down"@ != "Up"@);
    if hs.len() > 0 {
        law_header_counts_are_tallies(name, hs.drop_last());
        lemma_count_up_le(name, hs.drop_last());
    }
}

/// The tallies shown in a section header: hosts under it, how many are up,
/// and how many are down. Under a status header every host counts as up.
pub fn group_header_counts(name: &str, hosts: &Vec<HostState>) -> (r: (usize, usize, usize))
    ensures
        r.0 == count_under(name@, state_views(hosts@)),
        r.1 == (if is_status_header(name@) {
            count_under(name@, state_views(hosts@))
        } else {
            count_up_under(name@, state_views(hosts@))
        }),
        r.2 == r.0 - r.1,
{
    let ghost hs = state_views(hosts@);
    let nv = chars_of(name);
    let is_status = str_eq_lit(&nv, "Down") || str_eq_lit(&nv, "Up");
    let is_up_label = str_eq_lit(&nv, "Up");
    let mut total: usize = 0;
    let mut ups: usize = 0;
    let mut i: usize = 0;
    while i < hosts.len()
        invariant
            0 <= i <= hosts.len(),
            hs == state_views(hosts@),
            nv@ == name@,
            is_status == is_status_header(name@),
            is_up_label == (name@ == "Up"@),
            total == count_under(name@, hs.take(i as int)),
            ups == count_up_under(name@, hs.take(i as int)),
        decreases hosts.len() - i,
    {
        proof {
            lemma_count_up_le(name@, hs.take(i as int));
        }
        let h = &hosts[i];
        assert(hs[i as int] == h@);
        assert(hs.take(i + 1).drop_last() =~= hs.take(i as int));
        let under = if is_status {
            h.up == is_up_label
        } else {
            let g = chars_of(h.group.as_str());
            chars_eq(&g, &nv)
        };
        if under {
            total += 1;
            if h.up {
                ups += 1;
            }
        }
        i += 1;
    }
    assert(hs.take(hosts.len() as int) =~= hs);
    proof {
        lemma_count_up_le(name@, hs);
    }
    let up = if is_status {
        total
    } else {
        ups
    };
    (total, up, total - up)
}

fn str_eq_lit(v: &Vec<char>, lit: &str) -> (r: bool)
    ensures
        r == (v@ == lit@),
{
    let l = chars_of(lit);
    chars_eq(v, &l)
}

} // verus!
