//! The one-shot check (`--once`): the order of the printed results and the
//! exit status.

use vstd::prelude::*;
use crate::config::HostConfig;
use crate::order::{
    arrange, compare_chars, lemma_arrange_is, lemma_lex_irreflexive, lemma_lex_total,
    lemma_lex_transitive, lex_lt, same_elems, sorted_by, strict_total_on,
};
use crate::text::chars_of;

verus! {

/// The name a result is listed under: the alias when set, else the name.
pub open spec fn result_label(h: HostConfig) -> Seq<char> {
    match h.alias {
        Some(a) => a@,
        None => h.name@,
    }
}

/// Result `i` is printed before result `j`: by label, ties in check order.
pub open spec fn printed_before(labels: Seq<Seq<char>>, i: usize, j: usize) -> bool {
    lex_lt(labels[i as int], labels[j as int]) || (labels[i as int] == labels[j as int] && i < j)
}

pub open spec fn printed_fn(labels: Seq<Seq<char>>) -> spec_fn(usize, usize) -> bool {
    |i: usize, j: usize| printed_before(labels, i, j)
}

pub open spec fn result_labels(hosts: Seq<HostConfig>) -> Seq<Seq<char>> {
    hosts.map_values(|h: HostConfig| result_label(h))
}

/// The indices `0 .. n`.
pub open spec fn upto(n: nat) -> Seq<usize> {
    Seq::new(n, |i: int| i as usize)
}

/// How many results are down.
pub open spec fn down_count(ups: Seq<bool>) -> nat
    decreases ups.len(),
{
    if ups.len() == 0 {
        0
    } else {
        down_count(ups.drop_last()) + if ups.last() {
            0nat
        } else {
            1nat
        }
    }
}

/// What the one-shot check prints and exits with.
#[derive(Debug)]
pub struct OnceReport {
    /// The results' indices in printing order.
    pub order: Vec<usize>,
    /// How many hosts are down.
    pub down: usize,
    /// 1 when no host is configured (a configuration error), else 0 when
    /// every host is up and 2 when any is down.
    pub exit_code: i32,
}

proof fn lemma_printed_order(labels: Seq<Seq<char>>, i: usize, j: usize, k: usize)
    ensures
        !printed_before(labels, i, i),
        i != j ==> printed_before(labels, i, j) || printed_before(labels, j, i),
        printed_before(labels, i, j) && printed_before(labels, j, k) ==> printed_before(
            labels,
            i,
            k,
        ),
{
    let (a, b, c) = (labels[i as int], labels[j as int], labels[k as int]);
    lemma_lex_irreflexive(a);
    lemma_lex_total(a, b);
    lemma_lex_total(b, c);
    lemma_lex_total(a, c);
    if lex_lt(a, b) && lex_lt(b, c) {
        lemma_lex_transitive(a, b, c);
    }
}

proof fn lemma_printed_strict_total(labels: Seq<Seq<char>>, s: Seq<usize>)
    ensures
        strict_total_on(s, printed_fn(labels)),
{
    let lt = printed_fn(labels);
    assert forall|x: usize| s.contains(x) implies !#[trigger] lt(x, x) by {
        lemma_printed_order(labels, x, x, x);
    }
    assert forall|x: usize, y: usize, z: usize|
        s.contains(x) && s.contains(y) && s.contains(z) && #[trigger] lt(x, y) && #[trigger] lt(
            y,
            z,
        ) implies lt(x, z) by {
        lemma_printed_order(labels, x, y, z);
    }
    assert forall|x: usize, y: usize|
        s.contains(x) && s.contains(y) && x != y implies #[trigger] lt(x, y) || #[trigger] lt(
            y,
            x,
        ) by {
        lemma_printed_order(labels, x, y, x);
    }
}

fn label_chars(hosts: &Vec<HostConfig>) -> (r: Vec<Vec<char>>)
    ensures
        r.len() == hosts.len(),
        forall|i: int| 0 <= i < hosts.len() ==> #[trigger] r@[i]@ == result_label(hosts@[i]),
{
    let mut r: Vec<Vec<char>> = Vec::new();
    let mut i: usize = 0;
    while i < hosts.len()
        invariant
            0 <= i <= hosts.len(),
            r.len() == i,
            forall|k: int| 0 <= k < i ==> #[trigger] r@[k]@ == result_label(hosts@[k]),
        decreases hosts.len() - i,
    {
        let c = match &hosts[i].alias {
            Some(a) => chars_of(a.as_str()),
            None => chars_of(hosts[i].name.as_str()),
        };
        r.push(c);
        i += 1;
    }
    r
}

fn comes_before(labels: &Vec<Vec<char>>, i: usize, j: usize) -> (r: bool)
    requires
        i < labels.len(),
        j < labels.len(),
    ensures
        r == (lex_lt(labels@[i as int]@, labels@[j as int]@) || (labels@[i as int]@
            == labels@[j as int]@ && i < j)),
{
    let c = compare_chars(&labels[i], &labels[j]);
    c < 0 || (c == 0 && i < j)
}

/// The printing order: by label (alias, else name), a stable sort.
pub fn print_order(hosts: &Vec<HostConfig>) -> (r: Vec<usize>)
    ensures
        r@ == arrange(upto(hosts.len() as nat), printed_fn(result_labels(hosts@))),
{
    let ghost labs = result_labels(hosts@);
    let ghost lt = printed_fn(labs);
    let ghost input = upto(hosts.len() as nat);
    proof {
        lemma_printed_strict_total(labs, input);
    }
    let labels = label_chars(hosts);
    let n = hosts.len();
    let mut out: Vec<usize> = Vec::new();
    let mut i: usize = 0;
    while i < n
        invariant
            0 <= i <= n == hosts.len(),
            input == upto(n as nat),
            labs == result_labels(hosts@),
            lt == printed_fn(labs),
            labels.len() == n,
            forall|k: int| 0 <= k < n ==> #[trigger] labels@[k]@ == labs[k],
            out.len() == i,
            sorted_by(out@, lt),
            same_elems(out@, input.take(i as int)),
            forall|a: int| 0 <= a < out.len() ==> #[trigger] out@[a] < i,
        decreases n - i,
    {
        let x = i;
        let mut p: usize = 0;
        while p < out.len() && !comes_before(&labels, x, out[p])
            invariant
                0 <= p <= out.len() == i,
                i < n == hosts.len(),
                x == i,
                labs == result_labels(hosts@),
                lt == printed_fn(labs),
                labels.len() == n,
                forall|k: int| 0 <= k < n ==> #[trigger] labels@[k]@ == labs[k],
                forall|a: int| 0 <= a < out.len() ==> #[trigger] out@[a] < i,
                forall|k: int| 0 <= k < p ==> !lt(x, #[trigger] out@[k]),
            decreases out.len() - p,
        {
            p += 1;
        }
        let ghost old_out = out@;
        proof {
            assert forall|k: int| 0 <= k < p implies #[trigger] lt(old_out[k], x) by {
                lemma_printed_order(labs, x, old_out[k], x);
            }
        }
        out.insert(p, x);
        proof {
            let o = out@;
            assert(o == old_out.insert(p as int, x));
            assert forall|a: int| 0 <= a < o.len() implies #[trigger] o[a] < i + 1 by {
                if a < p {
                    assert(o[a] == old_out[a]);
                } else if a > p {
                    assert(o[a] == old_out[a - 1]);
                }
            }
            assert forall|a: int, b: int| 0 <= a < b < o.len() implies #[trigger] lt(o[a], o[b]) by {
                if b < p {
                    assert(o[a] == old_out[a] && o[b] == old_out[b]);
                } else if b == p {
                    assert(o[a] == old_out[a]);
                } else if a < p {
                    assert(o[a] == old_out[a] && o[b] == old_out[b - 1]);
                    assert(lt(old_out[a], x));
                    assert(lt(x, old_out[p as int]));
                    if b - 1 > p {
                        assert(lt(old_out[p as int], old_out[b - 1]));
                        lemma_printed_order(labs, x, old_out[p as int], old_out[b - 1]);
                    }
                    lemma_printed_order(labs, old_out[a], x, old_out[b - 1]);
                } else if a == p {
                    assert(o[b] == old_out[b - 1]);
                    if b - 1 > p {
                        assert(lt(old_out[p as int], old_out[b - 1]));
                        lemma_printed_order(labs, x, old_out[p as int], old_out[b - 1]);
                    }
                } else {
                    assert(o[a] == old_out[a - 1] && o[b] == old_out[b - 1]);
                }
            }
            let ti = input.take(i as int);
            let tn = input.take(i + 1);
            assert(tn =~= ti.push(x));
            assert forall|y: usize| #[trigger] o.contains(y) <==> tn.contains(y) by {
                if o.contains(y) {
                    let k = choose|k: int| 0 <= k < o.len() && o[k] == y;
                    if k < p {
                        assert(old_out[k] == y);
                        assert(old_out.contains(y));
                        assert(ti.contains(y));
                        let m = choose|m: int| 0 <= m < ti.len() && ti[m] == y;
                        assert(tn[m] == y);
                    } else if k == p {
                        assert(tn[i as int] == y);
                    } else {
                        assert(old_out[k - 1] == y);
                        assert(old_out.contains(y));
                        assert(ti.contains(y));
                        let m = choose|m: int| 0 <= m < ti.len() && ti[m] == y;
                        assert(tn[m] == y);
                    }
                }
                if tn.contains(y) {
                    let m = choose|m: int| 0 <= m < tn.len() && tn[m] == y;
                    if m == i {
                        assert(o[p as int] == y);
                    } else {
                        assert(ti[m] == y);
                        assert(ti.contains(y));
                        assert(old_out.contains(y));
                        let k = choose|k: int| 0 <= k < old_out.len() && old_out[k] == y;
                        if k < p {
                            assert(o[k] == y);
                        } else {
                            assert(o[k + 1] == y);
                        }
                    }
                }
            }
        }
        i += 1;
    }
    proof {
        assert(input.take(n as int) =~= input);
        lemma_arrange_is(input, out@, lt);
    }
    out
}

/// The report of a one-shot check of `hosts`, whose results are `ups`.
pub fn once_report(hosts: &Vec<HostConfig>, ups: &Vec<bool>) -> (r: OnceReport)
    requires
        hosts.len() == ups.len(),
    ensures
        r.order@ == arrange(upto(hosts.len() as nat), printed_fn(result_labels(hosts@))),
        r.down == down_count(ups@),
        r.exit_code == (if hosts.len() == 0 {
            1i32
        } else if down_count(ups@) > 0 {
            2i32
        } else {
            0i32
        }),
{
    let order = print_order(hosts);
    let mut down: usize = 0;
    let mut i: usize = 0;
    while i < ups.len()
        invariant
            0 <= i <= ups.len(),
            down == down_count(ups@.take(i as int)),
            down <= i,
        decreases ups.len() - i,
    {
        assert(ups@.take(i as int + 1).drop_last() =~= ups@.take(i as int));
        if !ups[i] {
            down += 1;
        }
        i += 1;
    }
    assert(ups@.take(ups.len() as int) =~= ups@);
    let exit_code: i32 = if hosts.len() == 0 {
        1
    } else if down > 0 {
        2
    } else {
        0
    };
    OnceReport { order, down, exit_code }
}

} // verus!
