//! Release checks: version comparison, when to announce an update, release
//! asset names, and checksum files.

use vstd::prelude::*;
use sha2::Digest;
use crate::text::{
    chars_eq, chars_of, contains_chars, contains_seq, is_ws, is_ws_char, parse_uint,
    parse_uint_chars, string_from_chars, sub_chars, trim, trim_chars,
};

verus! {

// ---------------------------------------------------------------------------
// Splitting
// ---------------------------------------------------------------------------

/// `str::split(sep)`: the pieces between separators, empty ones included.
pub open spec fn split_on(s: Seq<char>, sep: char) -> Seq<Seq<char>>
    decreases s.len(),
{
    if s.len() == 0 {
        seq![Seq::empty()]
    } else {
        let p = split_on(s.drop_last(), sep);
        if s.last() == sep {
            p.push(Seq::empty())
        } else {
            p.update(p.len() - 1, p.last().push(s.last()))
        }
    }
}

proof fn lemma_split_nonempty(s: Seq<char>, sep: char)
    ensures
        split_on(s, sep).len() >= 1,
    decreases s.len(),
{
    if s.len() > 0 {
        lemma_split_nonempty(s.drop_last(), sep);
    }
}

/// Splits `v` at every `sep`.
pub fn split_chars(v: &Vec<char>, sep: char) -> (r: Vec<Vec<char>>)
    ensures
        r@.map_values(|x: Vec<char>| x@) == split_on(v@, sep),
{
    let mut r: Vec<Vec<char>> = Vec::new();
    let mut cur: Vec<char> = Vec::new();
    let mut i: usize = 0;
    while i < v.len()
        invariant
            0 <= i <= v.len(),
            r@.map_values(|x: Vec<char>| x@).push(cur@) == split_on(v@.take(i as int), sep),
        decreases v.len() - i,
    {
        proof {
            lemma_split_nonempty(v@.take(i as int), sep);
        }
        let ghost prev = r@.map_values(|x: Vec<char>| x@).push(cur@);
        assert(v@.take(i + 1).drop_last() =~= v@.take(i as int));
        if v[i] == sep {
            r.push(cur);
            cur = Vec::new();
            assert(r@.map_values(|x: Vec<char>| x@).push(cur@) =~= prev.push(Seq::empty()));
        } else {
            let ghost before_cur = cur@;
            cur.push(v[i]);
            assert(r@.map_values(|x: Vec<char>| x@).push(cur@) =~= prev.update(
                prev.len() - 1,
                prev.last().push(v@[i as int]),
            ));
        }
        i += 1;
    }
    assert(v@.take(v.len() as int) =~= v@);
    let ghost before_last = r@.map_values(|x: Vec<char>| x@);
    r.push(cur);
    assert(r@.map_values(|x: Vec<char>| x@) =~= before_last.push(cur@));
    r
}

// ---------------------------------------------------------------------------
// Versions
// ---------------------------------------------------------------------------

/// The numbers of the dot-separated parts that parse as `u32`, in order;
/// other parts are skipped.
pub open spec fn numeric_parts(ps: Seq<Seq<char>>) -> Seq<u32>
    decreases ps.len(),
{
    if ps.len() == 0 {
        Seq::empty()
    } else {
        let prev = numeric_parts(ps.drop_last());
        match parse_uint(ps.last(), u32::MAX as nat) {
            Some(n) => prev.push(n as u32),
            None => prev,
        }
    }
}

pub open spec fn version_numbers(v: Seq<char>) -> Seq<u32> {
    numeric_parts(split_on(v, '.'))
}

pub fn version_parts(v: &str) -> (r: Vec<u32>)
    ensures
        r@ == version_numbers(v@),
{
    let cv = chars_of(v);
    let parts = split_chars(&cv, '.');
    let ghost pv = parts@.map_values(|x: Vec<char>| x@);
    let mut r: Vec<u32> = Vec::new();
    let mut i: usize = 0;
    while i < parts.len()
        invariant
            0 <= i <= parts.len(),
            pv == parts@.map_values(|x: Vec<char>| x@),
            r@ == numeric_parts(pv.take(i as int)),
        decreases parts.len() - i,
    {
        assert(pv.take(i + 1).drop_last() =~= pv.take(i as int));
        assert(pv.take(i + 1).last() == parts@[i as int]@);
        match parse_uint_chars(&parts[i], u32::MAX as u64) {
            Some(n) => {
                r.push(n as u32);
            },
            None => {},
        }
        i += 1;
    }
    assert(pv.take(parts.len() as int) =~= pv);
    r
}

/// Part `i` of a version, 0 past its end.
pub open spec fn part(s: Seq<u32>, i: int) -> u32 {
    if 0 <= i < s.len() {
        s[i]
    } else {
        0
    }
}

/// Comparing parts from `i` up to (not including) `n`: the first part that
/// differs decides whether `lat` is newer than `cur`.
pub open spec fn newer_upto(cur: Seq<u32>, lat: Seq<u32>, i: int, n: int) -> bool
    decreases n - i,
{
    if i >= n {
        false
    } else if part(lat, i) > part(cur, i) {
        true
    } else if part(lat, i) < part(cur, i) {
        false
    } else {
        newer_upto(cur, lat, i + 1, n)
    }
}

pub open spec fn max_len(a: Seq<u32>, b: Seq<u32>) -> int {
    if a.len() >= b.len() {
        a.len() as int
    } else {
        b.len() as int
    }
}

/// `lat` is a newer version than `cur`: compared part by part, missing parts
/// counting as 0, the first difference favours `lat`.
pub open spec fn newer(cur: Seq<u32>, lat: Seq<u32>) -> bool {
    newer_upto(cur, lat, 0, max_len(cur, lat))
}

pub fn is_newer_version(current: &str, latest: &str) -> (r: bool)
    ensures
        r == newer(version_numbers(current@), version_numbers(latest@)),
{
    let cur = version_parts(current);
    let lat = version_parts(latest);
    let n = if cur.len() >= lat.len() {
        cur.len()
    } else {
        lat.len()
    };
    let mut i: usize = 0;
    while i < n
        invariant
            0 <= i <= n,
            cur@ == version_numbers(current@),
            lat@ == version_numbers(latest@),
            n as int == max_len(cur@, lat@),
            newer(cur@, lat@) == newer_upto(cur@, lat@, i as int, n as int),
        decreases n - i,
    {
        let c = if i < cur.len() {
            cur[i]
        } else {
            0
        };
        let l = if i < lat.len() {
            lat[i]
        } else {
            0
        };
        assert(c == part(cur@, i as int) && l == part(lat@, i as int));
        if l > c {
            return true;
        }
        if l < c {
            return false;
        }
        i += 1;
    }
    false
}

proof fn lemma_newer_bound(cur: Seq<u32>, lat: Seq<u32>, i: int, n: int, m: int)
    requires
        max_len(cur, lat) <= n,
        max_len(cur, lat) <= m,
    ensures
        newer_upto(cur, lat, i, n) == newer_upto(cur, lat, i, m),
    decreases (if n > m {
        n
    } else {
        m
    }) - i,
{
    if i < n && i < m {
        if part(lat, i) == part(cur, i) {
            lemma_newer_bound(cur, lat, i + 1, n, m);
        }
    } else if i >= n && i < m {
        lemma_newer_tail_false(cur, lat, i, m);
    } else if i >= m && i < n {
        lemma_newer_tail_false(cur, lat, i, n);
    }
}

proof fn lemma_newer_tail_false(cur: Seq<u32>, lat: Seq<u32>, i: int, n: int)
    requires
        max_len(cur, lat) <= i,
    ensures
        !newer_upto(cur, lat, i, n),
    decreases n - i,
{
    if i < n {
        lemma_newer_tail_false(cur, lat, i + 1, n);
    }
}

proof fn lemma_newer_upto_order(a: Seq<u32>, b: Seq<u32>, c: Seq<u32>, i: int, n: int)
    ensures
        !newer_upto(a, a, i, n),
        !(newer_upto(a, b, i, n) && newer_upto(b, a, i, n)),
        newer_upto(a, b, i, n) && newer_upto(b, c, i, n) ==> newer_upto(a, c, i, n),
    decreases n - i,
{
    if i < n {
        lemma_newer_upto_order(a, b, c, i + 1, n);
    }
}

/// A version is never newer than itself.
pub proof fn law_newer_irreflexive(v: Seq<u32>)
    ensures
        !newer(v, v),
{
    lemma_newer_upto_order(v, v, v, 0, max_len(v, v));
}

/// Of two versions, at most one is newer than the other.
pub proof fn law_newer_asymmetric(a: Seq<u32>, b: Seq<u32>)
    ensures
        !(newer(a, b) && newer(b, a)),
{
    let n = max_len(a, b);
    lemma_newer_bound(b, a, 0, max_len(b, a), n);
    lemma_newer_upto_order(a, b, a, 0, n);
}

/// If `b` is newer than `a` and `c` newer than `b`, then `c` is newer than
/// `a`.
pub proof fn law_newer_transitive(a: Seq<u32>, b: Seq<u32>, c: Seq<u32>)
    requires
        newer(a, b),
        newer(b, c),
    ensures
        newer(a, c),
{
    let n = max_len(a, b) + max_len(b, c) + max_len(a, c);
    lemma_newer_bound(a, b, 0, max_len(a, b), n);
    lemma_newer_bound(b, c, 0, max_len(b, c), n);
    lemma_newer_bound(a, c, 0, max_len(a, c), n);
    lemma_newer_upto_order(a, b, c, 0, n);
}

/// The periodic check announces `latest` when it is newer than the running
/// version and was not the last version announced.
pub fn should_announce(current: &str, latest: &str, last_announced: Option<&str>) -> (r: bool)
    ensures
        r == (newer(version_numbers(current@), version_numbers(latest@)) && match last_announced {
            Some(l) => l@ != latest@,
            None => true,
        }),
{
    if !is_newer_version(current, latest) {
        return false;
    }
    match last_announced {
        Some(l) => !crate::text::str_eq(l, latest),
        None => true,
    }
}

/// `str::trim_start_matches('v')`: `s` without its leading `v`s.
pub open spec fn strip_v(s: Seq<char>) -> Seq<char>
    decreases s.len(),
{
    if s.len() > 0 && s[0] == 'v' {
        strip_v(s.drop_first())
    } else {
        s
    }
}

/// The version a release tag names (`v1.2.3` → `1.2.3`).
pub fn version_from_tag(tag: &str) -> (r: String)
    ensures
        r@ == strip_v(tag@),
{
    let v = chars_of(tag);
    let mut i: usize = 0;
    assert(v@.subrange(0, v.len() as int) =~= v@);
    while i < v.len() && v[i] == 'v'
        invariant
            0 <= i <= v.len(),
            strip_v(v@) == strip_v(v@.subrange(i as int, v.len() as int)),
        decreases v.len() - i,
    {
        assert(v@.subrange(i as int, v.len() as int).drop_first() =~= v@.subrange(
            i + 1,
            v.len() as int,
        ));
        i += 1;
    }
    proof {
        let rest = v@.subrange(i as int, v.len() as int);
        if rest.len() > 0 {
            assert(rest[0] == v@[i as int]);
        }
    }
    string_from_chars(&sub_chars(&v, i, v.len()))
}

/// A release is installed when it is the expected version or newer than the
/// expected or the running version.
pub fn release_acceptable(expected: &str, latest: &str, running: &str) -> (r: bool)
    ensures
        r == (latest@ == expected@ || newer(version_numbers(expected@), version_numbers(latest@))
            || newer(version_numbers(running@), version_numbers(latest@))),
{
    crate::text::str_eq(latest, expected) || is_newer_version(expected, latest)
        || is_newer_version(running, latest)
}

/// The release archive for an OS and CPU architecture.
pub open spec fn asset_name_spec(os: Seq<char>, arch: Seq<char>) -> Seq<char> {
    if os == "windows"@ {
        "ping-uin-windows-x86_64.zip"@
    } else if os == "macos"@ {
        "ping-uin-macos-"@ + arch + ".tar.gz"@
    } else {
        "ping-uin-linux-x86_64.tar.gz"@
    }
}

pub fn asset_name(os: &str, arch: &str) -> (r: String)
    ensures
        r@ == asset_name_spec(os@, arch@),
{
    if crate::text::str_eq(os, "windows") {
        "ping-uin-windows-x86_64.zip".to_owned()
    } else if crate::text::str_eq(os, "macos") {
        let mut v = chars_of("ping-uin-macos-");
        let a = chars_of(arch);
        let t = chars_of(".tar.gz");
        let mut k: usize = 0;
        let ghost v0 = v@;
        while k < a.len()
            invariant
                0 <= k <= a.len(),
                v@ == v0 + a@.take(k as int),
            decreases a.len() - k,
        {
            v.push(a[k]);
            assert(v@ =~= v0 + a@.take(k + 1));
            k += 1;
        }
        assert(a@.take(a.len() as int) =~= a@);
        let ghost v1 = v@;
        let mut j: usize = 0;
        while j < t.len()
            invariant
                0 <= j <= t.len(),
                v@ == v1 + t@.take(j as int),
            decreases t.len() - j,
        {
            v.push(t[j]);
            assert(v@ =~= v1 + t@.take(j + 1));
            j += 1;
        }
        assert(t@.take(t.len() as int) =~= t@);
        string_from_chars(&v)
    } else {
        "ping-uin-linux-x86_64.tar.gz".to_owned()
    }
}

/// The name of the checksum file published beside an asset.
pub fn sidecar_name(asset: &str) -> (r: String)
    ensures
        r@ == asset@ + ".sha256"@,
{
    let mut v = chars_of(asset);
    let t = chars_of(".sha256");
    let ghost v0 = v@;
    let mut j: usize = 0;
    while j < t.len()
        invariant
            0 <= j <= t.len(),
            v@ == v0 + t@.take(j as int),
        decreases t.len() - j,
    {
        v.push(t[j]);
        assert(v@ =~= v0 + t@.take(j + 1));
        j += 1;
    }
    assert(t@.take(t.len() as int) =~= t@);
    string_from_chars(&v)
}

/// The position of the first name equal to `target`.
pub fn find_named(names: &Vec<String>, target: &str) -> (r: Option<usize>)
    ensures
        match r {
            Some(i) => i < names.len() && names@[i as int]@ == target@ && forall|k: int|
                0 <= k < i ==> names@[k]@ != target@,
            None => forall|k: int| 0 <= k < names.len() ==> names@[k]@ != target@,
        },
{
    let mut i: usize = 0;
    while i < names.len()
        invariant
            0 <= i <= names.len(),
            forall|k: int| 0 <= k < i ==> names@[k]@ != target@,
        decreases names.len() - i,
    {
        if crate::text::str_eq(names[i].as_str(), target) {
            return Some(i);
        }
        i += 1;
    }
    None
}

/// The last `/`-separated segment of a URL (`str::rsplit('/')`'s first item).
pub open spec fn last_segment(url: Seq<char>) -> Seq<char> {
    split_on(url, '/').last()
}

pub fn archive_name_from_url(url: &str) -> (r: String)
    ensures
        r@ == last_segment(url@),
{
    let v = chars_of(url);
    let parts = split_chars(&v, '/');
    proof {
        lemma_split_nonempty(v@, '/');
    }
    let ghost pv = parts@.map_values(|x: Vec<char>| x@);
    assert(pv.len() == parts.len());
    let last = &parts[parts.len() - 1];
    assert(pv[parts.len() - 1] == last@);
    string_from_chars(last)
}

// ---------------------------------------------------------------------------
// Checksums
// ---------------------------------------------------------------------------

pub open spec fn is_hex(c: char) -> bool {
    ('0' as u32 <= c as u32 && c as u32 <= '9' as u32) || ('a' as u32 <= c as u32 && c as u32
        <= 'f' as u32) || ('A' as u32 <= c as u32 && c as u32 <= 'F' as u32)
}

pub open spec fn hex_upper(c: char) -> char {
    if 'a' as u32 <= c as u32 && c as u32 <= 'f' as u32 {
        ((c as u32) - 32) as char
    } else {
        c
    }
}

/// The hexadecimal digits of `s`, in order.
pub open spec fn hex_only(s: Seq<char>) -> Seq<char>
    decreases s.len(),
{
    if s.len() == 0 {
        Seq::empty()
    } else if is_hex(s.last()) {
        hex_only(s.drop_last()).push(s.last())
    } else {
        hex_only(s.drop_last())
    }
}

pub open spec fn all_hex(s: Seq<char>) -> bool {
    forall|i: int| 0 <= i < s.len() ==> is_hex(#[trigger] s[i])
}

/// The first whitespace-separated word of a trimmed line.
pub open spec fn first_word(s: Seq<char>) -> Seq<char>
    decreases s.len(),
{
    if s.len() == 0 || is_ws(s[0]) {
        Seq::empty()
    } else {
        seq![s[0]] + first_word(s.drop_first())
    }
}

/// The checksum a line gives for `asset`: on a line naming the asset, its
/// first word's hex digits when there are 64 of them; on any other line, the
/// whole line when it is exactly 64 hex digits. Upper-cased.
pub open spec fn line_checksum(line: Seq<char>, asset: Seq<char>) -> Option<Seq<char>> {
    let t = trim(line);
    if t.len() == 0 {
        None
    } else if contains_seq(t, asset) {
        let h = hex_only(first_word(t));
        if h.len() == 64 {
            Some(h.map_values(|c: char| hex_upper(c)))
        } else {
            None
        }
    } else if t.len() == 64 && all_hex(t) {
        Some(t.map_values(|c: char| hex_upper(c)))
    } else {
        None
    }
}

/// The first checksum any line gives.
pub open spec fn checksum_in_lines(lines: Seq<Seq<char>>, asset: Seq<char>) -> Option<Seq<char>>
    decreases lines.len(),
{
    if lines.len() == 0 {
        None
    } else {
        match line_checksum(lines[0], asset) {
            Some(h) => Some(h),
            None => checksum_in_lines(lines.drop_first(), asset),
        }
    }
}

fn is_hex_char(c: char) -> (b: bool)
    ensures
        b == is_hex(c),
{
    let u = c as u32;
    (48 <= u && u <= 57) || (97 <= u && u <= 102) || (65 <= u && u <= 70)
}

fn upper_hex_chars(v: &Vec<char>) -> (r: Vec<char>)
    requires
        all_hex(v@),
    ensures
        r@ == v@.map_values(|c: char| hex_upper(c)),
{
    let mut r: Vec<char> = Vec::new();
    let mut i: usize = 0;
    while i < v.len()
        invariant
            0 <= i <= v.len(),
            all_hex(v@),
            r@ == v@.take(i as int).map_values(|c: char| hex_upper(c)),
        decreases v.len() - i,
    {
        let c = v[i];
        assert(is_hex(c));
        let u = c as u32;
        let up = if 97 <= u && u <= 102 {
            let w = (u - 32) as u8;
            w as char
        } else {
            c
        };
        r.push(up);
        assert(r@ =~= v@.take(i + 1).map_values(|c: char| hex_upper(c)));
        i += 1;
    }
    assert(v@.take(v.len() as int) =~= v@);
    r
}

proof fn lemma_hex_only_all_hex(s: Seq<char>)
    ensures
        all_hex(hex_only(s)),
    decreases s.len(),
{
    if s.len() > 0 {
        lemma_hex_only_all_hex(s.drop_last());
    }
}

fn line_checksum_exec(line: &Vec<char>, asset: &Vec<char>) -> (r: Option<Vec<char>>)
    ensures
        match line_checksum(line@, asset@) {
            Some(h) => r matches Some(v) && v@ == h,
            None => r is None,
        },
{
    let t = trim_chars(line);
    if t.len() == 0 {
        return None;
    }
    if contains_chars(&t, asset) {
        // The first word.
        let mut e: usize = 0;
        assert(t@.subrange(0, t.len() as int) =~= t@);
        assert(t@.take(0) =~= Seq::<char>::empty());
        while e < t.len() && !is_ws_char(t[e])
            invariant
                0 <= e <= t.len(),
                first_word(t@) == t@.take(e as int) + first_word(t@.subrange(e as int, t.len() as int)),
            decreases t.len() - e,
        {
            let ghost rest = t@.subrange(e as int, t.len() as int);
            assert(rest[0] == t@[e as int]);
            assert(rest.drop_first() =~= t@.subrange(e + 1, t.len() as int));
            assert(t@.take(e + 1) =~= t@.take(e as int) + seq![t@[e as int]]);
            e += 1;
        }
        proof {
            let rest = t@.subrange(e as int, t.len() as int);
            if rest.len() > 0 {
                assert(rest[0] == t@[e as int]);
            }
            assert(first_word(rest) =~= Seq::<char>::empty());
        }
        assert(first_word(t@) =~= t@.take(e as int));
        let word = sub_chars(&t, 0, e);
        assert(word@ =~= first_word(t@));
        // Its hex digits.
        let mut h: Vec<char> = Vec::new();
        let mut i: usize = 0;
        while i < word.len()
            invariant
                0 <= i <= word.len(),
                h@ == hex_only(word@.take(i as int)),
            decreases word.len() - i,
        {
            assert(word@.take(i + 1).drop_last() =~= word@.take(i as int));
            if is_hex_char(word[i]) {
                h.push(word[i]);
            }
            i += 1;
        }
        assert(word@.take(word.len() as int) =~= word@);
        if h.len() == 64 {
            proof {
                lemma_hex_only_all_hex(word@);
            }
            return Some(upper_hex_chars(&h));
        }
        return None;
    }
    if t.len() == 64 {
        let mut i: usize = 0;
        while i < t.len()
            invariant
                0 <= i <= t.len(),
                t@ == trim(line@),
                t.len() == 64,
                !contains_seq(t@, asset@),
                forall|k: int| 0 <= k < i ==> is_hex(#[trigger] t@[k]),
            decreases t.len() - i,
        {
            if !is_hex_char(t[i]) {
                assert(!all_hex(t@));
                return None;
            }
            i += 1;
        }
        return Some(upper_hex_chars(&t));
    }
    None
}

/// Finds the checksum of `asset_name` in a checksum file or release notes:
/// `shasum`-style `<hash>  <file>` lines or a bare 64-digit hash.
pub fn parse_sha256_text(text: &str, asset_name: &str) -> (r: Option<String>)
    ensures
        match checksum_in_lines(split_on(text@, '\n'), asset_name@) {
            Some(h) => r matches Some(s) && s@ == h,
            None => r is None,
        },
{
    let tv = chars_of(text);
    let av = chars_of(asset_name);
    let lines = split_chars(&tv, '\n');
    let ghost lv = lines@.map_values(|x: Vec<char>| x@);
    let mut i: usize = 0;
    assert(lv.subrange(0, lv.len() as int) =~= lv);
    while i < lines.len()
        invariant
            0 <= i <= lines.len(),
            lv == lines@.map_values(|x: Vec<char>| x@),
            lv == split_on(text@, '\n'),
            av@ == asset_name@,
            checksum_in_lines(lv, asset_name@) == checksum_in_lines(
                lv.subrange(i as int, lv.len() as int),
                asset_name@,
            ),
        decreases lines.len() - i,
    {
        let ghost rest = lv.subrange(i as int, lv.len() as int);
        assert(rest[0] == lines@[i as int]@);
        assert(rest.drop_first() =~= lv.subrange(i + 1, lv.len() as int));
        match line_checksum_exec(&lines[i], &av) {
            Some(h) => {
                return Some(string_from_chars(&h));
            },
            None => {},
        }
        i += 1;
    }
    None
}

/// The SHA-256 digest of `data`, as `sha2::Sha256` computes it.
pub uninterp spec fn sha256_of(data: Seq<u8>) -> Seq<u8>;

/// Hashes `data` with `sha2::Sha256::digest`. The contract names the digest
/// and states its length (32 bytes); it does not restate the algorithm.
#[verifier::external_body]
fn sha256_digest(data: &[u8]) -> (r: Vec<u8>)
    ensures
        r@ == sha256_of(data@),
        r@.len() == 32,
{
    sha2::Sha256::digest(data).to_vec()
}

pub open spec fn hex_digit_upper(d: u8) -> char {
    if d < 10 {
        ((d + 48) as u8) as char
    } else {
        ((d + 55) as u8) as char
    }
}

/// Upper-case hex, two digits per byte.
pub open spec fn hex_upper_bytes(b: Seq<u8>) -> Seq<char>
    decreases b.len(),
{
    if b.len() == 0 {
        Seq::empty()
    } else {
        hex_upper_bytes(b.drop_last()).push(hex_digit_upper(b.last() / 16)).push(
            hex_digit_upper(b.last() % 16),
        )
    }
}

fn hex_digit(d: u8) -> (c: char)
    requires
        d < 16,
    ensures
        c == hex_digit_upper(d),
{
    if d < 10 {
        (d + 48) as char
    } else {
        (d + 55) as char
    }
}

/// The upper-case hex SHA-256 of a file's contents.
pub fn sha256_hex_upper(data: &[u8]) -> (r: String)
    ensures
        r@ == hex_upper_bytes(sha256_of(data@)),
{
    let d = sha256_digest(data);
    let mut v: Vec<char> = Vec::new();
    let mut i: usize = 0;
    while i < d.len()
        invariant
            0 <= i <= d.len(),
            v@ == hex_upper_bytes(d@.take(i as int)),
        decreases d.len() - i,
    {
        assert(d@.take(i + 1).drop_last() =~= d@.take(i as int));
        let b = d[i];
        v.push(hex_digit(b / 16));
        v.push(hex_digit(b % 16));
        i += 1;
    }
    assert(d@.take(d.len() as int) =~= d@);
    string_from_chars(&v)
}

} // verus!
