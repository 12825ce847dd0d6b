//! Release versions: comparison of dotted version strings, the version named in
//! a release formula, and the once-a-day, once-per-version notice decision.
use vstd::prelude::*;
use crate::text::{chars_of, matches_at, string_of};

verus! {

/// The pieces of `s` completed by `sep`, and the piece still open.
pub open spec fn split_scan(s: Seq<char>, sep: char) -> (Seq<Seq<char>>, Seq<char>)
    decreases s.len(),
{
    if s.len() == 0 {
        (Seq::empty(), Seq::empty())
    } else {
        let (done, cur) = split_scan(s.drop_last(), sep);
        if s.last() == sep {
            (done.push(cur), Seq::empty())
        } else {
            (done, cur.push(s.last()))
        }
    }
}

/// The pieces of `s` between occurrences of `sep` (what `str::split` yields for a char).
pub open spec fn pieces(s: Seq<char>, sep: char) -> Seq<Seq<char>> {
    split_scan(s, sep).0.push(split_scan(s, sep).1)
}

/// The pieces of `s` between occurrences of `sep`.
pub fn split_on(s: &str, sep: char) -> (r: Vec<Vec<char>>)
    ensures
        r@.len() == pieces(s@, sep).len(),
        forall|i: int| 0 <= i < r@.len() ==> #[trigger] r@[i]@ == pieces(s@, sep)[i],
{
    let cs = chars_of(s);
    let mut done: Vec<Vec<char>> = Vec::new();
    let mut cur: Vec<char> = Vec::new();
    let mut i: usize = 0;
    while i < cs.len()
        invariant
            i <= cs.len(),
            cs@ == s@,
            done@.len() == split_scan(s@.take(i as int), sep).0.len(),
            forall|k: int| 0 <= k < done@.len() ==> #[trigger] done@[k]@ == split_scan(s@.take(i as int), sep).0[k],
            cur@ == split_scan(s@.take(i as int), sep).1,
        decreases cs.len() - i,
    {
        proof {
            assert(s@.take(i + 1).drop_last() == s@.take(i as int));
        }
        if cs[i] == sep {
            let mut piece: Vec<char> = Vec::new();
            std::mem::swap(&mut piece, &mut cur);
            done.push(piece);
        } else {
            cur.push(cs[i]);
        }
        i = i + 1;
    }
    proof {
        assert(s@.take(cs.len() as int) == s@);
    }
    done.push(cur);
    done
}

pub open spec fn is_digit(c: char) -> bool {
    '0' <= c && c <= '9'
}

/// The value of the decimal digits `s`.
pub open spec fn digits_value(s: Seq<char>) -> nat
    decreases s.len(),
{
    if s.len() == 0 {
        0
    } else {
        digits_value(s.drop_last()) * 10 + ((s.last() as nat) - ('0' as nat)) as nat
    }
}

/// `s` without a leading `+`.
pub open spec fn unsigned_part(s: Seq<char>) -> Seq<char> {
    if s.len() > 0 && s[0] == '+' {
        s.drop_first()
    } else {
        s
    }
}

pub open spec fn all_digits(d: Seq<char>) -> bool {
    forall|i: int| 0 <= i < d.len() ==> is_digit(#[trigger] d[i])
}

/// What `str::parse::<u32>` gives for `s`: an optional `+`, then at least one
/// decimal digit and nothing else, with a value that fits.
pub open spec fn parsed_u32(s: Seq<char>) -> Option<u32> {
    let d = unsigned_part(s);
    if d.len() == 0 || !all_digits(d) || digits_value(d) > u32::MAX {
        None
    } else {
        Some(digits_value(d) as u32)
    }
}

/// Parses a decimal `u32` as `str::parse` does.
pub fn parse_u32(s: &Vec<char>) -> (r: Option<u32>)
    ensures
        r == parsed_u32(s@),
{
    let start: usize = if s.len() > 0 && s[0] == '+' {
        1
    } else {
        0
    };
    let ghost d = unsigned_part(s@);
    assert(d =~= s@.skip(start as int));
    if start == s.len() {
        return None;
    }
    let mut v: u64 = 0;
    let mut i: usize = start;
    while i < s.len()
        invariant
            start <= i <= s.len(),
            d == s@.skip(start as int),
            d == unsigned_part(s@),
            forall|k: int| 0 <= k < i - start ==> is_digit(#[trigger] d[k]),
            v as nat == digits_value(d.take(i - start)),
            v <= u32::MAX,
        decreases s.len() - i,
    {
        let c = s[i];
        assert(d[i - start] == s@[i as int]);
        if !('0' <= c && c <= '9') {
            assert(!is_digit(d[i - start]));
            assert(!(forall|k: int| 0 <= k < d.len() ==> is_digit(#[trigger] d[k])));
            assert(parsed_u32(s@) is None);
            return None;
        }
        proof {
            assert(d.take(i - start + 1).drop_last() == d.take(i - start));
            assert(d.take(i - start + 1).last() == c);
        }
        let dv = (c as u32 - '0' as u32) as u64;
        let nv = v * 10 + dv;
        if nv > u32::MAX as u64 {
            proof {
                if forall|k: int| 0 <= k < d.len() ==> is_digit(#[trigger] d[k]) {
                    lemma_digits_prefix_le(d, i - start + 1);
                    assert(digits_value(d.take(i - start + 1)) == nv);
                    assert(digits_value(d) > u32::MAX);
                }
                assert(parsed_u32(s@) is None);
            }
            return None;
        }
        v = nv;
        i = i + 1;
    }
    proof {
        assert(d.take(s.len() - start) == d);
    }
    Some(v as u32)
}

proof fn lemma_digits_prefix_le(d: Seq<char>, k: int)
    requires
        0 <= k <= d.len(),
        forall|i: int| 0 <= i < d.len() ==> is_digit(#[trigger] d[i]),
    ensures
        digits_value(d.take(k)) <= digits_value(d),
    decreases d.len() - k,
{
    if k < d.len() {
        lemma_digits_prefix_le(d, k + 1);
        assert(d.take(k + 1).drop_last() == d.take(k));
    } else {
        assert(d.take(k) == d);
    }
}

/// The numbers of the dot-separated parts of `s` that parse, in order.
pub open spec fn parse_parts(ps: Seq<Seq<char>>) -> Seq<u32>
    decreases ps.len(),
{
    if ps.len() == 0 {
        Seq::empty()
    } else {
        let prev = parse_parts(ps.drop_last());
        match parsed_u32(ps.last()) {
            Some(n) => prev.push(n),
            None => prev,
        }
    }
}

pub open spec fn version_numbers(s: Seq<char>) -> Seq<u32> {
    parse_parts(pieces(s, '.'))
}

/// Part `i` of `v`, or 0 past its end.
pub open spec fn part(v: Seq<u32>, i: int) -> u32 {
    if 0 <= i < v.len() {
        v[i]
    } else {
        0
    }
}

/// Whether `l` is greater than `c` from part `i` on, missing parts counting as 0.
pub open spec fn greater_from(l: Seq<u32>, c: Seq<u32>, i: int) -> bool
    decreases l.len() + c.len() - i,
{
    if i < 0 || i >= l.len() && i >= c.len() {
        false
    } else if part(l, i) > part(c, i) {
        true
    } else if part(l, i) < part(c, i) {
        false
    } else {
        greater_from(l, c, i + 1)
    }
}

/// Whether version `latest` is newer than `current`: their numeric parts compared
/// in order, missing parts counting as 0, parts that do not parse left out.
pub open spec fn newer(latest: Seq<char>, current: Seq<char>) -> bool {
    greater_from(version_numbers(latest), version_numbers(current), 0)
}

fn numbers_of(s: &str) -> (r: Vec<u32>)
    ensures
        r@ == version_numbers(s@),
{
    let ps = split_on(s, '.');
    let ghost pv = pieces(s@, '.');
    let mut r: Vec<u32> = Vec::new();
    let mut i: usize = 0;
    while i < ps.len()
        invariant
            i <= ps.len(),
            ps@.len() == pv.len(),
            forall|k: int| 0 <= k < ps@.len() ==> #[trigger] ps@[k]@ == pv[k],
            r@ == parse_parts(pv.take(i as int)),
        decreases ps.len() - i,
    {
        proof {
            assert(pv.take(i + 1).drop_last() == pv.take(i as int));
            assert(pv.take(i + 1).last() == ps@[i as int]@);
        }
        match parse_u32(&ps[i]) {
            Some(n) => r.push(n),
            None => {},
        }
        i = i + 1;
    }
    proof {
        assert(pv.take(ps.len() as int) == pv);
    }
    r
}

/// Whether version `latest` is newer than version `current`.
pub fn version_is_newer(latest: &str, current: &str) -> (r: bool)
    ensures
        r == newer(latest@, current@),
{
    let l = numbers_of(latest);
    let c = numbers_of(current);
    let n = if l.len() > c.len() {
        l.len()
    } else {
        c.len()
    };
    let mut i: usize = 0;
    while i < n
        invariant
            i <= n,
            l@ == version_numbers(latest@),
            c@ == version_numbers(current@),
            n == if l@.len() > c@.len() { l@.len() } else { c@.len() },
            greater_from(l@, c@, 0) == greater_from(l@, c@, i as int),
        decreases n - i,
    {
        let a: u32 = if i < l.len() {
            l[i]
        } else {
            0
        };
        let b: u32 = if i < c.len() {
            c[i]
        } else {
            0
        };
        assert(a == part(l@, i as int) && b == part(c@, i as int));
        assert(greater_from(l@, c@, i as int) == (a > b || (a == b && greater_from(l@, c@, i + 1))));
        if a > b {
            return true;
        }
        if a < b {
            return false;
        }
        i = i + 1;
    }
    false
}

/// The first position at or after `i` where `pat` occurs in `s`, or -1.
pub open spec fn first_from(s: Seq<char>, pat: Seq<char>, i: int) -> int
    decreases s.len() + 1 - i,
{
    if i < 0 || i + pat.len() > s.len() {
        -1
    } else if s.subrange(i, i + pat.len()) == pat {
        i
    } else {
        first_from(s, pat, i + 1)
    }
}

/// The first position where `pat` occurs in `s`.
fn find(s: &Vec<char>, pat: &Vec<char>) -> (r: Option<usize>)
    ensures
        r matches Some(i) ==> i as int == first_from(s@, pat@, 0) && i + pat@.len() <= s@.len(),
        r is None ==> first_from(s@, pat@, 0) == -1,
{
    if pat.len() > s.len() {
        return None;
    }
    let last = s.len() - pat.len();
    let mut i: usize = 0;
    while i <= last
        invariant
            last + pat.len() == s.len(),
            first_from(s@, pat@, 0) == first_from(s@, pat@, i as int),
        decreases last + 1 - i,
    {
        if matches_at(s, pat, i) {
            return Some(i);
        }
        if i == last {
            assert(first_from(s@, pat@, i + 1) == -1);
            return None;
        }
        i = i + 1;
    }
    None
}

/// `s` without its leading `v`s.
pub open spec fn strip_v(s: Seq<char>) -> Seq<char>
    decreases s.len(),
{
    if s.len() > 0 && s[0] == 'v' {
        strip_v(s.drop_first())
    } else {
        s
    }
}

/// The version a formula line names: after the first `tag:`, the text between the
/// next two double quotes, without leading `v`s.
pub open spec fn line_version(line: Seq<char>) -> Option<Seq<char>> {
    let p = first_from(line, seq!['t', 'a', 'g', ':'], 0);
    if p < 0 {
        None
    } else {
        let after = line.subrange(p, line.len() as int);
        let a = first_from(after, seq!['"'], 0);
        if a < 0 {
            None
        } else {
            let rest = after.subrange(a + 1, after.len() as int);
            let b = first_from(rest, seq!['"'], 0);
            if b < 0 {
                None
            } else {
                Some(strip_v(rest.take(b)))
            }
        }
    }
}

/// The version named by the first of `lines` that names one.
pub open spec fn first_version(lines: Seq<Seq<char>>) -> Option<Seq<char>>
    decreases lines.len(),
{
    if lines.len() == 0 {
        None
    } else {
        match line_version(lines[0]) {
            Some(v) => Some(v),
            None => first_version(lines.drop_first()),
        }
    }
}

/// The version a release formula names, on its first line that has one.
pub open spec fn formula_version(text: Seq<char>) -> Option<Seq<char>> {
    first_version(pieces(text, '\n'))
}

fn copy_range(s: &Vec<char>, from: usize, to: usize) -> (r: Vec<char>)
    requires
        from <= to <= s.len(),
    ensures
        r@ == s@.subrange(from as int, to as int),
{
    let mut r: Vec<char> = Vec::new();
    let mut k: usize = from;
    while k < to
        invariant
            from <= k <= to <= s.len(),
            r@ == s@.subrange(from as int, k as int),
        decreases to - k,
    {
        r.push(s[k]);
        proof {
            assert(s@.subrange(from as int, k + 1) == s@.subrange(from as int, k as int).push(s@[k as int]));
        }
        k = k + 1;
    }
    r
}

fn line_version_of(line: &Vec<char>) -> (r: Option<Vec<char>>)
    ensures
        r matches Some(v) ==> line_version(line@) == Some(v@),
        r is None ==> line_version(line@) is None,
{
    let tag = vec!['t', 'a', 'g', ':'];
    let quote = vec!['"'];
    assert(tag@ == seq!['t', 'a', 'g', ':']);
    assert(quote@ == seq!['"']);
    let p = match find(line, &tag) {
        Some(p) => p,
        None => return None,
    };
    let after = copy_range(line, p, line.len());
    let a = match find(&after, &quote) {
        Some(a) => a,
        None => return None,
    };
    let rest = copy_range(&after, a + 1, after.len());
    let b = match find(&rest, &quote) {
        Some(b) => b,
        None => return None,
    };
    let mut k: usize = 0;
    while k < b && rest[k] == 'v'
        invariant
            k <= b < rest.len(),
            strip_v(rest@.take(b as int)) == strip_v(rest@.subrange(k as int, b as int)),
        decreases b - k,
    {
        proof {
            assert(rest@.subrange(k as int, b as int).drop_first() == rest@.subrange(k + 1, b as int));
        }
        k = k + 1;
    }
    proof {
        assert(rest@.take(b as int) == rest@.subrange(0, b as int));
    }
    let v = copy_range(&rest, k, b);
    Some(v)
}

/// Reads the version a release formula names: on the first line holding `tag:`
/// followed by a double-quoted string, that string without leading `v`s.
pub fn parse_formula_version(text: &str) -> (r: Option<String>)
    ensures
        r matches Some(v) ==> formula_version(text@) == Some(v@),
        r is None ==> formula_version(text@) is None,
{
    let lines = split_on(text, '\n');
    let ghost lv = pieces(text@, '\n');
    assert(lv.skip(0) == lv);
    let mut i: usize = 0;
    while i < lines.len()
        invariant
            i <= lines.len(),
            lv == pieces(text@, '\n'),
            lines@.len() == lv.len(),
            forall|k: int| 0 <= k < lines@.len() ==> #[trigger] lines@[k]@ == lv[k],
            first_version(lv) == first_version(lv.skip(i as int)),
        decreases lines.len() - i,
    {
        assert(lv.skip(i as int).len() > 0);
        proof {
            assert(lv.skip(i as int)[0] == lines@[i as int]@);
            assert(lv.skip(i as int).drop_first() == lv.skip(i + 1));
        }
        match line_version_of(&lines[i]) {
            Some(v) => {
                return Some(string_of(&v));
            },
            None => {},
        }
        i = i + 1;
    }
    proof {
        assert(lv.skip(lines.len() as int) =~= Seq::<Seq<char>>::empty());
    }
    None
}


/// How long a fetched version stays trusted, in seconds.
pub const CACHE_DURATION_SECS: u64 = 86400;

/// The remembered result of the last version fetch.
#[derive(Debug, Clone)]
pub struct VersionCache {
    pub latest_version: String,
    pub checked_at: u64,
    pub notified_version: Option<String>,
}

/// What an update check does next.
#[derive(Debug, Clone)]
pub enum UpdateStep {
    /// Tell the user about this version, and remember that it was told.
    Notify(String, VersionCache),
    /// Say nothing and fetch nothing.
    Quiet,
    /// The cache is missing or too old: fetch the latest version.
    Fetch,
}

/// Whether `o` holds a string with the characters `t`.
pub open spec fn holds_text(o: Option<String>, t: Seq<char>) -> bool {
    match o {
        Some(s) => s@ == t,
        None => false,
    }
}

/// Whether the cache says that its latest version was already announced.
pub open spec fn already_told(c: VersionCache) -> bool {
    holds_text(c.notified_version, c.latest_version@)
}

/// Whether `r` announces the version of `c` and keeps `c` marked as announced.
pub open spec fn announces(r: UpdateStep, c: VersionCache) -> bool {
    match r {
        UpdateStep::Notify(v, w) => v@ == c.latest_version@ && w.latest_version@ == c.latest_version@
            && w.checked_at == c.checked_at && holds_text(w.notified_version, c.latest_version@),
        _ => false,
    }
}

/// Decides an update check from the cache: a cache younger than a day is trusted,
/// and a newer version in it is announced once; otherwise the version is fetched.
pub fn check_for_updates_inner(now: u64, cache: Option<VersionCache>, current: &str) -> (r: UpdateStep)
    ensures
        match cache {
            None => r is Fetch,
            Some(c) => if now < c.checked_at + CACHE_DURATION_SECS {
                if newer(c.latest_version@, current@) && !already_told(c) {
                    announces(r, c)
                } else {
                    r is Quiet
                }
            } else {
                r is Fetch
            },
        },
{
    match cache {
        None => UpdateStep::Fetch,
        Some(c) => {
            let age = if now > c.checked_at {
                now - c.checked_at
            } else {
                0
            };
            if age < CACHE_DURATION_SECS {
                if version_is_newer(c.latest_version.as_str(), current) {
                    let told = match &c.notified_version {
                        Some(n) => *n == c.latest_version,
                        None => false,
                    };
                    if !told {
                        let version = c.latest_version.clone();
                        let updated = VersionCache {
                            notified_version: Some(version.clone()),
                            latest_version: version.clone(),
                            checked_at: c.checked_at,
                        };
                        return UpdateStep::Notify(version, updated);
                    }
                }
                UpdateStep::Quiet
            } else {
                UpdateStep::Fetch
            }
        },
    }
}

/// The cache to keep after fetching `latest` at time `now`, and the version to
/// announce, if it is newer than `current`.
pub fn record_fetched_version(latest: String, now: u64, current: &str) -> (r: (VersionCache, Option<String>))
    ensures
        r.0.latest_version@ == latest@,
        r.0.checked_at == now,
        newer(latest@, current@) ==> holds_text(r.0.notified_version, latest@) && holds_text(r.1, latest@),
        !newer(latest@, current@) ==> r.0.notified_version is None && r.1 is None,
{
    let notify = version_is_newer(latest.as_str(), current);
    let cache = VersionCache {
        latest_version: latest.clone(),
        checked_at: now,
        notified_version: if notify {
            Some(latest.clone())
        } else {
            None
        },
    };
    if notify {
        (cache, Some(latest))
    } else {
        (cache, None)
    }
}

} // verus!
