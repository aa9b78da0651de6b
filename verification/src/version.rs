//! Version strings of releases (`v0.11.0`, `0.11.0`, `1.0`): parsing into
//! numeric components and comparing the running version with the latest
//! release.

use vstd::prelude::*;
use vstd::string::*;
use crate::text::{chars_of, digit_char, lemma_digit_char, nat_digits};

verus! {

broadcast use vstd::string::group_string_axioms;

/// `s` without one leading `v`.
pub open spec fn spec_strip_v(s: Seq<char>) -> Seq<char> {
    if s.len() > 0 && s[0] == 'v' {
        s.drop_first()
    } else {
        s
    }
}

/// The pieces of `s` between occurrences of `sep`, as `str::split` gives
/// them: the empty text has one empty piece, and a separator at either end
/// gives an empty piece there.
pub open spec fn split_on(s: Seq<char>, sep: char) -> Seq<Seq<char>>
    decreases s.len(),
{
    if s.len() == 0 {
        seq![Seq::<char>::empty()]
    } else {
        let pieces = split_on(s.drop_last(), sep);
        if s.last() == sep {
            pieces.push(Seq::empty())
        } else {
            pieces.update(pieces.len() - 1, pieces.last().push(s.last()))
        }
    }
}

/// `c` is an ASCII decimal digit.
pub open spec fn is_digit(c: char) -> bool {
    '0' <= c && c <= '9'
}

/// The number that the decimal digits `d` write.
pub open spec fn digits_value(d: Seq<char>) -> nat
    decreases d.len(),
{
    if d.len() == 0 {
        0
    } else {
        digits_value(d.drop_last()) * 10 + ((d.last() as nat) - ('0' as nat)) as nat
    }
}

/// `s` without one leading `+`.
pub open spec fn unsigned_digits(s: Seq<char>) -> Seq<char> {
    if s.len() > 0 && s[0] == '+' {
        s.drop_first()
    } else {
        s
    }
}

/// What `u64::from_str` gives for `s`: an optional `+`, then one or more
/// ASCII digits whose value fits in a `u64`; anything else is an error.
pub open spec fn parse_u64_spec(s: Seq<char>) -> Option<u64> {
    let d = unsigned_digits(s);
    if d.len() > 0 && (forall|i: int| 0 <= i < d.len() ==> is_digit(#[trigger] d[i])) && digits_value(d)
        <= u64::MAX {
        Some(digits_value(d) as u64)
    } else {
        None
    }
}

/// The numeric components of the version `s`: `s` without a leading `v`,
/// split at each `.`, when every piece is a `u64`; `None` otherwise.
pub open spec fn version_spec(s: Seq<char>) -> Option<Seq<u64>> {
    let parts = split_on(spec_strip_v(s), '.');
    if parts.len() > 0 && forall|i: int| 0 <= i < parts.len() ==> (#[trigger] parse_u64_spec(parts[i])) is Some {
        Some(parts.map_values(|p: Seq<char>| parse_u64_spec(p)->0))
    } else {
        None
    }
}

/// How the running version stands against the latest release.
#[derive(Debug, PartialEq, Eq, Structural, Clone, Copy)]
pub enum VersionCmp {
    UpToDate,
    Outdated,
    Ahead,
    /// Either version isn't parseable as dotted numbers. The CLI surfaces this
    /// as "unable to compare" and lets the user judge.
    Unknown,
}

/// The lexicographic order of two component lists, as `Vec`'s `Ord` gives
/// it: the first differing component decides, and a proper prefix comes
/// first.
pub open spec fn lex_order(a: Seq<u64>, b: Seq<u64>) -> VersionCmp
    decreases a.len(),
{
    if a.len() == 0 && b.len() == 0 {
        VersionCmp::UpToDate
    } else if a.len() == 0 {
        VersionCmp::Outdated
    } else if b.len() == 0 {
        VersionCmp::Ahead
    } else if a[0] < b[0] {
        VersionCmp::Outdated
    } else if a[0] > b[0] {
        VersionCmp::Ahead
    } else {
        lex_order(a.drop_first(), b.drop_first())
    }
}

/// How version `current` stands against version `latest`.
pub open spec fn compare_spec(current: Seq<char>, latest: Seq<char>) -> VersionCmp {
    match (version_spec(current), version_spec(latest)) {
        (Some(c), Some(l)) => lex_order(c, l),
        _ => VersionCmp::Unknown,
    }
}

/// Strip a leading `v` from a tag like `v0.11.0`.
pub fn strip_v(s: &str) -> (r: &str)
    ensures
        r@ == spec_strip_v(s@),
{
    let n = s.unicode_len();
    if n > 0 && s.get_char(0) == 'v' {
        s.substring_char(1, n)
    } else {
        s
    }
}

/// The pieces of `s` between the occurrences of `sep`.
pub fn split_chars(s: &Vec<char>, sep: char) -> (r: Vec<Vec<char>>)
    ensures
        r@.map_values(|p: Vec<char>| p@) == split_on(s@, sep),
{
    let mut done: Vec<Vec<char>> = Vec::new();
    let mut cur: Vec<char> = Vec::new();
    let mut i: usize = 0;
    assert(s@.subrange(0, 0) =~= Seq::<char>::empty());
    while i < s.len()
        invariant
            i <= s.len(),
            done@.map_values(|p: Vec<char>| p@).push(cur@) == split_on(s@.subrange(0, i as int), sep),
        decreases s.len() - i,
    {
        let c = s[i];
        let ghost before = s@.subrange(0, i as int);
        assert(s@.subrange(0, i + 1).drop_last() == before);
        assert(s@.subrange(0, i + 1).last() == c);
        if c == sep {
            let piece = cur;
            done.push(piece);
            cur = Vec::new();
            assert(done@.map_values(|p: Vec<char>| p@).push(cur@) =~= split_on(before, sep).push(Seq::empty()));
        } else {
            let ghost prev = done@.map_values(|p: Vec<char>| p@).push(cur@);
            cur.push(c);
            assert(done@.map_values(|p: Vec<char>| p@).push(cur@) =~= prev.update(prev.len() - 1, prev.last().push(c)));
        }
        i = i + 1;
    }
    assert(s@.subrange(0, s.len() as int) == s@);
    let ghost prev = done@;
    done.push(cur);
    assert(done@.map_values(|p: Vec<char>| p@) =~= prev.map_values(|p: Vec<char>| p@).push(cur@));
    done
}

proof fn lemma_digits_monotone(d: Seq<char>, k: int)
    requires
        0 <= k <= d.len(),
        forall|i: int| 0 <= i < d.len() ==> is_digit(#[trigger] d[i]),
    ensures
        digits_value(d.subrange(0, k)) <= digits_value(d),
    decreases d.len() - k,
{
    if k < d.len() {
        lemma_digits_monotone(d, k + 1);
        let p = d.subrange(0, k + 1);
        assert(p.drop_last() == d.subrange(0, k));
        assert(digits_value(p) == digits_value(d.subrange(0, k)) * 10 + ((p.last() as nat) - ('0' as nat)) as nat);
    } else {
        assert(d.subrange(0, k) == d);
    }
}

/// The `u64` that `s` writes, as `u64::from_str` reads it.
pub fn parse_u64(s: &Vec<char>) -> (r: Option<u64>)
    ensures
        r == parse_u64_spec(s@),
{
    let n = s.len();
    let start: usize = if n > 0 && s[0] == '+' {
        1
    } else {
        0
    };
    let ghost d = unsigned_digits(s@);
    assert(d == s@.subrange(start as int, n as int));
    if start == n {
        assert(d.len() == 0);
        return None;
    }
    let mut i: usize = start;
    while i < n
        invariant
            n == s@.len(),
            start <= i <= n,
            d == s@.subrange(start as int, n as int),
            d == unsigned_digits(s@),
            forall|j: int| 0 <= j < i - start ==> is_digit(#[trigger] d[j]),
        decreases n - i,
    {
        assert(d[i - start] == s@[i as int]);
        if !('0' <= s[i] && s[i] <= '9') {
            assert(!is_digit(d[i - start]));
            return None;
        }
        i = i + 1;
    }
    let mut acc: u64 = 0;
    let mut k: usize = start;
    assert(d.subrange(0, 0) =~= Seq::<char>::empty());
    while k < n
        invariant
            n == s@.len(),
            start <= k <= n,
            d == s@.subrange(start as int, n as int),
            d == unsigned_digits(s@),
            forall|j: int| 0 <= j < d.len() ==> is_digit(#[trigger] d[j]),
            acc == digits_value(d.subrange(0, k - start)),
        decreases n - k,
    {
        let c = s[k];
        assert(d[k - start] == c);
        assert(is_digit(d[k - start]));
        let digit: u64 = (c as u32 - '0' as u32) as u64;
        let ghost p = d.subrange(0, k + 1 - start);
        assert(p.drop_last() == d.subrange(0, k - start));
        assert(p.last() == c);
        assert(digits_value(p) == acc * 10 + digit);
        match acc.checked_mul(10) {
            Some(m) => match m.checked_add(digit) {
                Some(v) => {
                    acc = v;
                },
                None => {
                    proof {
                        lemma_digits_monotone(d, k + 1 - start);
                    }
                    return None;
                },
            },
            None => {
                proof {
                    lemma_digits_monotone(d, k + 1 - start);
                }
                return None;
            },
        }
        k = k + 1;
    }
    assert(d.subrange(0, n - start) == d);
    Some(acc)
}

/// Parse a dotted version like `0.11.0` into a sortable tuple of u64s. Returns
/// `None` for empty / non-numeric components so callers can fall back to a
/// string compare instead of pretending we did a real comparison.
pub fn parse_version(s: &str) -> (r: Option<Vec<u64>>)
    ensures
        match r {
            Some(v) => version_spec(s@) == Some(v@),
            None => version_spec(s@) is None,
        },
{
    let stripped = strip_v(s);
    let chars = chars_of(stripped);
    let parts = split_chars(&chars, '.');
    let ghost pv = parts@.map_values(|p: Vec<char>| p@);
    if parts.len() == 0 {
        return None;
    }
    let mut out: Vec<u64> = Vec::new();
    let mut i: usize = 0;
    while i < parts.len()
        invariant
            pv == parts@.map_values(|p: Vec<char>| p@),
            pv == split_on(spec_strip_v(s@), '.'),
            i <= parts.len(),
            out@.len() == i,
            forall|j: int| 0 <= j < i ==> parse_u64_spec(#[trigger] pv[j]) == Some(out@[j]),
        decreases parts.len() - i,
    {
        match parse_u64(&parts[i]) {
            Some(x) => {
                out.push(x);
            },
            None => {
                assert(parse_u64_spec(pv[i as int]) is None);
                return None;
            },
        }
        i = i + 1;
    }
    assert(out@ =~= pv.map_values(|p: Seq<char>| parse_u64_spec(p)->0));
    Some(out)
}

/// The lexicographic order of `a` against `b`.
fn order_components(a: &Vec<u64>, b: &Vec<u64>) -> (r: VersionCmp)
    ensures
        r == lex_order(a@, b@),
{
    let mut i: usize = 0;
    assert(a@.subrange(0, a@.len() as int) == a@);
    assert(b@.subrange(0, b@.len() as int) == b@);
    while i < a.len() && i < b.len()
        invariant
            i <= a.len(),
            i <= b.len(),
            lex_order(a@, b@) == lex_order(a@.subrange(i as int, a@.len() as int), b@.subrange(i as int, b@.len() as int)),
        decreases a.len() - i,
    {
        let ghost sa = a@.subrange(i as int, a@.len() as int);
        let ghost sb = b@.subrange(i as int, b@.len() as int);
        assert(sa[0] == a@[i as int]);
        assert(sb[0] == b@[i as int]);
        if a[i] < b[i] {
            return VersionCmp::Outdated;
        }
        if a[i] > b[i] {
            return VersionCmp::Ahead;
        }
        assert(sa.drop_first() == a@.subrange(i + 1, a@.len() as int));
        assert(sb.drop_first() == b@.subrange(i + 1, b@.len() as int));
        i = i + 1;
    }
    if i == a.len() && i == b.len() {
        VersionCmp::UpToDate
    } else if i == a.len() {
        VersionCmp::Outdated
    } else {
        VersionCmp::Ahead
    }
}

/// How the version `current` stands against the version `latest`.
pub fn compare_versions(current: &str, latest: &str) -> (r: VersionCmp)
    ensures
        r == compare_spec(current@, latest@),
{
    match (parse_version(current), parse_version(latest)) {
        (Some(c), Some(l)) => order_components(&c, &l),
        _ => VersionCmp::Unknown,
    }
}

/// The version of this build.
pub open spec fn build_version() -> Seq<char> {
    "0.11.0"@
}

/// The version of the running binary.
pub fn current_version() -> (r: &'static str)
    ensures
        r@ == build_version(),
{
    "0.11.0"
}


proof fn lemma_lex_flip(a: Seq<u64>, b: Seq<u64>)
    ensures
        (lex_order(a, b) == VersionCmp::Outdated) == (lex_order(b, a) == VersionCmp::Ahead),
        (lex_order(a, b) == VersionCmp::UpToDate) == (lex_order(b, a) == VersionCmp::UpToDate),
        lex_order(a, b) != VersionCmp::Unknown,
    decreases a.len(),
{
    if a.len() > 0 && b.len() > 0 && a[0] == b[0] {
        lemma_lex_flip(a.drop_first(), b.drop_first());
    }
}

proof fn lemma_lex_refl(a: Seq<u64>)
    ensures
        lex_order(a, a) == VersionCmp::UpToDate,
    decreases a.len(),
{
    if a.len() > 0 {
        lemma_lex_refl(a.drop_first());
    }
}

proof fn lemma_lex_trans(a: Seq<u64>, b: Seq<u64>, c: Seq<u64>)
    requires
        lex_order(a, b) == VersionCmp::Outdated,
        lex_order(b, c) == VersionCmp::Outdated,
    ensures
        lex_order(a, c) == VersionCmp::Outdated,
    decreases a.len(),
{
    if a.len() > 0 && b.len() > 0 && c.len() > 0 && a[0] == b[0] && b[0] == c[0] {
        lemma_lex_trans(a.drop_first(), b.drop_first(), c.drop_first());
    }
}

/// Swapping the two versions swaps "outdated" and "ahead" and keeps
/// "up to date" and "unknown".
pub proof fn law_compare_swaps(current: Seq<char>, latest: Seq<char>)
    ensures
        (compare_spec(current, latest) == VersionCmp::Outdated) == (compare_spec(latest, current)
            == VersionCmp::Ahead),
        (compare_spec(current, latest) == VersionCmp::UpToDate) == (compare_spec(latest, current)
            == VersionCmp::UpToDate),
        (compare_spec(current, latest) == VersionCmp::Unknown) == (compare_spec(latest, current)
            == VersionCmp::Unknown),
{
    match (version_spec(current), version_spec(latest)) {
        (Some(c), Some(l)) => {
            lemma_lex_flip(c, l);
            lemma_lex_flip(l, c);
        },
        _ => {},
    }
}

/// A version that parses is up to date against itself; one that does not is
/// unknown against anything.
pub proof fn law_compare_same_version(v: Seq<char>, other: Seq<char>)
    ensures
        version_spec(v) is Some ==> compare_spec(v, v) == VersionCmp::UpToDate,
        version_spec(v) is None ==> compare_spec(v, other) == VersionCmp::Unknown,
{
    if let Some(c) = version_spec(v) {
        lemma_lex_refl(c);
    }
}

/// "Outdated" is transitive: a version older than one older than a third is
/// older than the third.
pub proof fn law_compare_transitive(a: Seq<char>, b: Seq<char>, c: Seq<char>)
    requires
        compare_spec(a, b) == VersionCmp::Outdated,
        compare_spec(b, c) == VersionCmp::Outdated,
    ensures
        compare_spec(a, c) == VersionCmp::Outdated,
{
    let va = version_spec(a)->0;
    let vb = version_spec(b)->0;
    let vc = version_spec(c)->0;
    lemma_lex_trans(va, vb, vc);
}

/// Components that agree before position `i` and differ at `i` are ordered
/// by that position alone.
proof fn lemma_first_difference(c: Seq<u64>, l: Seq<u64>, i: int)
    requires
        0 <= i < c.len(),
        i < l.len(),
        forall|j: int| 0 <= j < i ==> c[j] == l[j],
    ensures
        c[i] < l[i] ==> lex_order(c, l) == VersionCmp::Outdated,
        c[i] > l[i] ==> lex_order(c, l) == VersionCmp::Ahead,
    decreases i,
{
    if i > 0 {
        assert(c[0] == l[0]);
        lemma_first_difference(c.drop_first(), l.drop_first(), i - 1);
    }
}

/// Components that agree at every position of the shorter list are ordered
/// by length: the shorter is older, and equal ones are the same version.
proof fn lemma_common_prefix(c: Seq<u64>, l: Seq<u64>)
    requires
        forall|j: int| 0 <= j < c.len() && j < l.len() ==> c[j] == l[j],
    ensures
        c.len() < l.len() ==> lex_order(c, l) == VersionCmp::Outdated,
        c.len() > l.len() ==> lex_order(c, l) == VersionCmp::Ahead,
        c.len() == l.len() ==> lex_order(c, l) == VersionCmp::UpToDate,
    decreases c.len(),
{
    if c.len() > 0 && l.len() > 0 {
        assert(c[0] == l[0]);
        lemma_common_prefix(c.drop_first(), l.drop_first());
    }
}

/// Two parsed versions are ordered from their first component on: where
/// they first differ, at position `i`, the one whose component there is
/// smaller is the older; where one runs out first with all its components
/// matching, it is the older; with all components equal they are the same.
pub proof fn law_compare_first_difference(current: Seq<char>, latest: Seq<char>, c: Seq<u64>, l: Seq<u64>, i: int)
    requires
        version_spec(current) == Some(c),
        version_spec(latest) == Some(l),
        0 <= i <= c.len(),
        i <= l.len(),
        forall|j: int| 0 <= j < i ==> c[j] == l[j],
    ensures
        i < c.len() && i < l.len() && c[i] < l[i] ==> compare_spec(current, latest) == VersionCmp::Outdated,
        i < c.len() && i < l.len() && c[i] > l[i] ==> compare_spec(current, latest) == VersionCmp::Ahead,
        i == c.len() && i < l.len() ==> compare_spec(current, latest) == VersionCmp::Outdated,
        i < c.len() && i == l.len() ==> compare_spec(current, latest) == VersionCmp::Ahead,
        i == c.len() && i == l.len() ==> compare_spec(current, latest) == VersionCmp::UpToDate,
{
    if i < c.len() && i < l.len() {
        lemma_first_difference(c, l, i);
    } else {
        lemma_common_prefix(c, l);
    }
}

/// One leading `v` does not change the version a tag names.
pub proof fn law_leading_v_ignored(s: Seq<char>)
    requires
        s.len() == 0 || s[0] != 'v',
    ensures
        version_spec(seq!['v'] + s) == version_spec(s),
{
    assert((seq!['v'] + s).drop_first() == s);
}

/// The components `v` written in decimal and joined by dots, as
/// `v.iter().map(|x| x.to_string()).collect::<Vec<_>>().join(".")` writes
/// them.
pub open spec fn dotted(v: Seq<u64>) -> Seq<char>
    decreases v.len(),
{
    if v.len() == 0 {
        Seq::empty()
    } else if v.len() == 1 {
        nat_digits(v[0] as nat)
    } else {
        dotted(v.drop_last()) + seq!['.'] + nat_digits(v.last() as nat)
    }
}

/// The decimal digits of `n` are digits, none a dot, and read back as `n`.
proof fn lemma_nat_digits(n: nat)
    ensures
        nat_digits(n).len() >= 1,
        forall|i: int| 0 <= i < nat_digits(n).len() ==> is_digit(#[trigger] nat_digits(n)[i]),
        forall|i: int| 0 <= i < nat_digits(n).len() ==> #[trigger] nat_digits(n)[i] != '.',
        digits_value(nat_digits(n)) == n,
    decreases n,
{
    if n < 10 {
        lemma_digit_char(n as int);
        assert(nat_digits(n) == seq![digit_char(n as int)]);
        assert(nat_digits(n).drop_last() =~= Seq::<char>::empty());
        assert(digits_value(nat_digits(n).drop_last()) == 0);
        assert(nat_digits(n).last() == digit_char(n as int));
    } else {
        lemma_nat_digits(n / 10);
        lemma_digit_char((n % 10) as int);
        let p = nat_digits(n / 10);
        let q = nat_digits(n);
        assert(q == p.push(digit_char((n % 10) as int)));
        assert(q.drop_last() == p);
        assert forall|i: int| 0 <= i < q.len() implies is_digit(#[trigger] q[i]) && q[i] != '.' by {
            if i < p.len() {
                assert(q[i] == p[i]);
            }
        }
        assert(q.last() == digit_char((n % 10) as int));
        assert(digits_value(q) == digits_value(p) * 10 + (n % 10));
        assert(n == (n / 10) * 10 + n % 10) by (nonlinear_arith);
    }
}

proof fn lemma_split_len(s: Seq<char>, sep: char)
    ensures
        split_on(s, sep).len() >= 1,
    decreases s.len(),
{
    if s.len() > 0 {
        lemma_split_len(s.drop_last(), sep);
    }
}

/// Text without the separator extends the last piece.
proof fn lemma_split_append(a: Seq<char>, b: Seq<char>, sep: char)
    requires
        forall|i: int| 0 <= i < b.len() ==> b[i] != sep,
    ensures
        split_on(a + b, sep) == split_on(a, sep).update(
            split_on(a, sep).len() - 1,
            split_on(a, sep).last() + b,
        ),
    decreases b.len(),
{
    lemma_split_len(a, sep);
    let q = split_on(a, sep);
    if b.len() == 0 {
        assert(a + b == a);
        assert(q.last() + b == q.last());
        assert(q.update(q.len() - 1, q.last()) == q);
    } else {
        let b0 = b.drop_last();
        assert forall|i: int| 0 <= i < b0.len() implies b0[i] != sep by {
            assert(b0[i] == b[i]);
        }
        lemma_split_append(a, b0, sep);
        assert((a + b).drop_last() == a + b0);
        assert((a + b).last() == b.last());
        let p = split_on(a + b0, sep);
        assert(p == q.update(q.len() - 1, q.last() + b0));
        assert(split_on(a + b, sep) == p.update(p.len() - 1, p.last().push(b.last())));
        assert(q.last() + b0 + seq![b.last()] == q.last() + b);
        assert(p.last().push(b.last()) == q.last() + b);
        assert(split_on(a + b, sep) =~= q.update(q.len() - 1, q.last() + b));
    }
}

/// Splitting the dotted text at dots gives the decimal text of each
/// component; the text starts with a digit.
proof fn lemma_split_dotted(v: Seq<u64>)
    requires
        v.len() >= 1,
    ensures
        split_on(dotted(v), '.') == v.map_values(|x: u64| nat_digits(x as nat)),
        dotted(v).len() >= 1,
        is_digit(dotted(v)[0]),
    decreases v.len(),
{
    let d = nat_digits(v.last() as nat);
    lemma_nat_digits(v.last() as nat);
    if v.len() == 1 {
        lemma_split_append(Seq::empty(), d, '.');
        assert(Seq::<char>::empty() + d == d);
        assert(split_on(Seq::<char>::empty(), '.') == seq![Seq::<char>::empty()]);
        assert(split_on(d, '.') =~= seq![d]);
        assert(v.map_values(|x: u64| nat_digits(x as nat)) =~= seq![d]);
    } else {
        let w = v.drop_last();
        lemma_split_dotted(w);
        let a = dotted(w) + seq!['.'];
        assert(a.drop_last() == dotted(w));
        assert(a.last() == '.');
        assert(split_on(a, '.') == split_on(dotted(w), '.').push(Seq::empty()));
        assert(dotted(v) == a + d);
        lemma_split_append(a, d, '.');
        let q = split_on(a, '.');
        assert(q.last() + d == d);
        assert(split_on(dotted(v), '.') =~= v.map_values(|x: u64| nat_digits(x as nat)));
        assert(dotted(v)[0] == dotted(w)[0]);
    }
}

/// Components written in decimal and joined by dots parse back to the same
/// components, with or without a leading `v`.
pub proof fn law_parse_version_round_trip(v: Seq<u64>)
    requires
        v.len() >= 1,
    ensures
        version_spec(dotted(v)) == Some(v),
        version_spec(seq!['v'] + dotted(v)) == Some(v),
{
    lemma_split_dotted(v);
    let s = dotted(v);
    assert(s[0] != 'v');
    assert(spec_strip_v(s) == s);
    assert((seq!['v'] + s).drop_first() == s);
    assert(spec_strip_v(seq!['v'] + s) == s);
    let parts = split_on(s, '.');
    assert forall|i: int| 0 <= i < parts.len() implies #[trigger] parse_u64_spec(parts[i]) == Some(v[i]) by {
        lemma_nat_digits(v[i] as nat);
        let d = nat_digits(v[i] as nat);
        assert(parts[i] == d);
        assert(d[0] != '+');
        assert(unsigned_digits(d) == d);
    }
    assert(parts.map_values(|p: Seq<char>| parse_u64_spec(p)->0) =~= v);
}

} // verus!
