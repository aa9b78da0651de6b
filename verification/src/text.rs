//! Character-level helpers over `str` and `String`.

use vstd::prelude::*;
use vstd::string::*;

verus! {

broadcast use vstd::string::group_string_axioms;

/// Appends one character at the end of `s` (`String::push`).
#[verifier::external_body]
pub(crate) fn push_char(s: &mut String, c: char)
    ensures
        final(s)@ == old(s)@.push(c),
{
    s.push(c);
}

/// The characters of `s`, in order.
pub fn chars_of(s: &str) -> (v: Vec<char>)
    ensures
        v@ == s@,
{
    let n = s.unicode_len();
    let mut v: Vec<char> = Vec::new();
    let mut i: usize = 0;
    while i < n
        invariant
            n == s@.len(),
            i <= n,
            v@ == s@.subrange(0, i as int),
        decreases n - i,
    {
        let c = s.get_char(i);
        v.push(c);
        i = i + 1;
    }
    v
}

/// The string made of the characters of `v`, in order.
pub fn string_of(v: &Vec<char>) -> (s: String)
    ensures
        s@ == v@,
{
    let mut s = String::new();
    let mut i: usize = 0;
    while i < v.len()
        invariant
            i <= v.len(),
            s@ == v@.subrange(0, i as int),
        decreases v.len() - i,
    {
        push_char(&mut s, v[i]);
        i = i + 1;
    }
    s
}

/// Whether two strings hold the same characters.
pub fn same_text(a: &str, b: &str) -> (r: bool)
    ensures
        r == (a@ == b@),
{
    let n = a.unicode_len();
    let m = b.unicode_len();
    if n != m {
        return false;
    }
    let mut i: usize = 0;
    while i < n
        invariant
            n == a@.len(),
            m == b@.len(),
            n == m,
            i <= n,
            a@.subrange(0, i as int) == b@.subrange(0, i as int),
        decreases n - i,
    {
        if a.get_char(i) != b.get_char(i) {
            return false;
        }
        assert(a@.subrange(0, i + 1) == a@.subrange(0, i as int).push(a@[i as int]));
        assert(b@.subrange(0, i + 1) == b@.subrange(0, i as int).push(b@[i as int]));
        i = i + 1;
    }
    assert(a@ == a@.subrange(0, n as int));
    assert(b@ == b@.subrange(0, n as int));
    true
}

/// Whether `s` begins with `prefix`.
pub open spec fn starts_with(s: Seq<char>, prefix: Seq<char>) -> bool {
    prefix.len() <= s.len() && s.subrange(0, prefix.len() as int) == prefix
}

/// Whether `needle` occurs in `s` at position `i`.
pub open spec fn occurs_at(s: Seq<char>, needle: Seq<char>, i: int) -> bool {
    0 <= i && i + needle.len() <= s.len() && s.subrange(i, i + needle.len()) == needle
}

/// Whether `needle` occurs anywhere in `s`.
pub open spec fn contains_text(s: Seq<char>, needle: Seq<char>) -> bool {
    exists|i: int| occurs_at(s, needle, i)
}

/// Whether `s@` begins with `prefix@`.
pub fn has_prefix(s: &str, prefix: &str) -> (r: bool)
    ensures
        r == starts_with(s@, prefix@),
{
    let n = s.unicode_len();
    let m = prefix.unicode_len();
    if m > n {
        return false;
    }
    let mut i: usize = 0;
    while i < m
        invariant
            n == s@.len(),
            m == prefix@.len(),
            m <= n,
            i <= m,
            s@.subrange(0, i as int) == prefix@.subrange(0, i as int),
        decreases m - i,
    {
        if s.get_char(i) != prefix.get_char(i) {
            assert(s@.subrange(0, m as int)[i as int] != prefix@[i as int]);
            return false;
        }
        assert(s@.subrange(0, i + 1) == s@.subrange(0, i as int).push(s@[i as int]));
        assert(prefix@.subrange(0, i + 1) == prefix@.subrange(0, i as int).push(prefix@[i as int]));
        i = i + 1;
    }
    assert(prefix@ == prefix@.subrange(0, m as int));
    true
}

/// Whether `needle@` occurs in `hay@`.
pub fn has_text(hay: &str, needle: &str) -> (r: bool)
    ensures
        r == contains_text(hay@, needle@),
{
    let h = chars_of(hay);
    let nd = chars_of(needle);
    let n = h.len();
    let m = nd.len();
    if m == 0 {
        assert(hay@.subrange(0, 0) =~= needle@);
        assert(occurs_at(hay@, needle@, 0));
        return true;
    }
    if m > n {
        assert forall|i: int| !occurs_at(hay@, needle@, i) by {}
        return false;
    }
    let mut i: usize = 0;
    while i <= n - m
        invariant
            h@ == hay@,
            nd@ == needle@,
            n == h@.len(),
            m == nd@.len(),
            1 <= m <= n,
            i <= n - m + 1,
            forall|j: int| 0 <= j < i ==> !occurs_at(hay@, needle@, j),
        decreases n - m + 1 - i,
    {
        let mut k: usize = 0;
        let mut same = true;
        while k < m
            invariant
                h@ == hay@,
                nd@ == needle@,
                n == h@.len(),
                m == nd@.len(),
                i + m <= n,
                k <= m,
                same ==> hay@.subrange(i as int, i + k) == needle@.subrange(0, k as int),
                !same ==> !occurs_at(hay@, needle@, i as int),
            decreases m - k,
        {
            if same {
                if h[i + k] != nd[k] {
                    assert(hay@.subrange(i as int, i + m)[k as int] == hay@[i + k]);
                    same = false;
                } else {
                    assert(hay@.subrange(i as int, i + k + 1) == hay@.subrange(i as int, i + k).push(hay@[i + k]));
                    assert(needle@.subrange(0, k + 1) == needle@.subrange(0, k as int).push(needle@[k as int]));
                }
            }
            k = k + 1;
        }
        if same {
            assert(needle@.subrange(0, m as int) == needle@);
            assert(occurs_at(hay@, needle@, i as int));
            return true;
        }
        i = i + 1;
    }
    assert forall|j: int| !occurs_at(hay@, needle@, j) by {
        if 0 <= j && j + m <= n {
            assert(j < i);
        }
    }
    false
}

/// The decimal digit `d` as a character.
pub open spec fn digit_char(d: int) -> char {
    seq!['0', '1', '2', '3', '4', '5', '6', '7', '8', '9'][d]
}

/// The decimal digits of `n`, most significant first, without leading zeros.
pub open spec fn nat_digits(n: nat) -> Seq<char>
    decreases n,
{
    if n < 10 {
        seq![digit_char(n as int)]
    } else {
        nat_digits(n / 10).push(digit_char((n % 10) as int))
    }
}

/// `n` written in decimal, with a leading `-` when negative, as `Display`
/// writes an integer.
pub open spec fn int_text(n: int) -> Seq<char> {
    if n < 0 {
        seq!['-'] + nat_digits((-n) as nat)
    } else {
        nat_digits(n as nat)
    }
}

/// The digit characters are the ASCII digits, in order.
pub proof fn lemma_digit_char(d: int)
    requires
        0 <= d < 10,
    ensures
        '0' <= digit_char(d) <= '9',
        (digit_char(d) as nat) - ('0' as nat) == d,
        digit_char(d) != '.',
        digit_char(d) != '+',
        digit_char(d) != 'v',
{
    let t = seq!['0', '1', '2', '3', '4', '5', '6', '7', '8', '9'];
    assert(digit_char(d) == t[d]);
    if d == 0 {
        assert(t[0] == '0');
    } else if d == 1 {
        assert(t[1] == '1');
    } else if d == 2 {
        assert(t[2] == '2');
    } else if d == 3 {
        assert(t[3] == '3');
    } else if d == 4 {
        assert(t[4] == '4');
    } else if d == 5 {
        assert(t[5] == '5');
    } else if d == 6 {
        assert(t[6] == '6');
    } else if d == 7 {
        assert(t[7] == '7');
    } else if d == 8 {
        assert(t[8] == '8');
    } else {
        assert(t[9] == '9');
    }
}

/// Decimal text is ASCII.
pub proof fn lemma_nat_digits_ascii(n: nat)
    ensures
        forall|i: int| 0 <= i < nat_digits(n).len() ==> '0' <= #[trigger] nat_digits(n)[i] <= '9',
    decreases n,
{
    if n < 10 {
        lemma_digit_char(n as int);
    } else {
        lemma_nat_digits_ascii(n / 10);
        lemma_digit_char((n % 10) as int);
        let p = nat_digits(n / 10);
        assert forall|i: int| 0 <= i < nat_digits(n).len() implies '0' <= #[trigger] nat_digits(n)[i]
            <= '9' by {
            if i < p.len() {
                assert(nat_digits(n)[i] == p[i]);
            }
        }
    }
}

fn digit_of(d: u64) -> (c: char)
    requires
        d < 10,
    ensures
        c == digit_char(d as int),
{
    match d {
        0 => '0',
        1 => '1',
        2 => '2',
        3 => '3',
        4 => '4',
        5 => '5',
        6 => '6',
        7 => '7',
        8 => '8',
        _ => '9',
    }
}

/// The decimal digits of `m`.
fn unsigned_text(m: u64) -> (r: Vec<char>)
    ensures
        r@ == nat_digits(m as nat),
{
    let mut k = m;
    let mut acc: Vec<char> = Vec::new();
    while k >= 10
        invariant
            nat_digits(m as nat) == nat_digits(k as nat) + acc@.reverse(),
        decreases k,
    {
        let d = k % 10;
        let ghost before = acc@;
        acc.push(digit_of(d));
        assert(acc@.reverse() =~= seq![digit_char(d as int)] + before.reverse());
        assert(nat_digits(k as nat) == nat_digits((k / 10) as nat).push(digit_char(d as int)));
        assert(nat_digits((k / 10) as nat).push(digit_char(d as int)) + before.reverse() =~= nat_digits(
            (k / 10) as nat,
        ) + acc@.reverse());
        k = k / 10;
    }
    let ghost before = acc@;
    acc.push(digit_of(k));
    assert(acc@.reverse() =~= seq![digit_char(k as int)] + before.reverse());
    assert(nat_digits(m as nat) =~= acc@.reverse());
    let r = crate::collections::reversed(acc);
    assert(r@ =~= nat_digits(m as nat));
    r
}

/// `n` in decimal, as `format!("{n}")` writes it.
pub fn decimal(n: i64) -> (r: String)
    ensures
        r@ == int_text(n as int),
{
    if n < 0 {
        let m: u64 = if n == i64::MIN {
            9223372036854775808u64
        } else {
            (-n) as u64
        };
        let digits = unsigned_text(m);
        let mut all: Vec<char> = Vec::new();
        all.push('-');
        let mut i: usize = 0;
        while i < digits.len()
            invariant
                i <= digits.len(),
                all@ == seq!['-'] + digits@.subrange(0, i as int),
            decreases digits.len() - i,
        {
            all.push(digits[i]);
            assert(digits@.subrange(0, i + 1) == digits@.subrange(0, i as int).push(digits@[i as int]));
            i = i + 1;
        }
        assert(digits@.subrange(0, i as int) == digits@);
        string_of(&all)
    } else {
        let digits = unsigned_text(n as u64);
        string_of(&digits)
    }
}

} // verus!
