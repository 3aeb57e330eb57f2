//! Character-level helpers used by the table engine: decoding a string into
//! its characters, exact and substring comparison, and unsigned decimal
//! parsing.
use vstd::prelude::*;

verus! {

/// `k` occurs in `s` as a contiguous run of characters.
pub open spec fn is_substring(k: Seq<char>, s: Seq<char>) -> bool {
    exists|i: int| 0 <= i && i + k.len() <= s.len() && #[trigger] s.subrange(i, i + k.len()) == k
}

pub open spec fn is_digit(c: char) -> bool {
    '0' <= c && c <= '9'
}

pub open spec fn digit_value(c: char) -> int {
    (c as u32) as int - ('0' as u32) as int
}

/// The value of a run of decimal digits, most significant first.
pub open spec fn digits_value(s: Seq<char>) -> int
    decreases s.len(),
{
    if s.len() == 0 {
        0
    } else {
        digits_value(s.drop_last()) * 10 + digit_value(s.last())
    }
}

pub open spec fn all_digits(s: Seq<char>) -> bool {
    forall|i: int| 0 <= i < s.len() ==> is_digit(#[trigger] s[i])
}

/// A non-empty run of decimal digits whose value fits in an `i64`.
pub open spec fn parse_nat(s: Seq<char>) -> Option<int> {
    if s.len() > 0 && all_digits(s) && digits_value(s) <= i64::MAX {
        Some(digits_value(s))
    } else {
        None
    }
}

/// The first position at or after `i` that holds `c`, or `s.len()` if none.
pub open spec fn first_from(s: Seq<char>, c: char, i: int) -> int
    decreases s.len() - i,
{
    if i >= s.len() {
        s.len() as int
    } else if s[i] == c {
        i
    } else {
        first_from(s, c, i + 1)
    }
}

pub proof fn lemma_first_from_bounds(s: Seq<char>, c: char, i: int)
    requires
        0 <= i <= s.len(),
    ensures
        i <= first_from(s, c, i) <= s.len(),
        first_from(s, c, i) < s.len() ==> s[first_from(s, c, i)] == c,
    decreases s.len() - i,
{
    if i < s.len() && s[i] != c {
        lemma_first_from_bounds(s, c, i + 1);
    }
}

proof fn lemma_digits_value_nonneg(s: Seq<char>)
    requires
        all_digits(s),
    ensures
        digits_value(s) >= 0,
    decreases s.len(),
{
    if s.len() > 0 {
        assert(all_digits(s.drop_last()));
        lemma_digits_value_nonneg(s.drop_last());
    }
}

/// Extending a run of digits never lowers its value.
proof fn lemma_digits_value_grows(s: Seq<char>, j: int)
    requires
        all_digits(s),
        0 <= j <= s.len(),
    ensures
        digits_value(s.take(j)) <= digits_value(s),
    decreases s.len() - j,
{
    if j < s.len() {
        lemma_digits_value_grows(s, j + 1);
        assert(s.take(j + 1).drop_last() =~= s.take(j));
        assert(all_digits(s.take(j)));
        lemma_digits_value_nonneg(s.take(j));
        assert(s.take(j + 1).last() == s[j]);
        assert(is_digit(s[j]));
    } else {
        assert(s.take(j) =~= s);
    }
}

/// The characters of `s`, in order.
pub fn chars_of(s: &str) -> (r: Vec<char>)
    ensures
        r@ == s@,
{
    let n = s.unicode_len();
    let mut r: Vec<char> = Vec::new();
    let mut i: usize = 0;
    while i < n
        invariant
            n == s@.len(),
            i <= n,
            r@ == s@.take(i as int),
        decreases n - i,
    {
        r.push(s.get_char(i));
        i = i + 1;
        assert(r@ =~= s@.take(i as int));
    }
    assert(r@ =~= s@);
    r
}

/// Whether `s` holds `k` at position `pos`.
pub fn matches_at(s: &Vec<char>, pos: usize, k: &Vec<char>) -> (r: bool)
    ensures
        r == (pos + k@.len() <= s@.len() && s@.subrange(pos as int, pos + k@.len()) == k@),
{
    if pos > s.len() || k.len() > s.len() - pos {
        return false;
    }
    let n = s.len();
    let mut j: usize = 0;
    while j < k.len()
        invariant
            n == s@.len(),
            pos + k@.len() <= s@.len(),
            pos <= s@.len(),
            j <= k@.len(),
            forall|m: int| 0 <= m < j ==> s@[pos + m] == k@[m],
        decreases k@.len() - j,
    {
        if s[pos + j] != k[j] {
            assert(s@.subrange(pos as int, pos + k@.len())[j as int] != k@[j as int]);
            return false;
        }
        j = j + 1;
    }
    assert(s@.subrange(pos as int, pos + k@.len()) =~= k@);
    true
}

/// Whether `k` occurs in `s`.
pub fn contains_chars(s: &Vec<char>, k: &Vec<char>) -> (r: bool)
    ensures
        r == is_substring(k@, s@),
{
    if k.len() > s.len() {
        return false;
    }
    if k.len() == 0 {
        assert(s@.subrange(0, 0 + k@.len() as int) =~= k@);
        return true;
    }
    let last = s.len() - k.len();
    let mut i: usize = 0;
    while i <= last
        invariant
            last + k@.len() == s@.len(),
            last < s.len(),
            k@.len() > 0,
            i <= last + 1,
            forall|p: int| 0 <= p < i ==> #[trigger] s@.subrange(p, p + k@.len()) != k@,
        decreases last + 1 - i,
    {
        if matches_at(s, i, k) {
            return true;
        }
        i = i + 1;
    }
    assert forall|p: int| 0 <= p && p + k@.len() <= s@.len() implies #[trigger] s@.subrange(
        p,
        p + k@.len(),
    ) != k@ by {
        assert(p <= last);
    }
    false
}

/// Whether `k` occurs in `s`.
pub fn contains_str(s: &str, k: &str) -> (r: bool)
    ensures
        r == is_substring(k@, s@),
{
    let sc = chars_of(s);
    let kc = chars_of(k);
    contains_chars(&sc, &kc)
}

/// Whether two strings hold the same characters.
pub fn same_text(a: &str, b: &str) -> (r: bool)
    ensures
        r == (a@ == b@),
{
    let ac = chars_of(a);
    let bc = chars_of(b);
    if ac.len() != bc.len() {
        return false;
    }
    let r = matches_at(&ac, 0, &bc);
    assert(ac@.subrange(0, bc@.len() as int) =~= ac@);
    r
}

/// The first position at or after `i` that holds `c`, or the length of `s`.
pub fn find_from(s: &Vec<char>, c: char, i: usize) -> (r: usize)
    requires
        i <= s@.len(),
    ensures
        r == first_from(s@, c, i as int),
{
    let mut j: usize = i;
    while j < s.len() && s[j] != c
        invariant
            i <= j <= s@.len(),
            first_from(s@, c, i as int) == first_from(s@, c, j as int),
        decreases s@.len() - j,
    {
        j = j + 1;
    }
    j
}

/// The unsigned decimal number written in `s[lo..hi]`, if it is one that fits
/// in an `i64`.
pub fn parse_nat_at(s: &Vec<char>, lo: usize, hi: usize) -> (r: Option<i64>)
    requires
        lo <= hi <= s@.len(),
    ensures
        r matches Some(v) ==> parse_nat(s@.subrange(lo as int, hi as int)) == Some(v as int),
        r is None ==> parse_nat(s@.subrange(lo as int, hi as int)) is None,
{
    let ghost t = s@.subrange(lo as int, hi as int);
    if lo == hi {
        return None;
    }
    let mut acc: i64 = 0;
    let mut i: usize = lo;
    while i < hi
        invariant
            lo <= i <= hi <= s@.len(),
            t == s@.subrange(lo as int, hi as int),
            all_digits(t.take(i - lo)),
            acc >= 0,
            acc as int == digits_value(t.take(i - lo)),
        decreases hi - i,
    {
        let c = s[i];
        assert(c == t[i - lo]);
        if !('0' <= c && c <= '9') {
            assert(!all_digits(t));
            return None;
        }
        let d = (c as u32 - '0' as u32) as i64;
        assert(t.take(i - lo + 1).drop_last() =~= t.take(i - lo));
        assert(all_digits(t.take(i - lo + 1)));
        if acc > (i64::MAX - d) / 10 {
            proof {
                assert(acc * 10 + d > i64::MAX) by (nonlinear_arith)
                    requires
                        acc > (i64::MAX - d) / 10,
                        0 <= d <= 9,
                ;
                if all_digits(t) {
                    lemma_digits_value_grows(t, i - lo + 1);
                }
            }
            return None;
        }
        proof {
            assert(acc * 10 + d <= i64::MAX) by (nonlinear_arith)
                requires
                    acc <= (i64::MAX - d) / 10,
                    0 <= d <= 9,
            ;
        }
        acc = acc * 10 + d;
        i = i + 1;
    }
    assert(t.take(hi - lo) =~= t);
    Some(acc)
}

/// Lexicographic order on characters by code point, the order of `str`.
pub open spec fn text_lt(a: Seq<char>, b: Seq<char>) -> bool
    decreases a.len(),
{
    if b.len() == 0 {
        false
    } else if a.len() == 0 {
        true
    } else if a[0] != b[0] {
        a[0] < b[0]
    } else {
        text_lt(a.drop_first(), b.drop_first())
    }
}

pub proof fn lemma_text_lt_asymmetric(a: Seq<char>, b: Seq<char>)
    ensures
        text_lt(a, b) ==> !text_lt(b, a),
    decreases a.len(),
{
    if a.len() > 0 && b.len() > 0 && a[0] == b[0] {
        lemma_text_lt_asymmetric(a.drop_first(), b.drop_first());
    }
}

pub proof fn lemma_text_lt_transitive(a: Seq<char>, b: Seq<char>, c: Seq<char>)
    ensures
        text_lt(a, b) && text_lt(b, c) ==> text_lt(a, c),
    decreases a.len(),
{
    if a.len() > 0 && b.len() > 0 && c.len() > 0 {
        lemma_text_lt_transitive(a.drop_first(), b.drop_first(), c.drop_first());
    }
}

pub proof fn lemma_text_lt_total(a: Seq<char>, b: Seq<char>)
    ensures
        a != b ==> text_lt(a, b) || text_lt(b, a),
    decreases a.len(),
{
    if a.len() > 0 && b.len() > 0 && a[0] == b[0] {
        lemma_text_lt_total(a.drop_first(), b.drop_first());
        if a.drop_first() == b.drop_first() {
            assert(a =~= seq![a[0]] + a.drop_first());
            assert(b =~= seq![b[0]] + b.drop_first());
        }
    }
    if a.len() == 0 && b.len() == 0 {
        assert(a =~= b);
    }
}

/// Whether `a` comes strictly before `b` in the order of `str`.
pub fn text_less(a: &Vec<char>, b: &Vec<char>) -> (r: bool)
    ensures
        r == text_lt(a@, b@),
{
    let mut i: usize = 0;
    assert(a@.skip(0) =~= a@);
    assert(b@.skip(0) =~= b@);
    while i < a.len() && i < b.len() && a[i] == b[i]
        invariant
            i <= a@.len(),
            i <= b@.len(),
            text_lt(a@, b@) == text_lt(a@.skip(i as int), b@.skip(i as int)),
        decreases a@.len() - i,
    {
        assert(a@.skip(i as int).drop_first() =~= a@.skip(i + 1));
        assert(b@.skip(i as int).drop_first() =~= b@.skip(i + 1));
        i = i + 1;
    }
    if i == b.len() {
        false
    } else if i == a.len() {
        true
    } else {
        assert(a@.skip(i as int)[0] == a@[i as int]);
        assert(b@.skip(i as int)[0] == b@[i as int]);
        a[i] < b[i]
    }
}

} // verus!
