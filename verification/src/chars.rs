//! Character-sequence helpers: whitespace, trimming, prefix and substring
//! tests, decimal formatting and decimal parsing of `u32` values.
//!
//! Text is modelled as `Seq<char>`, the view of `str` and `String`.
use vstd::prelude::*;

verus! {

// ---------------------------------------------------------------------------
// Conversions between `str`/`String` and character vectors
// ---------------------------------------------------------------------------

/// The characters of `s`, in order.
pub fn chars_of(s: &str) -> (v: Vec<char>)
    ensures
        v@ == s@,
{
    broadcast use vstd::string::group_string_axioms;

    let mut v: Vec<char> = Vec::new();
    for c in it: s.chars()
        invariant
            v@ == it.seq().take(it.index() as int),
            it.seq() == s@,
    {
        v.push(c);
    }
    v
}

/// Appends one character to a `String` (calls `String::push`).
///
/// Trusted: the contract claims that `String::push` adds `c` at the end of
/// the string's characters and changes nothing else.
#[verifier::external_body]
pub(crate) fn push_char(s: &mut String, c: char)
    ensures
        final(s)@ == old(s)@.push(c),
{
    s.push(c);
}

/// A `String` holding the characters `v[lo..hi]`.
pub fn string_of_range(v: &Vec<char>, lo: usize, hi: usize) -> (s: String)
    requires
        lo <= hi <= v@.len(),
    ensures
        s@ == v@.subrange(lo as int, hi as int),
{
    let mut s = String::new();
    let mut i = lo;
    while i < hi
        invariant
            lo <= i <= hi <= v@.len(),
            s@ == v@.subrange(lo as int, i as int),
        decreases hi - i,
    {
        push_char(&mut s, v[i]);
        i = i + 1;
        assert(s@ =~= v@.subrange(lo as int, i as int));
    }
    s
}

/// A `String` holding the characters of `v`.
pub fn string_of(v: &Vec<char>) -> (s: String)
    ensures
        s@ == v@,
{
    let s = string_of_range(v, 0, v.len());
    assert(v@.subrange(0, v@.len() as int) =~= v@);
    s
}

// ---------------------------------------------------------------------------
// Whitespace and trimming
// ---------------------------------------------------------------------------

/// Unicode `White_Space` (the set that `char::is_whitespace` tests).
pub open spec fn is_ws(c: char) -> bool {
    let u = c as u32;
    ||| 0x09 <= u <= 0x0D
    ||| u == 0x20
    ||| u == 0x85
    ||| u == 0xA0
    ||| u == 0x1680
    ||| 0x2000 <= u <= 0x200A
    ||| u == 0x2028
    ||| u == 0x2029
    ||| u == 0x202F
    ||| u == 0x205F
    ||| u == 0x3000
}

/// Whether `c` is a whitespace character (`char::is_whitespace`).
pub fn is_whitespace(c: char) -> (b: bool)
    ensures
        b == is_ws(c),
{
    let u = c as u32;
    (0x09 <= u && u <= 0x0D) || u == 0x20 || u == 0x85 || u == 0xA0 || u == 0x1680 || (0x2000
        <= u && u <= 0x200A) || u == 0x2028 || u == 0x2029 || u == 0x202F || u == 0x205F || u
        == 0x3000
}

/// `s` without its leading whitespace.
pub open spec fn trim_start(s: Seq<char>) -> Seq<char>
    decreases s.len(),
{
    if s.len() > 0 && is_ws(s[0]) {
        trim_start(s.drop_first())
    } else {
        s
    }
}

/// `s` without its trailing whitespace.
pub open spec fn trim_end(s: Seq<char>) -> Seq<char>
    decreases s.len(),
{
    if s.len() > 0 && is_ws(s.last()) {
        trim_end(s.drop_last())
    } else {
        s
    }
}

/// `s` without leading and trailing whitespace (`str::trim`).
pub open spec fn trim(s: Seq<char>) -> Seq<char> {
    trim_end(trim_start(s))
}

/// The bounds `(a, b)` of `trim(v[lo..hi])` inside `v`.
pub fn trim_range(v: &Vec<char>, lo: usize, hi: usize) -> (r: (usize, usize))
    requires
        lo <= hi <= v@.len(),
    ensures
        lo <= r.0 <= r.1 <= hi,
        v@.subrange(r.0 as int, r.1 as int) == trim(v@.subrange(lo as int, hi as int)),
{
    let mut a = lo;
    while a < hi && is_whitespace(v[a])
        invariant
            lo <= a <= hi <= v@.len(),
            trim_start(v@.subrange(lo as int, hi as int)) == trim_start(
                v@.subrange(a as int, hi as int),
            ),
        decreases hi - a,
    {
        assert(v@.subrange(a as int, hi as int).drop_first() =~= v@.subrange(
            a + 1,
            hi as int,
        ));
        a = a + 1;
    }
    assert(trim_start(v@.subrange(a as int, hi as int)) == v@.subrange(a as int, hi as int));
    let mut b = hi;
    while b > a && is_whitespace(v[b - 1])
        invariant
            lo <= a <= b <= hi <= v@.len(),
            trim(v@.subrange(lo as int, hi as int)) == trim_end(v@.subrange(a as int, b as int)),
        decreases b - a,
    {
        assert(v@.subrange(a as int, b as int).drop_last() =~= v@.subrange(
            a as int,
            b - 1,
        ));
        b = b - 1;
    }
    (a, b)
}

// ---------------------------------------------------------------------------
// Prefix and substring tests
// ---------------------------------------------------------------------------

/// `p` is a prefix of `t` (`str::starts_with`).
pub open spec fn starts_with(t: Seq<char>, p: Seq<char>) -> bool {
    p.len() <= t.len() && t.take(p.len() as int) == p
}

/// `p` occurs in `t` at index `i`.
pub open spec fn occurs_at(t: Seq<char>, p: Seq<char>, i: int) -> bool {
    0 <= i && i + p.len() <= t.len() && t.subrange(i, i + p.len()) == p
}

/// `p` occurs somewhere in `t` (`str::contains`).
pub open spec fn contains(t: Seq<char>, p: Seq<char>) -> bool {
    exists|i: int| #[trigger] occurs_at(t, p, i)
}

/// Whether `p` occurs in `v` at index `i`, within `v[..hi]`.
fn matches_at(v: &Vec<char>, i: usize, hi: usize, p: &Vec<char>) -> (r: bool)
    requires
        i <= hi <= v@.len(),
    ensures
        r == (i + p@.len() <= hi && v@.subrange(i as int, i + p@.len()) == p@),
{
    if p.len() > hi - i {
        return false;
    }
    let mut k: usize = 0;
    while k < p.len()
        invariant
            i + p@.len() <= hi <= v@.len(),
            0 <= k <= p@.len(),
            forall|j: int| 0 <= j < k ==> v@[i + j] == p@[j],
        decreases p@.len() - k,
    {
        if v[i + k] != p[k] {
            assert(v@.subrange(i as int, i + p@.len())[k as int] != p@[k as int]);
            return false;
        }
        k = k + 1;
    }
    assert(v@.subrange(i as int, i + p@.len()) =~= p@);
    true
}

/// Whether `v[a..b]` starts with `p`.
pub fn starts_with_range(v: &Vec<char>, a: usize, b: usize, p: &Vec<char>) -> (r: bool)
    requires
        a <= b <= v@.len(),
    ensures
        r == starts_with(v@.subrange(a as int, b as int), p@),
{
    let r = matches_at(v, a, b, p);
    proof {
        let t = v@.subrange(a as int, b as int);
        if p@.len() <= t.len() {
            assert(t.take(p@.len() as int) =~= v@.subrange(a as int, a + p@.len()));
        }
    }
    r
}

/// Whether `p` occurs in `v[a..b]`.
pub fn contains_range(v: &Vec<char>, a: usize, b: usize, p: &Vec<char>) -> (r: bool)
    requires
        a <= b <= v@.len(),
    ensures
        r == contains(v@.subrange(a as int, b as int), p@),
{
    let ghost t = v@.subrange(a as int, b as int);
    let mut i = a;
    while p.len() <= b - i
        invariant
            a <= i <= b <= v@.len(),
            t == v@.subrange(a as int, b as int),
            forall|j: int| 0 <= j < i - a ==> !occurs_at(t, p@, j),
        decreases b - i,
    {
        let found = matches_at(v, i, b, p);
        assert(t.subrange(i - a, i - a + p@.len()) =~= v@.subrange(i as int, i + p@.len()));
        if found {
            assert(occurs_at(t, p@, i - a));
            return true;
        }
        if i == b {
            assert forall|j: int| !occurs_at(t, p@, j) by {
                if 0 <= j && j + p@.len() <= t.len() {
                    assert(j <= i - a);
                }
            }
            return false;
        }
        i = i + 1;
    }
    assert forall|j: int| !occurs_at(t, p@, j) by {
        if 0 <= j && j + p@.len() <= t.len() {
            assert(j < i - a);
        }
    }
    false
}

// ---------------------------------------------------------------------------
// Decimal numbers
// ---------------------------------------------------------------------------

/// An ASCII decimal digit.
pub open spec fn is_digit(c: char) -> bool {
    '0' <= c && c <= '9'
}

/// The value of an ASCII decimal digit.
pub open spec fn digit_val(c: char) -> nat {
    (c as u32 - 48) as nat
}

/// The character of digit `d` (`0 <= d < 10`).
pub open spec fn digit_char(d: nat) -> char {
    (d + 48) as char
}

/// Every character of `d` is a decimal digit.
pub open spec fn all_digits(d: Seq<char>) -> bool {
    forall|i: int| 0 <= i < d.len() ==> is_digit(#[trigger] d[i])
}

/// The number that the digit string `d` denotes, most significant first.
pub open spec fn digits_value(d: Seq<char>) -> nat
    decreases d.len(),
{
    if d.len() == 0 {
        0
    } else {
        digits_value(d.drop_last()) * 10 + digit_val(d.last())
    }
}

/// What `str::parse::<u32>` gives: an optional `+` followed by one or more
/// ASCII digits whose value fits in a `u32`; anything else is an error.
pub open spec fn parsed_u32(s: Seq<char>) -> Option<u32> {
    let d = if s.len() > 0 && s[0] == '+' {
        s.drop_first()
    } else {
        s
    };
    if d.len() > 0 && all_digits(d) && digits_value(d) <= u32::MAX {
        Some(digits_value(d) as u32)
    } else {
        None
    }
}

/// The decimal representation of `n` (as `u32::to_string` writes it).
pub open spec fn decimal(n: nat) -> Seq<char>
    decreases n,
{
    if n < 10 {
        seq![digit_char(n)]
    } else {
        decimal(n / 10).push(digit_char(n % 10))
    }
}

proof fn lemma_digits_value_prefix(d: Seq<char>, k: int)
    requires
        0 <= k <= d.len(),
    ensures
        digits_value(d.take(k)) <= digits_value(d),
    decreases d.len() - k,
{
    if k < d.len() {
        lemma_digits_value_prefix(d, k + 1);
        assert(d.take(k + 1).drop_last() =~= d.take(k));
    } else {
        assert(d.take(k) =~= d);
    }
}

/// Parses `v[a..b]` as `str::parse::<u32>` does.
pub fn parse_u32_range(v: &Vec<char>, a: usize, b: usize) -> (r: Option<u32>)
    requires
        a <= b <= v@.len(),
    ensures
        r == parsed_u32(v@.subrange(a as int, b as int)),
{
    let ghost s = v@.subrange(a as int, b as int);
    let mut i = a;
    if i < b && v[i] == '+' {
        i = i + 1;
    }
    let ghost d = v@.subrange(i as int, b as int);
    assert(d =~= (if s.len() > 0 && s[0] == '+' {
        s.drop_first()
    } else {
        s
    }));
    if i == b {
        return None;
    }
    let start = i;
    let mut acc: u64 = 0;
    while i < b
        invariant
            a <= start <= i <= b <= v@.len(),
            start < b,
            s == v@.subrange(a as int, b as int),
            d == v@.subrange(start as int, b as int),
            d == (if s.len() > 0 && s[0] == '+' {
                s.drop_first()
            } else {
                s
            }),
            all_digits(v@.subrange(start as int, i as int)),
            acc == digits_value(v@.subrange(start as int, i as int)),
            acc <= u32::MAX,
        decreases b - i,
    {
        let c = v[i];
        assert(v@.subrange(start as int, i + 1).drop_last() =~= v@.subrange(
            start as int,
            i as int,
        ));
        assert(d.take(i + 1 - start) =~= v@.subrange(start as int, i + 1));
        if !('0' <= c && c <= '9') {
            assert(!is_digit(d[i - start]));
            assert(!all_digits(d));
            return None;
        }
        let dv = (c as u32 - 48) as u64;
        acc = acc * 10 + dv;
        i = i + 1;
        if acc > 0xffff_ffff {
            proof {
                assert(d.take(i - start) =~= v@.subrange(start as int, i as int));
                lemma_digits_value_prefix(d, i - start);
            }
            return None;
        }
    }
    assert(v@.subrange(start as int, i as int) =~= d);
    Some(acc as u32)
}

/// Appends the decimal digits of `n` to `out`.
fn push_decimal(n: u32, out: &mut Vec<char>)
    ensures
        final(out)@ == old(out)@ + decimal(n as nat),
    decreases n,
{
    if n >= 10 {
        push_decimal(n / 10, out);
    }
    let d = n % 10;
    out.push(((d + 48) as u8) as char);
    proof {
        if n >= 10 {
            assert(final(out)@ =~= old(out)@ + decimal(n as nat));
        } else {
            assert(final(out)@ =~= old(out)@ + decimal(n as nat));
        }
    }
}

/// The decimal digits of `n`, as `u32::to_string` writes them.
pub fn decimal_chars(n: u32) -> (v: Vec<char>)
    ensures
        v@ == decimal(n as nat),
{
    let mut v = Vec::new();
    push_decimal(n, &mut v);
    assert(v@ =~= decimal(n as nat));
    v
}

/// `n.to_string()`.
pub fn decimal_string(n: u32) -> (s: String)
    ensures
        s@ == decimal(n as nat),
{
    string_of(&decimal_chars(n))
}

proof fn lemma_decimal_facts(n: nat)
    ensures
        decimal(n).len() > 0,
        all_digits(decimal(n)),
        digits_value(decimal(n)) == n,
        decimal(n)[0] != '+',
    decreases n,
{
    if n < 10 {
        assert(decimal(n).drop_last() =~= Seq::<char>::empty());
        assert(((n + 48) as char) as u32 == n + 48);
        assert(digits_value(decimal(n)) == digits_value(decimal(n).drop_last()) * 10 + digit_val(decimal(n).last()));
        assert(digits_value(Seq::<char>::empty()) == 0);
    } else {
        lemma_decimal_facts(n / 10);
        let d = decimal(n);
        assert(d.drop_last() =~= decimal(n / 10));
        assert(((n % 10 + 48) as char) as u32 == n % 10 + 48);
        assert(digit_val(d.last()) == n % 10);
        assert(digits_value(d) == digits_value(d.drop_last()) * 10 + digit_val(d.last()));
        assert forall|i: int| 0 <= i < d.len() implies is_digit(#[trigger] d[i]) by {
            if i < d.len() - 1 {
                assert(d[i] == decimal(n / 10)[i]);
            }
        }
    }
}

/// Law: reading back a number that was written in decimal gives the number
/// (`n.to_string().parse::<u32>() == Ok(n)`).
pub proof fn law_parse_decimal_roundtrip(n: u32)
    ensures
        parsed_u32(decimal(n as nat)) == Some(n),
{
    lemma_decimal_facts(n as nat);
}

/// `10` to the power `k`.
pub open spec fn pow10(k: nat) -> nat
    decreases k,
{
    if k == 0 {
        1
    } else {
        10 * pow10((k - 1) as nat)
    }
}

proof fn lemma_decimal_len_le(n: nat, k: nat)
    requires
        k >= 1,
        n < pow10(k),
    ensures
        decimal(n).len() <= k,
    decreases k,
{
    assert(pow10(0) == 1);
    assert(pow10(k) == 10 * pow10((k - 1) as nat));
    if n >= 10 {
        lemma_decimal_len_le(n / 10, (k - 1) as nat);
    }
}

/// A `u32` has between one and ten decimal digits.
pub proof fn lemma_decimal_u32_len(n: u32)
    ensures
        1 <= decimal(n as nat).len() <= 10,
{
    reveal_with_fuel(pow10, 11);
    lemma_decimal_len_le(n as nat, 10);
    lemma_decimal_facts(n as nat);
}

proof fn lemma_trim_start_first(s: Seq<char>)
    ensures
        trim_start(s).len() == 0 || !is_ws(trim_start(s)[0]),
    decreases s.len(),
{
    if s.len() > 0 && is_ws(s[0]) {
        lemma_trim_start_first(s.drop_first());
    }
}

proof fn lemma_trim_end_shape(s: Seq<char>)
    ensures
        trim_end(s).len() <= s.len(),
        trim_end(s) == s.take(trim_end(s).len() as int),
        trim_end(s).len() == 0 || !is_ws(trim_end(s).last()),
    decreases s.len(),
{
    if s.len() > 0 && is_ws(s.last()) {
        lemma_trim_end_shape(s.drop_last());
        let t = trim_end(s.drop_last());
        assert(s.drop_last().take(t.len() as int) =~= s.take(t.len() as int));
    } else {
        assert(s.take(s.len() as int) =~= s);
    }
}

/// Law: trimming twice is trimming once.
pub proof fn law_trim_idempotent(s: Seq<char>)
    ensures
        trim(trim(s)) == trim(s),
{
    let u = trim_start(s);
    let t = trim_end(u);
    lemma_trim_start_first(s);
    lemma_trim_end_shape(u);
    if t.len() > 0 {
        assert(t[0] == u[0]);
    }
    assert(trim_start(t) == t);
    assert(trim_end(t) == t);
}

} // verus!
