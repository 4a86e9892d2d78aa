//! Character-level helpers shared by the descriptor parsers: whitespace,
//! word splitting and decimal integers.
use vstd::prelude::*;

verus! {

/// The characters that carry the Unicode `White_Space` property, which is
/// what `char::is_whitespace` tests.
pub open spec fn is_ws(c: char) -> bool {
    let u = c as u32;
    (0x09 <= u && u <= 0x0D) || u == 0x20 || u == 0x85 || u == 0xA0 || u == 0x1680 || (0x2000
        <= u && u <= 0x200A) || u == 0x2028 || u == 0x2029 || u == 0x202F || u == 0x205F || u
        == 0x3000
}

/// The maximal runs of non-whitespace characters of `s`, left to right.
pub open spec fn words(s: Seq<char>) -> Seq<Seq<char>>
    decreases s.len(),
{
    if s.len() == 0 {
        seq![]
    } else {
        let p = s.drop_last();
        let c = s.last();
        if is_ws(c) {
            words(p)
        } else if p.len() > 0 && !is_ws(p.last()) {
            let w = words(p);
            w.update(w.len() - 1, w.last().push(c))
        } else {
            words(p).push(seq![c])
        }
    }
}

pub open spec fn views(v: Seq<String>) -> Seq<Seq<char>> {
    v.map_values(|t: String| t@)
}

pub fn is_whitespace(c: char) -> (r: bool)
    ensures
        r == is_ws(c),
{
    let u = c as u32;
    (0x09 <= u && u <= 0x0D) || u == 0x20 || u == 0x85 || u == 0xA0 || u == 0x1680 || (0x2000
        <= u && u <= 0x200A) || u == 0x2028 || u == 0x2029 || u == 0x202F || u == 0x205F || u
        == 0x3000
}

/// The characters of `s` from position `from` up to, not including, `to`.
pub fn substring(s: &str, from: usize, to: usize) -> (r: String)
    requires
        from <= to <= s@.len(),
    ensures
        r@ == s@.subrange(from as int, to as int),
{
    s.substring_char(from, to).to_owned()
}

/// Splits `s` into its whitespace-separated words.
pub fn split_whitespace(s: &str) -> (r: Vec<String>)
    ensures
        views(r@) == words(s@),
{
    let n = s.unicode_len();
    let mut out: Vec<String> = Vec::new();
    let mut start: usize = 0;
    let mut in_word = false;
    let mut i: usize = 0;
    while i < n
        invariant
            n == s@.len(),
            i <= n,
            in_word == (i > 0 && !is_ws(s@[i - 1])),
            in_word ==> start < i && words(s@.take(i as int)) == views(out@).push(
                s@.subrange(start as int, i as int),
            ),
            !in_word ==> words(s@.take(i as int)) == views(out@),
        decreases n - i,
    {
        let c = s.get_char(i);
        let ghost prev = s@.take(i as int);
        let ghost next = s@.take(i + 1);
        assert(next.drop_last() =~= prev);
        assert(next.last() == c);
        if is_whitespace(c) {
            if in_word {
                let w = substring(s, start, i);
                let ghost before = out@;
                out.push(w);
                assert(views(out@) =~= views(before).push(w@));
            }
            in_word = false;
        } else if in_word {
            let ghost w = views(out@).push(s@.subrange(start as int, i as int));
            assert(s@.subrange(start as int, i + 1) =~= s@.subrange(start as int, i as int).push(c));
            assert(w.update(w.len() - 1, w.last().push(c)) =~= views(out@).push(
                s@.subrange(start as int, i + 1),
            ));
        } else {
            start = i;
            assert(s@.subrange(start as int, i + 1) =~= seq![c]);
            in_word = true;
        }
        i = i + 1;
    }
    assert(s@.take(n as int) =~= s@);
    if in_word {
        let w = substring(s, start, n);
        let ghost before = out@;
        out.push(w);
        assert(views(out@) =~= views(before).push(w@));
    }
    out
}

/// `true` when `t` is exactly the characters of `word`.
pub fn equals_str(t: &str, word: &str) -> (r: bool)
    ensures
        r == (t@ == word@),
{
    let n = t.unicode_len();
    let m = word.unicode_len();
    if n != m {
        return false;
    }
    let mut i: usize = 0;
    while i < n
        invariant
            n == t@.len(),
            m == word@.len(),
            n == m,
            i <= n,
            t@.take(i as int) == word@.take(i as int),
        decreases n - i,
    {
        if t.get_char(i) != word.get_char(i) {
            assert(t@[i as int] != word@[i as int]);
            return false;
        }
        assert(t@.take(i + 1) =~= t@.take(i as int).push(t@[i as int]));
        assert(word@.take(i + 1) =~= word@.take(i as int).push(word@[i as int]));
        i = i + 1;
    }
    assert(t@ =~= t@.take(n as int));
    assert(word@ =~= word@.take(n as int));
    true
}

/// Why a text is not a `u32` in decimal.
#[derive(Clone, Copy, Debug, PartialEq, Eq, Structural)]
pub enum IntError {
    /// No digits at all.
    Empty,
    /// A character that is not a decimal digit.
    InvalidDigit,
    /// The value does not fit in a `u32`.
    Overflow,
}

pub open spec fn is_digit(c: char) -> bool {
    '0' <= c && c <= '9'
}

pub open spec fn digit_value(c: char) -> nat {
    (c as u32 - '0' as u32) as nat
}

/// The number that a string of decimal digits spells.
pub open spec fn decimal_value(d: Seq<char>) -> nat
    decreases d.len(),
{
    if d.len() == 0 {
        0
    } else {
        decimal_value(d.drop_last()) * 10 + digit_value(d.last())
    }
}

/// The digits of a decimal text: an optional leading `+` sign is dropped.
pub open spec fn unsigned_digits(t: Seq<char>) -> Seq<char> {
    if t.len() > 0 && t[0] == '+' {
        t.subrange(1, t.len() as int)
    } else {
        t
    }
}

/// A text read as a `u32`, the way the standard library reads one: an
/// optional `+`, then one or more decimal digits whose value fits.
pub open spec fn parse_u32(t: Seq<char>) -> Result<u32, IntError> {
    let d = unsigned_digits(t);
    if t.len() == 0 || d.len() == 0 {
        Err(IntError::Empty)
    } else if exists|i: int| 0 <= i < d.len() && !is_digit(#[trigger] d[i]) {
        Err(IntError::InvalidDigit)
    } else if decimal_value(d) > u32::MAX {
        Err(IntError::Overflow)
    } else {
        Ok(decimal_value(d) as u32)
    }
}

proof fn lemma_decimal_value_grows(d: Seq<char>, k: int)
    requires
        0 <= k <= d.len(),
        forall|i: int| 0 <= i < d.len() ==> is_digit(#[trigger] d[i]),
    ensures
        decimal_value(d.take(k)) <= decimal_value(d),
    decreases d.len() - k,
{
    if k < d.len() {
        lemma_decimal_value_grows(d, k + 1);
        let t = d.take(k + 1);
        assert(t.drop_last() =~= d.take(k));
    } else {
        assert(d.take(k) =~= d);
    }
}

/// Reads the text `t` as a `u32` in decimal.
pub fn parse_decimal_u32(t: &str) -> (r: Result<u32, IntError>)
    ensures
        r == parse_u32(t@),
{
    let n = t.unicode_len();
    if n == 0 {
        return Err(IntError::Empty);
    }
    let first: usize = if t.get_char(0) == '+' {
        1
    } else {
        0
    };
    let ghost d = unsigned_digits(t@);
    assert(d =~= t@.subrange(first as int, n as int));
    if first == n {
        return Err(IntError::Empty);
    }
    let mut i: usize = first;
    while i < n
        invariant
            n == t@.len(),
            first <= i <= n,
            d == t@.subrange(first as int, n as int),
            d == unsigned_digits(t@),
            first < n,
            forall|j: int| 0 <= j < i - first ==> is_digit(#[trigger] d[j]),
        decreases n - i,
    {
        let c = t.get_char(i);
        if !('0' <= c && c <= '9') {
            assert(d[i - first] == c);
            assert(!is_digit(d[i - first]));
            return Err(IntError::InvalidDigit);
        }
        i = i + 1;
    }
    let mut value: u64 = 0;
    let mut k: usize = first;
    while k < n
        invariant
            n == t@.len(),
            first <= k <= n,
            d == t@.subrange(first as int, n as int),
            d == unsigned_digits(t@),
            first < n,
            forall|j: int| 0 <= j < d.len() ==> is_digit(#[trigger] d[j]),
            value == decimal_value(d.take(k - first)),
            value <= u32::MAX,
        decreases n - k,
    {
        let c = t.get_char(k);
        let ghost pre = d.take(k - first);
        let ghost post = d.take(k + 1 - first);
        assert(post.drop_last() =~= pre);
        assert(post.last() == c);
        let v = value * 10 + (c as u64 - '0' as u64);
        if v > 0xFFFF_FFFF {
            proof {
                assert(digit_value(c) == c as u64 - '0' as u64);
                assert(decimal_value(post) == v);
                lemma_decimal_value_grows(d, k + 1 - first);
                assert(!(exists|j: int| 0 <= j < d.len() && !is_digit(#[trigger] d[j])));
            }
            return Err(IntError::Overflow);
        }
        value = v;
        k = k + 1;
    }
    assert(d.take(n - first) =~= d);
    Ok(value as u32)
}


/// A copy of a list of strings.
pub fn clone_strings(v: &Vec<String>) -> (r: Vec<String>)
    ensures
        views(r@) == views(v@),
{
    let mut out: Vec<String> = Vec::new();
    let mut i: usize = 0;
    while i < v.len()
        invariant
            i <= v@.len(),
            views(out@) == views(v@.take(i as int)),
        decreases v@.len() - i,
    {
        let ghost before = out@;
        out.push(v[i].clone());
        assert(views(out@) =~= views(before).push(v@[i as int]@));
        assert(views(v@.take(i + 1)) =~= views(v@.take(i as int)).push(v@[i as int]@));
        i = i + 1;
    }
    assert(v@.take(v@.len() as int) =~= v@);
    out
}

pub open spec fn opt_view(o: Option<String>) -> Option<Seq<char>> {
    match o {
        Some(s) => Some(s@),
        None => None,
    }
}

/// A copy of an optional string.
pub fn clone_opt_string(o: &Option<String>) -> (r: Option<String>)
    ensures
        opt_view(r) == opt_view(*o),
{
    match o {
        Some(s) => Some(s.clone()),
        None => None,
    }
}


/// `a` followed by `b`.
pub fn cat(a: &str, b: &str) -> (r: String)
    ensures
        r@ == a@ + b@,
{
    let mut s = a.to_owned();
    s.append(b);
    s
}

/// `a`, `b` and `c` one after the other.
pub fn cat3(a: &str, b: &str, c: &str) -> (r: String)
    ensures
        r@ == a@ + b@ + c@,
{
    let mut s = a.to_owned();
    s.append(b);
    s.append(c);
    s
}

pub open spec fn digit_char(d: nat) -> char {
    if d == 0 {
        '0'
    } else if d == 1 {
        '1'
    } else if d == 2 {
        '2'
    } else if d == 3 {
        '3'
    } else if d == 4 {
        '4'
    } else if d == 5 {
        '5'
    } else if d == 6 {
        '6'
    } else if d == 7 {
        '7'
    } else if d == 8 {
        '8'
    } else {
        '9'
    }
}

/// The decimal digits of `n`, without leading zeros.
pub open spec fn decimal(n: nat) -> Seq<char>
    decreases n,
{
    if n < 10 {
        seq![digit_char(n)]
    } else {
        decimal(n / 10).push(digit_char(n % 10))
    }
}

fn digit_str(d: u32) -> (r: &'static str)
    requires
        d < 10,
    ensures
        r@ == seq![digit_char(d as nat)],
{
    proof {
        reveal_strlit("0");
        reveal_strlit("1");
        reveal_strlit("2");
        reveal_strlit("3");
        reveal_strlit("4");
        reveal_strlit("5");
        reveal_strlit("6");
        reveal_strlit("7");
        reveal_strlit("8");
        reveal_strlit("9");
    }
    let r = if d == 0 {
        "0"
    } else if d == 1 {
        "1"
    } else if d == 2 {
        "2"
    } else if d == 3 {
        "3"
    } else if d == 4 {
        "4"
    } else if d == 5 {
        "5"
    } else if d == 6 {
        "6"
    } else if d == 7 {
        "7"
    } else if d == 8 {
        "8"
    } else {
        "9"
    };
    assert(r@ =~= seq![digit_char(d as nat)]);
    r
}

/// `n` written in decimal.
pub fn decimal_string(n: u32) -> (r: String)
    ensures
        r@ == decimal(n as nat),
    decreases n,
{
    if n < 10 {
        digit_str(n).to_owned()
    } else {
        let mut s = decimal_string(n / 10);
        s.append(digit_str(n % 10));
        assert(s@ =~= decimal(n as nat));
        s
    }
}

} // verus!
