//! Small verified string helpers used by the decoders and builders.
use vstd::prelude::*;
use vstd::string::*;

verus! {

/// Character-wise equality of two strings.
pub fn str_eq(a: &str, b: &str) -> (r: bool)
    ensures
        r == (a@ == b@),
{
    let n = a.unicode_len();
    let m = b.unicode_len();
    if n != m {
        return false;
    }
    let mut i: usize = 0;
    while i < n
        invariant
            n == a@.len(),
            m == b@.len(),
            n == m,
            i <= n,
            a@.subrange(0, i as int) =~= b@.subrange(0, i as int),
        decreases n - i,
    {
        if a.get_char(i) != b.get_char(i) {
            assert(a@[i as int] != b@[i as int]);
            return false;
        }
        assert(a@.subrange(0, i + 1) =~= a@.subrange(0, i as int).push(a@[i as int]));
        assert(b@.subrange(0, i + 1) =~= b@.subrange(0, i as int).push(b@[i as int]));
        i = i + 1;
    }
    assert(a@ =~= a@.subrange(0, n as int));
    assert(b@ =~= b@.subrange(0, n as int));
    true
}

} // verus!

verus! {

/// Unicode `White_Space` property, as used by `char::is_whitespace`.
pub open spec fn is_ws(c: char) -> bool {
    let v = c as u32;
    (9 <= v <= 13) || v == 32 || v == 0x85 || v == 0xA0 || v == 0x1680 || (0x2000 <= v
        <= 0x200A) || v == 0x2028 || v == 0x2029 || v == 0x202F || v == 0x205F || v == 0x3000
}

/// `s` without its leading whitespace.
pub open spec fn trim_start(s: Seq<char>) -> Seq<char>
    decreases s.len(),
{
    if s.len() > 0 && is_ws(s[0]) {
        trim_start(s.drop_first())
    } else {
        s
    }
}

/// `s` without its trailing whitespace.
pub open spec fn trim_end(s: Seq<char>) -> Seq<char>
    decreases s.len(),
{
    if s.len() > 0 && is_ws(s.last()) {
        trim_end(s.drop_last())
    } else {
        s
    }
}

/// `s` without leading and trailing whitespace.
pub open spec fn trimmed(s: Seq<char>) -> Seq<char> {
    trim_end(trim_start(s))
}

pub fn is_ws_char(c: char) -> (r: bool)
    ensures
        r == is_ws(c),
{
    let v = c as u32;
    (9 <= v && v <= 13) || v == 32 || v == 0x85 || v == 0xA0 || v == 0x1680 || (0x2000 <= v
        && v <= 0x200A) || v == 0x2028 || v == 0x2029 || v == 0x202F || v == 0x205F || v == 0x3000
}

/// The text of `s` with surrounding whitespace removed.
pub fn trim_ws(s: &str) -> (r: &str)
    ensures
        r@ == trimmed(s@),
{
    let n = s.unicode_len();
    let mut i: usize = 0;
    assert(s@.subrange(0, n as int) =~= s@);
    while i < n && is_ws_char(s.get_char(i))
        invariant
            n == s@.len(),
            i <= n,
            trim_start(s@) == trim_start(s@.subrange(i as int, n as int)),
        decreases n - i,
    {
        assert(s@.subrange(i + 1, n as int) =~= s@.subrange(i as int, n as int).drop_first());
        i = i + 1;
    }
    let ghost rest = s@.subrange(i as int, n as int);
    assert(trim_start(rest) == rest);
    let mut j: usize = n;
    assert(s@.subrange(i as int, j as int) == rest);
    while j > i && is_ws_char(s.get_char(j - 1))
        invariant
            n == s@.len(),
            i <= j <= n,
            rest == s@.subrange(i as int, n as int),
            trim_end(rest) == trim_end(s@.subrange(i as int, j as int)),
        decreases j,
    {
        assert(s@.subrange(i as int, j - 1) =~= s@.subrange(i as int, j as int).drop_last());
        j = j - 1;
    }
    assert(trim_end(s@.subrange(i as int, j as int)) == s@.subrange(i as int, j as int));
    s.substring_char(i, j)
}

} // verus!

verus! {

pub open spec fn is_digit(c: char) -> bool {
    48 <= c as u32 <= 57
}

/// Value of a string of decimal digits, most significant first.
pub open spec fn digits_value(s: Seq<char>) -> int
    decreases s.len(),
{
    if s.len() == 0 {
        0
    } else {
        digits_value(s.drop_last()) * 10 + (s.last() as u32 - 48)
    }
}

/// `s` without one leading `+`.
pub open spec fn unsigned_body(s: Seq<char>) -> Seq<char> {
    if s.len() > 0 && s[0] == '+' {
        s.drop_first()
    } else {
        s
    }
}

/// `s` read as a `u32` the way `str::parse::<u32>` reads it: an optional `+`,
/// then one or more ASCII digits whose value fits.
pub open spec fn u32_value(s: Seq<char>) -> Option<u32> {
    let b = unsigned_body(s);
    if b.len() > 0 && (forall|i: int| 0 <= i < b.len() ==> is_digit(#[trigger] b[i]))
        && digits_value(b) <= u32::MAX {
        Some(digits_value(b) as u32)
    } else {
        None
    }
}

/// `s` read as a `bool` the way `str::parse::<bool>` reads it.
pub open spec fn bool_value(s: Seq<char>) -> Option<bool> {
    if s == "true"@ {
        Some(true)
    } else if s == "false"@ {
        Some(false)
    } else {
        None
    }
}

proof fn lemma_digits_value_nonneg(s: Seq<char>)
    requires
        forall|i: int| 0 <= i < s.len() ==> is_digit(#[trigger] s[i]),
    ensures
        digits_value(s) >= 0,
    decreases s.len(),
{
    if s.len() > 0 {
        let p = s.drop_last();
        assert forall|i: int| 0 <= i < p.len() implies is_digit(#[trigger] p[i]) by {
            assert(p[i] == s[i]);
        }
        lemma_digits_value_nonneg(p);
    }
}

/// Reads a decimal `u32`: an optional `+`, then digits whose value fits.
pub fn parse_u32(s: &str) -> (r: Option<u32>)
    ensures
        r == u32_value(s@),
{
    let n = s.unicode_len();
    let st: usize = if n > 0 && s.get_char(0) == '+' {
        1
    } else {
        0
    };
    let ghost b = s@.subrange(st as int, n as int);
    assert(b =~= unsigned_body(s@));
    if st == n {
        return None;
    }
    let mut acc: u64 = 0;
    let mut big = false;
    let mut i: usize = st;
    assert(b.subrange(0, 0) =~= Seq::<char>::empty());
    while i < n
        invariant
            st <= i <= n,
            n == s@.len(),
            b == s@.subrange(st as int, n as int),
            b == unsigned_body(s@),
            forall|k: int| 0 <= k < i - st ==> is_digit(#[trigger] b[k]),
            big ==> digits_value(b.subrange(0, i - st)) > u32::MAX,
            !big ==> acc == digits_value(b.subrange(0, i - st)) && acc <= u32::MAX,
        decreases n - i,
    {
        let c = s.get_char(i);
        let v = c as u32;
        if v < 48 || v > 57 {
            assert(!is_digit(b[i - st]));
            return None;
        }
        let ghost p = b.subrange(0, i - st);
        let ghost q = b.subrange(0, i + 1 - st);
        assert(q.drop_last() =~= p);
        assert(q.last() == c);
        assert forall|k: int| 0 <= k < p.len() implies is_digit(#[trigger] p[k]) by {
            assert(p[k] == b[k]);
        }
        proof {
            lemma_digits_value_nonneg(p);
        }
        if !big {
            acc = acc * 10 + (v - 48) as u64;
            if acc > 0xFFFF_FFFF {
                big = true;
            }
        } else {
            assert(digits_value(q) >= digits_value(p)) by (nonlinear_arith)
                requires
                    digits_value(q) == digits_value(p) * 10 + (c as u32 - 48),
                    digits_value(p) >= 0,
                    48 <= c as u32,
            ;
        }
        i = i + 1;
    }
    assert(b.subrange(0, n - st) =~= b);
    if big {
        None
    } else {
        Some(acc as u32)
    }
}

/// Reads `true` or `false`.
pub fn parse_bool(s: &str) -> (r: Option<bool>)
    ensures
        r == bool_value(s@),
{
    if str_eq(s, "true") {
        Some(true)
    } else if str_eq(s, "false") {
        Some(false)
    } else {
        None
    }
}

} // verus!

verus! {

/// Whether `pat` occurs in `s` starting at index `i`.
pub open spec fn occurs_at(s: Seq<char>, pat: Seq<char>, i: int) -> bool {
    0 <= i && i + pat.len() <= s.len() && s.subrange(i, i + pat.len()) == pat
}

/// Whether `i` is where `pat` first occurs in `s`.
pub open spec fn first_occurrence(s: Seq<char>, pat: Seq<char>, i: int) -> bool {
    occurs_at(s, pat, i) && forall|j: int| 0 <= j < i ==> !occurs_at(s, pat, j)
}

/// Index of the first occurrence of `pat` in `s`.
pub fn find_str(s: &str, pat: &str) -> (r: Option<usize>)
    ensures
        match r {
            Some(i) => first_occurrence(s@, pat@, i as int),
            None => forall|j: int| !occurs_at(s@, pat@, j),
        },
{
    let n = s.unicode_len();
    let m = pat.unicode_len();
    if m > n {
        return None;
    }
    if m == 0 {
        assert(s@.subrange(0, 0) =~= pat@);
        return Some(0);
    }
    let mut i: usize = 0;
    while i <= n - m
        invariant
            n == s@.len(),
            m == pat@.len(),
            1 <= m <= n,
            i <= n - m + 1,
            forall|j: int| 0 <= j < i ==> !occurs_at(s@, pat@, j),
        decreases n - i,
    {
        let cand = s.substring_char(i, i + m);
        if str_eq(cand, pat) {
            return Some(i);
        }
        i = i + 1;
    }
    None
}

/// Removes from `s` everything up to and including the first occurrence of
/// `pat`; returns whether there was one.
pub fn remove_through(s: &mut String, pat: &str) -> (found: bool)
    ensures
        found == exists|i: int| occurs_at(old(s)@, pat@, i),
        found ==> exists|i: int|
            first_occurrence(old(s)@, pat@, i) && final(s)@ == old(s)@.subrange(
                i + pat@.len(),
                old(s)@.len() as int,
            ),
        !found ==> final(s)@ == old(s)@,
{
    match find_str(s.as_str(), pat) {
        Some(i) => {
            let n = s.as_str().unicode_len();
            let m = pat.unicode_len();
            let rest = String::from_str(s.as_str().substring_char(i + m, n));
            *s = rest;
            true
        },
        None => false,
    }
}

} // verus!
