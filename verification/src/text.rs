//! Verified text helpers shared by the parsers and the engine:
//! whitespace classification, trimming, ASCII case folding, decimal
//! rendering of counters, prefix tests and lexicographic comparison.

use vstd::prelude::*;
use vstd::string::StrSliceExecFns;
use vstd::string::StringExecFns;

verus! {

/// The whitespace characters recognised by trimming and by the token rules.
pub open spec fn is_space(c: char) -> bool {
    c == ' ' || c == '\t' || c == '\n' || c == '\r' || c == '\u{b}' || c == '\u{c}'
}

pub fn is_space_exec(c: char) -> (r: bool)
    ensures
        r == is_space(c),
{
    c == ' ' || c == '\t' || c == '\n' || c == '\r' || c == '\u{b}' || c == '\u{c}'
}

/// Index of the first non-whitespace character at or after `i`.
pub open spec fn trim_start_idx(s: Seq<char>, i: int) -> int
    decreases s.len() - i,
{
    if 0 <= i < s.len() && is_space(s[i]) {
        trim_start_idx(s, i + 1)
    } else {
        i
    }
}

/// One past the last non-whitespace character at or before `i - 1`.
pub open spec fn trim_end_idx(s: Seq<char>, i: int) -> int
    decreases i,
{
    if 0 < i <= s.len() && is_space(s[i - 1]) {
        trim_end_idx(s, i - 1)
    } else {
        i
    }
}

/// `s` with leading and trailing whitespace removed.
pub open spec fn spec_trim(s: Seq<char>) -> Seq<char> {
    let a = trim_start_idx(s, 0);
    let b = trim_end_idx(s, s.len() as int);
    if a <= b {
        s.subrange(a, b)
    } else {
        Seq::empty()
    }
}

/// The bounds of the trimmed region of `s`: start index and end index.
pub fn trim_bounds(s: &str) -> (r: (usize, usize))
    ensures
        r.0 == trim_start_idx(s@, 0),
        r.1 == trim_end_idx(s@, s@.len() as int),
        0 <= r.0 <= s@.len(),
        0 <= r.1 <= s@.len(),
{
    let n = s.unicode_len();
    let mut a: usize = 0;
    while a < n && is_space_exec(s.get_char(a))
        invariant
            0 <= a <= n,
            n == s@.len(),
            trim_start_idx(s@, 0) == trim_start_idx(s@, a as int),
        decreases n - a,
    {
        proof {
            assert(trim_start_idx(s@, a as int) == trim_start_idx(s@, a + 1));
        }
        a = a + 1;
    }
    assert(trim_start_idx(s@, a as int) == a as int);
    let mut b: usize = n;
    while b > 0 && is_space_exec(s.get_char(b - 1))
        invariant
            0 <= b <= n,
            n == s@.len(),
            trim_end_idx(s@, n as int) == trim_end_idx(s@, b as int),
        decreases b,
    {
        proof {
            assert(trim_end_idx(s@, b as int) == trim_end_idx(s@, b - 1));
        }
        b = b - 1;
    }
    assert(trim_end_idx(s@, b as int) == b as int);
    (a, b)
}

/// `s` with leading and trailing whitespace removed, as an owned string.
pub fn trim_str(s: &str) -> (r: String)
    ensures
        r@ == spec_trim(s@),
{
    let (a, b) = trim_bounds(s);
    if a <= b {
        let sub = s.substring_char(a, b);
        String::from_str(sub)
    } else {
        assert(spec_trim(s@) =~= Seq::<char>::empty());
        String::new()
    }
}

/// ASCII lower-casing of one character; other characters are unchanged.
pub open spec fn lower_char(c: char) -> char {
    if 65 <= c as u32 && c as u32 <= 90 {
        ((c as u8) + 32) as char
    } else {
        c
    }
}

pub fn lower_char_exec(c: char) -> (r: char)
    ensures
        r == lower_char(c),
{
    let u = c as u32;
    if 65 <= u && u <= 90 {
        ((c as u8) + 32) as char
    } else {
        c
    }
}

/// ASCII lower-casing of a character sequence.
pub open spec fn ascii_lower(s: Seq<char>) -> Seq<char> {
    s.map_values(|c: char| lower_char(c))
}

/// True when `s`, trimmed and ASCII-lower-cased, equals the keyword `kw`.
pub fn lower_trim_eq(s: &str, kw: &str) -> (r: bool)
    ensures
        r == (ascii_lower(spec_trim(s@)) == kw@),
{
    let (a, b) = trim_bounds(s);
    let m: usize = if a <= b { b - a } else { 0 };
    assert(spec_trim(s@).len() == m);
    let k = kw.unicode_len();
    if m != k {
        assert(ascii_lower(spec_trim(s@)).len() == m);
        return false;
    }
    if m == 0 {
        assert(ascii_lower(spec_trim(s@)) =~= kw@);
        return true;
    }
    let mut i: usize = 0;
    while i < m
        invariant
            0 <= i <= m,
            m == k,
            a <= b,
            m == b - a,
            k == kw@.len(),
            b <= s@.len(),
            a == trim_start_idx(s@, 0),
            b == trim_end_idx(s@, s@.len() as int),
            forall|j: int|
                0 <= j < i ==> ascii_lower(spec_trim(s@))[j] == kw@[j],
        decreases m - i,
    {
        let c = lower_char_exec(s.get_char(a + i));
        let d = kw.get_char(i);
        assert(ascii_lower(spec_trim(s@))[i as int] == lower_char(s@[a + i]));
        if c != d {
            return false;
        }
        i = i + 1;
    }
    assert(ascii_lower(spec_trim(s@)) =~= kw@);
    true
}

/// True when `s`, ASCII-lower-cased, equals the keyword `kw`.
pub fn lower_eq(s: &str, kw: &str) -> (r: bool)
    ensures
        r == (ascii_lower(s@) == kw@),
{
    let n = s.unicode_len();
    if n != kw.unicode_len() {
        assert(ascii_lower(s@).len() == n);
        return false;
    }
    let mut i: usize = 0;
    while i < n
        invariant
            0 <= i <= n,
            n == s@.len(),
            n == kw@.len(),
            forall|j: int| 0 <= j < i ==> ascii_lower(s@)[j] == kw@[j],
        decreases n - i,
    {
        let c = lower_char_exec(s.get_char(i));
        assert(ascii_lower(s@)[i as int] == lower_char(s@[i as int]));
        if c != kw.get_char(i) {
            return false;
        }
        i = i + 1;
    }
    assert(ascii_lower(s@) =~= kw@);
    true
}

/// The decimal digit character for `d` (which must lie in 0 .. 9).
pub open spec fn dec_digit(d: int) -> char {
    if d == 0 {
        '0'
    } else if d == 1 {
        '1'
    } else if d == 2 {
        '2'
    } else if d == 3 {
        '3'
    } else if d == 4 {
        '4'
    } else if d == 5 {
        '5'
    } else if d == 6 {
        '6'
    } else if d == 7 {
        '7'
    } else if d == 8 {
        '8'
    } else {
        '9'
    }
}

/// The decimal rendering of a non-negative integer.
pub open spec fn spec_dec(n: int) -> Seq<char>
    decreases n,
{
    if n < 10 {
        seq![dec_digit(n)]
    } else {
        spec_dec(n / 10).push(dec_digit(n % 10))
    }
}

fn dec_digit_str(d: u64) -> (r: &'static str)
    requires
        d < 10,
    ensures
        r@ =~= seq![dec_digit(d as int)],
{
    proof {
        reveal_strlit("0");
        reveal_strlit("1");
        reveal_strlit("2");
        reveal_strlit("3");
        reveal_strlit("4");
        reveal_strlit("5");
        reveal_strlit("6");
        reveal_strlit("7");
        reveal_strlit("8");
        reveal_strlit("9");
    }
    if d == 0 {
        "0"
    } else if d == 1 {
        "1"
    } else if d == 2 {
        "2"
    } else if d == 3 {
        "3"
    } else if d == 4 {
        "4"
    } else if d == 5 {
        "5"
    } else if d == 6 {
        "6"
    } else if d == 7 {
        "7"
    } else if d == 8 {
        "8"
    } else {
        "9"
    }
}

/// Renders `n` in decimal.
pub fn u64_to_dec(n: u64) -> (r: String)
    ensures
        r@ == spec_dec(n as int),
    decreases n,
{
    if n < 10 {
        let s = String::from_str(dec_digit_str(n));
        assert(s@ =~= spec_dec(n as int));
        s
    } else {
        let mut s = u64_to_dec(n / 10);
        s.append(dec_digit_str(n % 10));
        assert(s@ =~= spec_dec(n as int));
        s
    }
}

/// True when the views of `a` and `b` are the same character sequence.
pub fn str_eq(a: &str, b: &str) -> (r: bool)
    ensures
        r == (a@ == b@),
{
    let n = a.unicode_len();
    if n != b.unicode_len() {
        return false;
    }
    let mut i: usize = 0;
    while i < n
        invariant
            0 <= i <= n,
            n == a@.len(),
            n == b@.len(),
            forall|j: int| 0 <= j < i ==> a@[j] == b@[j],
        decreases n - i,
    {
        if a.get_char(i) != b.get_char(i) {
            return false;
        }
        i = i + 1;
    }
    assert(a@ =~= b@);
    true
}

/// True when `p` is a prefix of `s`.
pub open spec fn is_prefix(p: Seq<char>, s: Seq<char>) -> bool {
    p.len() <= s.len() && s.subrange(0, p.len() as int) == p
}

pub fn str_starts_with(s: &str, p: &str) -> (r: bool)
    ensures
        r == is_prefix(p@, s@),
{
    let m = p.unicode_len();
    if m > s.unicode_len() {
        return false;
    }
    let mut i: usize = 0;
    while i < m
        invariant
            0 <= i <= m,
            m == p@.len(),
            m <= s@.len(),
            forall|j: int| 0 <= j < i ==> s@[j] == p@[j],
        decreases m - i,
    {
        if s.get_char(i) != p.get_char(i) {
            assert(s@.subrange(0, m as int)[i as int] != p@[i as int]);
            return false;
        }
        i = i + 1;
    }
    assert(s@.subrange(0, m as int) =~= p@);
    true
}

/// True when `suf` is a suffix of `s`.
pub open spec fn is_suffix(suf: Seq<char>, s: Seq<char>) -> bool {
    suf.len() <= s.len() && s.subrange(s.len() - suf.len(), s.len() as int) == suf
}

pub fn str_ends_with(s: &str, suf: &str) -> (r: bool)
    ensures
        r == is_suffix(suf@, s@),
{
    let m = suf.unicode_len();
    let n = s.unicode_len();
    if m > n {
        return false;
    }
    let base = n - m;
    let mut i: usize = 0;
    while i < m
        invariant
            0 <= i <= m,
            m == suf@.len(),
            n == s@.len(),
            base == n - m,
            forall|j: int| 0 <= j < i ==> s@[base + j] == suf@[j],
        decreases m - i,
    {
        if s.get_char(base + i) != suf.get_char(i) {
            assert(s@.subrange(base as int, n as int)[i as int] != suf@[i as int]);
            return false;
        }
        i = i + 1;
    }
    assert(s@.subrange(base as int, n as int) =~= suf@);
    true
}

/// Strict lexicographic order on character sequences, by code point.
pub open spec fn lex_lt(a: Seq<char>, b: Seq<char>) -> bool
    decreases a.len(),
{
    if b.len() == 0 {
        false
    } else if a.len() == 0 {
        true
    } else if a[0] != b[0] {
        (a[0] as u32) < (b[0] as u32)
    } else {
        lex_lt(a.drop_first(), b.drop_first())
    }
}

proof fn lemma_lex_lt_step(a: Seq<char>, b: Seq<char>, i: int)
    requires
        0 <= i,
        i < a.len() || i < b.len(),
        forall|j: int| 0 <= j < i ==> a[j] == b[j],
        i <= a.len(),
        i <= b.len(),
    ensures
        lex_lt(a, b) == (if i >= b.len() {
            false
        } else if i >= a.len() {
            true
        } else if a[i] != b[i] {
            (a[i] as u32) < (b[i] as u32)
        } else {
            lex_lt(a.subrange(i + 1, a.len() as int), b.subrange(i + 1, b.len() as int))
        }),
    decreases i,
{
    if i == 0 {
        if 0 < a.len() && 0 < b.len() && a[0] == b[0] {
            assert(a.drop_first() =~= a.subrange(1, a.len() as int));
            assert(b.drop_first() =~= b.subrange(1, b.len() as int));
        }
    } else {
        assert(a[0] == b[0]);
        let a1 = a.drop_first();
        let b1 = b.drop_first();
        lemma_lex_lt_step(a1, b1, i - 1);
        if i < b.len() && i < a.len() {
            assert(a1[i - 1] == a[i]);
            assert(b1[i - 1] == b[i]);
            if a[i] == b[i] {
                assert(a1.subrange(i, a1.len() as int) =~= a.subrange(i + 1, a.len() as int));
                assert(b1.subrange(i, b1.len() as int) =~= b.subrange(i + 1, b.len() as int));
            }
        }
    }
}

/// Decides the lexicographic order `lex_lt(a@, b@)`.
pub fn str_lt(a: &str, b: &str) -> (r: bool)
    ensures
        r == lex_lt(a@, b@),
{
    let na = a.unicode_len();
    let nb = b.unicode_len();
    let mut i: usize = 0;
    loop
        invariant
            0 <= i,
            i <= na,
            i <= nb,
            na == a@.len(),
            nb == b@.len(),
            forall|j: int| 0 <= j < i ==> a@[j] == b@[j],
        decreases na - i,
    {
        if i >= nb {
            proof {
                if i < na {
                    lemma_lex_lt_step(a@, b@, i as int);
                } else {
                    lemma_lex_lt_eq(a@, b@, i as int);
                }
            }
            return false;
        }
        if i >= na {
            proof {
                lemma_lex_lt_step(a@, b@, i as int);
            }
            return true;
        }
        let ca = a.get_char(i);
        let cb = b.get_char(i);
        if ca != cb {
            proof {
                lemma_lex_lt_step(a@, b@, i as int);
            }
            return (ca as u32) < (cb as u32);
        }
        i = i + 1;
    }
}

proof fn lemma_lex_lt_eq(a: Seq<char>, b: Seq<char>, i: int)
    requires
        i == a.len(),
        i == b.len(),
        forall|j: int| 0 <= j < i ==> a[j] == b[j],
    ensures
        !lex_lt(a, b),
    decreases i,
{
    if i > 0 {
        lemma_lex_lt_eq(a.drop_first(), b.drop_first(), i - 1);
    }
}

/// Any two character sequences are lexicographically ordered or equal.
pub proof fn lemma_lex_trichotomy(a: Seq<char>, b: Seq<char>)
    ensures
        lex_lt(a, b) || lex_lt(b, a) || a == b,
    decreases a.len(),
{
    if a.len() == 0 && b.len() == 0 {
        assert(a =~= b);
    } else if a.len() > 0 && b.len() > 0 {
        if a[0] == b[0] {
            lemma_lex_trichotomy(a.drop_first(), b.drop_first());
            if a.drop_first() == b.drop_first() {
                assert(a.drop_first().len() == b.drop_first().len());
                assert(a.len() == b.len());
                assert forall|k: int| 0 <= k < a.len() implies a[k] == b[k] by {
                    if k > 0 {
                        assert(a.drop_first()[k - 1] == b.drop_first()[k - 1]);
                    }
                }
                assert(a =~= b);
            }
        } else {
            vstd::utf8::char_u32_cast(a[0], a[0] as u32);
            vstd::utf8::char_u32_cast(b[0], b[0] as u32);
            assert((a[0] as u32) != (b[0] as u32));
        }
    }
}

/// Lexicographic order is transitive.
pub proof fn lemma_lex_lt_trans(a: Seq<char>, b: Seq<char>, c: Seq<char>)
    requires
        lex_lt(a, b),
        lex_lt(b, c),
    ensures
        lex_lt(a, c),
    decreases a.len(),
{
    if a.len() > 0 && b.len() > 0 && c.len() > 0 {
        if a[0] == b[0] && b[0] == c[0] {
            lemma_lex_lt_trans(a.drop_first(), b.drop_first(), c.drop_first());
        }
    }
}

/// The lines of `s`: split at `'\n'`, dropping one trailing `'\r'` from each
/// piece, with a final empty piece after a terminating newline omitted.
pub open spec fn spec_lines(s: Seq<char>) -> Seq<Seq<char>>
    decreases s.len(),
{
    if s.len() == 0 {
        Seq::empty()
    } else {
        let k = first_newline(s, 0);
        if k < 0 || k >= s.len() {
            seq![strip_cr(s)]
        } else {
            seq![strip_cr(s.subrange(0, k))] + spec_lines(s.subrange(k + 1, s.len() as int))
        }
    }
}

/// Index of the first `'\n'` at or after `i`, or `s.len()` if none.
pub open spec fn first_newline(s: Seq<char>, i: int) -> int
    decreases s.len() - i,
{
    if 0 <= i < s.len() {
        if s[i] == '\n' {
            i
        } else {
            first_newline(s, i + 1)
        }
    } else {
        s.len() as int
    }
}

/// `s` without a single trailing `'\r'`, if present.
pub open spec fn strip_cr(s: Seq<char>) -> Seq<char> {
    if s.len() > 0 && s[s.len() - 1] == '\r' {
        s.subrange(0, s.len() - 1)
    } else {
        s
    }
}

proof fn lemma_first_newline_bounds(s: Seq<char>, i: int)
    requires
        0 <= i <= s.len(),
    ensures
        i <= first_newline(s, i) <= s.len(),
        first_newline(s, i) < s.len() ==> s[first_newline(s, i)] == '\n',
        forall|j: int| i <= j < first_newline(s, i) ==> s[j] != '\n',
    decreases s.len() - i,
{
    if 0 <= i < s.len() && s[i] != '\n' {
        lemma_first_newline_bounds(s, i + 1);
    }
}

/// Splits `s` into its lines.
pub fn split_lines(s: &str) -> (r: Vec<String>)
    ensures
        r.len() == spec_lines(s@).len(),
        forall|j: int| 0 <= j < r.len() ==> r[j]@ == spec_lines(s@)[j],
    decreases s@.len(),
{
    let n = s.unicode_len();
    let mut r: Vec<String> = Vec::new();
    if n == 0 {
        assert(spec_lines(s@) =~= Seq::<Seq<char>>::empty());
        return r;
    }
    let mut start: usize = 0;
    let ghost mut done: Seq<Seq<char>> = Seq::empty();
    proof {
        assert(s@.subrange(0, n as int) =~= s@);
        assert(done + spec_lines(s@) =~= spec_lines(s@));
    }
    while start < n
        invariant
            0 <= start <= n,
            n == s@.len(),
            n > 0,
            done == r@.map_values(|p: String| p@),
            r.len() == done.len(),
            spec_lines(s@) == done + (if start < n {
                spec_lines(s@.subrange(start as int, n as int))
            } else {
                Seq::<Seq<char>>::empty()
            }),
        decreases n - start,
    {
        let ghost rest = s@.subrange(start as int, n as int);
        let mut k: usize = start;
        while k < n && s.get_char(k) != '\n'
            invariant
                start <= k <= n,
                n == s@.len(),
                forall|j: int| start <= j < k ==> s@[j] != '\n',
            decreases n - k,
        {
            k = k + 1;
        }
        proof {
            lemma_first_newline_bounds(rest, 0);
            assert(forall|j: int| 0 <= j < k - start ==> rest[j] == s@[start + j]);
            if k < n {
                assert(rest[k - start] == '\n');
            }
            assert(first_newline(rest, 0) == k - start) by {
                lemma_first_newline_pin(rest, k - start);
            }
        }
        // the piece runs to k; drop one trailing '\r'
        let mut piece_end: usize = k;
        if piece_end > start && s.get_char(piece_end - 1) == '\r' {
            piece_end = piece_end - 1;
        }
        let piece = String::from_str(s.substring_char(start, piece_end));
        proof {
            let pe = rest.subrange(0, k - start as int);
            assert(strip_cr(pe) =~= s@.subrange(start as int, piece_end as int));
        }
        r.push(piece);
        proof {
            done = done + seq![s@.subrange(start as int, piece_end as int)];
            assert(done == r@.map_values(|p: String| p@)) by {
                assert(done =~= r@.map_values(|p: String| p@));
            }
        }
        if k < n {
            proof {
                assert(rest.subrange(k - start + 1, rest.len() as int) =~= s@.subrange(
                    k + 1,
                    n as int,
                ));
                assert(spec_lines(rest) == seq![strip_cr(rest.subrange(0, k - start as int))]
                    + spec_lines(s@.subrange(k + 1, n as int)));
            }
            start = k + 1;
            proof {
                if start == n {
                    assert(spec_lines(s@.subrange(start as int, n as int)) =~= Seq::<
                        Seq<char>,
                    >::empty());
                    assert(s@.subrange(start as int, n as int).len() == 0);
                }
            }
            if start == n {
                // a terminating newline: the final empty piece is omitted
                proof {
                    assert(spec_lines(s@) =~= done);
                }
                return r;
            }
        } else {
            proof {
                assert(spec_lines(rest) == seq![strip_cr(rest)]);
                assert(rest.subrange(0, k - start as int) =~= rest);
                assert(spec_lines(s@) =~= done);
            }
            return r;
        }
    }
    proof {
        assert(spec_lines(s@) =~= done);
    }
    r
}

proof fn lemma_first_newline_pin(s: Seq<char>, k: int)
    requires
        0 <= k <= s.len(),
        forall|j: int| 0 <= j < k ==> s[j] != '\n',
        k < s.len() ==> s[k] == '\n',
    ensures
        first_newline(s, 0) == k,
{
    lemma_first_newline_pin_from(s, 0, k);
}

proof fn lemma_first_newline_pin_from(s: Seq<char>, i: int, k: int)
    requires
        0 <= i <= k <= s.len(),
        forall|j: int| i <= j < k ==> s[j] != '\n',
        k < s.len() ==> s[k] == '\n',
    ensures
        first_newline(s, i) == k,
    decreases k - i,
{
    if i < k {
        lemma_first_newline_pin_from(s, i + 1, k);
    }
}

/// The number of lines of `s`.
pub fn count_lines(s: &str) -> (r: u64)
    requires
        s@.len() < 0x7fffffffffffffff,
    ensures
        r == spec_lines(s@).len(),
{
    let v = split_lines(s);
    proof {
        lemma_lines_le_len(s@);
    }
    v.len() as u64
}

proof fn lemma_lines_le_len(s: Seq<char>)
    ensures
        spec_lines(s).len() <= s.len() + 1,
    decreases s.len(),
{
    if s.len() > 0 {
        let k = first_newline(s, 0);
        lemma_first_newline_bounds(s, 0);
        if k < s.len() {
            lemma_lines_le_len(s.subrange(k + 1, s.len() as int));
        }
    }
}

} // verus!
