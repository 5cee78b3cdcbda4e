//! Small verified string helpers shared by the parsing and formatting code.

use vstd::prelude::*;
use vstd::string::*;
use vstd::utf8::*;

verus! {

/// Whether two string slices hold the same characters.
pub fn str_eq(a: &str, b: &str) -> (r: bool)
    ensures
        r == (a@ == b@),
{
    let x = String::from_str(a);
    let y = String::from_str(b);
    x == y
}

/// `s` with every leading occurrence of `c` removed.
pub open spec fn trim_start(s: Seq<char>, c: char) -> Seq<char>
    decreases s.len(),
{
    if s.len() > 0 && s[0] == c {
        trim_start(s.drop_first(), c)
    } else {
        s
    }
}

proof fn lemma_trim_start_skip(s: Seq<char>, c: char, i: int)
    requires
        0 <= i <= s.len(),
        forall|j: int| 0 <= j < i ==> s[j] == c,
    ensures
        trim_start(s, c) == trim_start(s.skip(i), c),
    decreases i,
{
    if i > 0 {
        assert(s.skip(1) =~= s.drop_first());
        lemma_trim_start_skip(s.drop_first(), c, i - 1);
        assert(s.drop_first().skip(i - 1) =~= s.skip(i));
    } else {
        assert(s.skip(0) =~= s);
    }
}

/// Copy of `s` without its leading run of `c` characters.
pub fn trim_start_char(s: &str, c: char) -> (r: String)
    ensures
        r@ == trim_start(s@, c),
{
    let n = s.unicode_len();
    let mut i: usize = 0;
    while i < n && s.get_char(i) == c
        invariant
            n == s@.len(),
            i <= n,
            forall|j: int| 0 <= j < i ==> s@[j] == c,
        decreases n - i,
    {
        i = i + 1;
    }
    proof {
        lemma_trim_start_skip(s@, c, i as int);
        assert(s@.skip(i as int) =~= s@.subrange(i as int, n as int));
    }
    String::from_str(s.substring_char(i, n))
}

/// The first `n` characters of `s` (all of `s` when it is shorter).
pub open spec fn first_chars(s: Seq<char>, n: nat) -> Seq<char> {
    if s.len() <= n {
        s
    } else {
        s.take(n as int)
    }
}

/// Copy of the first `n` characters of `s`.
pub fn take_chars(s: &str, n: usize) -> (r: String)
    ensures
        r@ == first_chars(s@, n as nat),
{
    let len = s.unicode_len();
    let end = if len <= n { len } else { n };
    proof {
        assert(s@.subrange(0, len as int) =~= s@);
    }
    String::from_str(s.substring_char(0, end))
}

/// Strict lexicographic order on character sequences, comparing code
/// points (the order Rust's `String` comparison follows).
pub open spec fn lex_lt(a: Seq<char>, b: Seq<char>) -> bool
    decreases a.len(),
{
    if a.len() == 0 {
        b.len() > 0
    } else if b.len() == 0 {
        false
    } else if (a[0] as u32) < (b[0] as u32) {
        true
    } else if (a[0] as u32) > (b[0] as u32) {
        false
    } else {
        lex_lt(a.drop_first(), b.drop_first())
    }
}

proof fn lemma_lex_lt_skip(a: Seq<char>, b: Seq<char>, i: int)
    requires
        0 <= i <= a.len(),
        i <= b.len(),
        forall|j: int| 0 <= j < i ==> a[j] == b[j],
    ensures
        lex_lt(a, b) == lex_lt(a.skip(i), b.skip(i)),
    decreases i,
{
    if i > 0 {
        lemma_lex_lt_skip(a.drop_first(), b.drop_first(), i - 1);
        assert(a.drop_first().skip(i - 1) =~= a.skip(i));
        assert(b.drop_first().skip(i - 1) =~= b.skip(i));
    } else {
        assert(a.skip(0) =~= a);
        assert(b.skip(0) =~= b);
    }
}

/// No sequence sorts strictly before itself.
pub proof fn lemma_lex_lt_irreflexive(a: Seq<char>)
    ensures
        !lex_lt(a, a),
    decreases a.len(),
{
    if a.len() > 0 {
        lemma_lex_lt_irreflexive(a.drop_first());
    }
}

/// The lexicographic order is transitive.
pub proof fn lemma_lex_lt_transitive(a: Seq<char>, b: Seq<char>, c: Seq<char>)
    requires
        lex_lt(a, b),
        lex_lt(b, c),
    ensures
        lex_lt(a, c),
    decreases a.len(),
{
    if a.len() > 0 && b.len() > 0 && c.len() > 0 {
        if (a[0] as u32) == (b[0] as u32) && (b[0] as u32) == (c[0] as u32) {
            lemma_lex_lt_transitive(a.drop_first(), b.drop_first(), c.drop_first());
        }
    }
}

/// Whether `a` sorts strictly before `b`.
pub fn str_lt(a: &str, b: &str) -> (r: bool)
    ensures
        r == lex_lt(a@, b@),
{
    let na = a.unicode_len();
    let nb = b.unicode_len();
    let mut i: usize = 0;
    while i < na && i < nb && a.get_char(i) == b.get_char(i)
        invariant
            na == a@.len(),
            nb == b@.len(),
            i <= na,
            i <= nb,
            forall|j: int| 0 <= j < i ==> a@[j] == b@[j],
        decreases na - i,
    {
        i = i + 1;
    }
    proof {
        lemma_lex_lt_skip(a@, b@, i as int);
    }
    if i == na {
        proof {
            assert(a@.skip(i as int).len() == 0);
        }
        i < nb
    } else if i == nb {
        false
    } else {
        let ca = a.get_char(i);
        let cb = b.get_char(i);
        proof {
            assert(a@.skip(i as int)[0] == ca);
            assert(b@.skip(i as int)[0] == cb);
        }
        (ca as u32) < (cb as u32)
    }
}

} // verus!

verus! {

/// The lexicographically smallest of a non-empty list of names (the first
/// of equal ones).
pub open spec fn min_name(names: Seq<Seq<char>>) -> Seq<char>
    decreases names.len(),
{
    if names.len() <= 1 {
        names[0]
    } else {
        let m = min_name(names.drop_last());
        if lex_lt(names.last(), m) {
            names.last()
        } else {
            m
        }
    }
}

/// Views of a list of strings.
pub open spec fn views(v: Seq<String>) -> Seq<Seq<char>> {
    v.map_values(|s: String| s@)
}

/// Copy of the lexicographically smallest name of a non-empty list.
pub fn min_string(names: &Vec<String>) -> (r: String)
    requires
        names@.len() > 0,
    ensures
        r@ == min_name(views(names@)),
{
    let mut best: usize = 0;
    let mut i: usize = 1;
    proof {
        assert(views(names@).take(1).len() == 1);
    }
    while i < names.len()
        invariant
            1 <= i <= names@.len(),
            best < i,
            names@[best as int]@ == min_name(views(names@).take(i as int)),
        decreases names@.len() - i,
    {
        let ghost vs = views(names@).take(i as int + 1);
        proof {
            assert(vs.drop_last() =~= views(names@).take(i as int));
            assert(vs.last() == names@[i as int]@);
        }
        if str_lt(names[i].as_str(), names[best].as_str()) {
            best = i;
        }
        i = i + 1;
    }
    proof {
        assert(views(names@).take(names@.len() as int) =~= views(names@));
    }
    String::from_str(names[best].as_str())
}

} // verus!

verus! {

/// The decimal digits, in order.
pub open spec fn digit_table() -> Seq<char> {
    "0123456789"@
}

/// Decimal representation of `n` (no sign, no leading zeros).
pub open spec fn dec_chars(n: nat) -> Seq<char>
    decreases n,
{
    if n < 10 {
        seq![digit_table()[n as int]]
    } else {
        dec_chars(n / 10).push(digit_table()[(n % 10) as int])
    }
}

/// Append the decimal representation of `n` to `s`.
pub fn push_dec(s: &mut String, n: u64)
    ensures
        final(s)@ == old(s)@ + dec_chars(n as nat),
    decreases n,
{
    if n >= 10 {
        push_dec(s, n / 10);
    }
    let d = (n % 10) as usize;
    proof {
        reveal_strlit("0123456789");
    }
    let digit = "0123456789".substring_char(d, d + 1);
    proof {
        assert(digit@ =~= seq![digit_table()[d as int]]);
    }
    s.append(digit);
    proof {
        if n >= 10 {
            assert(final(s)@ =~= old(s)@ + dec_chars(n as nat));
        } else {
            assert(final(s)@ =~= old(s)@ + dec_chars(n as nat));
        }
    }
}

/// Decimal representation of `n` as a new string.
pub fn dec_string(n: u64) -> (s: String)
    ensures
        s@ == dec_chars(n as nat),
{
    let mut s = String::new();
    push_dec(&mut s, n);
    proof {
        assert(s@ =~= dec_chars(n as nat));
    }
    s
}

/// Append the UTF-8 bytes of `s` to `out`.
pub fn push_utf8(out: &mut Vec<u8>, s: &str)
    ensures
        final(out)@ == old(out)@ + encode_utf8(s@),
{
    let bytes = s.as_bytes();
    let mut i: usize = 0;
    while i < bytes.len()
        invariant
            bytes@ == encode_utf8(s@),
            i <= bytes@.len(),
            out@ == old(out)@ + bytes@.take(i as int),
        decreases bytes@.len() - i,
    {
        out.push(bytes[i]);
        proof {
            assert(bytes@.take(i as int + 1) =~= bytes@.take(i as int).push(bytes@[i as int]));
        }
        i = i + 1;
    }
    proof {
        assert(bytes@.take(bytes@.len() as int) =~= bytes@);
    }
}

} // verus!

verus! {

/// `t` occurs in `s` starting at index `i`.
pub open spec fn occurs_at(s: Seq<char>, t: Seq<char>, i: int) -> bool {
    0 <= i && i + t.len() <= s.len() && s.subrange(i, i + t.len()) == t
}

/// `t` occurs somewhere in `s`.
pub open spec fn contains_seq(s: Seq<char>, t: Seq<char>) -> bool {
    exists|i: int| occurs_at(s, t, i)
}

/// `s` begins with `t`.
pub open spec fn starts_with_seq(s: Seq<char>, t: Seq<char>) -> bool {
    occurs_at(s, t, 0)
}

fn occurs_at_exec(s: &str, t: &str, i: usize) -> (r: bool)
    requires
        i + t@.len() <= s@.len(),
    ensures
        r == occurs_at(s@, t@, i as int),
{
    let n = s.unicode_len();
    let m = t.unicode_len();
    let mut k: usize = 0;
    while k < m
        invariant
            n == s@.len(),
            m == t@.len(),
            i + m <= n,
            k <= m,
            forall|j: int| 0 <= j < k ==> s@[i + j] == t@[j],
        decreases m - k,
    {
        if s.get_char(i + k) != t.get_char(k) {
            proof {
                assert(s@.subrange(i as int, i + m)[k as int] != t@[k as int]);
            }
            return false;
        }
        k = k + 1;
    }
    proof {
        assert(s@.subrange(i as int, i + m) =~= t@);
    }
    true
}

/// Whether `t` occurs in `s`.
pub fn str_contains(s: &str, t: &str) -> (r: bool)
    ensures
        r == contains_seq(s@, t@),
{
    let n = s.unicode_len();
    let m = t.unicode_len();
    if m > n {
        return false;
    }
    if m == 0 {
        proof {
            assert(s@.subrange(0, 0) =~= t@);
            assert(occurs_at(s@, t@, 0));
        }
        return true;
    }
    let mut i: usize = 0;
    while i <= n - m
        invariant
            n == s@.len(),
            m == t@.len(),
            1 <= m <= n,
            i <= n - m + 1,
            forall|j: int| 0 <= j < i ==> !occurs_at(s@, t@, j),
        decreases n - m + 1 - i,
    {
        if occurs_at_exec(s, t, i) {
            return true;
        }
        i = i + 1;
    }
    false
}

/// Whether `s` begins with `t`.
pub fn str_starts_with(s: &str, t: &str) -> (r: bool)
    ensures
        r == starts_with_seq(s@, t@),
{
    if t.unicode_len() > s.unicode_len() {
        return false;
    }
    occurs_at_exec(s, t, 0)
}

} // verus!

verus! {

/// `t` repeated `n` times.
pub open spec fn repeat(t: Seq<char>, n: nat) -> Seq<char>
    decreases n,
{
    if n == 0 {
        Seq::empty()
    } else {
        repeat(t, (n - 1) as nat) + t
    }
}

/// Append `t` to `s` `n` times.
pub fn push_repeat(s: &mut String, t: &str, n: usize)
    ensures
        final(s)@ == old(s)@ + repeat(t@, n as nat),
{
    let mut i: usize = 0;
    proof {
        assert(old(s)@ + repeat(t@, 0) =~= old(s)@);
    }
    while i < n
        invariant
            i <= n,
            s@ == old(s)@ + repeat(t@, i as nat),
        decreases n - i,
    {
        s.append(t);
        proof {
            assert(repeat(t@, (i + 1) as nat) == repeat(t@, i as nat) + t@);
            assert(s@ =~= old(s)@ + repeat(t@, (i + 1) as nat));
        }
        i = i + 1;
    }
}

/// The pieces of `parts` joined with `sep` between consecutive pieces.
pub open spec fn join(parts: Seq<Seq<char>>, sep: Seq<char>) -> Seq<char>
    decreases parts.len(),
{
    if parts.len() == 0 {
        Seq::empty()
    } else if parts.len() == 1 {
        parts[0]
    } else {
        join(parts.drop_last(), sep) + sep + parts.last()
    }
}

/// Join the strings of `parts` with `sep`.
pub fn join_strings(parts: &Vec<String>, sep: &str) -> (r: String)
    ensures
        r@ == join(views(parts@), sep@),
{
    let mut r = String::new();
    let mut i: usize = 0;
    while i < parts.len()
        invariant
            i <= parts@.len(),
            r@ == join(views(parts@).take(i as int), sep@),
        decreases parts@.len() - i,
    {
        proof {
            let t = views(parts@).take(i as int + 1);
            assert(t.drop_last() =~= views(parts@).take(i as int));
            assert(t.last() == parts@[i as int]@);
        }
        if i > 0 {
            r.append(sep);
        }
        r.append(parts[i].as_str());
        proof {
            if i == 0 {
                assert(r@ =~= join(views(parts@).take(1), sep@));
            }
        }
        i = i + 1;
    }
    proof {
        assert(views(parts@).take(parts@.len() as int) =~= views(parts@));
    }
    r
}

/// The last `n` characters of `s` (all of `s` when it is shorter).
pub open spec fn last_chars(s: Seq<char>, n: nat) -> Seq<char> {
    if s.len() <= n {
        s
    } else {
        s.skip(s.len() - n)
    }
}

} // verus!

verus! {

/// Whether `c` is an ASCII decimal digit.
pub open spec fn is_digit(c: char) -> bool {
    '0' <= c && c <= '9'
}

/// Value of a run of decimal digits (leading zeros allowed).
pub open spec fn digits_value(s: Seq<char>) -> nat
    decreases s.len(),
{
    if s.len() == 0 {
        0
    } else {
        digits_value(s.drop_last()) * 10 + ((s.last() as nat) - ('0' as nat)) as nat
    }
}

/// Whether every character of `s` is a decimal digit.
pub open spec fn all_digits(s: Seq<char>) -> bool {
    forall|i: int| 0 <= i < s.len() ==> is_digit(#[trigger] s[i])
}

/// The decimal digits of an unsigned number: `s` without one leading `+`
/// (a lone `+` keeps it, and fails).
pub open spec fn unsigned_digits(s: Seq<char>) -> Seq<char> {
    if s.len() > 1 && s[0] == '+' {
        s.drop_first()
    } else {
        s
    }
}

/// What `str::parse::<u16>` gives: an optional `+`, then one or more
/// decimal digits whose value fits in 16 bits.
pub open spec fn spec_parse_u16(s: Seq<char>) -> Option<u16> {
    let d = unsigned_digits(s);
    if d.len() > 0 && all_digits(d) && digits_value(d) <= u16::MAX {
        Some(digits_value(d) as u16)
    } else {
        None
    }
}

/// What `str::parse::<i64>` gives: an optional `+` or `-`, then one or
/// more decimal digits whose signed value fits in 64 bits.
pub open spec fn spec_parse_i64(s: Seq<char>) -> Option<i64> {
    let neg = s.len() > 1 && s[0] == '-';
    let d = if s.len() > 1 && (s[0] == '+' || s[0] == '-') { s.drop_first() } else { s };
    let v: int = if neg { -(digits_value(d) as int) } else { digits_value(d) as int };
    if d.len() > 0 && all_digits(d) && i64::MIN <= v && v <= i64::MAX {
        Some(v as i64)
    } else {
        None
    }
}

proof fn lemma_digits_value_prefix(s: Seq<char>, i: int)
    requires
        0 <= i <= s.len(),
        all_digits(s),
    ensures
        digits_value(s.take(i)) <= digits_value(s),
    decreases s.len() - i,
{
    if i < s.len() {
        let t = s.take(i + 1);
        assert(t.drop_last() =~= s.take(i));
        assert(is_digit(s[i]));
        lemma_digits_value_prefix(s, i + 1);
    } else {
        assert(s.take(i) =~= s);
    }
}

/// Value of the decimal digits of `s` from index `start` on, when all are
/// digits and the value is at most `bound`; `None` otherwise.
fn digits_upto(s: &str, start: usize, bound: u64) -> (r: Option<u64>)
    requires
        start <= s@.len(),
        9 <= bound,
    ensures
        match r {
            Some(v) => all_digits(s@.skip(start as int)) && v == digits_value(s@.skip(start as int))
                && v <= bound,
            None => !(all_digits(s@.skip(start as int)) && digits_value(s@.skip(start as int)) <= bound),
        },
{
    let n = s.unicode_len();
    let ghost d = s@.skip(start as int);
    let mut acc: u64 = 0;
    let mut i: usize = start;
    while i < n
        invariant
            n == s@.len(),
            start <= i <= n,
            d == s@.skip(start as int),
            9 <= bound,
            acc <= bound,
            all_digits(d.take(i - start)),
            acc == digits_value(d.take(i - start)),
        decreases n - i,
    {
        let c = s.get_char(i);
        let ghost k = i - start;
        proof {
            assert(d[k] == c);
        }
        if c < '0' || c > '9' {
            proof {
                assert(!is_digit(d[k]));
            }
            return None;
        }
        let digit = (c as u32 - '0' as u32) as u64;
        proof {
            assert(d.take(k + 1).drop_last() =~= d.take(k));
            assert(d.take(k + 1).last() == c);
            assert(all_digits(d.take(k + 1)));
        }
        if acc > (bound - digit) / 10 {
            proof {
                assert(acc * 10 + digit > bound) by (nonlinear_arith)
                    requires
                        acc > (bound - digit) / 10,
                        digit <= 9,
                        9 <= bound,
                ;
                assert(digits_value(d.take(k + 1)) == acc * 10 + digit);
                if all_digits(d) {
                    lemma_digits_value_prefix(d, k + 1);
                }
            }
            return None;
        }
        proof {
            assert(acc * 10 + digit <= bound) by (nonlinear_arith)
                requires
                    acc <= (bound - digit) / 10,
                    digit <= 9,
                    9 <= bound,
            ;
        }
        acc = acc * 10 + digit;
        i = i + 1;
    }
    proof {
        assert(d.take(i - start) =~= d);
    }
    Some(acc)
}

/// Parse a decimal `u16` as `str::parse` does.
pub fn parse_u16(s: &str) -> (r: Option<u16>)
    ensures
        r == spec_parse_u16(s@),
{
    let n = s.unicode_len();
    let start: usize = if n > 1 && s.get_char(0) == '+' { 1 } else { 0 };
    proof {
        assert(unsigned_digits(s@) =~= s@.skip(start as int));
    }
    if start == n {
        return None;
    }
    match digits_upto(s, start, 65535) {
        Some(v) => Some(v as u16),
        None => None,
    }
}

/// Parse a decimal `i64` as `str::parse` does.
pub fn parse_i64(s: &str) -> (r: Option<i64>)
    ensures
        r == spec_parse_i64(s@),
{
    let n = s.unicode_len();
    let first = if n > 1 { s.get_char(0) } else { ' ' };
    let neg = n > 1 && first == '-';
    let start: usize = if n > 1 && (first == '+' || first == '-') { 1 } else { 0 };
    proof {
        assert(s@.skip(start as int) =~= (if s@.len() > 1 && (s@[0] == '+' || s@[0] == '-') {
            s@.drop_first()
        } else {
            s@
        }));
    }
    if start == n {
        return None;
    }
    let bound: u64 = if neg { 9223372036854775808 } else { 9223372036854775807 };
    match digits_upto(s, start, bound) {
        Some(v) => {
            if neg {
                if v == 9223372036854775808 {
                    Some(i64::MIN)
                } else {
                    Some(-(v as i64))
                }
            } else {
                Some(v as i64)
            }
        },
        None => None,
    }
}

/// Whether `k` is the index of the first `c` in `s`.
pub open spec fn first_at(s: Seq<char>, c: char, k: int) -> bool {
    0 <= k < s.len() && s[k] == c && forall|j: int| 0 <= j < k ==> s[j] != c
}

/// Index of the first `c` in `s`, if any.
pub fn find_char(s: &str, c: char) -> (r: Option<usize>)
    ensures
        match r {
            Some(k) => first_at(s@, c, k as int),
            None => forall|j: int| 0 <= j < s@.len() ==> s@[j] != c,
        },
{
    let n = s.unicode_len();
    let mut i: usize = 0;
    while i < n
        invariant
            n == s@.len(),
            i <= n,
            forall|j: int| 0 <= j < i ==> s@[j] != c,
        decreases n - i,
    {
        if s.get_char(i) == c {
            return Some(i);
        }
        i = i + 1;
    }
    None
}

/// Decimal representations are non-empty runs of ASCII digits.
pub proof fn lemma_dec_chars_digits(n: nat)
    ensures
        dec_chars(n).len() >= 1,
        all_digits(dec_chars(n)),
    decreases n,
{
    reveal_strlit("0123456789");
    assert forall|k: int| 0 <= k < 10 implies is_digit(#[trigger] digit_table()[k]) by {
        assert(digit_table() =~= seq!['0', '1', '2', '3', '4', '5', '6', '7', '8', '9']);
    }
    if n >= 10 {
        lemma_dec_chars_digits(n / 10);
        assert(is_digit(digit_table()[(n % 10) as int]));
    } else {
        assert(is_digit(digit_table()[n as int]));
    }
}

} // verus!

verus! {

/// The pieces of `s` between occurrences of `sep`, in order: always one
/// more piece than `s` has separators.
pub open spec fn split_all(s: Seq<char>, sep: char) -> Seq<Seq<char>>
    decreases s.len(),
{
    if s.len() == 0 {
        seq![Seq::<char>::empty()]
    } else {
        let p = split_all(s.drop_last(), sep);
        if s.last() == sep {
            p.push(Seq::<char>::empty())
        } else {
            p.update(p.len() - 1, p.last().push(s.last()))
        }
    }
}

/// Splitting always yields at least one piece.
pub proof fn lemma_split_all_nonempty(s: Seq<char>, sep: char)
    ensures
        split_all(s, sep).len() >= 1,
    decreases s.len(),
{
    if s.len() > 0 {
        lemma_split_all_nonempty(s.drop_last(), sep);
    }
}

/// The pieces of `s` between occurrences of `sep`.
pub fn split_on(s: &str, sep: char) -> (r: Vec<String>)
    ensures
        views(r@) == split_all(s@, sep),
{
    let n = s.unicode_len();
    let mut parts: Vec<String> = Vec::new();
    let mut start: usize = 0;
    let mut i: usize = 0;
    proof {
        assert(s@.take(0) =~= Seq::<char>::empty());
        assert(views(parts@).push(s@.subrange(0, 0)) =~= split_all(s@.take(0), sep));
    }
    while i < n
        invariant
            n == s@.len(),
            start <= i <= n,
            views(parts@).push(s@.subrange(start as int, i as int)) == split_all(
                s@.take(i as int),
                sep,
            ),
        decreases n - i,
    {
        let c = s.get_char(i);
        let ghost before = views(parts@);
        let ghost old_start = start;
        proof {
            let t = s@.take(i as int + 1);
            assert(t.drop_last() =~= s@.take(i as int));
            assert(t.last() == c);
        }
        if c == sep {
            parts.push(String::from_str(s.substring_char(start, i)));
            proof {
                assert(views(parts@) =~= before.push(s@.subrange(start as int, i as int)));
            }
            start = i + 1;
            proof {
                let p = split_all(s@.take(i as int), sep);
                assert(p =~= before.push(s@.subrange(old_start as int, i as int)));
                assert(split_all(s@.take(i as int + 1), sep) == p.push(Seq::<char>::empty()));
                assert(s@.subrange(start as int, i as int + 1) =~= Seq::<char>::empty());
                assert(views(parts@).push(s@.subrange(start as int, i as int + 1))
                    =~= split_all(s@.take(i as int + 1), sep));
            }
        } else {
            proof {
                assert(s@.subrange(start as int, i as int + 1) =~= s@.subrange(
                    start as int,
                    i as int,
                ).push(c));
                let p = split_all(s@.take(i as int), sep);
                assert(p =~= before.push(s@.subrange(start as int, i as int)));
                assert(split_all(s@.take(i as int + 1), sep) == p.update(
                    p.len() - 1,
                    p.last().push(c),
                ));
                assert(views(parts@).push(s@.subrange(start as int, i as int + 1))
                    =~= split_all(s@.take(i as int + 1), sep));
            }
        }
        i = i + 1;
    }
    let ghost before = views(parts@);
    parts.push(String::from_str(s.substring_char(start, n)));
    proof {
        assert(s@.take(n as int) =~= s@);
        assert(views(parts@) =~= before.push(s@.subrange(start as int, n as int)));
    }
    parts
}

/// Whether `c` has Unicode's `White_Space` property (what
/// `char::is_whitespace` reports): the controls U+0009 to U+000D, the
/// space, U+0085, the no-break space U+00A0, U+1680, the spaces U+2000 to
/// U+200A, the line and paragraph separators U+2028 and U+2029, U+202F,
/// U+205F and the ideographic space U+3000.
pub open spec fn white_space(c: char) -> bool {
    let u = c as u32;
    ||| 0x9 <= u <= 0xD
    ||| u == 0x20
    ||| u == 0x85
    ||| u == 0xA0
    ||| u == 0x1680
    ||| 0x2000 <= u <= 0x200A
    ||| u == 0x2028
    ||| u == 0x2029
    ||| u == 0x202F
    ||| u == 0x205F
    ||| u == 0x3000
}

/// Whether `c` is white space.
pub fn is_white_space(c: char) -> (r: bool)
    ensures
        r == white_space(c),
{
    let u = c as u32;
    (0x9 <= u && u <= 0xD) || u == 0x20 || u == 0x85 || u == 0xA0 || u == 0x1680 || (0x2000 <= u && u
        <= 0x200A) || u == 0x2028 || u == 0x2029 || u == 0x202F || u == 0x205F || u == 0x3000
}

/// `s` without its leading white space.
pub open spec fn trim_front(s: Seq<char>) -> Seq<char>
    decreases s.len(),
{
    if s.len() > 0 && white_space(s[0]) {
        trim_front(s.drop_first())
    } else {
        s
    }
}

/// `s` without its trailing white space.
pub open spec fn trim_back(s: Seq<char>) -> Seq<char>
    decreases s.len(),
{
    if s.len() > 0 && white_space(s.last()) {
        trim_back(s.drop_last())
    } else {
        s
    }
}

/// `s` without leading and trailing white space (what `str::trim` gives).
pub open spec fn trim(s: Seq<char>) -> Seq<char> {
    trim_back(trim_front(s))
}

proof fn lemma_trim_front_skip(s: Seq<char>, i: int)
    requires
        0 <= i <= s.len(),
        forall|j: int| 0 <= j < i ==> white_space(#[trigger] s[j]),
    ensures
        trim_front(s) == trim_front(s.skip(i)),
    decreases i,
{
    if i > 0 {
        lemma_trim_front_skip(s.drop_first(), i - 1);
        assert(s.drop_first().skip(i - 1) =~= s.skip(i));
    } else {
        assert(s.skip(0) =~= s);
    }
}

proof fn lemma_trim_back_take(s: Seq<char>, k: int)
    requires
        0 <= k <= s.len(),
        forall|j: int| k <= j < s.len() ==> white_space(#[trigger] s[j]),
    ensures
        trim_back(s) == trim_back(s.take(k)),
    decreases s.len() - k,
{
    if k < s.len() {
        assert(white_space(s[s.len() - 1]));
        lemma_trim_back_take(s.drop_last(), k);
        assert(s.drop_last().take(k) =~= s.take(k));
    } else {
        assert(s.take(k) =~= s);
    }
}

/// Copy of `s` without leading and trailing white space.
pub fn trim_str(s: &str) -> (r: String)
    ensures
        r@ == trim(s@),
{
    let n = s.unicode_len();
    let mut i: usize = 0;
    while i < n && is_white_space(s.get_char(i))
        invariant
            n == s@.len(),
            i <= n,
            forall|j: int| 0 <= j < i ==> white_space(#[trigger] s@[j]),
        decreases n - i,
    {
        i = i + 1;
    }
    proof {
        lemma_trim_front_skip(s@, i as int);
    }
    let ghost t = s@.skip(i as int);
    let mut j: usize = n;
    while j > i && is_white_space(s.get_char(j - 1))
        invariant
            n == s@.len(),
            i <= j <= n,
            t == s@.skip(i as int),
            forall|m: int| j <= m < n ==> white_space(#[trigger] s@[m]),
        decreases j,
    {
        j = j - 1;
    }
    proof {
        assert forall|m: int| (j - i) <= m < t.len() implies white_space(#[trigger] t[m]) by {
            assert(t[m] == s@[m + i]);
        }
        lemma_trim_back_take(t, j - i);
        let u = t.take(j - i);
        assert(u =~= s@.subrange(i as int, j as int));
        if i < n {
            assert(!white_space(s@[i as int]));
            assert(trim_front(t) == t);
        } else {
            assert(t.len() == 0);
        }
        if j > i {
            assert(u.last() == s@[j - 1]);
            assert(trim_back(u) == u);
        } else {
            assert(u.len() == 0);
        }
    }
    String::from_str(s.substring_char(i, j))
}

/// `l` without one trailing carriage return.
pub open spec fn strip_cr(l: Seq<char>) -> Seq<char> {
    if l.len() > 0 && l.last() == '\r' {
        l.drop_last()
    } else {
        l
    }
}

/// The lines of `s` as `str::lines` yields them: `s` split at each `\n`,
/// a `\r` right before that `\n` dropped, and no empty line after a final
/// `\n`.
pub open spec fn text_lines(s: Seq<char>) -> Seq<Seq<char>> {
    let p = split_all(s, '\n');
    let q = if p.last().len() == 0 {
        p.drop_last()
    } else {
        p
    };
    Seq::new(q.len(), |i: int| if i < p.len() - 1 { strip_cr(q[i]) } else { q[i] })
}

/// Copy of `l` without one trailing carriage return.
fn strip_cr_str(l: &str) -> (r: String)
    ensures
        r@ == strip_cr(l@),
{
    let n = l.unicode_len();
    if n > 0 && l.get_char(n - 1) == '\r' {
        proof {
            assert(l@.subrange(0, n - 1) =~= l@.drop_last());
        }
        String::from_str(l.substring_char(0, n - 1))
    } else {
        String::from_str(l)
    }
}

/// The lines of `s`, as `str::lines` yields them.
pub fn text_lines_of(s: &str) -> (r: Vec<String>)
    ensures
        views(r@) == text_lines(s@),
{
    let p = split_on(s, '\n');
    proof {
        lemma_split_all_nonempty(s@, '\n');
    }
    let np = p.len();
    let last_empty = p[np - 1].unicode_len() == 0;
    let nq = if last_empty { np - 1 } else { np };
    let mut out: Vec<String> = Vec::new();
    let mut i: usize = 0;
    while i < nq
        invariant
            views(p@) == split_all(s@, '\n'),
            np == p@.len(),
            np >= 1,
            nq <= np,
            nq == (if p@[np - 1]@.len() == 0 { np - 1 } else { np as int }),
            i <= nq,
            views(out@) =~= text_lines(s@).take(i as int),
        decreases nq - i,
    {
        let line = if i < np - 1 {
            strip_cr_str(p[i].as_str())
        } else {
            String::from_str(p[i].as_str())
        };
        let ghost before = views(out@);
        out.push(line);
        proof {
            assert(views(out@) =~= before.push(line@));
            assert(text_lines(s@).take(i as int + 1) =~= text_lines(s@).take(i as int).push(
                text_lines(s@)[i as int],
            ));
        }
        i = i + 1;
    }
    proof {
        assert(text_lines(s@).len() == nq);
        assert(text_lines(s@).take(nq as int) =~= text_lines(s@));
    }
    out
}

} // verus!
