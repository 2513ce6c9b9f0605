//! Character-level text utilities used by the rest of the library:
//! building strings, whitespace handling, splitting and number rendering.
use vstd::prelude::*;

verus! {

/// Number of bytes that the UTF-8 encoding of `s` takes.
pub open spec fn byte_len(s: Seq<char>) -> usize {
    vstd::utf8::encode_utf8(s).len() as usize
}

/// The characters of an optional string.
pub open spec fn opt_chars(o: Option<String>) -> Option<Seq<char>> {
    match o {
        Some(s) => Some(s@),
        None => None,
    }
}

/// The concatenation of `ps`, in order.
pub open spec fn joined(ps: Seq<Seq<char>>) -> Seq<char>
    decreases ps.len(),
{
    if ps.len() == 0 {
        seq![]
    } else {
        joined(ps.drop_last()) + ps.last()
    }
}

/// Unicode `White_Space`, the property that `char::is_whitespace` tests.
pub open spec fn is_space(c: char) -> bool {
    let u = c as u32;
    ||| 0x09 <= u <= 0x0d
    ||| u == 0x20
    ||| u == 0x85
    ||| u == 0xa0
    ||| u == 0x1680
    ||| 0x2000 <= u <= 0x200a
    ||| u == 0x2028
    ||| u == 0x2029
    ||| u == 0x202f
    ||| u == 0x205f
    ||| u == 0x3000
}

/// `s` begins with `prefix`.
pub open spec fn has_prefix(s: Seq<char>, prefix: Seq<char>) -> bool {
    prefix.len() <= s.len() && s.take(prefix.len() as int) == prefix
}

/// `s` with its leading whitespace removed.
pub open spec fn trim_start(s: Seq<char>) -> Seq<char>
    decreases s.len(),
{
    if s.len() > 0 && is_space(s[0]) {
        trim_start(s.drop_first())
    } else {
        s
    }
}

/// `s` with its trailing whitespace removed.
pub open spec fn trim_end(s: Seq<char>) -> Seq<char>
    decreases s.len(),
{
    if s.len() > 0 && is_space(s.last()) {
        trim_end(s.drop_last())
    } else {
        s
    }
}

/// `s` with whitespace removed at both ends, as `str::trim` does.
pub open spec fn trim(s: Seq<char>) -> Seq<char> {
    trim_end(trim_start(s))
}

/// The maximal runs of non-whitespace characters of `s`, in order, where
/// `cur` is the part of a run already read before `s`.
pub open spec fn words_from(s: Seq<char>, cur: Seq<char>) -> Seq<Seq<char>>
    decreases s.len(),
{
    if s.len() == 0 {
        if cur.len() == 0 {
            seq![]
        } else {
            seq![cur]
        }
    } else if is_space(s[0]) {
        if cur.len() == 0 {
            words_from(s.drop_first(), cur)
        } else {
            seq![cur] + words_from(s.drop_first(), seq![])
        }
    } else {
        words_from(s.drop_first(), cur.push(s[0]))
    }
}

/// The words of `s`, as `str::split_whitespace` yields them.
pub open spec fn words(s: Seq<char>) -> Seq<Seq<char>> {
    words_from(s, seq![])
}

/// The digit character for `d` (below 16).
pub open spec fn digit_char(d: nat) -> char {
    if d < 10 {
        (('0' as u32) + d) as char
    } else {
        (('a' as u32) + d - 10) as char
    }
}

/// The digits of `n` in base `b`, most significant first, without leading
/// zeros (zero itself is `"0"`).
pub open spec fn radix_digits(n: nat, b: nat) -> Seq<char>
    decreases n,
{
    if b < 2 || n < b {
        seq![digit_char(n % 16)]
    } else {
        proof {
            assert(n / b < n) by (nonlinear_arith)
                requires
                    b >= 2,
                    n >= b,
            ;
        }
        radix_digits(n / b, b).push(digit_char(n % b))
    }
}

/// The decimal rendering of `n`.
pub open spec fn decimal(n: nat) -> Seq<char> {
    radix_digits(n, 10)
}

/// The octal rendering of `n`.
pub open spec fn octal(n: nat) -> Seq<char> {
    radix_digits(n, 8)
}

/// The number that a string of decimal-style digits stands for in base 8.
pub open spec fn octal_value(s: Seq<char>) -> int
    decreases s.len(),
{
    if s.len() == 0 {
        0
    } else {
        octal_value(s.drop_last()) * 8 + (s.last() as int - '0' as int)
    }
}

/// The octal rendering of `n` is made of the digits `0` to `7`, stands for
/// `n` in base 8, and has at most one, two or three digits below 8, 64 and
/// 512.
pub proof fn law_octal_digits(n: nat)
    ensures
        forall|i: int| 0 <= i < octal(n).len() ==> '0' <= #[trigger] octal(n)[i] <= '7',
        octal_value(octal(n)) == n,
        n < 8 ==> octal(n).len() == 1,
        n < 64 ==> octal(n).len() <= 2,
        n < 512 ==> octal(n).len() <= 3,
    decreases n,
{
    if n < 8 {
        assert(octal(n) == seq![digit_char(n % 16)]);
        assert(octal(n).drop_last() =~= Seq::<char>::empty());
        assert(digit_char(n) as int == '0' as int + n);
        assert(octal_value(octal(n)) == octal_value(Seq::<char>::empty()) * 8 + (digit_char(n) as int - '0' as int));
    } else {
        let q = n / 8;
        let r = n % 8;
        assert(q < n);
        law_octal_digits(q);
        assert(octal(n) == octal(q).push(digit_char(r)));
        assert(octal(n).drop_last() =~= octal(q));
        assert(q * 8 + r == n);
        assert(digit_char(r) as int == '0' as int + r);
        assert(octal_value(octal(n)) == octal_value(octal(q)) * 8 + (digit_char(r) as int - '0' as int));
        assert(n < 64 ==> q < 8);
        assert(n < 512 ==> q < 64);
        assert forall|i: int| 0 <= i < octal(n).len() implies '0' <= #[trigger] octal(n)[i] <= '7' by {
            if i < octal(q).len() {
                assert(octal(n)[i] == octal(q)[i]);
            }
        }
    }
}

/// Appends one character to a string.
///
/// Calls `String::push`; trusted to append exactly `c`, as its
/// documentation says.
#[verifier::external_body]
pub(crate) fn push_char(s: &mut String, c: char)
    ensures
        final(s)@ == old(s)@.push(c),
{
    s.push(c);
}

/// The characters of `s`, in order.
pub fn chars_of(s: &str) -> (v: Vec<char>)
    ensures
        v@ == s@,
{
    let mut v: Vec<char> = Vec::new();
    for c in it: s.chars()
        invariant
            v@ == it.seq().take(it.index() as int),
            it.seq() == s@,
    {
        v.push(c);
    }
    v
}

/// A string made of the characters `v[from..to]`.
pub fn string_from(v: &Vec<char>, from: usize, to: usize) -> (s: String)
    requires
        from <= to <= v.len(),
    ensures
        s@ == v@.subrange(from as int, to as int),
{
    let mut s = String::new();
    let mut i = from;
    while i < to
        invariant
            from <= i <= to <= v.len(),
            s@ == v@.subrange(from as int, i as int),
        decreases to - i,
    {
        push_char(&mut s, v[i]);
        assert(v@.subrange(from as int, i + 1) == v@.subrange(from as int, i as int).push(v@[i as int]));
        i = i + 1;
    }
    s
}

/// An owned copy of `s`.
pub fn owned(s: &str) -> (r: String)
    ensures
        r@ == s@,
{
    s.to_owned()
}

/// Whether `a` and `b` hold the same characters.
pub fn same_text(a: &str, b: &str) -> (r: bool)
    ensures
        r == (a@ == b@),
{
    let x = a.to_owned();
    let y = b.to_owned();
    x == y
}

/// The concatenation of `a` and `b`.
pub fn concat2(a: &str, b: &str) -> (r: String)
    ensures
        r@ == a@ + b@,
{
    let mut r = a.to_owned();
    r.append(b);
    r
}

/// Number of bytes in the UTF-8 encoding of `s`.
pub fn utf8_len(s: &str) -> (n: usize)
    ensures
        n == byte_len(s@),
{
    s.len()
}

/// Whether `c` is Unicode whitespace, as `char::is_whitespace` decides.
pub fn is_whitespace(c: char) -> (r: bool)
    ensures
        r == is_space(c),
{
    let u = c as u32;
    (0x09 <= u && u <= 0x0d) || u == 0x20 || u == 0x85 || u == 0xa0 || u == 0x1680 || (0x2000
        <= u && u <= 0x200a) || u == 0x2028 || u == 0x2029 || u == 0x202f || u == 0x205f || u
        == 0x3000
}

proof fn lemma_has_prefix_step(s: Seq<char>, p: Seq<char>, i: int)
    requires
        p.len() <= s.len(),
        0 <= i < p.len(),
        s.take(i) == p.take(i),
        s[i] == p[i],
    ensures
        s.take(i + 1) == p.take(i + 1),
{
    assert(s.take(i + 1) =~= p.take(i + 1));
}

/// Whether `s` begins with `prefix`, as `str::starts_with` decides.
pub fn starts_with(s: &str, prefix: &str) -> (r: bool)
    ensures
        r == has_prefix(s@, prefix@),
{
    let sv = chars_of(s);
    let pv = chars_of(prefix);
    if pv.len() > sv.len() {
        return false;
    }
    let mut i: usize = 0;
    while i < pv.len()
        invariant
            pv.len() <= sv.len(),
            i <= pv.len(),
            sv@.take(i as int) == pv@.take(i as int),
            sv@ == s@,
            pv@ == prefix@,
        decreases pv.len() - i,
    {
        if sv[i] != pv[i] {
            assert(sv@.take(pv@.len() as int)[i as int] != pv@[i as int]);
            return false;
        }
        proof {
            lemma_has_prefix_step(sv@, pv@, i as int);
        }
        i = i + 1;
    }
    assert(pv@.take(pv@.len() as int) =~= pv@);
    true
}

proof fn lemma_trim_start_skip(s: Seq<char>, i: int)
    requires
        0 <= i <= s.len(),
        forall|j: int| 0 <= j < i ==> is_space(#[trigger] s[j]),
    ensures
        trim_start(s) == trim_start(s.skip(i)),
    decreases i,
{
    if i > 0 {
        assert(is_space(s[0]));
        lemma_trim_start_skip(s.drop_first(), i - 1);
        assert(s.drop_first().skip(i - 1) =~= s.skip(i));
    } else {
        assert(s.skip(0) =~= s);
    }
}

proof fn lemma_trim_end_take(s: Seq<char>, k: int)
    requires
        0 <= k <= s.len(),
        forall|j: int| k <= j < s.len() ==> is_space(#[trigger] s[j]),
    ensures
        trim_end(s) == trim_end(s.take(k)),
    decreases s.len() - k,
{
    if k < s.len() {
        assert(is_space(s.last()));
        assert(s.drop_last().take(k) =~= s.take(k));
        lemma_trim_end_take(s.drop_last(), k);
    } else {
        assert(s.take(k) =~= s);
    }
}

/// `s` with leading and trailing whitespace removed, as `str::trim` returns it.
pub fn trimmed(s: &str) -> (r: String)
    ensures
        r@ == trim(s@),
{
    let v = chars_of(s);
    let n = v.len();
    let mut start: usize = 0;
    while start < n && is_whitespace(v[start])
        invariant
            start <= n == v@.len(),
            forall|j: int| 0 <= j < start ==> is_space(#[trigger] v@[j]),
        decreases n - start,
    {
        start = start + 1;
    }
    proof {
        lemma_trim_start_skip(v@, start as int);
    }
    let ghost rest = v@.skip(start as int);
    assert(start == n || !is_space(rest[0]));
    assert(trim_start(rest) == rest);
    let mut end: usize = n;
    while end > start && is_whitespace(v[end - 1])
        invariant
            start <= end <= n == v@.len(),
            rest == v@.skip(start as int),
            forall|j: int| end - start <= j < rest.len() ==> is_space(#[trigger] rest[j]),
        decreases end,
    {
        end = end - 1;
    }
    proof {
        lemma_trim_end_take(rest, (end - start) as int);
        let t = rest.take((end - start) as int);
        assert(t.len() == 0 || !is_space(t.last()));
        assert(trim_end(t) == t);
        assert(t =~= v@.subrange(start as int, end as int));
    }
    string_from(&v, start, end)
}

proof fn lemma_words_step(s: Seq<char>, i: int, cur: Seq<char>)
    requires
        0 <= i < s.len(),
    ensures
        words_from(s.skip(i), cur) == (if is_space(s[i]) {
            if cur.len() == 0 {
                words_from(s.skip(i + 1), cur)
            } else {
                seq![cur] + words_from(s.skip(i + 1), seq![])
            }
        } else {
            words_from(s.skip(i + 1), cur.push(s[i]))
        }),
{
    assert(s.skip(i).drop_first() =~= s.skip(i + 1));
    assert(s.skip(i)[0] == s[i]);
}

/// The whitespace-separated words of `s`, as `str::split_whitespace` yields them.
pub fn split_words(s: &str) -> (r: Vec<String>)
    ensures
        r@.map_values(|w: String| w@) == words(s@),
{
    let v = chars_of(s);
    let n = v.len();
    let mut out: Vec<String> = Vec::new();
    let mut cur = String::new();
    let mut i: usize = 0;
    assert(v@.skip(0) =~= v@);
    assert(out@.map_values(|w: String| w@) =~= Seq::<Seq<char>>::empty());
    while i < n
        invariant
            i <= n == v@.len(),
            v@ == s@,
            words(s@) == out@.map_values(|w: String| w@) + words_from(v@.skip(i as int), cur@),
        decreases n - i,
    {
        proof {
            lemma_words_step(v@, i as int, cur@);
        }
        let c = v[i];
        if is_whitespace(c) {
            if !cur.as_str().is_empty() {
                let ghost before = out@.map_values(|w: String| w@);
                let w = cur;
                out.push(w);
                cur = String::new();
                assert(out@.map_values(|w: String| w@) =~= before.push(w@));
                assert(before.push(w@) + words_from(v@.skip(i + 1), seq![]) =~= before + (seq![
                    w@,
                ] + words_from(v@.skip(i + 1), seq![])));
            }
        } else {
            push_char(&mut cur, c);
        }
        i = i + 1;
    }
    assert(v@.skip(n as int) =~= Seq::<char>::empty());
    if !cur.as_str().is_empty() {
        let ghost before = out@.map_values(|w: String| w@);
        out.push(cur);
        assert(out@.map_values(|w: String| w@) =~= before + words_from(
            v@.skip(n as int),
            out@[out@.len() - 1]@,
        ));
    } else {
        assert(out@.map_values(|w: String| w@) =~= out@.map_values(|w: String| w@) + words_from(
            v@.skip(n as int),
            cur@,
        ));
    }
    out
}

/// The digit character for `d`, which is below 16.
pub fn digit(d: u64) -> (c: char)
    requires
        d < 16,
    ensures
        c == digit_char(d as nat),
{
    match d {
        0 => '0',
        1 => '1',
        2 => '2',
        3 => '3',
        4 => '4',
        5 => '5',
        6 => '6',
        7 => '7',
        8 => '8',
        9 => '9',
        10 => 'a',
        11 => 'b',
        12 => 'c',
        13 => 'd',
        14 => 'e',
        _ => 'f',
    }
}

/// Appends the digits of `n` in base `b` to `out`.
pub fn push_radix(out: &mut String, n: u64, b: u64)
    requires
        2 <= b <= 16,
    ensures
        final(out)@ == old(out)@ + radix_digits(n as nat, b as nat),
    decreases n,
{
    if n >= b {
        assert(n / b < n) by (nonlinear_arith)
            requires
                b >= 2,
                n >= b,
        ;
        push_radix(out, n / b, b);
        push_char(out, digit(n % b));
        assert(radix_digits(n as nat, b as nat) == radix_digits((n / b) as nat, b as nat).push(
            digit_char((n % b) as nat),
        ));
    } else {
        assert(n % 16 == n) by (nonlinear_arith)
            requires
                n < b <= 16,
        ;
        push_char(out, digit(n));
    }
}

/// The decimal rendering of `n`, as `u64::to_string` gives it.
pub fn decimal_string(n: u64) -> (s: String)
    ensures
        s@ == decimal(n as nat),
{
    let mut s = String::new();
    push_radix(&mut s, n, 10);
    s
}

/// The octal rendering of `n`, as the `{:o}` format gives it.
pub fn octal_string(n: u64) -> (s: String)
    ensures
        s@ == octal(n as nat),
{
    let mut s = String::new();
    push_radix(&mut s, n, 8);
    s
}

} // verus!
