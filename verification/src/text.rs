//! Character-level helpers shared by the parsers of the library.

use vstd::prelude::*;

verus! {

/// `c` is an ASCII letter (`char::is_ascii_alphabetic`).
pub open spec fn is_alpha(c: char) -> bool {
    ('a' <= c && c <= 'z') || ('A' <= c && c <= 'Z')
}

/// `c` is an ASCII decimal digit (`char::is_ascii_digit`).
pub open spec fn is_digit(c: char) -> bool {
    '0' <= c && c <= '9'
}

/// The numeric value of an ASCII digit.
pub open spec fn digit_value(c: char) -> nat {
    (c as int - '0' as int) as nat
}

/// The natural number written by a sequence of decimal digits (0 for the empty sequence).
pub open spec fn digits_value(d: Seq<char>) -> nat
    decreases d.len(),
{
    if d.len() == 0 {
        0
    } else {
        digits_value(d.drop_last()) * 10 + digit_value(d.last())
    }
}

/// Every character of `d` is an ASCII digit.
pub open spec fn all_digits(d: Seq<char>) -> bool {
    forall|i: int| 0 <= i < d.len() ==> is_digit(#[trigger] d[i])
}

/// The ASCII digit of a number below ten.
pub open spec fn digit_char(n: nat) -> char
    recommends
        n < 10,
{
    ((n + '0' as nat) as u32) as char
}

/// The shortest decimal writing of `n`, as `u32`'s `Display` prints it.
pub open spec fn decimal(n: nat) -> Seq<char>
    decreases n,
{
    if n < 10 {
        seq![digit_char(n)]
    } else {
        decimal(n / 10).push(digit_char(n % 10))
    }
}

/// The characters of a string, in order.
pub fn chars_of(s: &str) -> (v: Vec<char>)
    ensures
        v@ == s@,
{
    let n = s.unicode_len();
    let mut v: Vec<char> = Vec::new();
    let mut i: usize = 0;
    while i < n
        invariant
            n == s@.len(),
            i <= n,
            v@ == s@.subrange(0, i as int),
        decreases n - i,
    {
        v.push(s.get_char(i));
        i = i + 1;
    }
    assert(v@ =~= s@);
    v
}

/// Appends one character to a string (`String::push`).
#[verifier::external_body]
pub(crate) fn push_char(s: &mut String, c: char)
    ensures
        final(s)@ == old(s)@.push(c),
{
    s.push(c);
}

/// Appends a string slice to a string.
pub(crate) fn push_str(s: &mut String, t: &str)
    ensures
        final(s)@ == old(s)@ + t@,
{
    s.append(t);
}

/// A new string holding the characters of `v`.
pub fn string_of(v: &Vec<char>) -> (s: String)
    ensures
        s@ == v@,
{
    let mut s = String::new();
    let mut i: usize = 0;
    while i < v.len()
        invariant
            i <= v.len(),
            s@ == v@.subrange(0, i as int),
        decreases v.len() - i,
    {
        push_char(&mut s, v[i]);
        i = i + 1;
    }
    assert(s@ =~= v@);
    s
}

/// An owned copy of a string slice.
pub fn owned(t: &str) -> (s: String)
    ensures
        s@ == t@,
{
    t.to_owned()
}

/// Two strings are equal, character for character.
pub fn str_eq(a: &str, b: &str) -> (r: bool)
    ensures
        r == (a@ == b@),
{
    let va = chars_of(a);
    let vb = chars_of(b);
    if va.len() != vb.len() {
        return false;
    }
    let mut i: usize = 0;
    while i < va.len()
        invariant
            va@ == a@,
            vb@ == b@,
            va.len() == vb.len(),
            i <= va.len(),
            forall|j: int| 0 <= j < i ==> va@[j] == vb@[j],
        decreases va.len() - i,
    {
        if va[i] != vb[i] {
            return false;
        }
        i = i + 1;
    }
    assert(va@ =~= vb@);
    true
}

/// The decimal writing of a number, as `u32`'s `Display` prints it.
pub fn u64_decimal(n: u64) -> (s: String)
    ensures
        s@ == decimal(n as nat),
    decreases n,
{
    if n < 10 {
        let mut s = String::new();
        let c = digit_of(n as u8);
        push_char(&mut s, c);
        assert(s@ =~= decimal(n as nat));
        s
    } else {
        let mut s = u64_decimal(n / 10);
        push_char(&mut s, digit_of((n % 10) as u8));
        s
    }
}

fn digit_of(d: u8) -> (c: char)
    requires
        d < 10,
    ensures
        c == digit_char(d as nat),
{
    if d == 0 { '0' }
    else if d == 1 { '1' }
    else if d == 2 { '2' }
    else if d == 3 { '3' }
    else if d == 4 { '4' }
    else if d == 5 { '5' }
    else if d == 6 { '6' }
    else if d == 7 { '7' }
    else if d == 8 { '8' }
    else { '9' }
}

} // verus!

verus! {

/// `c` has the Unicode `White_Space` property (what `char::is_whitespace` tests).
pub open spec fn is_white_space(c: char) -> bool {
    let n = c as u32;
    (0x09 <= n && n <= 0x0d) || n == 0x20 || n == 0x85 || n == 0xa0 || n == 0x1680
        || (0x2000 <= n && n <= 0x200a) || n == 0x2028 || n == 0x2029 || n == 0x202f
        || n == 0x205f || n == 0x3000
}

/// Whether `c` has the Unicode `White_Space` property.
pub(crate) fn char_is_whitespace(c: char) -> (r: bool)
    ensures
        r == is_white_space(c),
{
    let n = c as u32;
    (0x09 <= n && n <= 0x0d) || n == 0x20 || n == 0x85 || n == 0xa0 || n == 0x1680
        || (0x2000 <= n && n <= 0x200a) || n == 0x2028 || n == 0x2029 || n == 0x202f
        || n == 0x205f || n == 0x3000
}

/// The Unicode lowercase of a string, as `str::to_lowercase` computes it.
pub uninterp spec fn unicode_lowercase(s: Seq<char>) -> Seq<char>;

/// Every character of `s` is ASCII.
pub open spec fn is_ascii_text(s: Seq<char>) -> bool {
    forall|i: int| 0 <= i < s.len() ==> (#[trigger] s[i] as u32) < 128
}

/// `str::to_lowercase`: the string's lowercase mapping under the Unicode
/// `Lowercase` property. Its result is named; of it, only that an ASCII text is
/// lowered letter by letter (`A`-`Z` to `a`-`z`, other characters unchanged) is
/// stated.
#[verifier::external_body]
pub(crate) fn to_lowercase(s: &str) -> (r: String)
    ensures
        r@ == unicode_lowercase(s@),
        is_ascii_text(s@) ==> r@ == ascii_lower(s@),
{
    s.to_lowercase()
}

/// The ASCII lowercase of a character; other characters are unchanged.
pub open spec fn lower_char(c: char) -> char {
    if 'A' <= c && c <= 'Z' {
        ((c as u32) + 32) as char
    } else {
        c
    }
}

/// The ASCII lowercase of a sequence of characters.
pub open spec fn ascii_lower(s: Seq<char>) -> Seq<char> {
    s.map_values(|c: char| lower_char(c))
}

/// The ASCII lowercase of a sequence of characters.
pub fn lower_chars(v: &Vec<char>) -> (r: Vec<char>)
    ensures
        r@ == ascii_lower(v@),
{
    let mut r: Vec<char> = Vec::new();
    let mut i: usize = 0;
    while i < v.len()
        invariant
            i <= v.len(),
            r@ == v@.subrange(0, i as int).map_values(|c: char| lower_char(c)),
        decreases v.len() - i,
    {
        let c = v[i];
        let l = if 'A' <= c && c <= 'Z' {
            let u = (c as u32) + 32;
            assert(u == (c as u32) + 32);
            char_from_u32_ascii(u)
        } else {
            c
        };
        r.push(l);
        i = i + 1;
        assert(r@ =~= v@.subrange(0, i as int).map_values(|c: char| lower_char(c)));
    }
    assert(v@.subrange(0, i as int) =~= v@);
    r
}

fn char_from_u32_ascii(u: u32) -> (c: char)
    requires
        0x61 <= u <= 0x7a,
    ensures
        c == u as char,
{
    (u as u8) as char
}

/// `chars` spells `lit`, compared character by character.
pub fn chars_eq(v: &Vec<char>, lit: &str) -> (r: bool)
    ensures
        r == (v@ == lit@),
{
    let l = chars_of(lit);
    if v.len() != l.len() {
        return false;
    }
    let mut i: usize = 0;
    while i < v.len()
        invariant
            l@ == lit@,
            v.len() == l.len(),
            i <= v.len(),
            forall|j: int| 0 <= j < i ==> v@[j] == l@[j],
        decreases v.len() - i,
    {
        if v[i] != l[i] {
            return false;
        }
        i = i + 1;
    }
    assert(v@ =~= l@);
    true
}

/// The number of `x` in `s`.
pub open spec fn count_char(s: Seq<char>, x: char) -> nat
    decreases s.len(),
{
    if s.len() == 0 {
        0
    } else {
        count_char(s.drop_last(), x) + if s.last() == x { 1nat } else { 0nat }
    }
}

/// The digits after an optional leading `+`, as `u32::from_str` reads them.
pub open spec fn u32_literal(s: Seq<char>) -> Option<u32> {
    let d = if s.len() > 0 && s[0] == '+' { s.drop_first() } else { s };
    if d.len() > 0 && all_digits(d) && digits_value(d) <= u32::MAX {
        Some(digits_value(d) as u32)
    } else {
        None
    }
}

/// A decimal integer with an optional sign, in the range of `i32`, as `i32::from_str`
/// reads it.
pub open spec fn i32_literal(s: Seq<char>) -> Option<i32> {
    let neg = s.len() > 0 && s[0] == '-';
    let d = if s.len() > 0 && (s[0] == '+' || s[0] == '-') { s.drop_first() } else { s };
    if d.len() > 0 && all_digits(d) {
        if neg && digits_value(d) <= 0x8000_0000 {
            Some((0 - digits_value(d)) as i32)
        } else if !neg && digits_value(d) <= 0x7fff_ffff {
            Some(digits_value(d) as i32)
        } else {
            None
        }
    } else {
        None
    }
}

/// The first position of `e` or `E` in `s`, or its length.
pub open spec fn exp_index(s: Seq<char>) -> int
    decreases s.len(),
{
    if s.len() == 0 {
        0
    } else if s[0] == 'e' || s[0] == 'E' {
        0
    } else {
        1 + exp_index(s.drop_first())
    }
}

/// Digits with at most one `.` and at least one digit.
pub open spec fn is_mantissa(m: Seq<char>) -> bool {
    &&& forall|i: int| 0 <= i < m.len() ==> is_digit(#[trigger] m[i]) || m[i] == '.'
    &&& count_char(m, '.') <= 1
    &&& exists|i: int| 0 <= i < m.len() && is_digit(#[trigger] m[i])
}

/// `e` or `E`, an optional sign, then one or more digits.
pub open spec fn is_exponent(x: Seq<char>) -> bool {
    let r = x.drop_first();
    let d = if r.len() > 0 && (r[0] == '+' || r[0] == '-') { r.drop_first() } else { r };
    x.len() > 0 && (x[0] == 'e' || x[0] == 'E') && d.len() > 0 && all_digits(d)
}

/// The grammar under which `f32::from_str` succeeds: an optional sign, then `inf`,
/// `infinity` or `nan` in any ASCII case, or digits with an optional `.` and exponent.
pub open spec fn is_float_literal(s: Seq<char>) -> bool {
    let b = if s.len() > 0 && (s[0] == '+' || s[0] == '-') { s.drop_first() } else { s };
    let l = ascii_lower(b);
    ||| l == seq!['i', 'n', 'f']
    ||| l == seq!['i', 'n', 'f', 'i', 'n', 'i', 't', 'y']
    ||| l == seq!['n', 'a', 'n']
    ||| {
        let e = exp_index(b);
        is_mantissa(b.take(e)) && (e == b.len() || is_exponent(b.skip(e)))
    }
}

/// Reads `s` as `u32::from_str` does.
pub fn parse_u32(s: &Vec<char>) -> (r: Option<u32>)
    ensures
        r == u32_literal(s@),
{
    let mut d: Vec<char> = Vec::new();
    let start: usize = if s.len() > 0 && s[0] == '+' { 1 } else { 0 };
    let mut i = start;
    while i < s.len()
        invariant
            start <= i <= s.len(),
            d@ == s@.subrange(start as int, i as int),
        decreases s.len() - i,
    {
        d.push(s[i]);
        i = i + 1;
        assert(d@ =~= s@.subrange(start as int, i as int));
    }
    let ghost dd = if s@.len() > 0 && s@[0] == '+' { s@.drop_first() } else { s@ };
    assert(d@ =~= dd);
    if d.len() == 0 {
        return None;
    }
    let mut k: usize = 0;
    while k < d.len()
        invariant
            k <= d.len(),
            d@ == dd,
            dd == (if s@.len() > 0 && s@[0] == '+' { s@.drop_first() } else { s@ }),
            forall|j: int| 0 <= j < k ==> is_digit(#[trigger] d@[j]),
        decreases d.len() - k,
    {
        if !('0' <= d[k] && d[k] <= '9') {
            assert(!is_digit(d@[k as int]));
            return None;
        }
        k = k + 1;
    }
    crate::refs::parse_digits_u32(&d)
}

/// Reads `s` as `i32::from_str` does.
pub fn parse_i32(s: &Vec<char>) -> (r: Option<i32>)
    ensures
        r == i32_literal(s@),
{
    let neg = s.len() > 0 && s[0] == '-';
    let start: usize = if s.len() > 0 && (s[0] == '+' || s[0] == '-') { 1 } else { 0 };
    let mut d: Vec<char> = Vec::new();
    let mut i = start;
    while i < s.len()
        invariant
            start <= i <= s.len(),
            d@ == s@.subrange(start as int, i as int),
        decreases s.len() - i,
    {
        d.push(s[i]);
        i = i + 1;
        assert(d@ =~= s@.subrange(start as int, i as int));
    }
    let ghost dd = if s@.len() > 0 && (s@[0] == '+' || s@[0] == '-') { s@.drop_first() } else { s@ };
    assert(d@ =~= dd);
    if d.len() == 0 {
        return None;
    }
    let mut k: usize = 0;
    while k < d.len()
        invariant
            k <= d.len(),
            d@ == dd,
            dd == (if s@.len() > 0 && (s@[0] == '+' || s@[0] == '-') { s@.drop_first() } else { s@ }),
            forall|j: int| 0 <= j < k ==> is_digit(#[trigger] d@[j]),
        decreases d.len() - k,
    {
        if !('0' <= d[k] && d[k] <= '9') {
            assert(!is_digit(d@[k as int]));
            return None;
        }
        k = k + 1;
    }
    match crate::refs::parse_digits_u32(&d) {
        None => None,
        Some(v) => {
            if neg {
                if v <= 0x8000_0000 {
                    if v == 0x8000_0000 {
                        Some(i32::MIN)
                    } else {
                        Some(0 - (v as i32))
                    }
                } else {
                    None
                }
            } else if v <= 0x7fff_ffff {
                Some(v as i32)
            } else {
                None
            }
        },
    }
}

/// Whether `s` is written as `f32::from_str` accepts.
#[verifier::spinoff_prover]
#[verifier::rlimit(40)]
pub fn is_float_text(s: &Vec<char>) -> (r: bool)
    ensures
        r == is_float_literal(s@),
{
    let start: usize = if s.len() > 0 && (s[0] == '+' || s[0] == '-') { 1 } else { 0 };
    let mut b: Vec<char> = Vec::new();
    let mut i = start;
    while i < s.len()
        invariant
            start <= i <= s.len(),
            b@ == s@.subrange(start as int, i as int),
        decreases s.len() - i,
    {
        b.push(s[i]);
        i = i + 1;
        assert(b@ =~= s@.subrange(start as int, i as int));
    }
    let ghost bb = if s@.len() > 0 && (s@[0] == '+' || s@[0] == '-') { s@.drop_first() } else { s@ };
    assert(b@ =~= bb);
    let l = lower_chars(&b);
    proof {
        reveal_strlit("inf");
        reveal_strlit("infinity");
        reveal_strlit("nan");
        assert("inf"@ =~= seq!['i', 'n', 'f']);
        assert("infinity"@ =~= seq!['i', 'n', 'f', 'i', 'n', 'i', 't', 'y']);
        assert("nan"@ =~= seq!['n', 'a', 'n']);
    }
    if chars_eq(&l, "inf") || chars_eq(&l, "infinity") || chars_eq(&l, "nan") {
        return true;
    }
    proof {
        assert(l@ != seq!['i', 'n', 'f']);
        assert(l@ != seq!['i', 'n', 'f', 'i', 'n', 'i', 't', 'y']);
        assert(l@ != seq!['n', 'a', 'n']);
    }
    // Mantissa: up to the first `e`/`E`.
    let mut e: usize = 0;
    let mut dots: usize = 0;
    let mut digits: usize = 0;
    let mut ok = true;
    assert(b@.skip(0) =~= b@);
    assert(b@.take(0) =~= Seq::<char>::empty());
    while e < b.len() && b[e] != 'e' && b[e] != 'E'
        invariant
            e <= b.len(),
            exp_index(b@) == e + exp_index(b@.skip(e as int)),
            dots as nat == count_char(b@.take(e as int), '.'),
            ok == (forall|j: int| 0 <= j < e ==> is_digit(#[trigger] b@[j]) || b@[j] == '.'),
            digits > 0 <==> exists|j: int| 0 <= j < e && is_digit(#[trigger] b@[j]),
            dots <= e,
        decreases b.len() - e,
    {
        let c = b[e];
        assert(b@.skip(e as int).drop_first() =~= b@.skip(e + 1));
        assert(b@.take(e + 1).drop_last() =~= b@.take(e as int));
        if c == '.' {
            dots = dots + 1;
        } else if '0' <= c && c <= '9' {
            if digits == 0 {
                digits = 1;
            }
        } else {
            ok = false;
        }
        e = e + 1;
    }
    proof {
        if e < b.len() {
            assert(b@.skip(e as int)[0] == b@[e as int]);
        } else {
            assert(b@.skip(e as int).len() == 0);
        }
        assert(exp_index(b@) == e);
        let m = b@.take(e as int);
        assert forall|j: int| 0 <= j < m.len() implies (is_digit(#[trigger] m[j]) || m[j] == '.') <==> (is_digit(b@[j]) || b@[j] == '.') by {}
        if digits > 0 {
            let j = choose|j: int| 0 <= j < e && is_digit(#[trigger] b@[j]);
            assert(is_digit(m[j]));
        }
        if exists|j: int| 0 <= j < m.len() && is_digit(#[trigger] m[j]) {
            let j = choose|j: int| 0 <= j < m.len() && is_digit(#[trigger] m[j]);
            assert(is_digit(b@[j]));
        }
        if !ok {
            let j = choose|j: int| 0 <= j < e && !(is_digit(#[trigger] b@[j]) || b@[j] == '.');
            assert(!(is_digit(m[j]) || m[j] == '.'));
        }
    }
    if !ok || dots > 1 || digits == 0 {
        return false;
    }
    if e == b.len() {
        return true;
    }
    // Exponent: `e`, optional sign, one or more digits.
    let mut k = e + 1;
    if k < b.len() && (b[k] == '+' || b[k] == '-') {
        k = k + 1;
    }
    let ghost x = b@.skip(e as int);
    let ghost r = x.drop_first();
    let ghost d = if r.len() > 0 && (r[0] == '+' || r[0] == '-') { r.drop_first() } else { r };
    proof {
        assert(x[0] == b@[e as int]);
        assert(r =~= b@.skip(e + 1));
        if e + 1 < b.len() {
            assert(r[0] == b@[e + 1]);
        }
        assert(d =~= b@.skip(k as int));
    }
    if k >= b.len() {
        return false;
    }
    assert(is_float_literal(s@) == all_digits(d));
    let mut j = k;
    while j < b.len()
        invariant
            k <= j <= b.len(),
            d == b@.skip(k as int),
            is_float_literal(s@) == all_digits(d),
            forall|t: int| k <= t < j ==> is_digit(#[trigger] b@[t]),
        decreases b.len() - j,
    {
        if !('0' <= b[j] && b[j] <= '9') {
            proof {
                assert(d[j - k] == b@[j as int]);
                assert(!is_digit(d[j - k]));
            }
            return false;
        }
        j = j + 1;
    }
    proof {
        assert forall|t: int| 0 <= t < d.len() implies is_digit(#[trigger] d[t]) by {
            assert(d[t] == b@[k + t]);
        }
    }
    true
}


/// The position of the first element of `s` satisfying `p`, if there is one.
pub open spec fn first_index<A>(s: Seq<A>, p: spec_fn(A) -> bool) -> Option<int> {
    if exists|i: int| 0 <= i < s.len() && #[trigger] p(s[i]) {
        Some(choose|i: int| 0 <= i < s.len() && #[trigger] p(s[i]) && forall|j: int| 0 <= j < i ==> !#[trigger] p(s[j]))
    } else {
        None
    }
}

/// A position whose element satisfies `p`, with none before it, is the first one.
pub proof fn lemma_first_index<A>(s: Seq<A>, p: spec_fn(A) -> bool, i: int)
    requires
        0 <= i < s.len(),
        p(s[i]),
        forall|j: int| 0 <= j < i ==> !#[trigger] p(s[j]),
    ensures
        first_index(s, p) == Some(i),
{
    let c = choose|c: int| 0 <= c < s.len() && #[trigger] p(s[c]) && forall|j: int| 0 <= j < c ==> !#[trigger] p(s[j]);
    assert(0 <= c < s.len() && p(s[c]) && forall|j: int| 0 <= j < c ==> !p(s[j]));
    if c < i {
        assert(!p(s[c]));
    } else if c > i {
        assert(!p(s[i]));
    }
}

/// No element satisfies `p`: there is no first one.
pub proof fn lemma_first_index_none<A>(s: Seq<A>, p: spec_fn(A) -> bool)
    requires
        forall|j: int| 0 <= j < s.len() ==> !#[trigger] p(s[j]),
    ensures
        first_index(s, p) is None,
{
}


/// `b` appended to the path `a` as `Path::join` does on Unix: an absolute `b`
/// replaces `a`; otherwise a separator goes between them unless `a` is empty or
/// already ends with one.
pub open spec fn join_path(a: Seq<char>, b: Seq<char>) -> Seq<char> {
    if b.len() > 0 && b[0] == '/' {
        b
    } else if a.len() == 0 || a.last() == '/' {
        a + b
    } else {
        a + seq!['/'] + b
    }
}

/// The path `b` joined onto the path `a`.
pub fn path_join(a: &str, b: &str) -> (r: String)
    ensures
        r@ == join_path(a@, b@),
{
    let av = chars_of(a);
    let bv = chars_of(b);
    if bv.len() > 0 && bv[0] == '/' {
        return owned(b);
    }
    let mut r = owned(a);
    if av.len() > 0 && av[av.len() - 1] != '/' {
        push_char(&mut r, '/');
    }
    push_str(&mut r, b);
    r
}


/// Two sequences whose elements satisfy `p` at the same positions have the same
/// first such position.
pub proof fn lemma_first_index_same<A, B>(s: Seq<A>, t: Seq<B>, p: spec_fn(A) -> bool, q: spec_fn(B) -> bool)
    requires
        s.len() == t.len(),
        forall|j: int| 0 <= j < s.len() ==> p(s[j]) == q(t[j]),
    ensures
        first_index(s, p) == first_index(t, q),
{
    if exists|i: int| 0 <= i < s.len() && #[trigger] p(s[i]) {
        let c = choose|c: int| 0 <= c < s.len() && #[trigger] p(s[c]) && forall|j: int| 0 <= j < c ==> !#[trigger] p(s[j]);
        assert(0 <= c < s.len() && p(s[c]) && forall|j: int| 0 <= j < c ==> !p(s[j])) by {
            let w = choose|i: int| 0 <= i < s.len() && #[trigger] p(s[i]);
            lemma_exists_first(s, p, w);
        }
        assert forall|j: int| 0 <= j < c implies !#[trigger] q(t[j]) by {
            assert(!p(s[j]));
        }
        lemma_first_index(s, p, c);
        lemma_first_index(t, q, c);
    } else {
        assert forall|j: int| 0 <= j < t.len() implies !#[trigger] q(t[j]) by {
            assert(!p(s[j]));
        }
        lemma_first_index_none(t, q);
    }
}

/// When some element satisfies `p`, a first one does.
pub proof fn lemma_exists_first<A>(s: Seq<A>, p: spec_fn(A) -> bool, w: int)
    requires
        0 <= w < s.len(),
        p(s[w]),
    ensures
        exists|c: int| 0 <= c < s.len() && #[trigger] p(s[c]) && forall|j: int| 0 <= j < c ==> !#[trigger] p(s[j]),
    decreases w,
{
    if exists|j: int| 0 <= j < w && #[trigger] p(s[j]) {
        let j = choose|j: int| 0 <= j < w && #[trigger] p(s[j]);
        lemma_exists_first(s, p, j);
    } else {
        assert(forall|j: int| 0 <= j < w ==> !#[trigger] p(s[j]));
    }
}

/// `t` occurs in `s` at position `i`.
pub open spec fn occurs_at(s: Seq<char>, t: Seq<char>, i: int) -> bool {
    0 <= i && i + t.len() <= s.len() && s.subrange(i, i + t.len()) == t
}

/// `t` occurs somewhere in `s` (`str::contains`).
pub open spec fn has_substring(s: Seq<char>, t: Seq<char>) -> bool {
    exists|i: int| #[trigger] occurs_at(s, t, i)
}

/// Whether `t` occurs in `s`.
pub fn str_contains(s: &str, t: &str) -> (r: bool)
    ensures
        r == has_substring(s@, t@),
{
    let sv = chars_of(s);
    let tv = chars_of(t);
    if tv.len() > sv.len() {
        assert forall|i: int| !#[trigger] occurs_at(s@, t@, i) by {}
        return false;
    }
    let last = sv.len() - tv.len();
    let mut i: usize = 0;
    while i <= last
        invariant
            last == sv.len() - tv.len(),
            sv@ == s@,
            tv@ == t@,
            tv.len() <= sv.len(),
            i <= last + 1,
            forall|j: int| 0 <= j < i ==> !#[trigger] occurs_at(s@, t@, j),
        decreases last + 1 - i,
    {
        let mut k: usize = 0;
        let mut same = true;
        while k < tv.len()
            invariant
                sv@ == s@,
                tv@ == t@,
                i + tv.len() <= sv.len(),
                k <= tv.len(),
                same == (forall|m: int| 0 <= m < k ==> sv@[i + m] == tv@[m]),
            decreases tv.len() - k,
        {
            if sv[i + k] != tv[k] {
                same = false;
            }
            k = k + 1;
        }
        if same {
            assert(s@.subrange(i as int, i + t@.len()) =~= t@);
            assert(occurs_at(s@, t@, i as int));
            return true;
        }
        assert(!occurs_at(s@, t@, i as int)) by {
            if s@.subrange(i as int, i + t@.len()) == t@ {
                assert forall|m: int| 0 <= m < tv.len() implies sv@[i + m] == tv@[m] by {
                    assert(s@.subrange(i as int, i + t@.len())[m] == s@[i + m]);
                }
            }
        }
        i = i + 1;
    }
    assert forall|j: int| !#[trigger] occurs_at(s@, t@, j) by {
        if 0 <= j < i {
        } else if j >= i {
            assert(j + t@.len() > s@.len());
        }
    }
    false
}


/// What a first position is: in range, satisfying `p`, with none before it.
pub proof fn lemma_first_index_props<A>(s: Seq<A>, p: spec_fn(A) -> bool)
    ensures
        first_index(s, p) matches Some(i) ==> 0 <= i < s.len() && p(s[i]) && forall|j: int| 0 <= j < i ==> !#[trigger] p(s[j]),
        first_index(s, p) is None ==> forall|j: int| 0 <= j < s.len() ==> !#[trigger] p(s[j]),
{
    if exists|i: int| 0 <= i < s.len() && #[trigger] p(s[i]) {
        let w = choose|i: int| 0 <= i < s.len() && #[trigger] p(s[i]);
        lemma_exists_first(s, p, w);
    }
}

// ---------------------------------------------------------------------------
// Tables keyed by text
// ---------------------------------------------------------------------------

/// The keys of a list of entries are pairwise distinct.
pub open spec fn keys_distinct<V>(s: Seq<(Seq<char>, V)>) -> bool {
    forall|i: int, j: int| 0 <= i < s.len() && 0 <= j < s.len() && i != j ==> s[i].0 != s[j].0
}

/// The map a list of entries with distinct keys stands for.
pub open spec fn table<V>(s: Seq<(Seq<char>, V)>) -> Map<Seq<char>, V> {
    Map::new(
        |k: Seq<char>| exists|i: int| 0 <= i < s.len() && s[i].0 == k,
        |k: Seq<char>| s[choose|i: int| 0 <= i < s.len() && s[i].0 == k].1,
    )
}

pub proof fn lemma_table_index<V>(s: Seq<(Seq<char>, V)>, i: int)
    requires
        keys_distinct(s),
        0 <= i < s.len(),
    ensures
        table(s).contains_key(s[i].0),
        table(s)[s[i].0] == s[i].1,
{
    let k = s[i].0;
    assert(exists|j: int| 0 <= j < s.len() && s[j].0 == k);
    let j = choose|j: int| 0 <= j < s.len() && s[j].0 == k;
    assert(j == i);
}

/// Adding an entry under a new key inserts it into the table.
pub proof fn lemma_table_push<V>(s: Seq<(Seq<char>, V)>, k: Seq<char>, v: V)
    requires
        keys_distinct(s),
        !table(s).contains_key(k),
    ensures
        keys_distinct(s.push((k, v))),
        table(s.push((k, v))) == table(s).insert(k, v),
{
    let t = s.push((k, v));
    assert forall|i: int, j: int| 0 <= i < t.len() && 0 <= j < t.len() && i != j implies t[i].0 != t[j].0 by {
        if i < s.len() && j < s.len() {
            assert(t[i] == s[i] && t[j] == s[j]);
        } else if i < s.len() {
            assert(t[i] == s[i]);
            if s[i].0 == k {
                assert(table(s).contains_key(k));
            }
        } else if j < s.len() {
            assert(t[j] == s[j]);
            if s[j].0 == k {
                assert(table(s).contains_key(k));
            }
        }
    }
    assert forall|x: Seq<char>| #[trigger] table(t).contains_key(x) == table(s).insert(k, v).contains_key(x) by {
        if table(s).contains_key(x) {
            let i = choose|i: int| 0 <= i < s.len() && s[i].0 == x;
            assert(t[i] == s[i]);
        }
        if table(t).contains_key(x) && x != k {
            let i = choose|i: int| 0 <= i < t.len() && t[i].0 == x;
            assert(i < s.len());
            assert(t[i] == s[i]);
        }
        if x == k {
            assert(t[s.len() as int].0 == k);
        }
    }
    assert forall|x: Seq<char>| #[trigger] table(t).contains_key(x) implies table(t)[x] == table(s).insert(k, v)[x] by {
        let i = choose|i: int| 0 <= i < t.len() && t[i].0 == x;
        lemma_table_index(t, i);
        if i < s.len() {
            assert(t[i] == s[i]);
            lemma_table_index(s, i);
        }
    }
    assert(table(t) =~= table(s).insert(k, v));
}

/// Replacing the entry at `i` by a new one under the same key, moved to the end,
/// updates the table at that key.
pub proof fn lemma_table_replace<V>(s: Seq<(Seq<char>, V)>, i: int, v: V)
    requires
        keys_distinct(s),
        0 <= i < s.len(),
    ensures
        keys_distinct(s.remove(i).push((s[i].0, v))),
        table(s.remove(i).push((s[i].0, v))) == table(s).insert(s[i].0, v),
{
    let k = s[i].0;
    let r = s.remove(i);
    assert forall|a: int, b: int| 0 <= a < r.len() && 0 <= b < r.len() && a != b implies r[a].0 != r[b].0 by {
        let oa = if a < i { a } else { a + 1 };
        let ob = if b < i { b } else { b + 1 };
        assert(r[a] == s[oa] && r[b] == s[ob]);
    }
    assert forall|x: Seq<char>| #[trigger] table(r).contains_key(x) == table(s).remove(k).contains_key(x) by {
        if table(r).contains_key(x) {
            let j = choose|j: int| 0 <= j < r.len() && r[j].0 == x;
            let oj = if j < i { j } else { j + 1 };
            assert(r[j] == s[oj]);
            assert(oj != i);
        }
        if table(s).contains_key(x) && x != k {
            let j = choose|j: int| 0 <= j < s.len() && s[j].0 == x;
            assert(j != i);
            let rj = if j < i { j } else { j - 1 };
            assert(r[rj] == s[j]);
        }
    }
    assert forall|x: Seq<char>| #[trigger] table(r).contains_key(x) implies table(r)[x] == table(s).remove(k)[x] by {
        let j = choose|j: int| 0 <= j < r.len() && r[j].0 == x;
        lemma_table_index(r, j);
        let oj = if j < i { j } else { j + 1 };
        assert(r[j] == s[oj]);
        lemma_table_index(s, oj);
    }
    assert(table(r) =~= table(s).remove(k));
    lemma_table_push(r, k, v);
    assert(table(s).remove(k).insert(k, v) =~= table(s).insert(k, v));
}

/// The entries of a list of text pairs, as character sequences.
pub open spec fn text_pairs(s: Seq<(String, String)>) -> Seq<(Seq<char>, Seq<char>)> {
    s.map_values(|h: (String, String)| (h.0@, h.1@))
}

} // verus!
