//! Colors named in commands: a few color names, or `#rrggbb` / `#rrggbbaa` in
//! hexadecimal; anything else is gray.

use vstd::prelude::*;
use crate::prompter::{utf8_len, char_utf8_len};
use crate::text::{chars_of, char_is_whitespace, is_white_space, owned, push_char, str_eq, string_of, to_lowercase, unicode_lowercase};

verus! {

/// A color as four 8-bit channels.
#[derive(Debug, Clone, Copy, PartialEq, Eq, Structural)]
pub struct Rgba8 {
    pub r: u8,
    pub g: u8,
    pub b: u8,
    pub a: u8,
}

/// The number of white-space characters `s` starts with.
pub open spec fn lead(s: Seq<char>) -> int
    decreases s.len(),
{
    if s.len() == 0 || !is_white_space(s[0]) {
        0
    } else {
        1 + lead(s.drop_first())
    }
}

/// The length of `s` without the white space it ends with.
pub open spec fn trail(s: Seq<char>) -> int
    decreases s.len(),
{
    if s.len() == 0 || !is_white_space(s.last()) {
        s.len() as int
    } else {
        trail(s.drop_last())
    }
}

/// `s` without its leading and trailing white space (`str::trim`).
pub open spec fn trimmed(s: Seq<char>) -> Seq<char> {
    if lead(s) >= trail(s) {
        Seq::empty()
    } else {
        s.subrange(lead(s), trail(s))
    }
}

/// `s` without the `#` it starts with, however many (`trim_start_matches('#')`).
pub open spec fn strip_hashes(s: Seq<char>) -> Seq<char>
    decreases s.len(),
{
    if s.len() > 0 && s[0] == '#' {
        strip_hashes(s.drop_first())
    } else {
        s
    }
}

/// The value of a hexadecimal digit.
pub open spec fn hex_value(c: char) -> Option<nat> {
    if '0' <= c && c <= '9' {
        Some((c as nat - '0' as nat) as nat)
    } else if 'a' <= c && c <= 'f' {
        Some((c as nat - 'a' as nat + 10) as nat)
    } else if 'A' <= c && c <= 'F' {
        Some((c as nat - 'A' as nat + 10) as nat)
    } else {
        None
    }
}

/// A byte written in hexadecimal as `u8::from_str_radix(_, 16)` reads a text of
/// at most two characters: two digits, or `+` and one digit.
pub open spec fn hex_byte(p: Seq<char>) -> Option<u8> {
    if p.len() == 2 && p[0] == '+' {
        match hex_value(p[1]) {
            Some(v) => Some(v as u8),
            None => None,
        }
    } else if p.len() == 2 {
        match (hex_value(p[0]), hex_value(p[1])) {
            (Some(a), Some(b)) => Some((a * 16 + b) as u8),
            _ => None,
        }
    } else if p.len() == 1 {
        match hex_value(p[0]) {
            Some(v) => Some(v as u8),
            None => None,
        }
    } else {
        None
    }
}

/// The number of characters that make up the first `n` bytes of `s`.
pub open spec fn cut(s: Seq<char>, n: nat) -> int {
    choose|k: int| 0 <= k <= s.len() && utf8_len(#[trigger] s.take(k)) == n
}

/// Bytes `2i` and `2i + 1` of `h`, as characters.
pub open spec fn piece(h: Seq<char>, i: nat) -> Seq<char> {
    h.subrange(cut(h, 2 * i), cut(h, 2 * i + 2))
}

/// The channel that piece `i` of `h` gives, `d` when it is not hexadecimal.
pub open spec fn channel(h: Seq<char>, i: nat, d: u8) -> u8 {
    match hex_byte(piece(h, i)) {
        Some(v) => v,
        None => d,
    }
}

/// The color a hexadecimal text (without `#`) gives: six bytes for an opaque
/// color, eight with alpha; gray for any other length.
pub open spec fn hex_color(h: Seq<char>) -> Rgba8 {
    if utf8_len(h) == 6 {
        Rgba8 { r: channel(h, 0, 0), g: channel(h, 1, 0), b: channel(h, 2, 0), a: 255 }
    } else if utf8_len(h) == 8 {
        Rgba8 { r: channel(h, 0, 0), g: channel(h, 1, 0), b: channel(h, 2, 0), a: channel(h, 3, 255) }
    } else {
        gray()
    }
}

pub open spec fn gray() -> Rgba8 {
    Rgba8 { r: 128, g: 128, b: 128, a: 255 }
}

/// The color a text names once trimmed and lowercased (`lower`).
pub open spec fn color_of(lower: Seq<char>) -> Rgba8 {
    if lower == "red"@ {
        Rgba8 { r: 255, g: 0, b: 0, a: 255 }
    } else if lower == "green"@ {
        Rgba8 { r: 0, g: 255, b: 0, a: 255 }
    } else if lower == "blue"@ {
        Rgba8 { r: 0, g: 0, b: 255, a: 255 }
    } else if lower == "white"@ {
        Rgba8 { r: 255, g: 255, b: 255, a: 255 }
    } else if lower == "black"@ {
        Rgba8 { r: 0, g: 0, b: 0, a: 255 }
    } else if lower == "yellow"@ {
        Rgba8 { r: 255, g: 255, b: 0, a: 255 }
    } else if lower == "cyan"@ {
        Rgba8 { r: 0, g: 255, b: 255, a: 255 }
    } else if lower == "magenta"@ {
        Rgba8 { r: 255, g: 0, b: 255, a: 255 }
    } else if lower.len() > 0 && lower[0] == '#' {
        hex_color(strip_hashes(lower))
    } else {
        gray()
    }
}

/// The text of a color, as it is read: trimmed, then lowercased.
pub open spec fn color_text(s: Seq<char>) -> Seq<char> {
    unicode_lowercase(trimmed(s))
}

/// Byte `b` of `h` falls between two characters.
pub open spec fn has_cut(h: Seq<char>, b: nat) -> bool {
    exists|k: int| 0 <= k <= h.len() && utf8_len(#[trigger] h.take(k)) == b
}

/// Every byte cut a hexadecimal color reads falls between two characters.
pub open spec fn cuts_ok(h: Seq<char>) -> bool {
    let n = utf8_len(h);
    (n == 6 || n == 8) ==> (has_cut(h, 2) && has_cut(h, 4) && (n == 8 ==> has_cut(h, 6)))
}

/// The color text can be read without cutting a character in two.
pub open spec fn color_readable(s: Seq<char>) -> bool {
    let l = color_text(s);
    (l.len() > 0 && l[0] == '#') ==> cuts_ok(strip_hashes(l))
}


proof fn lemma_lead(s: Seq<char>, k: int)
    requires
        0 <= k <= s.len(),
        forall|j: int| 0 <= j < k ==> is_white_space(#[trigger] s[j]),
        k == s.len() || !is_white_space(s[k]),
    ensures
        lead(s) == k,
    decreases s.len(),
{
    if s.len() > 0 && k > 0 {
        assert forall|j: int| 0 <= j < k - 1 implies is_white_space(#[trigger] s.drop_first()[j]) by {
            assert(s.drop_first()[j] == s[j + 1]);
        }
        if k < s.len() {
            assert(s.drop_first()[k - 1] == s[k]);
        }
        lemma_lead(s.drop_first(), k - 1);
    }
}

proof fn lemma_trail(s: Seq<char>, k: int)
    requires
        0 <= k <= s.len(),
        forall|j: int| k <= j < s.len() ==> is_white_space(#[trigger] s[j]),
        k == 0 || !is_white_space(s[k - 1]),
    ensures
        trail(s) == k,
    decreases s.len(),
{
    if s.len() > 0 && k < s.len() {
        assert forall|j: int| k <= j < s.drop_last().len() implies is_white_space(#[trigger] s.drop_last()[j]) by {
            assert(s.drop_last()[j] == s[j]);
        }
        if k > 0 {
            assert(s.drop_last()[k - 1] == s[k - 1]);
        }
        lemma_trail(s.drop_last(), k);
    }
}

/// `s` without its leading and trailing white space.
pub fn trim(s: &str) -> (r: String)
    ensures
        r@ == trimmed(s@),
{
    let c = chars_of(s);
    let mut a: usize = 0;
    while a < c.len() && char_is_whitespace(c[a])
        invariant
            c@ == s@,
            a <= c.len(),
            forall|j: int| 0 <= j < a ==> is_white_space(#[trigger] c@[j]),
        decreases c.len() - a,
    {
        a = a + 1;
    }
    proof {
        lemma_lead(c@, a as int);
    }
    let mut b: usize = c.len();
    while b > 0 && char_is_whitespace(c[b - 1])
        invariant
            c@ == s@,
            b <= c.len(),
            forall|j: int| b <= j < c.len() ==> is_white_space(#[trigger] c@[j]),
        decreases b,
    {
        b = b - 1;
    }
    proof {
        lemma_trail(c@, b as int);
    }
    if a >= b {
        return String::new();
    }
    let mut r = String::new();
    let mut k: usize = a;
    while k < b
        invariant
            c@ == s@,
            a <= k <= b <= c.len(),
            r@ == c@.subrange(a as int, k as int),
        decreases b - k,
    {
        push_char(&mut r, c[k]);
        k = k + 1;
        assert(r@ =~= c@.subrange(a as int, k as int));
    }
    r
}

fn hex_digit(c: char) -> (v: Option<u8>)
    ensures
        match hex_value(c) {
            Some(x) => v == Some(x as u8),
            None => v is None,
        },
{
    if '0' <= c && c <= '9' {
        Some(((c as u32) - ('0' as u32)) as u8)
    } else if 'a' <= c && c <= 'f' {
        Some(((c as u32) - ('a' as u32) + 10) as u8)
    } else if 'A' <= c && c <= 'F' {
        Some(((c as u32) - ('A' as u32) + 10) as u8)
    } else {
        None
    }
}

fn read_hex_byte(p: &Vec<char>) -> (r: Option<u8>)
    ensures
        r == hex_byte(p@),
{
    if p.len() == 2 && p[0] == '+' {
        hex_digit(p[1])
    } else if p.len() == 2 {
        match (hex_digit(p[0]), hex_digit(p[1])) {
            (Some(a), Some(b)) => Some(a * 16 + b),
            _ => None,
        }
    } else if p.len() == 1 {
        hex_digit(p[0])
    } else {
        None
    }
}

/// The number of characters that make up the first `b` bytes of `h`.
fn byte_cut(h: &Vec<char>, b: usize) -> (k: usize)
    requires
        has_cut(h@, b as nat),
    ensures
        k == cut(h@, b as nat),
        k <= h.len(),
{
    let ghost w = choose|k: int| 0 <= k <= h@.len() && utf8_len(#[trigger] h@.take(k)) == b;
    let mut k: usize = 0;
    let mut bytes: usize = 0;
    assert(h@.take(0) =~= Seq::<char>::empty());
    while bytes < b
        invariant
            k <= h.len(),
            bytes == utf8_len(h@.take(k as int)),
            bytes <= b,
            0 <= w <= h@.len(),
            utf8_len(h@.take(w)) == b,
            k <= w,
        decreases b - bytes,
    {
        proof {
            if k == w {
                assert(false);
            }
            crate::prompter::lemma_utf8_len_take(h@, k as int);
            crate::prompter::lemma_utf8_len_mono(h@, k + 1, w);
        }
        bytes = bytes + crate::prompter::char_bytes(h[k]);
        k = k + 1;
    }
    proof {
        if k < w {
            crate::prompter::lemma_utf8_len_mono(h@, k as int, w);
        }
    }
    k
}

fn piece_chars(h: &Vec<char>, a: usize, b: usize) -> (r: Vec<char>)
    requires
        a <= b <= h.len(),
    ensures
        r@ == h@.subrange(a as int, b as int),
{
    let mut r: Vec<char> = Vec::new();
    let mut k = a;
    while k < b
        invariant
            a <= k <= b <= h.len(),
            r@ == h@.subrange(a as int, k as int),
        decreases b - k,
    {
        r.push(h[k]);
        k = k + 1;
        assert(r@ =~= h@.subrange(a as int, k as int));
    }
    r
}

fn read_channel(h: &Vec<char>, i: usize, d: u8) -> (v: u8)
    requires
        i <= 3,
        has_cut(h@, (2 * i) as nat),
        has_cut(h@, (2 * i + 2) as nat),
    ensures
        v == channel(h@, i as nat, d),
{
    let a = byte_cut(h, 2 * i);
    let b = byte_cut(h, 2 * i + 2);
    proof {
        if a > b {
            crate::prompter::lemma_utf8_len_mono(h@, b as int, a as int);
        }
    }
    let p = piece_chars(h, a, b);
    match read_hex_byte(&p) {
        Some(x) => x,
        None => d,
    }
}

fn text_bytes(h: &Vec<char>) -> (n: usize)
    ensures
        n == utf8_len(h@) || (n > 8 && utf8_len(h@) > 8),
{
    let mut n: usize = 0;
    let mut k: usize = 0;
    assert(h@.take(0) =~= Seq::<char>::empty());
    while k < h.len()
        invariant
            k <= h.len(),
            n == utf8_len(h@.take(k as int)) || (n > 8 && utf8_len(h@.take(k as int)) > 8),
            n <= 12,
        decreases h.len() - k,
    {
        proof {
            crate::prompter::lemma_utf8_len_take(h@, k as int);
        }
        if n <= 8 {
            n = n + crate::prompter::char_bytes(h[k]);
        }
        k = k + 1;
    }
    assert(h@.take(k as int) =~= h@);
    n
}

fn strip_hash_chars(v: &Vec<char>) -> (r: Vec<char>)
    ensures
        r@ == strip_hashes(v@),
{
    let mut k: usize = 0;
    assert(v@.skip(0) =~= v@);
    while k < v.len() && v[k] == '#'
        invariant
            k <= v.len(),
            strip_hashes(v@.skip(k as int)) == strip_hashes(v@),
        decreases v.len() - k,
    {
        assert(v@.skip(k as int).drop_first() =~= v@.skip(k + 1));
        k = k + 1;
    }
    let r = piece_chars(v, k, v.len());
    assert(r@ =~= v@.skip(k as int));
    r
}

/// The color a text names: a color name (red, green, blue, white, black, yellow,
/// cyan, magenta) or `#` and six or eight hexadecimal digits, read after trimming
/// and lowercasing; gray for anything else. A channel that is not hexadecimal is 0
/// (255 for alpha).
pub fn parse_color(color: &str) -> (c: Rgba8)
    requires
        color_readable(color@),
    ensures
        c == color_of(color_text(color@)),
{
    let t = trim(color);
    let lower = to_lowercase(t.as_str());
    let l = lower.as_str();
    if str_eq(l, "red") {
        Rgba8 { r: 255, g: 0, b: 0, a: 255 }
    } else if str_eq(l, "green") {
        Rgba8 { r: 0, g: 255, b: 0, a: 255 }
    } else if str_eq(l, "blue") {
        Rgba8 { r: 0, g: 0, b: 255, a: 255 }
    } else if str_eq(l, "white") {
        Rgba8 { r: 255, g: 255, b: 255, a: 255 }
    } else if str_eq(l, "black") {
        Rgba8 { r: 0, g: 0, b: 0, a: 255 }
    } else if str_eq(l, "yellow") {
        Rgba8 { r: 255, g: 255, b: 0, a: 255 }
    } else if str_eq(l, "cyan") {
        Rgba8 { r: 0, g: 255, b: 255, a: 255 }
    } else if str_eq(l, "magenta") {
        Rgba8 { r: 255, g: 0, b: 255, a: 255 }
    } else {
        let cs = chars_of(l);
        if cs.len() > 0 && cs[0] == '#' {
            let h = strip_hash_chars(&cs);
            let n = text_bytes(&h);
            proof {
                assert(color_text(color@) == cs@);
                assert(h@.take(0) =~= Seq::<char>::empty());
                assert(has_cut(h@, 0));
                if n == 6 || n == 8 {
                    assert(h@.take(h@.len() as int) =~= h@);
                    assert(has_cut(h@, n as nat));
                }
            }
            if n == 6 {
                let r = read_channel(&h, 0, 0);
                let g = read_channel(&h, 1, 0);
                let b = read_channel(&h, 2, 0);
                Rgba8 { r, g, b, a: 255 }
            } else if n == 8 {
                let r = read_channel(&h, 0, 0);
                let g = read_channel(&h, 1, 0);
                let b = read_channel(&h, 2, 0);
                let a = read_channel(&h, 3, 255);
                Rgba8 { r, g, b, a }
            } else {
                Rgba8 { r: 128, g: 128, b: 128, a: 255 }
            }
        } else {
            Rgba8 { r: 128, g: 128, b: 128, a: 255 }
        }
    }
}

} // verus!
