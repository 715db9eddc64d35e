//! Semantic asset references (`@v1`, `@a42`, `@img3`, ...) and the engine's error type.

use vstd::prelude::*;
use crate::text::{is_alpha, is_digit, all_digits, digits_value, decimal, digit_char, digit_value, chars_of, owned, push_char, push_str, string_of, u64_decimal};

verus! {

/// Error type of the AETHER engine.
#[derive(Debug, Clone, PartialEq, Eq)]
pub enum AetherError {
    InvalidRef(String, String),
    RefNotFound(Ref),
    RefAlreadyExists(Ref),
    InvalidCommand(String),
    IoError(String, String),
    DatabaseError(String),
    MediaError(String),
    OperationFailed(String),
    VaultError(String),
    PrompterNeedsClarification(String),
}

/// An engine error, with its texts as character sequences.
pub enum ErrorV {
    InvalidRef(Seq<char>, Seq<char>),
    RefNotFound(Ref),
    RefAlreadyExists(Ref),
    InvalidCommand(Seq<char>),
    IoError(Seq<char>, Seq<char>),
    DatabaseError(Seq<char>),
    MediaError(Seq<char>),
    OperationFailed(Seq<char>),
    VaultError(Seq<char>),
    PrompterNeedsClarification(Seq<char>),
}

impl View for AetherError {
    type V = ErrorV;

    open spec fn view(&self) -> ErrorV {
        match self {
            AetherError::InvalidRef(a, b) => ErrorV::InvalidRef(a@, b@),
            AetherError::RefNotFound(r) => ErrorV::RefNotFound(*r),
            AetherError::RefAlreadyExists(r) => ErrorV::RefAlreadyExists(*r),
            AetherError::InvalidCommand(m) => ErrorV::InvalidCommand(m@),
            AetherError::IoError(a, b) => ErrorV::IoError(a@, b@),
            AetherError::DatabaseError(m) => ErrorV::DatabaseError(m@),
            AetherError::MediaError(m) => ErrorV::MediaError(m@),
            AetherError::OperationFailed(m) => ErrorV::OperationFailed(m@),
            AetherError::VaultError(m) => ErrorV::VaultError(m@),
            AetherError::PrompterNeedsClarification(m) => ErrorV::PrompterNeedsClarification(m@),
        }
    }
}

/// The kind of multimedia asset a reference points to.
#[derive(Debug, Clone, Copy, PartialEq, Eq, Structural, PartialOrd, Ord, Hash)]
pub enum RefKind {
    Video,
    Audio,
    Image,
    Animation,
    Generated,
}

/// A semantic reference to a multimedia asset (e.g. `@v1`, `@a2`).
#[derive(Debug, Clone, Copy, PartialEq, Eq, Structural, PartialOrd, Ord, Hash)]
pub struct Ref {
    pub kind: RefKind,
    pub id: u32,
}

/// The textual prefix of each reference kind.
pub open spec fn kind_prefix(k: RefKind) -> Seq<char> {
    match k {
        RefKind::Video => seq!['v'],
        RefKind::Audio => seq!['a'],
        RefKind::Image => seq!['i', 'm', 'g'],
        RefKind::Animation => seq!['a', 'n', 'i', 'm'],
        RefKind::Generated => seq!['g'],
    }
}

/// The reference kind written by a prefix, if any.
pub open spec fn prefix_kind(p: Seq<char>) -> Option<RefKind> {
    if p == seq!['v'] {
        Some(RefKind::Video)
    } else if p == seq!['a'] {
        Some(RefKind::Audio)
    } else if p == seq!['i', 'm', 'g'] {
        Some(RefKind::Image)
    } else if p == seq!['a', 'n', 'i', 'm'] {
        Some(RefKind::Animation)
    } else if p == seq!['g'] {
        Some(RefKind::Generated)
    } else {
        None
    }
}

/// How a reference is written: `@`, the kind's prefix, then the id in decimal.
pub open spec fn ref_text(r: Ref) -> Seq<char> {
    seq!['@'] + kind_prefix(r.kind) + decimal(r.id as nat)
}

pub open spec fn msg_missing_at() -> Seq<char> {
    "Must start with '@'"@
}

pub open spec fn msg_letters_after_digits() -> Seq<char> {
    "Letters cannot follow digits"@
}

pub open spec fn msg_invalid_char(c: char) -> Seq<char> {
    "Invalid character '"@ + seq![c] + "' in reference"@
}

pub open spec fn msg_missing_prefix() -> Seq<char> {
    "Missing alphabetic prefix"@
}

pub open spec fn msg_missing_number() -> Seq<char> {
    "Missing numeric identifier"@
}

pub open spec fn msg_number_too_large() -> Seq<char> {
    "number too large to fit in target type"@
}

pub open spec fn msg_unknown_prefix(p: Seq<char>) -> Seq<char> {
    "Unknown reference prefix '"@ + p + "'"@
}

/// The first error met when reading the characters after `@` from left to right:
/// a letter after a digit, or a character that is neither a letter nor a digit.
pub open spec fn scan_error(rest: Seq<char>, seen_digit: bool) -> Option<Seq<char>>
    decreases rest.len(),
{
    if rest.len() == 0 {
        None
    } else if is_alpha(rest[0]) {
        if seen_digit {
            Some(msg_letters_after_digits())
        } else {
            scan_error(rest.drop_first(), false)
        }
    } else if is_digit(rest[0]) {
        scan_error(rest.drop_first(), true)
    } else {
        Some(msg_invalid_char(rest[0]))
    }
}

/// The number of letters at the start of `s`.
pub open spec fn alpha_count(s: Seq<char>) -> nat
    decreases s.len(),
{
    if s.len() > 0 && is_alpha(s[0]) {
        1 + alpha_count(s.drop_first())
    } else {
        0
    }
}

/// What parsing `s` as a reference gives: the reference, or the message of the
/// `InvalidRef` error.
pub open spec fn ref_parse(s: Seq<char>) -> Result<Ref, Seq<char>> {
    if s.len() == 0 || s[0] != '@' {
        Err(msg_missing_at())
    } else {
        let rest = s.drop_first();
        match scan_error(rest, false) {
            Some(m) => Err(m),
            None => {
                let k = alpha_count(rest);
                let prefix = rest.take(k as int);
                let num = rest.skip(k as int);
                if k == 0 {
                    Err(msg_missing_prefix())
                } else if num.len() == 0 {
                    Err(msg_missing_number())
                } else if digits_value(num) > u32::MAX {
                    Err(msg_number_too_large())
                } else {
                    match prefix_kind(prefix) {
                        Some(kind) => Ok(Ref { kind, id: digits_value(num) as u32 }),
                        None => Err(msg_unknown_prefix(prefix)),
                    }
                }
            }
        }
    }
}

/// `r` is the result of parsing `s`: the same reference, or an `InvalidRef` error that
/// carries `s` and the message.
pub open spec fn ref_parse_result(s: Seq<char>, r: Result<Ref, AetherError>) -> bool {
    match r {
        Ok(x) => ref_parse(s) == Ok::<Ref, Seq<char>>(x),
        Err(AetherError::InvalidRef(t, m)) => t@ == s && ref_parse(s) == Err::<Ref, Seq<char>>(m@),
        Err(_) => false,
    }
}

proof fn lemma_alpha_count_split(p: Seq<char>, q: Seq<char>)
    requires
        forall|i: int| 0 <= i < p.len() ==> is_alpha(#[trigger] p[i]),
        q.len() > 0 ==> !is_alpha(q[0]),
    ensures
        alpha_count(p + q) == p.len(),
    decreases p.len(),
{
    if p.len() == 0 {
        assert(p + q =~= q);
    } else {
        assert((p + q).drop_first() =~= p.drop_first() + q);
        lemma_alpha_count_split(p.drop_first(), q);
    }
}

proof fn lemma_scan_digits(q: Seq<char>)
    requires
        all_digits(q),
    ensures
        scan_error(q, true) == None::<Seq<char>>,
    decreases q.len(),
{
    if q.len() > 0 {
        assert(all_digits(q.drop_first()));
        lemma_scan_digits(q.drop_first());
    }
}

proof fn lemma_scan_letters_then_digits(p: Seq<char>, q: Seq<char>)
    requires
        forall|i: int| 0 <= i < p.len() ==> is_alpha(#[trigger] p[i]),
        all_digits(q),
    ensures
        scan_error(p + q, false) == scan_error(q, false),
    decreases p.len(),
{
    if p.len() == 0 {
        assert(p + q =~= q);
    } else {
        assert((p + q).drop_first() =~= p.drop_first() + q);
        lemma_scan_letters_then_digits(p.drop_first(), q);
    }
}

pub proof fn lemma_decimal_digits(n: nat)
    ensures
        all_digits(decimal(n)),
        decimal(n).len() > 0,
        digits_value(decimal(n)) == n,
    decreases n,
{
    if n < 10 {
        assert(digits_value(decimal(n)) == digits_value(decimal(n).drop_last()) * 10 + digit_value(decimal(n).last()));
        assert(decimal(n).drop_last() =~= Seq::<char>::empty());
    } else {
        lemma_decimal_digits(n / 10);
        let d = decimal(n);
        assert(d.drop_last() =~= decimal(n / 10));
        assert(d.last() == digit_char(n % 10));
        assert forall|i: int| 0 <= i < d.len() implies is_digit(#[trigger] d[i]) by {
            if i < d.len() - 1 {
                assert(d[i] == decimal(n / 10)[i]);
            }
        }
    }
}

/// Writing a reference and parsing the text back gives the same reference.
pub proof fn law_ref_round_trip(r: Ref)
    ensures
        ref_parse(ref_text(r)) == Ok::<Ref, Seq<char>>(r),
{
    let p = kind_prefix(r.kind);
    let d = decimal(r.id as nat);
    lemma_decimal_digits(r.id as nat);
    let s = ref_text(r);
    assert(s.drop_first() =~= p + d);
    assert forall|i: int| 0 <= i < p.len() implies is_alpha(#[trigger] p[i]) by {}
    lemma_alpha_count_split(p, d);
    lemma_scan_letters_then_digits(p, d);
    lemma_scan_digits(d);
    assert(d[0] == d[0]);
    assert(scan_error(d, false) == scan_error(d.drop_first(), true));
    lemma_scan_digits(d.drop_first());
    assert((p + d).take(p.len() as int) =~= p);
    assert((p + d).skip(p.len() as int) =~= d);
}

/// A scan that found nothing wrong after digits leaves only digits.
proof fn lemma_scan_after_digit(q: Seq<char>)
    requires
        scan_error(q, true) is None,
    ensures
        all_digits(q),
    decreases q.len(),
{
    if q.len() > 0 {
        lemma_scan_after_digit(q.drop_first());
        assert forall|i: int| 0 <= i < q.len() implies is_digit(#[trigger] q[i]) by {
            if i > 0 {
                assert(q[i] == q.drop_first()[i - 1]);
            }
        }
    }
}

/// A scan that found nothing wrong leaves only digits after the leading letters.
proof fn lemma_scan_ok_digits(rest: Seq<char>)
    requires
        scan_error(rest, false) is None,
    ensures
        all_digits(rest.skip(alpha_count(rest) as int)),
        forall|i: int| 0 <= i < alpha_count(rest) ==> is_alpha(#[trigger] rest[i]),
        alpha_count(rest) <= rest.len(),
    decreases rest.len(),
{
    if rest.len() > 0 {
        if is_alpha(rest[0]) {
            let t = rest.drop_first();
            lemma_scan_ok_digits(t);
            assert(rest.skip(alpha_count(rest) as int) =~= t.skip(alpha_count(t) as int));
            assert forall|i: int| 0 <= i < alpha_count(rest) implies is_alpha(#[trigger] rest[i]) by {
                if i > 0 {
                    assert(rest[i] == t[i - 1]);
                }
            }
        } else {
            lemma_scan_after_digit(rest.drop_first());
            assert(rest.skip(0) =~= rest);
            assert forall|i: int| 0 <= i < rest.len() implies is_digit(#[trigger] rest[i]) by {
                if i > 0 {
                    assert(rest[i] == rest.drop_first()[i - 1]);
                }
            }
        }
    }
}

/// A text reads as a reference exactly when it is `@`, the prefix of a kind and a
/// nonempty run of decimal digits (leading zeros allowed) whose value fits in 32
/// bits; the reference has that kind and value.
pub proof fn law_ref_parse_shape(s: Seq<char>, kind: RefKind, id: u32)
    ensures
        ref_parse(s) == Ok::<Ref, Seq<char>>(Ref { kind, id }) <==> exists|d: Seq<char>| {
            &&& d.len() > 0
            &&& all_digits(d)
            &&& digits_value(d) == id
            &&& #[trigger] (seq!['@'] + kind_prefix(kind) + d) == s
        },
{
    let p = kind_prefix(kind);
    assert forall|i: int| 0 <= i < p.len() implies is_alpha(#[trigger] p[i]) by {}
    assert(prefix_kind(p) == Some(kind));
    if ref_parse(s) == Ok::<Ref, Seq<char>>(Ref { kind, id }) {
        let rest = s.drop_first();
        lemma_scan_ok_digits(rest);
        let k = alpha_count(rest);
        let prefix = rest.take(k as int);
        let num = rest.skip(k as int);
        assert(prefix_kind(prefix) == Some(kind));
        assert(prefix == p);
        assert(s =~= seq!['@'] + prefix + num);
        assert(digits_value(num) == id);
    }
    if exists|d: Seq<char>| {
        &&& d.len() > 0
        &&& all_digits(d)
        &&& digits_value(d) == id
        &&& #[trigger] (seq!['@'] + kind_prefix(kind) + d) == s
    } {
        let d = choose|d: Seq<char>| {
            &&& d.len() > 0
            &&& all_digits(d)
            &&& digits_value(d) == id
            &&& #[trigger] (seq!['@'] + kind_prefix(kind) + d) == s
        };
        assert(s.drop_first() =~= p + d);
        lemma_alpha_count_split(p, d);
        lemma_scan_letters_then_digits(p, d);
        assert(scan_error(d, false) == scan_error(d.drop_first(), true));
        lemma_scan_digits(d.drop_first());
        assert((p + d).take(p.len() as int) =~= p);
        assert((p + d).skip(p.len() as int) =~= d);
    }
}

impl Ref {
    /// Parses a reference such as `@v1`, `@a42`, `@img999`, `@anim10` or `@g123`.
    pub fn parse(s: &str) -> (res: Result<Ref, AetherError>)
        ensures
            ref_parse_result(s@, res),
    {
        let cs = chars_of(s);
        if cs.len() == 0 || cs[0] != '@' {
            return Err(AetherError::InvalidRef(owned(s), owned("Must start with '@'")));
        }
        let ghost rest = s@.drop_first();
        let (prefix, num) = match split_ref_body(s, &cs) {
            Ok(pn) => pn,
            Err(e) => {
                return Err(e);
            },
        };
        proof {
            lemma_alpha_count_split(prefix@, num@);
            assert(rest.take(prefix@.len() as int) =~= prefix@);
            assert(rest.skip(prefix@.len() as int) =~= num@);
        }
        if prefix.len() == 0 {
            return Err(AetherError::InvalidRef(owned(s), owned("Missing alphabetic prefix")));
        }
        if num.len() == 0 {
            return Err(AetherError::InvalidRef(owned(s), owned("Missing numeric identifier")));
        }
        let id = match parse_digits_u32(&num) {
            Some(v) => v,
            None => {
                return Err(
                    AetherError::InvalidRef(owned(s), owned("number too large to fit in target type")),
                );
            },
        };
        let kind = match kind_of_prefix(&prefix) {
            Some(k) => k,
            None => {
                let mut m = owned("Unknown reference prefix '");
                let p = string_of(&prefix);
                push_str(&mut m, p.as_str());
                push_str(&mut m, "'");
                return Err(AetherError::InvalidRef(owned(s), m));
            },
        };
        Ok(Ref { kind, id })
    }

    /// The text of the reference: `@`, the kind's prefix and the id (`@v1`).
    pub fn to_string(&self) -> (s: String)
        ensures
            s@ == ref_text(*self),
    {
        let mut s = String::new();
        push_char(&mut s, '@');
        match self.kind {
            RefKind::Video => {
                push_char(&mut s, 'v');
            },
            RefKind::Audio => {
                push_char(&mut s, 'a');
            },
            RefKind::Image => {
                push_char(&mut s, 'i');
                push_char(&mut s, 'm');
                push_char(&mut s, 'g');
            },
            RefKind::Animation => {
                push_char(&mut s, 'a');
                push_char(&mut s, 'n');
                push_char(&mut s, 'i');
                push_char(&mut s, 'm');
            },
            RefKind::Generated => {
                push_char(&mut s, 'g');
            },
        }
        let d = u64_decimal(self.id as u64);
        push_str(&mut s, d.as_str());
        assert(s@ =~= ref_text(*self));
        s
    }
}

impl std::str::FromStr for Ref {
    type Err = AetherError;

    fn from_str(s: &str) -> (res: Result<Ref, AetherError>)
        ensures
            ref_parse_result(s@, res),
    {
        Ref::parse(s)
    }
}


/// Reads the characters after `@`: the leading letters and the digits that follow, or
/// the first error of `scan_error`.
fn split_ref_body(s: &str, cs: &Vec<char>) -> (r: Result<(Vec<char>, Vec<char>), AetherError>)
    requires
        cs@ == s@,
        cs.len() > 0,
        cs@[0] == '@',
    ensures
        match r {
            Ok((p, n)) => {
                &&& scan_error(s@.drop_first(), false) == None::<Seq<char>>
                &&& p@ + n@ == s@.drop_first()
                &&& forall|j: int| 0 <= j < p@.len() ==> is_alpha(#[trigger] p@[j])
                &&& all_digits(n@)
                &&& (n@.len() > 0 ==> !is_alpha(n@[0]))
            },
            Err(AetherError::InvalidRef(t, m)) => t@ == s@ && scan_error(s@.drop_first(), false)
                == Some(m@),
            Err(_) => false,
        },
{
        let ghost rest = s@.drop_first();
        let mut prefix: Vec<char> = Vec::new();
        let mut num: Vec<char> = Vec::new();
        let mut seen_digit = false;
        let mut i: usize = 1;
        assert(rest.subrange(0, rest.len() as int) =~= rest);
        while i < cs.len()
            invariant
                cs@ == s@,
                cs.len() > 0,
                cs@[0] == '@',
                rest == cs@.drop_first(),
                1 <= i <= cs.len(),
                scan_error(rest, false) == scan_error(rest.subrange(i - 1, rest.len() as int), seen_digit),
                prefix@ + num@ == rest.subrange(0, i - 1),
                forall|j: int| 0 <= j < prefix@.len() ==> is_alpha(#[trigger] prefix@[j]),
                all_digits(num@),
                seen_digit == (num@.len() > 0),
            decreases cs.len() - i,
        {
            let c = cs[i];
            let ghost old_p = prefix@;
            let ghost old_n = num@;
            assert(rest[i - 1] == c);
            assert(rest.subrange(0, i as int) =~= rest.subrange(0, i - 1).push(c));
            let ghost tail = rest.subrange(i - 1, rest.len() as int);
            assert(tail[0] == c);
            assert(tail.drop_first() =~= rest.subrange(i as int, rest.len() as int));
            if ('a' <= c && c <= 'z') || ('A' <= c && c <= 'Z') {
                if seen_digit {
                    assert(scan_error(tail, seen_digit) == Some(msg_letters_after_digits()));
                    return Err(AetherError::InvalidRef(owned(s), owned("Letters cannot follow digits")));
                }
                prefix.push(c);
                assert(num@ =~= Seq::<char>::empty());
            } else if '0' <= c && c <= '9' {
                num.push(c);
                seen_digit = true;
            } else {
                let mut m = owned("Invalid character '");
                push_char(&mut m, c);
                push_str(&mut m, "' in reference");
                assert(scan_error(tail, seen_digit) == Some(msg_invalid_char(c)));
                assert(m@ =~= msg_invalid_char(c));
                return Err(AetherError::InvalidRef(owned(s), m));
            }
            assert(prefix@ + num@ =~= (old_p + old_n).push(c));
            i = i + 1;
        }
        assert(rest.subrange(i - 1, rest.len() as int) =~= Seq::<char>::empty());
        assert(prefix@ + num@ =~= rest);
        assert(num@.len() > 0 ==> is_digit(num@[0]));
        Ok((prefix, num))
}

/// The kind named by a prefix, if it is one of `v`, `a`, `img`, `anim`, `g`.
fn kind_of_prefix(p: &Vec<char>) -> (k: Option<RefKind>)
    ensures
        k == prefix_kind(p@),
{
    let n = p.len();
    if n == 1 && p[0] == 'v' {
        assert(p@ =~= seq!['v']);
        Some(RefKind::Video)
    } else if n == 1 && p[0] == 'a' {
        assert(p@ =~= seq!['a']);
        Some(RefKind::Audio)
    } else if n == 3 && p[0] == 'i' && p[1] == 'm' && p[2] == 'g' {
        assert(p@ =~= seq!['i', 'm', 'g']);
        Some(RefKind::Image)
    } else if n == 4 && p[0] == 'a' && p[1] == 'n' && p[2] == 'i' && p[3] == 'm' {
        assert(p@ =~= seq!['a', 'n', 'i', 'm']);
        Some(RefKind::Animation)
    } else if n == 1 && p[0] == 'g' {
        assert(p@ =~= seq!['g']);
        Some(RefKind::Generated)
    } else {
        assert(p@ != seq!['v']);
        assert(p@ != seq!['a']);
        assert(p@ != seq!['g']);
        assert(p@ != seq!['i', 'm', 'g']) by {
            if n == 3 {
                assert(seq!['i', 'm', 'g'][0] == 'i');
            }
        }
        assert(p@ != seq!['a', 'n', 'i', 'm']) by {
            if n == 4 {
                assert(seq!['a', 'n', 'i', 'm'][0] == 'a');
            }
        }
        None
    }
}

/// The value of a nonempty run of decimal digits, or `None` when it exceeds `u32::MAX`.
pub fn parse_digits_u32(d: &Vec<char>) -> (r: Option<u32>)
    requires
        all_digits(d@),
    ensures
        r == (if digits_value(d@) <= u32::MAX {
            Some(digits_value(d@) as u32)
        } else {
            None::<u32>
        }),
{
    let mut acc: u32 = 0;
    let mut over = false;
    let mut i: usize = 0;
    while i < d.len()
        invariant
            all_digits(d@),
            i <= d.len(),
            !over ==> acc as nat == digits_value(d@.subrange(0, i as int)),
            over ==> digits_value(d@.subrange(0, i as int)) > u32::MAX,
        decreases d.len() - i,
    {
        let c = d[i];
        assert(is_digit(d@[i as int]));
        let dv: u32 = (c as u32) - ('0' as u32);
        assert(d@.subrange(0, i + 1).drop_last() =~= d@.subrange(0, i as int));
        if !over {
            if acc > (u32::MAX - dv) / 10 {
                over = true;
            } else {
                acc = acc * 10 + dv;
            }
        }
        i = i + 1;
    }
    assert(d@.subrange(0, d@.len() as int) =~= d@);
    if over {
        None
    } else {
        Some(acc)
    }
}

} // verus!
