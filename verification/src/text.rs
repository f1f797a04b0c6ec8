//! Text primitives: searching, splitting, trimming and number conversion.
//!
//! The specification functions work on sequences of characters, so that the
//! rest of the library can speak of `s@` without naming an algorithm.

use vstd::prelude::*;

verus! {

/// Appends one character: `std::string::String::push`.
///
/// The string afterwards is the string before with the character added at
/// its end.
pub assume_specification[ String::push ](s: &mut String, c: char)
    ensures
        final(s)@ == old(s)@.push(c),
;

/// The decimal text of an unsigned number, by `itoa::Buffer::format`.
///
/// The result is the decimal representation: no sign, no leading zero,
/// and `0` for zero.
#[verifier::external_body]
pub(crate) fn itoa_decimal(n: u64) -> (r: String)
    ensures
        r@ == decimal(n as nat),
{
    let mut buf = itoa::Buffer::new();
    buf.format(n).to_string()
}

/// The text that the `Debug` form of `str` makes of a text.
pub uninterp spec fn debug_form(s: Seq<char>) -> Seq<char>;

/// A text in quotes, with escapes where needed: `format!` with the `Debug`
/// form of `str`.
///
/// The result depends on the text alone. Which characters are escaped, and
/// how, is not stated.
#[verifier::external_body]
pub(crate) fn debug_quoted(s: &str) -> (r: String)
    ensures
        r@ == debug_form(s@),
{
    format!("{:?}", s)
}

// ---------------------------------------------------------------------------
// Character classes
// ---------------------------------------------------------------------------

/// ASCII whitespace: space, tab, line feed, form feed, carriage return.
pub open spec fn is_ascii_space(c: char) -> bool {
    c == ' ' || c == '\t' || c == '\n' || c == '\x0C' || c == '\r'
}

/// The characters with the Unicode `White_Space` property.
pub open spec fn is_unicode_space(c: char) -> bool {
    let u = c as u32;
    ||| 0x09 <= u <= 0x0D
    ||| u == 0x20
    ||| u == 0x85
    ||| u == 0xA0
    ||| u == 0x1680
    ||| 0x2000 <= u <= 0x200A
    ||| u == 0x2028
    ||| u == 0x2029
    ||| u == 0x202F
    ||| u == 0x205F
    ||| u == 0x3000
}

/// Which characters separate words.
#[derive(Clone, Copy, Debug, PartialEq, Eq, Structural)]
pub enum Space {
    /// Only ASCII whitespace.
    Ascii,
    /// Everything with the Unicode `White_Space` property.
    Unicode,
}

pub open spec fn space_char(kind: Space, c: char) -> bool {
    match kind {
        Space::Ascii => is_ascii_space(c),
        Space::Unicode => is_unicode_space(c),
    }
}

/// Whether `c` is a separator of the given kind.
pub fn is_space(kind: Space, c: char) -> (r: bool)
    ensures
        r == space_char(kind, c),
{
    match kind {
        Space::Ascii => c == ' ' || c == '\t' || c == '\n' || c == '\x0C' || c == '\r',
        Space::Unicode => {
            let u: u32 = c as u32;
            (0x09 <= u && u <= 0x0D) || u == 0x20 || u == 0x85 || u == 0xA0 || u == 0x1680 || (
            0x2000 <= u && u <= 0x200A) || u == 0x2028 || u == 0x2029 || u == 0x202F || u == 0x205F
                || u == 0x3000
        },
    }
}

// ---------------------------------------------------------------------------
// Conversion
// ---------------------------------------------------------------------------

/// The texts of a sequence of strings.
pub open spec fn texts(v: Seq<String>) -> Seq<Seq<char>> {
    Seq::new(v.len(), |i: int| v[i]@)
}

/// The text of an optional string.
pub open spec fn opt_text(o: Option<String>) -> Option<Seq<char>> {
    match o {
        Some(s) => Some(s@),
        None => None,
    }
}

/// The characters of `s`, in order.
pub fn chars_of(s: &str) -> (r: Vec<char>)
    ensures
        r@ == s@,
{
    let mut r: Vec<char> = Vec::new();
    for c in it: s.chars()
        invariant
            it.seq() == s@,
            r@ == s@.take(it.index()),
    {
        assert(s@.take(it.index() + 1) =~= s@.take(it.index()).push(c));
        r.push(c);
    }
    assert(s@.take(s@.len() as int) =~= s@);
    r
}

/// The text of the characters `from..to`.
pub fn string_of(v: &Vec<char>, from: usize, to: usize) -> (r: String)
    requires
        from <= to <= v@.len(),
    ensures
        r@ == v@.subrange(from as int, to as int),
{
    let mut r: String = String::new();
    let mut i: usize = from;
    while i < to
        invariant
            from <= i <= to <= v@.len(),
            r@ == v@.subrange(from as int, i as int),
        decreases to - i,
    {
        assert(v@.subrange(from as int, i + 1) =~= v@.subrange(from as int, i as int).push(
            v@[i as int],
        ));
        r.push(v[i]);
        i = i + 1;
    }
    r
}

/// A copy of `s`.
pub fn owned(s: &str) -> (r: String)
    ensures
        r@ == s@,
{
    s.to_owned()
}

// ---------------------------------------------------------------------------
// Comparing and searching
// ---------------------------------------------------------------------------

/// `p` stands at the start of `s`.
pub open spec fn starts_with(s: Seq<char>, p: Seq<char>) -> bool {
    p.len() <= s.len() && s.subrange(0, p.len() as int) == p
}

/// `p` stands at the end of `s`.
pub open spec fn ends_with(s: Seq<char>, p: Seq<char>) -> bool {
    p.len() <= s.len() && s.subrange(s.len() - p.len(), s.len() as int) == p
}

/// `p` stands in `s` at position `at`.
pub open spec fn stands_at(s: Seq<char>, p: Seq<char>, at: int) -> bool {
    0 <= at <= s.len() - p.len() && s.subrange(at, at + p.len()) == p
}

/// `p` stands somewhere in `s`.
pub open spec fn contains(s: Seq<char>, p: Seq<char>) -> bool {
    exists|at: int| stands_at(s, p, at)
}

/// What follows `p` at the start of `s`.
pub open spec fn strip_prefix(s: Seq<char>, p: Seq<char>) -> Option<Seq<char>> {
    if starts_with(s, p) {
        Some(s.subrange(p.len() as int, s.len() as int))
    } else {
        None
    }
}

/// What stands before `p` at the end of `s`; `s` itself if `p` does not end it.
pub open spec fn without_suffix(s: Seq<char>, p: Seq<char>) -> Seq<char> {
    if ends_with(s, p) {
        s.subrange(0, s.len() - p.len())
    } else {
        s
    }
}

/// Whether the characters of `p` stand in `s` at position `at`.
fn chars_at(s: &Vec<char>, p: &Vec<char>, at: usize) -> (r: bool)
    requires
        at + p@.len() <= s@.len(),
    ensures
        r == (s@.subrange(at as int, at + p@.len()) == p@),
{
    let n: usize = s.len();
    let mut i: usize = 0;
    while i < p.len()
        invariant
            i <= p@.len(),
            n == s@.len(),
            at + p@.len() <= s@.len(),
            forall|k: int| 0 <= k < i ==> s@[at + k] == p@[k],
        decreases p@.len() - i,
    {
        if s[at + i] != p[i] {
            assert(s@.subrange(at as int, at + p@.len())[i as int] != p@[i as int]);
            return false;
        }
        i = i + 1;
    }
    assert(s@.subrange(at as int, at + p@.len()) =~= p@);
    true
}

/// Whether two texts are equal.
pub fn same(a: &str, b: &str) -> (r: bool)
    ensures
        r == (a@ == b@),
{
    let x = chars_of(a);
    let y = chars_of(b);
    if x.len() != y.len() {
        return false;
    }
    let r = chars_at(&x, &y, 0);
    assert(x@.subrange(0, x@.len() as int) =~= x@);
    r
}

/// Whether `s` starts with `p`.
pub fn has_prefix(s: &str, p: &str) -> (r: bool)
    ensures
        r == starts_with(s@, p@),
{
    let x = chars_of(s);
    let y = chars_of(p);
    if y.len() > x.len() {
        return false;
    }
    chars_at(&x, &y, 0)
}

/// Whether `s` ends with `p`.
pub fn has_suffix(s: &str, p: &str) -> (r: bool)
    ensures
        r == ends_with(s@, p@),
{
    let x = chars_of(s);
    let y = chars_of(p);
    if y.len() > x.len() {
        return false;
    }
    let at: usize = x.len() - y.len();
    chars_at(&x, &y, at)
}

/// Whether `p` stands somewhere in `s`.
pub fn has_substring(s: &str, p: &str) -> (r: bool)
    ensures
        r == contains(s@, p@),
{
    let x = chars_of(s);
    let y = chars_of(p);
    if y.len() > x.len() {
        return false;
    }
    let last: usize = x.len() - y.len();
    let mut at: usize = 0;
    loop
        invariant
            x@ == s@,
            y@ == p@,
            y@.len() <= x@.len(),
            last == x@.len() - y@.len(),
            at <= last,
            forall|k: int| 0 <= k < at ==> !stands_at(s@, p@, k),
        decreases last - at,
    {
        if chars_at(&x, &y, at) {
            assert(stands_at(s@, p@, at as int));
            return true;
        }
        assert(!stands_at(s@, p@, at as int));
        if at == last {
            assert forall|k: int| !stands_at(s@, p@, k) by {
                if 0 <= k < at {
                }
            }
            return false;
        }
        at = at + 1;
    }
}

/// What follows the prefix `p`, if `s` starts with it.
pub fn after_prefix(s: &str, p: &str) -> (r: Option<String>)
    ensures
        opt_text(r) == strip_prefix(s@, p@),
{
    let x = chars_of(s);
    let y = chars_of(p);
    if y.len() > x.len() || !chars_at(&x, &y, 0) {
        return None;
    }
    Some(string_of(&x, y.len(), x.len()))
}

/// What stands before the suffix `p`; all of `s` if it does not end with `p`.
pub fn drop_suffix(s: &str, p: &str) -> (r: String)
    ensures
        r@ == without_suffix(s@, p@),
{
    let x = chars_of(s);
    let y = chars_of(p);
    if y.len() > x.len() {
        return owned(s);
    }
    let at: usize = x.len() - y.len();
    if chars_at(&x, &y, at) {
        string_of(&x, 0, at)
    } else {
        owned(s)
    }
}

/// Whether one of the names is `s`.
pub open spec fn one_of(names: Seq<Seq<char>>, s: Seq<char>) -> bool {
    names.contains(s)
}

/// Whether `s` is in the list.
pub fn listed(names: &Vec<String>, s: &str) -> (r: bool)
    ensures
        r == one_of(texts(names@), s@),
{
    let mut i: usize = 0;
    while i < names.len()
        invariant
            i <= names@.len(),
            forall|k: int| 0 <= k < i ==> names@[k]@ != s@,
        decreases names@.len() - i,
    {
        if same(names[i].as_str(), s) {
            assert(texts(names@)[i as int] == s@);
            return true;
        }
        i = i + 1;
    }
    assert(!texts(names@).contains(s@)) by {
        if texts(names@).contains(s@) {
            let k = choose|k: int| 0 <= k < texts(names@).len() && texts(names@)[k] == s@;
            assert(names@[k]@ == s@);
        }
    }
    false
}

/// The ASCII lower-case form of a character.
pub open spec fn ascii_lower(c: char) -> char {
    if 'A' <= c <= 'Z' {
        (c as u32 + 32) as char
    } else {
        c
    }
}

/// Equality that does not tell ASCII letters apart by case.
pub open spec fn same_ignoring_case(a: Seq<char>, b: Seq<char>) -> bool {
    a.len() == b.len() && forall|i: int|
        0 <= i < a.len() ==> ascii_lower(#[trigger] a[i]) == ascii_lower(b[i])
}

fn lower(c: char) -> (r: u32)
    ensures
        r == ascii_lower(c) as u32,
{
    let u: u32 = c as u32;
    if 'A' <= c && c <= 'Z' {
        u + 32
    } else {
        u
    }
}

/// Whether two texts are equal up to the case of ASCII letters.
pub fn same_text_ignoring_case(a: &str, b: &str) -> (r: bool)
    ensures
        r == same_ignoring_case(a@, b@),
{
    let x = chars_of(a);
    let y = chars_of(b);
    if x.len() != y.len() {
        return false;
    }
    let mut i: usize = 0;
    while i < x.len()
        invariant
            x@ == a@,
            y@ == b@,
            x@.len() == y@.len(),
            i <= x@.len(),
            forall|k: int| 0 <= k < i ==> ascii_lower(#[trigger] a@[k]) == ascii_lower(b@[k]),
        decreases x@.len() - i,
    {
        if lower(x[i]) != lower(y[i]) {
            assert(ascii_lower(a@[i as int]) != ascii_lower(b@[i as int]));
            return false;
        }
        i = i + 1;
    }
    true
}

// ---------------------------------------------------------------------------
// Decimal numbers
// ---------------------------------------------------------------------------

/// The character of a decimal digit.
pub open spec fn digit_char(d: nat) -> char {
    (('0' as u32) + d) as char
}

/// The decimal text of a number: no sign and no leading zero.
pub open spec fn decimal(n: nat) -> Seq<char>
    decreases n,
{
    if n < 10 {
        seq![digit_char(n)]
    } else {
        decimal(n / 10).push(digit_char(n % 10))
    }
}

/// The decimal text of a number that may be negative.
pub open spec fn signed_decimal(n: int) -> Seq<char> {
    if n < 0 {
        seq!['-'] + decimal((-n) as nat)
    } else {
        decimal(n as nat)
    }
}

/// Every character is a decimal digit.
pub open spec fn all_digits(s: Seq<char>) -> bool {
    forall|i: int| 0 <= i < s.len() ==> '0' <= #[trigger] s[i] <= '9'
}

/// The number that a row of digits stands for.
pub open spec fn digits_value(s: Seq<char>) -> nat
    decreases s.len(),
{
    if s.len() == 0 {
        0
    } else {
        digits_value(s.drop_last()) * 10 + (s.last() as u32 - '0' as u32) as nat
    }
}

/// The number that `s` writes down, where it is a row of digits, with a plus
/// sign before it or not, whose value is at most `max`.
pub open spec fn unsigned_value(s: Seq<char>, max: nat) -> Option<nat> {
    let body = if s.len() > 0 && s[0] == '+' {
        s.subrange(1, s.len() as int)
    } else {
        s
    };
    if body.len() > 0 && all_digits(body) && digits_value(body) <= max {
        Some(digits_value(body))
    } else {
        None
    }
}

/// The number that `s` writes down, where it is a row of digits, with a sign
/// before it or not, that lies in `min..=max`.
pub open spec fn signed_value(s: Seq<char>, min: int, max: int) -> Option<int> {
    let negative = s.len() > 0 && s[0] == '-';
    let body = if s.len() > 0 && (s[0] == '+' || s[0] == '-') {
        s.subrange(1, s.len() as int)
    } else {
        s
    };
    let n = if negative {
        -(digits_value(body) as int)
    } else {
        digits_value(body) as int
    };
    if body.len() > 0 && all_digits(body) && min <= n <= max {
        Some(n)
    } else {
        None
    }
}

proof fn lemma_digits_value_prefix(s: Seq<char>, i: int)
    requires
        0 <= i <= s.len(),
    ensures
        digits_value(s.take(i)) <= digits_value(s),
    decreases s.len() - i,
{
    if i == s.len() {
        assert(s.take(i) =~= s);
    } else {
        lemma_digits_value_prefix(s, i + 1);
        assert(s.take(i + 1).drop_last() =~= s.take(i));
    }
}

/// The value of the digits from `from` on, where it is at most `max`.
fn digits_from(v: &Vec<char>, from: usize, max: u64) -> (r: Option<u64>)
    requires
        from <= v@.len(),
    ensures
        ({
            let body = v@.subrange(from as int, v@.len() as int);
            match r {
                Some(n) => body.len() > 0 && all_digits(body) && n == digits_value(body) && n
                    <= max,
                None => !(body.len() > 0 && all_digits(body) && digits_value(body) <= max),
            }
        }),
{
    let ghost body = v@.subrange(from as int, v@.len() as int);
    if from == v.len() {
        return None;
    }
    let mut i: usize = from;
    let mut n: u64 = 0;
    while i < v.len()
        invariant
            from <= i <= v@.len(),
            body == v@.subrange(from as int, v@.len() as int),
            all_digits(body.take(i - from)),
            n == digits_value(body.take(i - from)),
            n <= max,
        decreases v@.len() - i,
    {
        let c: char = v[i];
        assert(body[i - from] == c);
        if !('0' <= c && c <= '9') {
            return None;
        }
        let d: u32 = c as u32 - '0' as u32;
        let wide: u128 = n as u128 * 10 + d as u128;
        proof {
            assert(body.take(i - from + 1).drop_last() =~= body.take(i - from));
            assert(body.take(i - from + 1).last() == c);
            assert(digits_value(body.take(i - from + 1)) == wide);
            lemma_digits_value_prefix(body, i - from + 1);
        }
        if wide > max as u128 {
            return None;
        }
        n = wide as u64;
        proof {
            assert forall|k: int| 0 <= k < i - from + 1 implies '0' <= #[trigger] body.take(
                i - from + 1,
            )[k] <= '9' by {
                if k < i - from {
                    assert(body.take(i - from)[k] == body[k]);
                }
            }
        }
        i = i + 1;
    }
    assert(body.take(body.len() as int) =~= body);
    Some(n)
}

/// Reads an unsigned number of at most `max`.
pub fn parse_unsigned(s: &str, max: u64) -> (r: Option<u64>)
    ensures
        match r {
            Some(n) => unsigned_value(s@, max as nat) == Some(n as nat),
            None => unsigned_value(s@, max as nat) is None,
        },
{
    let v = chars_of(s);
    if v.len() > 0 && v[0] == '+' {
        digits_from(&v, 1, max)
    } else {
        assert(v@.subrange(0, v@.len() as int) =~= v@);
        digits_from(&v, 0, max)
    }
}

/// Reads a number that fits `u32`.
pub fn parse_u32(s: &str) -> (r: Option<u32>)
    ensures
        match r {
            Some(n) => unsigned_value(s@, u32::MAX as nat) == Some(n as nat),
            None => unsigned_value(s@, u32::MAX as nat) is None,
        },
{
    match parse_unsigned(s, u32::MAX as u64) {
        Some(n) => Some(n as u32),
        None => None,
    }
}

/// Reads a signed decimal number between `-max - 1` and `max`.
pub fn parse_signed(s: &str, max: i64) -> (r: Option<i64>)
    requires
        0 <= max < i64::MAX,
    ensures
        match r {
            Some(n) => signed_value(s@, -max - 1, max as int) == Some(n as int) && -max - 1 <= n
                <= max,
            None => signed_value(s@, -max - 1, max as int) is None,
        },
{
    let v = chars_of(s);
    let top: u64 = max as u64;
    if v.len() > 0 && v[0] == '-' {
        match digits_from(&v, 1, top + 1) {
            Some(n) => Some((-(n as i128)) as i64),
            None => None,
        }
    } else if v.len() > 0 && v[0] == '+' {
        match digits_from(&v, 1, top) {
            Some(n) => Some(n as i64),
            None => None,
        }
    } else {
        assert(v@.subrange(0, v@.len() as int) =~= v@);
        match digits_from(&v, 0, top) {
            Some(n) => Some(n as i64),
            None => None,
        }
    }
}

/// Reads a number that fits `i8`.
pub fn parse_i8(s: &str) -> (r: Option<i8>)
    ensures
        match r {
            Some(n) => signed_value(s@, i8::MIN as int, i8::MAX as int) == Some(n as int),
            None => signed_value(s@, i8::MIN as int, i8::MAX as int) is None,
        },
{
    match parse_signed(s, 127) {
        Some(n) => Some(n as i8),
        None => None,
    }
}

/// Reads a number that fits `i32`.
pub fn parse_i32(s: &str) -> (r: Option<i32>)
    ensures
        match r {
            Some(n) => signed_value(s@, i32::MIN as int, i32::MAX as int) == Some(n as int),
            None => signed_value(s@, i32::MIN as int, i32::MAX as int) is None,
        },
{
    match parse_signed(s, 2147483647) {
        Some(n) => Some(n as i32),
        None => None,
    }
}

/// The decimal text of `n`.
pub fn format_u64(n: u64) -> (r: String)
    ensures
        r@ == decimal(n as nat),
{
    itoa_decimal(n)
}

/// The decimal text of `n`, with a minus sign where it is negative.
pub fn format_i64(n: i64) -> (r: String)
    ensures
        r@ == signed_decimal(n as int),
{
    if n < 0 {
        let mut r: String = String::new();
        r.push('-');
        let m: u64 = (-(n as i128)) as u64;
        let d = itoa_decimal(m);
        r.append(d.as_str());
        assert(r@ =~= seq!['-'] + decimal((-n) as nat));
        r
    } else {
        itoa_decimal(n as u64)
    }
}

/// The decimal text of a number is made of digits, is not empty, and its
/// value is that number.
pub proof fn decimal_is_digits(n: nat)
    ensures
        decimal(n).len() > 0,
        all_digits(decimal(n)),
        digits_value(decimal(n)) == n,
    decreases n,
{
    reveal_with_fuel(digits_value, 2);
    if n < 10 {
        assert(decimal(n).drop_last() =~= Seq::<char>::empty());
    } else {
        decimal_is_digits(n / 10);
        assert(decimal(n).drop_last() =~= decimal(n / 10));
        assert(decimal(n).last() == digit_char(n % 10));
        assert forall|i: int| 0 <= i < decimal(n).len() implies '0' <= #[trigger] decimal(n)[i]
            <= '9' by {
            if i < decimal(n / 10).len() {
                assert(decimal(n)[i] == decimal(n / 10)[i]);
            }
        }
    }
}

/// Reading the decimal text of a number gives the number back.
pub proof fn reading_undoes_writing(n: nat, max: nat)
    requires
        n <= max,
    ensures
        unsigned_value(decimal(n), max) == Some(n),
{
    decimal_is_digits(n);
    assert('0' <= decimal(n)[0] <= '9');
}

// ---------------------------------------------------------------------------
// Trimming
// ---------------------------------------------------------------------------

/// `s` without the whitespace at its start.
pub open spec fn trim_start(s: Seq<char>) -> Seq<char>
    decreases s.len(),
{
    if s.len() > 0 && is_unicode_space(s[0]) {
        trim_start(s.subrange(1, s.len() as int))
    } else {
        s
    }
}

/// `s` without the whitespace at its end.
pub open spec fn trim_end(s: Seq<char>) -> Seq<char>
    decreases s.len(),
{
    if s.len() > 0 && is_unicode_space(s.last()) {
        trim_end(s.drop_last())
    } else {
        s
    }
}

/// `s` without the whitespace at its start and its end.
pub open spec fn trim(s: Seq<char>) -> Seq<char> {
    trim_end(trim_start(s))
}

/// `s` without the NUL characters at its end.
pub open spec fn trim_nul(s: Seq<char>) -> Seq<char>
    decreases s.len(),
{
    if s.len() > 0 && s.last() == '\0' {
        trim_nul(s.drop_last())
    } else {
        s
    }
}

/// `s` without the whitespace around it.
pub fn trimmed(s: &str) -> (r: String)
    ensures
        r@ == trim(s@),
{
    let v = chars_of(s);
    let mut from: usize = 0;
    assert(v@.subrange(0, v@.len() as int) =~= v@);
    while from < v.len() && is_space(Space::Unicode, v[from])
        invariant
            from <= v@.len(),
            trim_start(v@) == trim_start(v@.subrange(from as int, v@.len() as int)),
        decreases v@.len() - from,
    {
        assert(v@.subrange(from as int, v@.len() as int).subrange(1, v@.len() - from)
            =~= v@.subrange(from + 1, v@.len() as int));
        from = from + 1;
    }
    let ghost start = v@.subrange(from as int, v@.len() as int);
    assert(trim_start(v@) == start);
    let mut to: usize = v.len();
    assert(start =~= v@.subrange(from as int, to as int));
    while from < to && is_space(Space::Unicode, v[to - 1])
        invariant
            from <= to <= v@.len(),
            trim_end(start) == trim_end(v@.subrange(from as int, to as int)),
        decreases to - from,
    {
        assert(v@.subrange(from as int, to as int).drop_last() =~= v@.subrange(
            from as int,
            to - 1,
        ));
        assert(v@.subrange(from as int, to as int).last() == v@[to - 1]);
        to = to - 1;
    }
    assert(from < to ==> v@.subrange(from as int, to as int).last() == v@[to - 1]);
    string_of(&v, from, to)
}

/// `s` without the NUL characters at its end.
pub fn trimmed_nul(s: &str) -> (r: String)
    ensures
        r@ == trim_nul(s@),
{
    let v = chars_of(s);
    let mut to: usize = v.len();
    assert(v@.subrange(0, to as int) =~= v@);
    while 0 < to && v[to - 1] == '\0'
        invariant
            to <= v@.len(),
            trim_nul(v@) == trim_nul(v@.subrange(0, to as int)),
        decreases to,
    {
        assert(v@.subrange(0, to as int).drop_last() =~= v@.subrange(0, to - 1));
        to = to - 1;
    }
    assert(0 < to ==> v@.subrange(0, to as int).last() == v@[to - 1]);
    string_of(&v, 0, to)
}

// ---------------------------------------------------------------------------
// Splitting and joining
// ---------------------------------------------------------------------------

/// The pieces of `s` between the separators; one more than there are
/// separators.
pub open spec fn split(s: Seq<char>, sep: char) -> Seq<Seq<char>>
    decreases s.len(),
{
    if s.len() == 0 {
        seq![Seq::<char>::empty()]
    } else {
        let done = split(s.drop_last(), sep);
        if s.last() == sep {
            done.push(Seq::<char>::empty())
        } else {
            done.drop_last().push(done.last().push(s.last()))
        }
    }
}

/// A line without the carriage return at its end.
pub open spec fn without_cr(s: Seq<char>) -> Seq<char> {
    if s.len() > 0 && s.last() == '\r' {
        s.drop_last()
    } else {
        s
    }
}

/// The lines of `s`: what a line feed ends, less a carriage return before it,
/// and what follows the last line feed, if anything does.
pub open spec fn lines(s: Seq<char>) -> Seq<Seq<char>> {
    let pieces = split(s, '\n');
    let ended = Seq::new((pieces.len() - 1) as nat, |i: int| without_cr(pieces[i]));
    if pieces.last().len() == 0 {
        ended
    } else {
        ended.push(pieces.last())
    }
}

/// The maximal runs of characters that are no separators.
pub open spec fn words(s: Seq<char>, kind: Space) -> Seq<Seq<char>>
    decreases s.len(),
{
    if s.len() == 0 {
        Seq::empty()
    } else {
        let head = s.drop_last();
        let done = words(head, kind);
        if space_char(kind, s.last()) {
            done
        } else if head.len() > 0 && !space_char(kind, head.last()) {
            done.drop_last().push(done.last().push(s.last()))
        } else {
            done.push(seq![s.last()])
        }
    }
}

/// The parts one after another, with `sep` between each two.
pub open spec fn join(parts: Seq<Seq<char>>, sep: Seq<char>) -> Seq<char>
    decreases parts.len(),
{
    if parts.len() == 0 {
        Seq::empty()
    } else if parts.len() == 1 {
        parts[0]
    } else {
        join(parts.drop_last(), sep) + sep + parts.last()
    }
}

proof fn lemma_split_nonempty(s: Seq<char>, sep: char)
    ensures
        split(s, sep).len() > 0,
    decreases s.len(),
{
    if s.len() > 0 {
        lemma_split_nonempty(s.drop_last(), sep);
    }
}

/// Splits at every separator.
pub fn split_at_char(s: &str, sep: char) -> (r: Vec<String>)
    ensures
        texts(r@) == split(s@, sep),
{
    let v = chars_of(s);
    let mut r: Vec<String> = Vec::new();
    let mut from: usize = 0;
    let mut i: usize = 0;
    assert(v@.take(0) =~= Seq::empty());
    assert(texts(r@).push(v@.subrange(0, 0)) =~= split(v@.take(0), sep));
    while i < v.len()
        invariant
            from <= i <= v@.len(),
            texts(r@).push(v@.subrange(from as int, i as int)) == split(v@.take(i as int), sep),
        decreases v@.len() - i,
    {
        let ghost done = split(v@.take(i as int), sep);
        proof {
            assert(v@.take(i + 1).drop_last() =~= v@.take(i as int));
            assert(v@.take(i + 1).last() == v@[i as int]);
            assert(done.drop_last() =~= texts(r@));
            assert(done.last() == v@.subrange(from as int, i as int));
        }
        if v[i] == sep {
            let piece = string_of(&v, from, i);
            let ghost before = texts(r@);
            r.push(piece);
            from = i + 1;
            assert(texts(r@) =~= done);
            assert(v@.subrange(from as int, i + 1) =~= Seq::empty());
        } else {
            assert(v@.subrange(from as int, i + 1) =~= v@.subrange(from as int, i as int).push(
                v@[i as int],
            ));
        }
        i = i + 1;
        assert(texts(r@).push(v@.subrange(from as int, i as int)) =~= split(
            v@.take(i as int),
            sep,
        ));
    }
    assert(v@.take(v@.len() as int) =~= v@);
    let piece = string_of(&v, from, i);
    let ghost before = r@;
    r.push(piece);
    assert(texts(r@) =~= texts(before).push(piece@));
    r
}

/// A copy of `s` without the carriage return at its end.
fn drop_cr(s: &str) -> (r: String)
    ensures
        r@ == without_cr(s@),
{
    let v = chars_of(s);
    if v.len() > 0 && v[v.len() - 1] == '\r' {
        let r = string_of(&v, 0, v.len() - 1);
        assert(r@ =~= s@.drop_last());
        r
    } else {
        owned(s)
    }
}

/// Splits into lines.
pub fn split_lines(s: &str) -> (r: Vec<String>)
    ensures
        texts(r@) == lines(s@),
{
    let pieces = split_at_char(s, '\n');
    let ghost all = split(s@, '\n');
    proof {
        lemma_split_nonempty(s@, '\n');
        assert(texts(pieces@).len() == pieces@.len());
    }
    let last: usize = pieces.len() - 1;
    let mut r: Vec<String> = Vec::new();
    let mut i: usize = 0;
    while i < last
        invariant
            texts(pieces@) == all,
            pieces@.len() == last + 1,
            i <= last,
            r@.len() == i,
            forall|k: int| 0 <= k < i ==> r@[k]@ == without_cr(all[k]),
        decreases last - i,
    {
        assert(all[i as int] == pieces@[i as int]@);
        r.push(drop_cr(pieces[i].as_str()));
        i = i + 1;
    }
    assert(all.last() == pieces@[last as int]@);
    if !pieces[last].as_str().is_empty() {
        r.push(owned(pieces[last].as_str()));
    }
    assert(texts(r@) =~= lines(s@));
    r
}

/// Splits into words.
pub fn split_words(s: &str, kind: Space) -> (r: Vec<String>)
    ensures
        texts(r@) == words(s@, kind),
{
    let v = chars_of(s);
    let mut r: Vec<String> = Vec::new();
    let mut i: usize = 0;
    assert(v@.take(0) =~= Seq::empty());
    assert(texts(r@) =~= words(v@.take(0), kind));
    while i < v.len()
        invariant
            i <= v@.len(),
            i > 0 ==> space_char(kind, v@[i - 1]) || i == v@.len(),
            texts(r@) == words(v@.take(i as int), kind),
        decreases v@.len() - i,
    {
        if is_space(kind, v[i]) {
            assert(v@.take(i + 1).drop_last() =~= v@.take(i as int));
            i = i + 1;
        } else {
            let from: usize = i;
            let ghost done = words(v@.take(from as int), kind);
            assert(v@.take(i + 1).drop_last() =~= v@.take(i as int));
            assert(from > 0 ==> v@.take(from as int).last() == v@[from - 1]);
            assert(v@.subrange(from as int, i + 1) =~= seq![v@[i as int]]);
            i = i + 1;
            while i < v.len() && !is_space(kind, v[i])
                invariant
                    from < i <= v@.len(),
                    !space_char(kind, v@[i - 1]),
                    words(v@.take(i as int), kind) == done.push(
                        v@.subrange(from as int, i as int),
                    ),
                decreases v@.len() - i,
            {
                proof {
                    assert(v@.take(i + 1).drop_last() =~= v@.take(i as int));
                    assert(v@.take(i as int).last() == v@[i - 1]);
                    assert(v@.subrange(from as int, i + 1) =~= v@.subrange(
                        from as int,
                        i as int,
                    ).push(v@[i as int]));
                    assert(words(v@.take(i as int), kind).drop_last() =~= done);
                }
                i = i + 1;
            }
            let ghost before = r@;
            let piece = string_of(&v, from, i);
            r.push(piece);
            assert(texts(r@) =~= texts(before).push(piece@));
            if i < v.len() {
                assert(v@.take(i + 1).drop_last() =~= v@.take(i as int));
                i = i + 1;
            }
        }
    }
    assert(v@.take(v@.len() as int) =~= v@);
    r
}

/// Joins the parts with `sep` between them.
pub fn join_with(parts: &Vec<String>, sep: &str) -> (r: String)
    ensures
        r@ == join(texts(parts@), sep@),
{
    let mut r: String = String::new();
    let mut i: usize = 0;
    let ghost all = texts(parts@);
    assert(all.take(0) =~= Seq::empty());
    while i < parts.len()
        invariant
            i <= parts@.len(),
            all == texts(parts@),
            r@ == join(all.take(i as int), sep@),
        decreases parts@.len() - i,
    {
        assert(all.take(i + 1).drop_last() =~= all.take(i as int));
        if i > 0 {
            r.append(sep);
        } else {
            assert(r@ =~= Seq::empty());
        }
        let ghost before = r@;
        r.append(parts[i].as_str());
        assert(i == 0 ==> r@ =~= all[0]);
        i = i + 1;
    }
    assert(all.take(all.len() as int) =~= all);
    r
}

// ---------------------------------------------------------------------------
// Copies
// ---------------------------------------------------------------------------

/// A copy of a text, if there is one.
pub fn owned_opt(s: &Option<String>) -> (r: Option<String>)
    ensures
        opt_text(r) == opt_text(*s),
        r is Some == s is Some,
{
    match s {
        Some(t) => Some(owned(t.as_str())),
        None => None,
    }
}

/// A copy of a list of texts.
pub fn owned_all(v: &Vec<String>) -> (r: Vec<String>)
    ensures
        texts(r@) == texts(v@),
        r@.len() == v@.len(),
{
    let mut r: Vec<String> = Vec::new();
    let mut i: usize = 0;
    while i < v.len()
        invariant
            i <= v@.len(),
            r@.len() == i,
            forall|k: int| 0 <= k < i ==> (#[trigger] r@[k])@ == v@[k]@,
        decreases v@.len() - i,
    {
        r.push(owned(v[i].as_str()));
        i = i + 1;
    }
    assert(texts(r@) =~= texts(v@));
    r
}

/// The first position of `c` in `s` at or after `i`, or the length of `s`.
pub open spec fn position_from(s: Seq<char>, c: char, i: int) -> int
    decreases s.len() - i,
{
    if i >= s.len() {
        s.len() as int
    } else if s[i] == c {
        i
    } else {
        position_from(s, c, i + 1)
    }
}

/// What stands before the first `sep`, and what stands after it.
pub open spec fn split_once(s: Seq<char>, sep: char) -> (Seq<char>, Seq<char>) {
    let at = position_from(s, sep, 0);
    if at < s.len() {
        (s.subrange(0, at), s.subrange(at + 1, s.len() as int))
    } else {
        (s, Seq::empty())
    }
}

/// Splits a text at the first `sep`. Without one, the second part is empty.
pub fn split_at_first(s: &str, sep: char) -> (r: (String, String))
    ensures
        (r.0@, r.1@) == split_once(s@, sep),
{
    let v = chars_of(s);
    let mut at: usize = 0;
    while at < v.len() && v[at] != sep
        invariant
            v@ == s@,
            at <= v@.len(),
            position_from(s@, sep, 0) == position_from(s@, sep, at as int),
        decreases v@.len() - at,
    {
        at = at + 1;
    }
    if at < v.len() {
        (string_of(&v, 0, at), string_of(&v, at + 1, v.len()))
    } else {
        assert(s@.subrange(0, s@.len() as int) =~= s@);
        (string_of(&v, 0, at), String::new())
    }
}

// ---------------------------------------------------------------------------
// Columns
// ---------------------------------------------------------------------------

/// A run of one character.
pub open spec fn repeated(c: char, n: nat) -> Seq<char> {
    Seq::new(n, |i: int| c)
}

/// A text in a column: filled up with spaces at its end.
pub open spec fn left_column(s: Seq<char>, width: nat) -> Seq<char> {
    if s.len() < width {
        s + repeated(' ', (width - s.len()) as nat)
    } else {
        s
    }
}

/// A text filled up at its front.
pub open spec fn right_column(s: Seq<char>, width: nat, fill: char) -> Seq<char> {
    if s.len() < width {
        repeated(fill, (width - s.len()) as nat) + s
    } else {
        s
    }
}

/// Appends a character `n` times.
pub fn append_run(s: &mut String, c: char, n: usize)
    ensures
        final(s)@ == old(s)@ + repeated(c, n as nat),
{
    let mut i: usize = 0;
    assert(s@ =~= old(s)@ + repeated(c, 0));
    while i < n
        invariant
            i <= n,
            s@ == old(s)@ + repeated(c, i as nat),
        decreases n - i,
    {
        s.push(c);
        i = i + 1;
        assert(s@ =~= old(s)@ + repeated(c, i as nat));
    }
}

/// Appends a text as a left-aligned column.
pub fn append_left(out: &mut String, s: &str, width: usize)
    ensures
        final(out)@ == old(out)@ + left_column(s@, width as nat),
{
    let v = chars_of(s);
    out.append(s);
    if v.len() < width {
        append_run(out, ' ', width - v.len());
    }
    assert(out@ =~= old(out)@ + left_column(s@, width as nat));
}

/// Appends a text as a right-aligned column.
pub fn append_right(out: &mut String, s: &str, width: usize, fill: char)
    ensures
        final(out)@ == old(out)@ + right_column(s@, width as nat, fill),
{
    let v = chars_of(s);
    if v.len() < width {
        append_run(out, fill, width - v.len());
    }
    out.append(s);
    assert(out@ =~= old(out)@ + right_column(s@, width as nat, fill));
}

// ---------------------------------------------------------------------------
// Laws
// ---------------------------------------------------------------------------

/// What stands before a text, after it, or round it, does not hide it: a text
/// is found at the beginning, at the end, and within.
pub proof fn parts_are_found(a: Seq<char>, p: Seq<char>, b: Seq<char>)
    ensures
        starts_with(p + b, p),
        strip_prefix(p + b, p) == Some(b),
        ends_with(a + p, p),
        without_suffix(a + p, p) == a,
        contains(a + p + b, p),
{
    assert((p + b).subrange(0, p.len() as int) =~= p);
    assert((p + b).subrange(p.len() as int, (p + b).len() as int) =~= b);
    assert((a + p).subrange(a.len() as int, (a + p).len() as int) =~= p);
    assert((a + p).subrange(0, a.len() as int) =~= a);
    assert((a + p + b).subrange(a.len() as int, (a.len() + p.len()) as int) =~= p);
    assert(stands_at(a + p + b, p, a.len() as int));
}

/// What is found is there: the text is the part that was found and what stands
/// round it.
pub proof fn found_parts_are_there(s: Seq<char>, p: Seq<char>)
    ensures
        starts_with(s, p) ==> s == p + s.skip(p.len() as int),
        ends_with(s, p) ==> s == s.take(s.len() - p.len()) + p,
        contains(s, p) ==> exists|i: int|
            0 <= i <= s.len() - p.len() && s == #[trigger] s.take(i) + p + s.skip(i + p.len()),
        strip_prefix(s, p) is None <==> !starts_with(s, p),
        strip_prefix(s, p) matches Some(rest) ==> s == p + rest,
        !ends_with(s, p) ==> without_suffix(s, p) == s,
{
    if starts_with(s, p) {
        assert(s =~= s.subrange(0, p.len() as int) + s.skip(p.len() as int));
        assert(s.subrange(p.len() as int, s.len() as int) =~= s.skip(p.len() as int));
    }
    if ends_with(s, p) {
        assert(s =~= s.take(s.len() - p.len()) + s.subrange(
            s.len() - p.len(),
            s.len() as int,
        ));
    }
    if contains(s, p) {
        let i = choose|at: int| stands_at(s, p, at);
        assert(s =~= s.take(i) + s.subrange(i, i + p.len()) + s.skip(i + p.len()));
    }
}

/// Letters, digits and punctuation are no spaces; the blank, the tab and the
/// ends of lines are, of either kind.
pub proof fn spaces_are_blank(c: char, kind: Space)
    ensures
        space_char(kind, ' '),
        space_char(kind, '\t'),
        space_char(kind, '\n'),
        space_char(kind, '\r'),
        '!' <= c <= '~' ==> !space_char(kind, c),
        c == '\0' ==> !space_char(kind, c),
{
}

proof fn lemma_trim_start(before: Seq<char>, s: Seq<char>)
    requires
        forall|i: int| 0 <= i < before.len() ==> is_unicode_space(#[trigger] before[i]),
        s.len() > 0 ==> !is_unicode_space(s[0]),
    ensures
        trim_start(before + s) == s,
    decreases before.len(),
{
    if before.len() == 0 {
        assert(before + s =~= s);
    } else {
        let rest = before.skip(1);
        assert forall|i: int| 0 <= i < rest.len() implies is_unicode_space(#[trigger] rest[i]) by {
            assert(rest[i] == before[i + 1]);
        }
        lemma_trim_start(rest, s);
        assert((before + s)[0] == before[0]);
        assert((before + s).subrange(1, (before + s).len() as int) =~= rest + s);
    }
}

proof fn lemma_trim_end(s: Seq<char>, after: Seq<char>)
    requires
        forall|i: int| 0 <= i < after.len() ==> is_unicode_space(#[trigger] after[i]),
        s.len() > 0 ==> !is_unicode_space(s.last()),
    ensures
        trim_end(s + after) == s,
    decreases after.len(),
{
    if after.len() == 0 {
        assert(s + after =~= s);
    } else {
        let rest = after.drop_last();
        assert forall|i: int| 0 <= i < rest.len() implies is_unicode_space(#[trigger] rest[i]) by {
            assert(rest[i] == after[i]);
        }
        lemma_trim_end(s, rest);
        assert((s + after).last() == after.last());
        assert(is_unicode_space(after[after.len() - 1]));
        assert((s + after).drop_last() =~= s + rest);
    }
}

/// Trimming takes away the spaces at both ends and nothing else.
pub proof fn trimming_takes_the_spaces(before: Seq<char>, s: Seq<char>, after: Seq<char>)
    requires
        forall|i: int| 0 <= i < before.len() ==> is_unicode_space(#[trigger] before[i]),
        forall|i: int| 0 <= i < after.len() ==> is_unicode_space(#[trigger] after[i]),
        s.len() > 0 ==> !is_unicode_space(s[0]) && !is_unicode_space(s.last()),
    ensures
        trim(before + s + after) == s,
{
    if s.len() > 0 {
        assert(before + s + after =~= before + (s + after));
        assert((s + after)[0] == s[0]);
        lemma_trim_start(before, s + after);
        lemma_trim_end(s, after);
    } else {
        let all = before + after;
        assert(before + s + after =~= all + Seq::<char>::empty());
        assert forall|i: int| 0 <= i < all.len() implies is_unicode_space(#[trigger] all[i]) by {
            if i < before.len() {
                assert(all[i] == before[i]);
            } else {
                assert(all[i] == after[i - before.len()]);
            }
        }
        lemma_trim_start(all, Seq::empty());
        assert(s =~= Seq::<char>::empty());
    }
}

/// What is left after trimming has no space at its ends, and stands in the
/// text as it is.
pub proof fn trimmed_text_has_no_spaces_around(s: Seq<char>)
    ensures
        trim(s).len() > 0 ==> !is_unicode_space(trim(s)[0]) && !is_unicode_space(trim(s).last()),
        contains(s, trim(s)),
{
    lemma_trim_start_part(s);
    lemma_trim_end_part(trim_start(s));
    let t = trim_start(s);
    let r = trim(s);
    let k = s.len() - t.len();
    assert(s.subrange(k, k + r.len()) =~= r) by {
        assert forall|i: int| 0 <= i < r.len() implies s.subrange(k, k + r.len())[i] == r[i] by {
            assert(r[i] == t[i]);
            assert(t[i] == s[k + i]);
        }
    }
    assert(stands_at(s, r, k));
}

proof fn lemma_trim_start_part(s: Seq<char>)
    ensures
        trim_start(s).len() <= s.len(),
        trim_start(s) == s.skip(s.len() - trim_start(s).len()),
        trim_start(s).len() > 0 ==> !is_unicode_space(trim_start(s)[0]),
    decreases s.len(),
{
    if s.len() > 0 && is_unicode_space(s[0]) {
        let rest = s.subrange(1, s.len() as int);
        lemma_trim_start_part(rest);
        assert(rest.skip(rest.len() - trim_start(rest).len()) =~= s.skip(
            s.len() - trim_start(rest).len(),
        ));
    } else {
        assert(s.skip(0) =~= s);
    }
}

proof fn lemma_trim_end_part(s: Seq<char>)
    ensures
        trim_end(s).len() <= s.len(),
        trim_end(s) == s.take(trim_end(s).len() as int),
        trim_end(s).len() > 0 ==> !is_unicode_space(trim_end(s).last()),
    decreases s.len(),
{
    if s.len() > 0 && is_unicode_space(s.last()) {
        let rest = s.drop_last();
        lemma_trim_end_part(rest);
        assert(rest.take(trim_end(rest).len() as int) =~= s.take(trim_end(rest).len() as int));
    } else {
        assert(s.take(s.len() as int) =~= s);
    }
}

/// Trimming zero characters takes those at the end and nothing else.
pub proof fn trimming_takes_the_zeros(s: Seq<char>, n: nat)
    requires
        s.len() > 0 ==> s.last() != '\0',
    ensures
        trim_nul(s + repeated('\0', n)) == s,
    decreases n,
{
    let all = s + repeated('\0', n);
    if n == 0 {
        assert(all =~= s);
    } else {
        trimming_takes_the_zeros(s, (n - 1) as nat);
        assert(all.last() == '\0');
        assert(all.drop_last() =~= s + repeated('\0', (n - 1) as nat));
    }
}

/// A text without the separator is one piece, and the pieces of two texts with
/// a separator between them are those of the first and those of the second.
pub proof fn separators_part_the_pieces(a: Seq<char>, b: Seq<char>, sep: char)
    ensures
        !a.contains(sep) ==> split(a, sep) == seq![a],
        split(a.push(sep) + b, sep) == split(a, sep) + split(b, sep),
{
    lemma_split_plain(a, sep);
    lemma_split_concat(a, b, sep);
}

proof fn lemma_split_plain(a: Seq<char>, sep: char)
    ensures
        !a.contains(sep) ==> split(a, sep) == seq![a],
    decreases a.len(),
{
    if a.len() == 0 {
        assert(a =~= Seq::<char>::empty());
    } else if !a.contains(sep) {
        let head = a.drop_last();
        assert(!head.contains(sep)) by {
            if head.contains(sep) {
                let i = choose|i: int| 0 <= i < head.len() && head[i] == sep;
                assert(a[i] == sep);
            }
        }
        lemma_split_plain(head, sep);
        assert(a[a.len() - 1] == a.last());
        assert(head.push(a.last()) =~= a);
        assert(split(a, sep) =~= seq![a]);
    }
}

proof fn lemma_split_concat(a: Seq<char>, b: Seq<char>, sep: char)
    ensures
        split(a.push(sep) + b, sep) == split(a, sep) + split(b, sep),
    decreases b.len(),
{
    let all = a.push(sep) + b;
    if b.len() == 0 {
        assert(all =~= a.push(sep));
        assert(all.drop_last() =~= a);
        assert(split(all, sep) =~= split(a, sep) + split(b, sep));
    } else {
        let head = b.drop_last();
        lemma_split_concat(a, head, sep);
        lemma_split_nonempty(head, sep);
        assert(all.drop_last() =~= a.push(sep) + head);
        assert(all.last() == b.last());
        let done = split(head, sep);
        let both = split(a, sep) + done;
        assert(both.last() == done.last());
        assert(both.drop_last() =~= split(a, sep) + done.drop_last());
        assert(split(all, sep) =~= split(a, sep) + split(b, sep));
    }
}

/// No piece holds the separator, and joined with it the pieces are the text
/// again.
pub proof fn joining_undoes_splitting(s: Seq<char>, sep: char, i: int)
    requires
        0 <= i < split(s, sep).len(),
    ensures
        !split(s, sep)[i].contains(sep),
        join(split(s, sep), seq![sep]) == s,
{
    lemma_join_split(s, sep);
    lemma_pieces_plain(s, sep, i);
}

proof fn lemma_pieces_plain(s: Seq<char>, sep: char, i: int)
    requires
        0 <= i < split(s, sep).len(),
    ensures
        !split(s, sep)[i].contains(sep),
    decreases s.len(),
{
    if s.len() > 0 {
        let head = s.drop_last();
        let done = split(head, sep);
        lemma_split_nonempty(head, sep);
        if s.last() == sep {
            if i < done.len() {
                lemma_pieces_plain(head, sep, i);
            }
        } else {
            lemma_pieces_plain(head, sep, i);
            if i == done.len() - 1 {
                let piece = done.last();
                assert(split(s, sep)[i] == piece.push(s.last()));
                if piece.push(s.last()).contains(sep) {
                    let k = choose|k: int|
                        0 <= k < piece.push(s.last()).len() && piece.push(s.last())[k] == sep;
                    if k < piece.len() {
                        assert(piece[k] == sep);
                    }
                }
            }
        }
    }
}

proof fn lemma_join_split(s: Seq<char>, sep: char)
    ensures
        join(split(s, sep), seq![sep]) == s,
    decreases s.len(),
{
    if s.len() == 0 {
        assert(split(s, sep)[0] =~= s);
    } else {
        let head = s.drop_last();
        let done = split(head, sep);
        let all = split(s, sep);
        lemma_join_split(head, sep);
        lemma_split_nonempty(head, sep);
        if s.last() == sep {
            assert(all.drop_last() =~= done);
            assert(all.last() =~= Seq::<char>::empty());
            assert(s =~= head + seq![sep] + Seq::<char>::empty());
        } else {
            assert(all.drop_last() =~= done.drop_last());
            assert(all.last() == done.last().push(s.last()));
            assert(s =~= head.push(s.last()));
            if done.len() == 1 {
                assert(all[0] == done[0].push(s.last()));
            } else {
                let front = join(done.drop_last(), seq![sep]) + seq![sep];
                assert(front + done.last().push(s.last()) =~= (front + done.last()).push(
                    s.last(),
                ));
            }
        }
    }
}

/// Joining puts the separator between two parts and nowhere else.
pub proof fn joining_separates_the_parts(parts: Seq<Seq<char>>, p: Seq<char>, sep: Seq<char>)
    ensures
        join(Seq::empty(), sep) == Seq::<char>::empty(),
        join(seq![p], sep) == p,
        parts.len() > 0 ==> join(parts.push(p), sep) == join(parts, sep) + sep + p,
{
    if parts.len() > 0 {
        assert(parts.push(p).drop_last() =~= parts);
    }
}

/// A text without spaces is one word, and the words of two texts with a space
/// between them are those of the first and those of the second.
pub proof fn spaces_part_the_words(a: Seq<char>, space: char, b: Seq<char>, kind: Space)
    requires
        space_char(kind, space),
    ensures
        a.len() > 0 && (forall|i: int| 0 <= i < a.len() ==> !space_char(kind, #[trigger] a[i]))
            ==> words(a, kind) == seq![a],
        words(Seq::empty(), kind) == Seq::<Seq<char>>::empty(),
        words(a.push(space) + b, kind) == words(a, kind) + words(b, kind),
{
    if a.len() > 0 && (forall|i: int| 0 <= i < a.len() ==> !space_char(kind, #[trigger] a[i])) {
        lemma_words_plain(a, kind);
    }
    lemma_words_concat(a, space, b, kind);
}

proof fn lemma_words_nonempty(s: Seq<char>, kind: Space)
    requires
        s.len() > 0,
        !space_char(kind, s.last()),
    ensures
        words(s, kind).len() > 0,
{
}

proof fn lemma_words_plain(a: Seq<char>, kind: Space)
    requires
        a.len() > 0,
        forall|i: int| 0 <= i < a.len() ==> !space_char(kind, #[trigger] a[i]),
    ensures
        words(a, kind) == seq![a],
    decreases a.len(),
{
    let head = a.drop_last();
    assert(!space_char(kind, a[a.len() - 1]));
    if head.len() == 0 {
        assert(words(head, kind) =~= Seq::<Seq<char>>::empty());
        assert(seq![a.last()] =~= a);
        assert(words(a, kind) =~= seq![a]);
    } else {
        assert forall|i: int| 0 <= i < head.len() implies !space_char(kind, #[trigger] head[i]) by {
            assert(head[i] == a[i]);
        }
        lemma_words_plain(head, kind);
        assert(!space_char(kind, head[head.len() - 1]));
        assert(head.push(a.last()) =~= a);
        assert(words(a, kind) =~= seq![a]);
    }
}

proof fn lemma_words_concat(a: Seq<char>, space: char, b: Seq<char>, kind: Space)
    requires
        space_char(kind, space),
    ensures
        words(a.push(space) + b, kind) == words(a, kind) + words(b, kind),
    decreases b.len(),
{
    let all = a.push(space) + b;
    if b.len() == 0 {
        assert(all =~= a.push(space));
        assert(all.drop_last() =~= a);
        assert(words(all, kind) =~= words(a, kind) + words(b, kind));
    } else {
        let head = b.drop_last();
        lemma_words_concat(a, space, head, kind);
        assert(all.drop_last() =~= a.push(space) + head);
        assert(all.last() == b.last());
        let done = words(head, kind);
        let both = words(a, kind) + done;
        if head.len() > 0 {
            assert(all.drop_last().last() == head.last());
            if !space_char(kind, head.last()) {
                lemma_words_nonempty(head, kind);
                assert(both.last() == done.last());
                assert(both.drop_last() =~= words(a, kind) + done.drop_last());
            }
        } else {
            assert(all.drop_last().last() == space);
        }
        assert(words(all, kind) =~= words(a, kind) + words(b, kind));
    }
}

/// Each line break ends a line, with the carriage return before it if there is
/// one; what follows the last line break is a line too unless it is empty.
pub proof fn line_breaks_end_the_lines(line: Seq<char>, rest: Seq<char>)
    requires
        !line.contains('\n'),
    ensures
        lines(Seq::empty()) == Seq::<Seq<char>>::empty(),
        line.len() > 0 ==> lines(line) == seq![line],
        line.len() > 0 && line.last() == '\r' ==> lines(line.push('\n') + rest) == seq![
            line.drop_last(),
        ] + lines(rest),
        line.len() == 0 || line.last() != '\r' ==> lines(line.push('\n') + rest) == seq![line]
            + lines(rest),
{
    lemma_split_plain(Seq::empty(), '\n');
    lemma_split_plain(line, '\n');
    lemma_split_concat(line, rest, '\n');
    lemma_split_nonempty(rest, '\n');
    assert(lines(Seq::empty()) =~= Seq::<Seq<char>>::empty());
    if line.len() > 0 {
        assert(split(line, '\n').last() == line);
        assert(lines(line) =~= seq![line]);
    }
    let pieces = split(rest, '\n');
    let all = split(line.push('\n') + rest, '\n');
    assert(all =~= seq![line] + pieces);
    assert(all.last() == pieces.last());
    assert(lines(line.push('\n') + rest) =~= seq![without_cr(line)] + lines(rest));
}

/// The first separator parts a text; without one the second part is empty.
pub proof fn first_separator_parts(a: Seq<char>, b: Seq<char>, sep: char)
    requires
        !a.contains(sep),
    ensures
        split_once(a.push(sep) + b, sep) == (a, b),
        split_once(a, sep) == (a, Seq::<char>::empty()),
{
    let s = a.push(sep) + b;
    lemma_position(s, sep, 0, a.len() as int);
    assert(s.subrange(0, a.len() as int) =~= a);
    assert(s.subrange((a.len() + 1) as int, s.len() as int) =~= b);
    lemma_position(a, sep, 0, a.len() as int);
}

proof fn lemma_position(s: Seq<char>, c: char, i: int, at: int)
    requires
        0 <= i <= at <= s.len(),
        forall|k: int| i <= k < at ==> #[trigger] s[k] != c,
        at < s.len() ==> s[at] == c,
    ensures
        position_from(s, c, i) == at,
    decreases at - i,
{
    if i < at {
        lemma_position(s, c, i + 1, at);
    }
}

/// Two texts are the same but for case exactly if they agree character by
/// character, save that one may have the small and the other the capital
/// letter.
pub proof fn case_is_ignored_for_letters(a: Seq<char>, b: Seq<char>)
    ensures
        same_ignoring_case(a, b) <==> a.len() == b.len() && forall|i: int|
            0 <= i < a.len() ==> {
                ||| #[trigger] a[i] == b[i]
                ||| 'A' <= a[i] <= 'Z' && b[i] as u32 == a[i] as u32 + 32
                ||| 'A' <= b[i] <= 'Z' && a[i] as u32 == b[i] as u32 + 32
            },
{
    if a.len() == b.len() {
        assert forall|i: int| 0 <= i < a.len() implies (ascii_lower(#[trigger] a[i])
            == ascii_lower(b[i]) <==> {
            ||| a[i] == b[i]
            ||| 'A' <= a[i] <= 'Z' && b[i] as u32 == a[i] as u32 + 32
            ||| 'A' <= b[i] <= 'Z' && a[i] as u32 == b[i] as u32 + 32
        }) by {
            lemma_lower(a[i], b[i]);
        }
    }
}

proof fn lemma_lower(c: char, d: char)
    ensures
        ascii_lower(c) == ascii_lower(d) <==> {
            ||| c == d
            ||| 'A' <= c <= 'Z' && d as u32 == c as u32 + 32
            ||| 'A' <= d <= 'Z' && c as u32 == d as u32 + 32
        },
{
}

/// The text of a number is made of its digits, the last of them the units, and
/// has no zero in front.
pub proof fn digits_are_in_place(q: nat, d: nat, s: Seq<char>, c: char)
    requires
        d < 10,
        '0' <= c <= '9',
    ensures
        decimal(d).len() == 1,
        decimal(d)[0] as u32 == 48 + d,
        q > 0 ==> decimal(10 * q + d) == decimal(q) + decimal(d),
        decimal(q)[0] == '0' ==> q == 0,
        digits_value(Seq::empty()) == 0,
        digits_value(s.push(c)) == 10 * digits_value(s) + (c as u32 - 48),
    decreases q,
{
    assert(s.push(c).drop_last() =~= s);
    if q > 0 {
        assert((10 * q + d) / 10 == q && (10 * q + d) % 10 == d);
        assert(decimal(10 * q + d) =~= decimal(q) + decimal(d));
    }
    if q >= 10 {
        digits_are_in_place(q / 10, d, s, c);
        decimal_is_digits(q / 10);
        assert(decimal(q)[0] == decimal(q / 10)[0]);
    }
}

/// A number is read exactly from a text of digits, after a plus sign or none,
/// if it is not beyond the bound.
pub proof fn only_digits_are_numbers(s: Seq<char>, max: nat, n: nat)
    ensures
        s.len() > 0 && all_digits(s) && digits_value(s) <= max ==> unsigned_value(s, max) == Some(
            digits_value(s),
        ) && unsigned_value(seq!['+'] + s, max) == Some(digits_value(s)),
        unsigned_value(s, max) == Some(n) ==> n <= max && s.len() > 0 && (s[0] == '+' || '0' <= s[0]
            <= '9') && forall|i: int| 1 <= i < s.len() ==> '0' <= #[trigger] s[i] <= '9',
        unsigned_value(Seq::empty(), max) is None,
        unsigned_value(seq!['+'], max) is None,
        n > max ==> unsigned_value(decimal(n), max) is None,
{
    if s.len() > 0 && all_digits(s) {
        assert('0' <= s[0] <= '9');
        assert((seq!['+'] + s).subrange(1, (s.len() + 1) as int) =~= s);
    }
    if unsigned_value(s, max) == Some(n) {
        if s[0] == '+' {
            let body = s.subrange(1, s.len() as int);
            assert forall|i: int| 1 <= i < s.len() implies '0' <= #[trigger] s[i] <= '9' by {
                assert(body[i - 1] == s[i]);
            }
        } else {
            assert('0' <= s[0] <= '9');
        }
    }
    assert(seq!['+'].subrange(1, 1).len() == 0);
    decimal_is_digits(n);
    assert('0' <= decimal(n)[0] <= '9');
}

/// What was written of a signed number is read back as that number, exactly if
/// it is within the bounds.
pub proof fn reading_undoes_signed_writing(n: int, min: int, max: int)
    ensures
        min <= n <= max ==> signed_value(signed_decimal(n), min, max) == Some(n),
        !(min <= n <= max) ==> signed_value(signed_decimal(n), min, max) is None,
        n >= 0 ==> signed_value(seq!['+'] + decimal(n as nat), min, max) == signed_value(
            decimal(n as nat),
            min,
            max,
        ),
        n >= 0 ==> signed_decimal(n) == decimal(n as nat),
        n < 0 ==> signed_decimal(n) == seq!['-'] + decimal((-n) as nat),
{
    let digits = decimal(if n < 0 {
        (-n) as nat
    } else {
        n as nat
    });
    decimal_is_digits(if n < 0 {
        (-n) as nat
    } else {
        n as nat
    });
    assert('0' <= digits[0] <= '9');
    assert((seq!['-'] + digits).subrange(1, (digits.len() + 1) as int) =~= digits);
    assert((seq!['+'] + digits).subrange(1, (digits.len() + 1) as int) =~= digits);
}

/// A column is filled up to its width, on the right or on the left, and never
/// cuts off what it holds.
pub proof fn columns_are_filled(s: Seq<char>, width: nat, fill: char, i: int)
    ensures
        s.len() >= width ==> left_column(s, width) == s && right_column(s, width, fill) == s,
        s.len() < width ==> left_column(s, width).len() == width && right_column(
            s,
            width,
            fill,
        ).len() == width,
        left_column(s, width).take(s.len() as int) == s,
        right_column(s, width, fill).skip(right_column(s, width, fill).len() - s.len()) == s,
        s.len() <= i < width ==> left_column(s, width)[i] == ' ',
        0 <= i < width - s.len() ==> right_column(s, width, fill)[i] == fill,
        repeated(fill, width).len() == width,
        0 <= i < width ==> repeated(fill, width)[i] == fill,
{
    assert(left_column(s, width).take(s.len() as int) =~= s);
    assert(right_column(s, width, fill).skip(right_column(s, width, fill).len() - s.len()) =~= s);
}

/// The texts of a list are those of its items, one by one.
pub proof fn texts_are_those_of_the_items(v: Seq<String>, i: int)
    ensures
        texts(v).len() == v.len(),
        0 <= i < v.len() ==> texts(v)[i] == v[i]@,
        opt_text(None) is None,
        0 <= i < v.len() ==> opt_text(Some(v[i])) == Some(v[i]@),
{
}

/// A text with a sign and no digits is no number, nor is one with anything but
/// digits after the sign.
pub proof fn only_signed_digits_are_numbers(s: Seq<char>, min: int, max: int, n: int)
    ensures
        signed_value(Seq::empty(), min, max) is None,
        signed_value(seq!['-'], min, max) is None,
        signed_value(seq!['+'], min, max) is None,
        signed_value(s, min, max) == Some(n) ==> min <= n <= max && s.len() > 0 && (s[0] == '+'
            || s[0] == '-' || '0' <= s[0] <= '9') && forall|i: int|
            1 <= i < s.len() ==> '0' <= #[trigger] s[i] <= '9',
        s.len() > 0 && all_digits(s) && min <= digits_value(s) <= max ==> signed_value(s, min, max)
            == Some(digits_value(s) as int),
        s.len() > 0 && all_digits(s) && min <= -digits_value(s) <= max ==> signed_value(
            seq!['-'] + s,
            min,
            max,
        ) == Some(-digits_value(s)),
{
    assert(seq!['+'].subrange(1, 1).len() == 0);
    assert(seq!['-'].subrange(1, 1).len() == 0);
    if s.len() > 0 && all_digits(s) {
        assert('0' <= s[0] <= '9');
        assert((seq!['-'] + s).subrange(1, (s.len() + 1) as int) =~= s);
    }
    if signed_value(s, min, max) == Some(n) {
        if s[0] == '+' || s[0] == '-' {
            let body = s.subrange(1, s.len() as int);
            assert forall|i: int| 1 <= i < s.len() implies '0' <= #[trigger] s[i] <= '9' by {
                assert(body[i - 1] == s[i]);
            }
        } else {
            assert('0' <= s[0] <= '9');
        }
    }
}

} // verus!
