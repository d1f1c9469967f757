//! Text helpers over `Seq<char>`: whitespace trimming, decimal rendering,
//! joining, and the small string operations the rest of the crate needs.

use vstd::prelude::*;

verus! {

// ---------------------------------------------------------------------------
// Owned text and optional text
// ---------------------------------------------------------------------------

/// The view of an optional string.
pub open spec fn opt_text(o: Option<String>) -> Option<Seq<char>> {
    match o {
        Some(s) => Some(s@),
        None => None,
    }
}

/// An owned copy of a string slice.
pub fn owned(s: &str) -> (r: String)
    ensures
        r@ == s@,
{
    s.to_owned()
}

/// A copy of an optional string.
pub fn clone_opt_text(o: &Option<String>) -> (r: Option<String>)
    ensures
        r == *o,
{
    match o {
        Some(s) => Some(s.clone()),
        None => None,
    }
}

/// The views of a list of key/value text pairs.
pub open spec fn text_pairs_view(v: Seq<(String, String)>) -> Seq<(Seq<char>, Seq<char>)> {
    v.map_values(|e: (String, String)| (e.0@, e.1@))
}

// ---------------------------------------------------------------------------
// Whitespace and trimming
// ---------------------------------------------------------------------------

/// The Unicode `White_Space` property, which is what `char::is_whitespace`
/// (and therefore `str::trim`) tests.
pub open spec fn is_white_space(c: char) -> bool {
    let u = c as u32;
    ||| (0x9 <= u && u <= 0xd)
    ||| u == 0x20
    ||| u == 0x85
    ||| u == 0xa0
    ||| u == 0x1680
    ||| (0x2000 <= u && u <= 0x200a)
    ||| u == 0x2028
    ||| u == 0x2029
    ||| u == 0x202f
    ||| u == 0x205f
    ||| u == 0x3000
}

/// Drops leading white space.
pub open spec fn trim_start_seq(s: Seq<char>) -> Seq<char>
    decreases s.len(),
{
    if s.len() > 0 && is_white_space(s[0]) {
        trim_start_seq(s.subrange(1, s.len() as int))
    } else {
        s
    }
}

/// Drops trailing white space.
pub open spec fn trim_end_seq(s: Seq<char>) -> Seq<char>
    decreases s.len(),
{
    if s.len() > 0 && is_white_space(s[s.len() - 1]) {
        trim_end_seq(s.subrange(0, s.len() - 1))
    } else {
        s
    }
}

/// What `str::trim` returns.
pub open spec fn trim_seq(s: Seq<char>) -> Seq<char> {
    trim_end_seq(trim_start_seq(s))
}

/// A text is blank when nothing is left of it after trimming.
pub open spec fn is_blank_seq(s: Seq<char>) -> bool {
    trim_seq(s).len() == 0
}

pub fn is_white_space_char(c: char) -> (b: bool)
    ensures
        b == is_white_space(c),
{
    let u = c as u32;
    (0x9 <= u && u <= 0xd) || u == 0x20 || u == 0x85 || u == 0xa0 || u == 0x1680 || (0x2000 <= u
        && u <= 0x200a) || u == 0x2028 || u == 0x2029 || u == 0x202f || u == 0x205f || u == 0x3000
}

/// The characters of a string, one by one.
pub fn chars_of(s: &str) -> (v: Vec<char>)
    ensures
        v@ == s@,
{
    let n = s.unicode_len();
    let mut v: Vec<char> = Vec::new();
    let mut i: usize = 0;
    while i < n
        invariant
            n == s@.len(),
            i <= n,
            v@ == s@.subrange(0, i as int),
        decreases n - i,
    {
        let c = s.get_char(i);
        v.push(c);
        i = i + 1;
        assert(v@ =~= s@.subrange(0, i as int));
    }
    assert(v@ =~= s@);
    v
}

/// Appends one character to a string (`String::push`).
#[verifier::external_body]
pub(crate) fn push_char(s: &mut String, c: char)
    ensures
        final(s)@ == old(s)@.push(c),
{
    s.push(c);
}

/// Builds a string from the characters `v[lo..hi]`.
pub fn string_from_range(v: &Vec<char>, lo: usize, hi: usize) -> (r: String)
    requires
        lo <= hi <= v@.len(),
    ensures
        r@ == v@.subrange(lo as int, hi as int),
{
    let mut r = String::new();
    let mut i = lo;
    while i < hi
        invariant
            lo <= i <= hi,
            hi <= v@.len(),
            r@ == v@.subrange(lo as int, i as int),
        decreases hi - i,
    {
        push_char(&mut r, v[i]);
        i = i + 1;
        assert(r@ =~= v@.subrange(lo as int, i as int));
    }
    r
}

/// Builds a string from all of `v`.
pub fn string_from_chars(v: &Vec<char>) -> (r: String)
    ensures
        r@ == v@,
{
    let r = string_from_range(v, 0, v.len());
    assert(v@.subrange(0, v@.len() as int) =~= v@);
    r
}

/// Position of the first character that is not white space, at or after `lo`.
fn skip_white_space(v: &Vec<char>, lo: usize) -> (i: usize)
    requires
        lo <= v@.len(),
    ensures
        lo <= i <= v@.len(),
        trim_start_seq(v@.subrange(lo as int, v@.len() as int)) == trim_start_seq(
            v@.subrange(i as int, v@.len() as int),
        ),
        i < v@.len() ==> !is_white_space(v@[i as int]),
{
    let n = v.len();
    let mut i = lo;
    while i < n && is_white_space_char(v[i])
        invariant
            n == v@.len(),
            lo <= i <= n,
            trim_start_seq(v@.subrange(lo as int, n as int)) == trim_start_seq(
                v@.subrange(i as int, n as int),
            ),
        decreases n - i,
    {
        let ghost cur = v@.subrange(i as int, n as int);
        assert(cur.subrange(1, cur.len() as int) =~= v@.subrange(i + 1, n as int));
        i = i + 1;
    }
    i
}

/// The characters of `trim_seq(v)` are exactly `v[a..b]`.
fn trim_bounds(v: &Vec<char>) -> (res: (usize, usize))
    ensures
        res.0 <= res.1 <= v@.len(),
        v@.subrange(res.0 as int, res.1 as int) == trim_seq(v@),
{
    let n = v.len();
    let a = skip_white_space(v, 0);
    assert(v@.subrange(0, n as int) =~= v@);
    assert(trim_start_seq(v@.subrange(a as int, n as int)) == v@.subrange(a as int, n as int));
    let mut b = n;
    while b > a && is_white_space_char(v[b - 1])
        invariant
            n == v@.len(),
            a <= b <= n,
            trim_seq(v@) == trim_end_seq(v@.subrange(a as int, b as int)),
        decreases b,
    {
        let ghost cur = v@.subrange(a as int, b as int);
        assert(cur.subrange(0, cur.len() - 1) =~= v@.subrange(a as int, b - 1));
        b = b - 1;
    }
    (a, b)
}

/// `str::trim`, as a new string.
pub fn trim(s: &str) -> (r: String)
    ensures
        r@ == trim_seq(s@),
{
    let v = chars_of(s);
    let (a, b) = trim_bounds(&v);
    string_from_range(&v, a, b)
}

/// Whether `str::trim` leaves nothing.
pub fn is_blank(s: &str) -> (b: bool)
    ensures
        b == is_blank_seq(s@),
{
    let v = chars_of(s);
    let (a, b) = trim_bounds(&v);
    a == b
}

// ---------------------------------------------------------------------------
// Prefixes, equality, replacement
// ---------------------------------------------------------------------------

/// Whether `s` begins with `prefix`.
pub open spec fn starts_with_seq(s: Seq<char>, prefix: Seq<char>) -> bool {
    prefix.len() <= s.len() && s.subrange(0, prefix.len() as int) == prefix
}

pub fn starts_with(s: &str, prefix: &str) -> (b: bool)
    ensures
        b == starts_with_seq(s@, prefix@),
{
    let sv = chars_of(s);
    let pv = chars_of(prefix);
    if pv.len() > sv.len() {
        return false;
    }
    let mut i: usize = 0;
    while i < pv.len()
        invariant
            sv@ == s@,
            pv@ == prefix@,
            pv@.len() <= sv@.len(),
            i <= pv@.len(),
            forall|j: int| 0 <= j < i ==> sv@[j] == pv@[j],
        decreases pv@.len() - i,
    {
        if sv[i] != pv[i] {
            assert(sv@.subrange(0, pv@.len() as int)[i as int] != pv@[i as int]);
            return false;
        }
        i = i + 1;
    }
    assert(sv@.subrange(0, pv@.len() as int) =~= pv@);
    true
}

/// Character-wise equality of two texts.
pub fn str_equal(a: &str, b: &str) -> (r: bool)
    ensures
        r == (a@ == b@),
{
    let av = chars_of(a);
    let bv = chars_of(b);
    if av.len() != bv.len() {
        return false;
    }
    let mut i: usize = 0;
    while i < av.len()
        invariant
            av@ == a@,
            bv@ == b@,
            av@.len() == bv@.len(),
            i <= av@.len(),
            forall|j: int| 0 <= j < i ==> av@[j] == bv@[j],
        decreases av@.len() - i,
    {
        if av[i] != bv[i] {
            assert(a@[i as int] != b@[i as int]);
            return false;
        }
        i = i + 1;
    }
    assert(av@ =~= bv@);
    true
}

/// Every character of `s` that satisfies `from(c)` replaced by `to`.
pub open spec fn replace_line_breaks_seq(s: Seq<char>) -> Seq<char> {
    Seq::new(s.len(), |i: int| if s[i] == '\n' || s[i] == '\r' { ' ' } else { s[i] })
}

/// Replaces every `\n` and `\r` with a space.
pub fn replace_line_breaks(s: &str) -> (r: String)
    ensures
        r@ == replace_line_breaks_seq(s@),
{
    let v = chars_of(s);
    let mut r = String::new();
    let mut i: usize = 0;
    while i < v.len()
        invariant
            i <= v@.len(),
            r@ == replace_line_breaks_seq(v@).subrange(0, i as int),
        decreases v@.len() - i,
    {
        let c = v[i];
        if c == '\n' || c == '\r' {
            push_char(&mut r, ' ');
        } else {
            push_char(&mut r, c);
        }
        i = i + 1;
        assert(r@ =~= replace_line_breaks_seq(v@).subrange(0, i as int));
    }
    assert(replace_line_breaks_seq(v@).subrange(0, v@.len() as int) =~= replace_line_breaks_seq(
        v@,
    ));
    r
}

// ---------------------------------------------------------------------------
// Decimal rendering of integers
// ---------------------------------------------------------------------------

pub open spec fn digit_char(d: nat) -> char {
    if d == 0 {
        '0'
    } else if d == 1 {
        '1'
    } else if d == 2 {
        '2'
    } else if d == 3 {
        '3'
    } else if d == 4 {
        '4'
    } else if d == 5 {
        '5'
    } else if d == 6 {
        '6'
    } else if d == 7 {
        '7'
    } else if d == 8 {
        '8'
    } else {
        '9'
    }
}

/// The shortest decimal text of a natural number.
pub open spec fn nat_text(n: nat) -> Seq<char>
    decreases n,
{
    if n < 10 {
        seq![digit_char(n)]
    } else {
        nat_text(n / 10).push(digit_char(n % 10))
    }
}

/// How `Display` renders an integer: a minus sign, then the digits.
pub open spec fn int_text(i: int) -> Seq<char> {
    if i < 0 {
        seq!['-'] + nat_text((-i) as nat)
    } else {
        nat_text(i as nat)
    }
}

/// `text` left-padded with `0` to at least `width` characters.
pub open spec fn zero_pad(text: Seq<char>, width: nat) -> Seq<char> {
    if text.len() >= width {
        text
    } else {
        Seq::new((width - text.len()) as nat, |i: int| '0') + text
    }
}

pub open spec fn is_digit(c: char) -> bool {
    '0' <= c && c <= '9'
}

/// The number a run of decimal digits stands for (0 for no digits).
pub open spec fn digits_value(s: Seq<char>) -> nat
    decreases s.len(),
{
    if s.len() == 0 {
        0
    } else {
        digits_value(s.drop_last()) * 10 + ((s.last() as u32) - ('0' as u32)) as nat
    }
}

pub open spec fn all_digit_chars(s: Seq<char>) -> bool {
    forall|i: int| 0 <= i < s.len() ==> is_digit(#[trigger] s[i])
}

/// Reading the decimal text of a number back gives the number; the text is
/// a non-empty run of digits.
pub proof fn lemma_nat_text_value(n: nat)
    ensures
        nat_text(n).len() > 0,
        all_digit_chars(nat_text(n)),
        digits_value(nat_text(n)) == n,
    decreases n,
{
    if n < 10 {
        assert(digits_value(nat_text(n).drop_last()) == 0);
    } else {
        lemma_nat_text_value(n / 10);
        let t = nat_text(n);
        assert(t.drop_last() =~= nat_text(n / 10));
        assert(t.last() == digit_char(n % 10));
    }
}

/// Leading zeros do not change the value of a run of digits.
pub proof fn lemma_digits_value_zeros(z: Seq<char>, t: Seq<char>)
    requires
        forall|i: int| 0 <= i < z.len() ==> #[trigger] z[i] == '0',
    ensures
        digits_value(z + t) == digits_value(t),
    decreases z.len() + t.len(),
{
    if t.len() == 0 {
        assert(z + t =~= z);
        if z.len() > 0 {
            assert(z.drop_last() + t =~= z.drop_last());
            lemma_digits_value_zeros(z.drop_last(), t);
        }
    } else {
        assert((z + t).drop_last() =~= z + t.drop_last());
        lemma_digits_value_zeros(z, t.drop_last());
    }
}

/// Zero-padding the decimal text of a number keeps its value, and it stays a
/// non-empty run of digits.
pub proof fn lemma_zero_pad_value(n: nat, width: nat)
    ensures
        zero_pad(nat_text(n), width).len() > 0,
        all_digit_chars(zero_pad(nat_text(n), width)),
        digits_value(zero_pad(nat_text(n), width)) == n,
{
    lemma_nat_text_value(n);
    let t = nat_text(n);
    if t.len() < width {
        let z = Seq::new((width - t.len()) as nat, |i: int| '0');
        lemma_digits_value_zeros(z, t);
        assert(zero_pad(t, width) == z + t);
        assert forall|i: int| 0 <= i < (z + t).len() implies is_digit(#[trigger] (z + t)[i]) by {
            if i >= z.len() {
                assert((z + t)[i] == t[i - z.len()]);
            }
        }
    }
}

/// The decimal rendering of an integer determines the integer.
pub proof fn lemma_int_text_injective(a: int, b: int)
    requires
        int_text(a) == int_text(b),
    ensures
        a == b,
{
    lemma_nat_text_value(if a < 0 { (-a) as nat } else { a as nat });
    lemma_nat_text_value(if b < 0 { (-b) as nat } else { b as nat });
    if a < 0 && b < 0 {
        assert(int_text(a).subrange(1, int_text(a).len() as int) =~= nat_text((-a) as nat));
        assert(int_text(b).subrange(1, int_text(b).len() as int) =~= nat_text((-b) as nat));
    } else if a < 0 {
        assert(int_text(a)[0] == '-');
        assert(is_digit(nat_text(b as nat)[0]));
    } else if b < 0 {
        assert(int_text(b)[0] == '-');
        assert(is_digit(nat_text(a as nat)[0]));
    }
}

/// No character of an integer's rendering is `c`, unless `c` is a digit or
/// the minus sign.
pub proof fn lemma_int_text_chars(i: int, c: char)
    requires
        !is_digit(c),
        c != '-',
    ensures
        !int_text(i).contains(c),
        !nat_text(if i < 0 { (-i) as nat } else { i as nat }).contains(c),
{
    let n: nat = if i < 0 { (-i) as nat } else { i as nat };
    lemma_nat_text_value(n);
    assert forall|k: int| 0 <= k < int_text(i).len() implies int_text(i)[k] != c by {
        if i < 0 && k > 0 {
            assert(int_text(i)[k] == nat_text(n)[k - 1]);
        }
    }
}

/// Splitting at the first separator: texts that do not hold `c`, each
/// followed by `c` and something, are equal when the whole is.
pub proof fn lemma_split_first(p1: Seq<char>, r1: Seq<char>, p2: Seq<char>, r2: Seq<char>, c: char)
    requires
        !p1.contains(c),
        !p2.contains(c),
        p1 + seq![c] + r1 == p2 + seq![c] + r2,
    ensures
        p1 == p2,
        r1 == r2,
{
    let w1 = p1 + seq![c] + r1;
    let w2 = p2 + seq![c] + r2;
    if p1.len() < p2.len() {
        assert(w1[p1.len() as int] == c);
        assert(w2[p1.len() as int] == p2[p1.len() as int]);
    } else if p2.len() < p1.len() {
        assert(w2[p2.len() as int] == c);
        assert(w1[p2.len() as int] == p1[p2.len() as int]);
    } else {
        assert(p1 =~= w1.subrange(0, p1.len() as int));
        assert(p2 =~= w2.subrange(0, p2.len() as int));
        assert(r1 =~= w1.subrange(p1.len() + 1int, w1.len() as int));
        assert(r2 =~= w2.subrange(p2.len() + 1int, w2.len() as int));
    }
}

/// Splitting at the last separator: texts each made of something, `c` and a
/// last part without `c`, are equal part for part when the whole is.
pub proof fn lemma_split_last(a1: Seq<char>, s1: Seq<char>, a2: Seq<char>, s2: Seq<char>, c: char)
    requires
        !s1.contains(c),
        !s2.contains(c),
        a1 + seq![c] + s1 == a2 + seq![c] + s2,
    ensures
        a1 == a2,
        s1 == s2,
{
    let w1 = a1 + seq![c] + s1;
    let w2 = a2 + seq![c] + s2;
    assert(w1.len() == w2.len());
    if s1.len() < s2.len() {
        let k = w1.len() - s1.len() - 1;
        assert(w1[k] == c);
        assert(w2[k] == s2[k - a2.len() - 1]);
    } else if s2.len() < s1.len() {
        let k = w2.len() - s2.len() - 1;
        assert(w2[k] == c);
        assert(w1[k] == s1[k - a1.len() - 1]);
    } else {
        assert(a1 =~= w1.subrange(0, a1.len() as int));
        assert(a2 =~= w2.subrange(0, a2.len() as int));
        assert(s1 =~= w1.subrange(a1.len() + 1int, w1.len() as int));
        assert(s2 =~= w2.subrange(a2.len() + 1int, w2.len() as int));
    }
}

fn digit_of(d: u64) -> (c: char)
    requires
        d < 10,
    ensures
        c == digit_char(d as nat),
{
    if d == 0 {
        '0'
    } else if d == 1 {
        '1'
    } else if d == 2 {
        '2'
    } else if d == 3 {
        '3'
    } else if d == 4 {
        '4'
    } else if d == 5 {
        '5'
    } else if d == 6 {
        '6'
    } else if d == 7 {
        '7'
    } else if d == 8 {
        '8'
    } else {
        '9'
    }
}

/// The decimal digits of `n`.
pub fn u64_digits(n: u64) -> (v: Vec<char>)
    ensures
        v@ == nat_text(n as nat),
{
    let mut m = n;
    let mut digits: Vec<char> = Vec::new();
    while m >= 10
        invariant
            nat_text(n as nat) == nat_text(m as nat) + digits@,
        decreases m,
    {
        let d = digit_of(m % 10);
        let ghost prev = digits@;
        digits.insert(0, d);
        let ghost old_m = m;
        m = m / 10;
        assert(nat_text(old_m as nat) == nat_text(m as nat).push(d));
        assert(digits@ =~= seq![d] + prev);
        assert(nat_text(m as nat).push(d) + prev =~= nat_text(m as nat) + digits@);
    }
    let d = digit_of(m);
    digits.insert(0, d);
    assert(digits@ =~= nat_text(n as nat));
    digits
}

pub fn u64_text(n: u64) -> (r: String)
    ensures
        r@ == nat_text(n as nat),
{
    string_from_chars(&u64_digits(n))
}

pub fn i64_text(n: i64) -> (r: String)
    ensures
        r@ == int_text(n as int),
{
    if n < 0 {
        let m: u64 = if n == i64::MIN {
            9223372036854775808u64
        } else {
            (-n) as u64
        };
        let mut r = String::new();
        push_char(&mut r, '-');
        let digits = u64_digits(m);
        let tail = string_from_chars(&digits);
        r.append(tail.as_str());
        r
    } else {
        u64_text(n as u64)
    }
}

/// Decimal text of `n`, zero-padded to at least `width` characters.
pub fn u64_text_padded(n: u64, width: usize) -> (r: String)
    ensures
        r@ == zero_pad(nat_text(n as nat), width as nat),
{
    let digits = u64_digits(n);
    let mut r = String::new();
    if digits.len() < width {
        let pad = width - digits.len();
        let mut i: usize = 0;
        while i < pad
            invariant
                i <= pad,
                r@ == Seq::new(i as nat, |k: int| '0'),
            decreases pad - i,
        {
            push_char(&mut r, '0');
            i = i + 1;
            assert(r@ =~= Seq::new(i as nat, |k: int| '0'));
        }
    }
    let tail = string_from_chars(&digits);
    r.append(tail.as_str());
    assert(r@ =~= zero_pad(nat_text(n as nat), width as nat));
    r
}

// ---------------------------------------------------------------------------
// Joining
// ---------------------------------------------------------------------------

/// `parts` joined with `sep` between consecutive parts (`[T]::join`).
pub open spec fn join_seq(parts: Seq<Seq<char>>, sep: Seq<char>) -> Seq<char>
    decreases parts.len(),
{
    if parts.len() == 0 {
        Seq::empty()
    } else if parts.len() == 1 {
        parts[0]
    } else {
        join_seq(parts.drop_last(), sep) + sep + parts.last()
    }
}

/// The views of a vector of strings.
pub open spec fn texts_view(v: Seq<String>) -> Seq<Seq<char>> {
    v.map_values(|s: String| s@)
}

pub fn join(parts: &Vec<String>, sep: &str) -> (r: String)
    ensures
        r@ == join_seq(texts_view(parts@), sep@),
{
    let mut r = String::new();
    let ghost views = texts_view(parts@);
    let mut i: usize = 0;
    while i < parts.len()
        invariant
            i <= parts@.len(),
            views == texts_view(parts@),
            r@ == join_seq(views.take(i as int), sep@),
        decreases parts@.len() - i,
    {
        if i != 0 {
            r.append(sep);
        }
        r.append(parts[i].as_str());
        assert(views.take(i + 1).drop_last() =~= views.take(i as int));
        i = i + 1;
    }
    assert(views.take(parts@.len() as int) =~= views);
    r
}

// ---------------------------------------------------------------------------
// JSON string literals
// ---------------------------------------------------------------------------

/// A lower-case hexadecimal digit (`d < 16`).
pub open spec fn hex_digit_char(d: int) -> char {
    if d < 10 {
        digit_char(d as nat)
    } else if d == 10 {
        'a'
    } else if d == 11 {
        'b'
    } else if d == 12 {
        'c'
    } else if d == 13 {
        'd'
    } else if d == 14 {
        'e'
    } else {
        'f'
    }
}

/// How serde_json writes one character inside a string literal: a quote
/// and a backslash behind a backslash, backspace, tab, line feed, form feed
/// and carriage return as `\b \t \n \f \r`, the other characters below
/// U+0020 as `\u00XX` with lower-case hex digits, every other character as
/// it is.
pub open spec fn json_escaped_char(c: char) -> Seq<char> {
    let n = c as u32;
    if c == '"' {
        seq!['\\', '"']
    } else if c == '\\' {
        seq!['\\', '\\']
    } else if n == 0x08 {
        seq!['\\', 'b']
    } else if n == 0x09 {
        seq!['\\', 't']
    } else if n == 0x0a {
        seq!['\\', 'n']
    } else if n == 0x0c {
        seq!['\\', 'f']
    } else if n == 0x0d {
        seq!['\\', 'r']
    } else if n < 0x20 {
        seq!['\\', 'u', '0', '0', hex_digit_char((n / 16) as int), hex_digit_char((n % 16) as int)]
    } else {
        seq![c]
    }
}

/// The characters of a text as serde_json writes them inside a string
/// literal.
pub open spec fn json_escaped(text: Seq<char>) -> Seq<char>
    decreases text.len(),
{
    if text.len() == 0 {
        Seq::empty()
    } else {
        json_escaped(text.drop_last()) + json_escaped_char(text.last())
    }
}

/// What `serde_json::to_string` renders a string slice as: the escaped text
/// between two quotes.
pub open spec fn spec_json_string(text: Seq<char>) -> Seq<char> {
    seq!['"'] + json_escaped(text) + seq!['"']
}

/// Renders `text` as a JSON string literal with `serde_json::to_string`.
/// Claimed: the result is serde_json's literal for `text`, its escaped
/// characters between two quotes (serde_json's source shows that this never
/// fails for a `&str`).
#[verifier::external_body]
pub(crate) fn json_string(text: &str) -> (r: String)
    ensures
        r@ == spec_json_string(text@),
{
    match serde_json::to_string(text) {
        Ok(s) => s,
        Err(_) => String::new(),
    }
}

} // verus!
