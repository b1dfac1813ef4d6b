//! Text: characters, words, numbers and the few string operations the engine
//! needs, stated over the sequence of characters that a string holds.

use vstd::prelude::*;
use vstd::string::*;

verus! {

/// `String::push` adds one character at the end.
pub assume_specification[ String::push ](s: &mut String, c: char)
    ensures
        final(s)@ == old(s)@.push(c),
;

/// `str::eq` compares the characters.
pub assume_specification[ <str as PartialEq>::eq ](a: &str, b: &str) -> (r: bool)
    ensures
        r == (a@ == b@),
;

/// Whether two strings hold the same text.
pub fn same(a: &str, b: &str) -> (r: bool)
    ensures
        r == (a@ == b@),
{
    *a == *b
}

/// What `char::is_alphanumeric` answers for a character.
pub uninterp spec fn alphanumeric(c: char) -> bool;

/// What `char::to_lowercase` yields for a character.
pub uninterp spec fn lowercase_of(c: char) -> Seq<char>;

/// What `str::to_lowercase` returns for a text.
pub uninterp spec fn lowercase_text(s: Seq<char>) -> Seq<char>;

/// What `str::to_uppercase` returns for a text.
pub uninterp spec fn uppercase_text(s: Seq<char>) -> Seq<char>;

/// An ASCII letter or digit.
pub open spec fn ascii_alphanumeric(c: char) -> bool {
    is_digit(c) || 'a' <= c <= 'z' || 'A' <= c <= 'Z'
}

/// An ASCII character, with a capital letter made small.
pub open spec fn ascii_lower(c: char) -> char {
    if 'A' <= c <= 'Z' {
        (c as u32 + 32) as char
    } else {
        c
    }
}

/// An ASCII character, with a small letter made capital.
pub open spec fn ascii_upper(c: char) -> char {
    if 'a' <= c <= 'z' {
        (c as u32 - 32) as char
    } else {
        c
    }
}

/// Every character is ASCII.
pub open spec fn ascii(s: Seq<char>) -> bool {
    forall|i: int| 0 <= i < s.len() ==> (#[trigger] s[i] as u32) < 128
}

/// `char::is_alphanumeric`. Its answer rests on the Unicode tables and is named;
/// on ASCII it is true of the letters and the digits, and of nothing else.
#[verifier::external_body]
pub(crate) fn is_alphanumeric(c: char) -> (r: bool)
    ensures
        r == alphanumeric(c),
        (c as u32) < 128 ==> r == ascii_alphanumeric(c),
{
    c.is_alphanumeric()
}

/// `char::to_lowercase`, with the characters it yields collected. They rest on
/// the Unicode tables and are named; an ASCII character yields itself, or its
/// small letter where it is a capital one.
#[verifier::external_body]
pub(crate) fn lowercase_char(c: char) -> (r: Vec<char>)
    ensures
        r@ == lowercase_of(c),
        (c as u32) < 128 ==> r@ == seq![ascii_lower(c)],
{
    c.to_lowercase().collect()
}

/// `str::to_lowercase`. Its result rests on the Unicode tables and is named; on
/// ASCII text it makes each capital letter small and keeps the rest.
#[verifier::external_body]
pub(crate) fn to_lowercase(s: &str) -> (r: String)
    ensures
        r@ == lowercase_text(s@),
        ascii(s@) ==> r@ == s@.map_values(|c: char| ascii_lower(c)),
{
    s.to_lowercase()
}

/// `str::to_uppercase`. Its result rests on the Unicode tables and is named; on
/// ASCII text it makes each small letter capital and keeps the rest.
#[verifier::external_body]
pub(crate) fn to_uppercase(s: &str) -> (r: String)
    ensures
        r@ == uppercase_text(s@),
        ascii(s@) ==> r@ == s@.map_values(|c: char| ascii_upper(c)),
{
    s.to_uppercase()
}

/// A character with the Unicode property `White_Space`.
pub open spec fn is_space(c: char) -> bool {
    let n = c as u32;
    ||| 0x09 <= n <= 0x0d
    ||| n == 0x20
    ||| n == 0x85
    ||| n == 0xa0
    ||| n == 0x1680
    ||| 0x2000 <= n <= 0x200a
    ||| n == 0x2028
    ||| n == 0x2029
    ||| n == 0x202f
    ||| n == 0x205f
    ||| n == 0x3000
}

/// Whether a character is white space.
pub fn is_whitespace(c: char) -> (r: bool)
    ensures
        r == is_space(c),
{
    let n: u32 = c as u32;
    (0x09 <= n && n <= 0x0d) || n == 0x20 || n == 0x85 || n == 0xa0 || n == 0x1680 || (0x2000 <= n
        && n <= 0x200a) || n == 0x2028 || n == 0x2029 || n == 0x202f || n == 0x205f || n == 0x3000
}

/// An ASCII digit.
pub open spec fn is_digit(c: char) -> bool {
    '0' <= c <= '9'
}

/// The texts that a list of strings holds.
pub open spec fn texts(v: Seq<String>) -> Seq<Seq<char>> {
    v.map_values(|s: String| s@)
}

/// The texts that a list of string slices holds.
pub open spec fn slices(v: Seq<&str>) -> Seq<Seq<char>> {
    v.map_values(|s: &str| s@)
}

/// The characters of a string.
pub fn chars_of(s: &str) -> (r: Vec<char>)
    ensures
        r@ == s@,
{
    let mut out: Vec<char> = Vec::new();
    for c in it: s.chars()
        invariant
            it.seq() == s@,
            out@ == s@.take(it.index() as int),
    {
        out.push(c);
    }
    out
}

/// The string made of the characters from `from` up to `to`.
pub fn string_of(v: &Vec<char>, from: usize, to: usize) -> (r: String)
    requires
        from <= to <= v@.len(),
    ensures
        r@ == v@.subrange(from as int, to as int),
{
    let mut out = String::new();
    let mut i: usize = from;
    while i < to
        invariant
            from <= i <= to <= v@.len(),
            out@ == v@.subrange(from as int, i as int),
        decreases to - i,
    {
        out.push(v[i]);
        i = i + 1;
    }
    out
}

/// Whether every character is an ASCII digit.
pub open spec fn all_digits(s: Seq<char>) -> bool {
    forall|i: int| 0 <= i < s.len() ==> is_digit(#[trigger] s[i])
}

pub fn are_digits(v: &Vec<char>) -> (r: bool)
    ensures
        r == all_digits(v@),
{
    let mut i: usize = 0;
    while i < v.len()
        invariant
            i <= v@.len(),
            all_digits(v@.take(i as int)),
        decreases v@.len() - i,
    {
        let c = v[i];
        if !('0' <= c && c <= '9') {
            assert(!is_digit(v@[i as int]));
            return false;
        }
        assert(v@.take(i + 1) =~= v@.take(i as int).push(c));
        i = i + 1;
    }
    assert(v@.take(i as int) =~= v@);
    true
}

// ---------------------------------------------------------------------------
// Trimming
// ---------------------------------------------------------------------------

/// The text without the white space it starts with.
pub open spec fn trim_start(s: Seq<char>) -> Seq<char>
    decreases s.len(),
{
    if s.len() > 0 && is_space(s[0]) {
        trim_start(s.skip(1))
    } else {
        s
    }
}

/// The text without the white space it ends with.
pub open spec fn trim_end(s: Seq<char>) -> Seq<char>
    decreases s.len(),
{
    if s.len() > 0 && is_space(s.last()) {
        trim_end(s.drop_last())
    } else {
        s
    }
}

/// The text without the white space around it.
pub open spec fn trimmed(s: Seq<char>) -> Seq<char> {
    trim_end(trim_start(s))
}

pub(crate) fn skip_space(v: &Vec<char>) -> (r: usize)
    ensures
        r <= v@.len(),
        v@.skip(r as int) == trim_start(v@),
{
    let mut i: usize = 0;
    assert(v@.skip(0) =~= v@);
    while i < v.len() && is_whitespace(v[i])
        invariant
            i <= v@.len(),
            trim_start(v@.skip(i as int)) == trim_start(v@),
        decreases v@.len() - i,
    {
        assert(v@.skip(i as int).skip(1) =~= v@.skip(i + 1));
        assert(v@.skip(i as int)[0] == v@[i as int]);
        i = i + 1;
    }
    i
}

/// Where the text from `from` up to `to` ends once its trailing white space is
/// left out.
pub(crate) fn drop_space(v: &Vec<char>, from: usize, to: usize) -> (r: usize)
    requires
        from <= to <= v@.len(),
    ensures
        from <= r <= to,
        v@.subrange(from as int, r as int) == trim_end(v@.subrange(from as int, to as int)),
{
    let mut j: usize = to;
    while j > from && is_whitespace(v[j - 1])
        invariant
            from <= j <= to <= v@.len(),
            trim_end(v@.subrange(from as int, j as int)) == trim_end(
                v@.subrange(from as int, to as int),
            ),
        decreases j - from,
    {
        assert(v@.subrange(from as int, j as int).drop_last() =~= v@.subrange(
            from as int,
            j - 1,
        ));
        assert(v@.subrange(from as int, j as int).last() == v@[j - 1]);
        j = j - 1;
    }
    j
}

/// The string without the white space around it.
pub fn trim(s: &str) -> (r: String)
    ensures
        r@ == trimmed(s@),
{
    let v = chars_of(s);
    let from = skip_space(&v);
    let len = v.len();
    let to = drop_space(&v, from, len);
    assert(v@.skip(from as int) =~= v@.subrange(from as int, len as int));
    string_of(&v, from, to)
}

/// Trimming leaves no white space at either end.
pub proof fn trimmed_has_no_space_around(s: Seq<char>)
    ensures
        trimmed(s).len() > 0 ==> !is_space(trimmed(s)[0]) && !is_space(trimmed(s).last()),
    decreases s.len(),
{
    trim_start_has_no_leading_space(s);
    trim_end_keeps_the_head(trim_start(s));
}

proof fn trim_start_has_no_leading_space(s: Seq<char>)
    ensures
        trim_start(s).len() > 0 ==> !is_space(trim_start(s)[0]),
    decreases s.len(),
{
    if s.len() > 0 && is_space(s[0]) {
        trim_start_has_no_leading_space(s.skip(1));
    }
}

proof fn trim_end_keeps_the_head(s: Seq<char>)
    ensures
        trim_end(s).len() > 0 ==> trim_end(s)[0] == s[0] && !is_space(trim_end(s).last()),
        trim_end(s).len() <= s.len(),
        s.len() > 0 && !is_space(s[0]) ==> trim_end(s).len() > 0,
    decreases s.len(),
{
    if s.len() > 0 && is_space(s.last()) {
        trim_end_keeps_the_head(s.drop_last());
    }
}

/// Trimming twice is trimming once.
pub proof fn trimming_is_idempotent(s: Seq<char>)
    ensures
        trimmed(trimmed(s)) == trimmed(s),
{
    trimmed_has_no_space_around(s);
}

// ---------------------------------------------------------------------------
// Numbers
// ---------------------------------------------------------------------------

/// The character of a decimal digit.
pub open spec fn digit_char(d: nat) -> char {
    (48 + d) as char
}

/// A number written in decimal, without leading zeros.
pub open spec fn decimal(n: nat) -> Seq<char>
    decreases n,
{
    if n < 10 {
        seq![digit_char(n)]
    } else {
        decimal(n / 10).push(digit_char(n % 10))
    }
}

/// A number written in decimal, with a minus sign where it is negative.
pub open spec fn signed_decimal(n: int) -> Seq<char> {
    if n < 0 {
        seq!['-'] + decimal((-n) as nat)
    } else {
        decimal(n as nat)
    }
}

/// The number that a run of decimal digits stands for.
pub open spec fn number_of(s: Seq<char>) -> nat
    decreases s.len(),
{
    if s.len() == 0 {
        0
    } else {
        number_of(s.drop_last()) * 10 + (s.last() as nat - 48) as nat
    }
}

pub(crate) fn digit(d: u64) -> (c: char)
    requires
        d < 10,
    ensures
        c == digit_char(d as nat),
{
    (48u8 + d as u8) as char
}

/// The number written in decimal.
pub fn show(n: u64) -> (r: String)
    ensures
        r@ == decimal(n as nat),
    decreases n,
{
    if n < 10 {
        let mut out = String::new();
        out.push(digit(n));
        assert(out@ =~= seq![digit_char(n as nat)]);
        out
    } else {
        let mut out = show(n / 10);
        out.push(digit(n % 10));
        out
    }
}

/// The signed number written in decimal.
pub fn show_signed(n: i64) -> (r: String)
    requires
        n > i64::MIN,
    ensures
        r@ == signed_decimal(n as int),
{
    if n < 0 {
        let mut out = String::new();
        out.push('-');
        let tail = show((-n) as u64);
        out.append(tail.as_str());
        assert(out@ =~= seq!['-'] + decimal((-n) as nat));
        out
    } else {
        show(n as u64)
    }
}

/// Reading back what was written gives the number.
pub proof fn decimal_reads_back(n: nat)
    ensures
        number_of(decimal(n)) == n,
        all_digits(decimal(n)),
        decimal(n).len() > 0,
    decreases n,
{
    if n < 10 {
        assert(decimal(n).drop_last() =~= Seq::<char>::empty());
        assert(number_of(decimal(n).drop_last()) == 0);
    } else {
        decimal_reads_back(n / 10);
        assert(decimal(n).drop_last() =~= decimal(n / 10));
        assert(decimal(n).last() == digit_char(n % 10));
    }
}

/// Different numbers are written differently.
pub proof fn decimal_is_injective(a: nat, b: nat)
    requires
        decimal(a) == decimal(b),
    ensures
        a == b,
{
    decimal_reads_back(a);
    decimal_reads_back(b);
}

// ---------------------------------------------------------------------------
// Order
// ---------------------------------------------------------------------------

/// Whether `a` comes strictly before `b` in dictionary order by code point,
/// looking from position `i` on.
pub open spec fn text_before_from(a: Seq<char>, b: Seq<char>, i: int) -> bool
    decreases b.len() - i,
{
    if i >= b.len() {
        false
    } else if i >= a.len() {
        true
    } else if a[i] != b[i] {
        a[i] < b[i]
    } else {
        text_before_from(a, b, i + 1)
    }
}

/// Whether `a` comes strictly before `b` in dictionary order by code point,
/// which is also the order of their UTF-8 bytes.
pub open spec fn text_before(a: Seq<char>, b: Seq<char>) -> bool {
    text_before_from(a, b, 0)
}

/// Whether `a` comes strictly before `b` in dictionary order.
pub fn is_text_before(a: &str, b: &str) -> (r: bool)
    ensures
        r == text_before(a@, b@),
{
    let x = chars_of(a);
    let y = chars_of(b);
    let mut i: usize = 0;
    while i < y.len()
        invariant
            i <= y@.len(),
            i <= x@.len(),
            x@ == a@,
            y@ == b@,
            text_before(a@, b@) == text_before_from(a@, b@, i as int),
        decreases y@.len() - i,
    {
        if i >= x.len() {
            return true;
        }
        if x[i] != y[i] {
            return x[i] < y[i];
        }
        i = i + 1;
    }
    false
}

/// No text comes before itself.
pub proof fn text_order_is_irreflexive(a: Seq<char>, i: int)
    requires
        0 <= i,
    ensures
        !text_before_from(a, a, i),
    decreases a.len() - i,
{
    if i < a.len() {
        text_order_is_irreflexive(a, i + 1);
    }
}

/// Texts that agree up to `i` and of which neither comes before the other are
/// the same.
pub proof fn text_order_separates(a: Seq<char>, b: Seq<char>, i: int)
    requires
        0 <= i <= a.len(),
        i <= b.len(),
        a.take(i) == b.take(i),
        !text_before_from(a, b, i),
        !text_before_from(b, a, i),
    ensures
        a == b,
    decreases a.len() - i,
{
    if i < a.len() && i < b.len() {
        assert(a.take(i + 1) =~= a.take(i).push(a[i]));
        assert(b.take(i + 1) =~= b.take(i).push(b[i]));
        text_order_separates(a, b, i + 1);
    } else {
        assert(a =~= a.take(i));
        assert(b =~= b.take(i));
    }
}

/// Dictionary order is transitive.
pub proof fn text_order_is_transitive(a: Seq<char>, b: Seq<char>, c: Seq<char>, i: int)
    requires
        0 <= i,
        text_before_from(a, b, i),
        text_before_from(b, c, i),
    ensures
        text_before_from(a, c, i),
    decreases c.len() - i,
{
    if i < a.len() && i < b.len() && i < c.len() && a[i] == b[i] && b[i] == c[i] {
        text_order_is_transitive(a, b, c, i + 1);
    }
}

/// What is not before `b`, and `b` not before `c`, is not before `c` in the
/// opposite sense: the order has no gaps.
pub proof fn text_order_is_total(a: Seq<char>, b: Seq<char>, c: Seq<char>, i: int)
    requires
        0 <= i,
        !text_before_from(b, a, i),
        !text_before_from(c, b, i),
    ensures
        !text_before_from(c, a, i),
    decreases a.len() - i,
{
    if i < a.len() && i < b.len() && i < c.len() && a[i] == b[i] && b[i] == c[i] {
        text_order_is_total(a, b, c, i + 1);
    }
}

// ---------------------------------------------------------------------------
// Prefixes, lists and joining
// ---------------------------------------------------------------------------

/// Whether `s` starts with `prefix`.
pub open spec fn has_prefix(s: Seq<char>, prefix: Seq<char>) -> bool {
    prefix.len() <= s.len() && s.take(prefix.len() as int) == prefix
}

/// Whether the text starts with the prefix.
pub fn starts_with(s: &str, prefix: &str) -> (r: bool)
    ensures
        r == has_prefix(s@, prefix@),
{
    let x = chars_of(s);
    let p = chars_of(prefix);
    if p.len() > x.len() {
        return false;
    }
    let mut i: usize = 0;
    while i < p.len()
        invariant
            i <= p@.len() <= x@.len(),
            x@ == s@,
            p@ == prefix@,
            x@.take(i as int) == p@.take(i as int),
        decreases p@.len() - i,
    {
        if x[i] != p[i] {
            proof {
                if x@.take(p@.len() as int) == p@ {
                    assert(x@.take(p@.len() as int)[i as int] == p@[i as int]);
                }
            }
            return false;
        }
        assert(x@.take(i + 1) =~= x@.take(i as int).push(x@[i as int]));
        assert(p@.take(i + 1) =~= p@.take(i as int).push(p@[i as int]));
        i = i + 1;
    }
    assert(p@.take(i as int) =~= p@);
    true
}

/// Whether the list holds the text.
pub fn list_contains(v: &Vec<String>, s: &str) -> (r: bool)
    ensures
        r == texts(v@).contains(s@),
{
    let mut i: usize = 0;
    while i < v.len()
        invariant
            i <= v@.len(),
            forall|k: int| 0 <= k < i ==> #[trigger] texts(v@)[k] != s@,
        decreases v@.len() - i,
    {
        if same(v[i].as_str(), s) {
            assert(texts(v@)[i as int] == s@);
            return true;
        }
        i = i + 1;
    }
    false
}

/// Whether the list of slices holds the text.
pub fn slices_contain(v: &Vec<&str>, s: &str) -> (r: bool)
    ensures
        r == slices(v@).contains(s@),
{
    let mut i: usize = 0;
    while i < v.len()
        invariant
            i <= v@.len(),
            forall|k: int| 0 <= k < i ==> #[trigger] slices(v@)[k] != s@,
        decreases v@.len() - i,
    {
        if same(v[i], s) {
            assert(slices(v@)[i as int] == s@);
            return true;
        }
        i = i + 1;
    }
    false
}

/// The texts one after another, with a separator between neighbours.
pub open spec fn joined(v: Seq<Seq<char>>, separator: Seq<char>) -> Seq<char>
    decreases v.len(),
{
    if v.len() == 0 {
        Seq::empty()
    } else if v.len() == 1 {
        v[0]
    } else {
        joined(v.drop_last(), separator) + separator + v.last()
    }
}

/// The strings one after another, with a separator between neighbours.
pub fn join(v: &Vec<String>, separator: &str) -> (r: String)
    ensures
        r@ == joined(texts(v@), separator@),
{
    let mut out = String::new();
    let mut i: usize = 0;
    while i < v.len()
        invariant
            i <= v@.len(),
            out@ == joined(texts(v@).take(i as int), separator@),
        decreases v@.len() - i,
    {
        proof {
            let t = texts(v@).take(i + 1);
            assert(t.drop_last() =~= texts(v@).take(i as int));
            assert(t.last() == v@[i as int]@);
            if i == 0 {
                assert(out@ + v@[0]@ =~= v@[0]@);
            }
        }
        if i > 0 {
            out.append(separator);
        }
        out.append(v[i].as_str());
        i = i + 1;
    }
    assert(texts(v@).take(i as int) =~= texts(v@));
    out
}

// ---------------------------------------------------------------------------
// UTF-8 widths
// ---------------------------------------------------------------------------

/// How many bytes UTF-8 spends on a character.
pub open spec fn utf8_width(c: char) -> nat {
    let n = c as u32;
    if n < 0x80 {
        1
    } else if n < 0x800 {
        2
    } else if n < 0x1_0000 {
        3
    } else {
        4
    }
}

/// How many bytes UTF-8 spends on a text.
pub open spec fn utf8_len(s: Seq<char>) -> nat
    decreases s.len(),
{
    if s.len() == 0 {
        0
    } else {
        utf8_len(s.drop_last()) + utf8_width(s.last())
    }
}

/// How many bytes the character takes.
pub(crate) fn width(c: char) -> (r: usize)
    ensures
        r == utf8_width(c),
        1 <= r <= 4,
{
    let n: u32 = c as u32;
    if n < 0x80 {
        1
    } else if n < 0x800 {
        2
    } else if n < 0x1_0000 {
        3
    } else {
        4
    }
}

/// How many bytes the first `to` characters take.
pub(crate) fn bytes_upto(v: &Vec<char>, to: usize) -> (r: u128)
    requires
        to <= v@.len(),
    ensures
        r == utf8_len(v@.take(to as int)),
{
    let mut total: u128 = 0;
    let mut i: usize = 0;
    assert(v@.take(0) =~= Seq::empty());
    while i < to
        invariant
            i <= to <= v@.len(),
            total == utf8_len(v@.take(i as int)),
            total <= 4 * i,
        decreases to - i,
    {
        assert(v@.take(i + 1).drop_last() =~= v@.take(i as int));
        assert(v@.take(i + 1).last() == v@[i as int]);
        total = total + width(v[i]) as u128;
        i = i + 1;
    }
    total
}

/// A text takes at least one byte and at most four per character.
pub proof fn utf8_len_bounds(s: Seq<char>)
    ensures
        s.len() <= utf8_len(s) <= 4 * s.len(),
    decreases s.len(),
{
    if s.len() > 0 {
        utf8_len_bounds(s.drop_last());
    }
}

/// A longer prefix takes more bytes.
pub proof fn utf8_len_of_prefix(s: Seq<char>, i: int)
    requires
        0 <= i <= s.len(),
    ensures
        utf8_len(s.take(i)) <= utf8_len(s),
    decreases s.len(),
{
    if i < s.len() {
        utf8_len_of_prefix(s.drop_last(), i);
        assert(s.drop_last().take(i) =~= s.take(i));
    } else {
        assert(s.take(i) =~= s);
    }
}

// ---------------------------------------------------------------------------
// Words
// ---------------------------------------------------------------------------

/// Whether a character belongs to a word: it is alphanumeric, or it is the one
/// further character that the splitter keeps inside words.
pub open spec fn word_char(c: char, inner: Option<char>) -> bool {
    alphanumeric(c) || inner == Some(c)
}

/// The first position from `i` on that holds a word character, or the end.
pub open spec fn word_start(s: Seq<char>, inner: Option<char>, i: int) -> int
    decreases s.len() - i,
{
    if i >= s.len() || word_char(s[i], inner) {
        i
    } else {
        word_start(s, inner, i + 1)
    }
}

/// The first position from `i` on that holds no word character, or the end.
pub open spec fn word_end(s: Seq<char>, inner: Option<char>, i: int) -> int
    decreases s.len() - i,
{
    if i >= s.len() || !word_char(s[i], inner) {
        i
    } else {
        word_end(s, inner, i + 1)
    }
}

/// The words from position `i` on, as the places where each begins and ends.
pub open spec fn spans_from(s: Seq<char>, inner: Option<char>, i: int) -> Seq<(int, int)>
    decreases s.len() - i,
    when 0 <= i <= s.len()
    via spans_decrease
{
    let a = word_start(s, inner, i);
    if a >= s.len() {
        Seq::empty()
    } else {
        let b = word_end(s, inner, a);
        seq![(a, b)] + spans_from(s, inner, b)
    }
}

#[via_fn]
proof fn spans_decrease(s: Seq<char>, inner: Option<char>, i: int) {
    word_bounds(s, inner, i);
}

proof fn word_start_bounds(s: Seq<char>, inner: Option<char>, i: int)
    requires
        0 <= i <= s.len(),
    ensures
        i <= word_start(s, inner, i) <= s.len(),
        word_start(s, inner, i) < s.len() ==> word_char(s[word_start(s, inner, i)], inner),
        forall|k: int| i <= k < word_start(s, inner, i) ==> !word_char(#[trigger] s[k], inner),
    decreases s.len() - i,
{
    if i < s.len() && !word_char(s[i], inner) {
        word_start_bounds(s, inner, i + 1);
    }
}

proof fn word_end_bounds(s: Seq<char>, inner: Option<char>, i: int)
    requires
        0 <= i <= s.len(),
    ensures
        i <= word_end(s, inner, i) <= s.len(),
        word_end(s, inner, i) < s.len() ==> !word_char(s[word_end(s, inner, i)], inner),
        forall|k: int| i <= k < word_end(s, inner, i) ==> word_char(#[trigger] s[k], inner),
    decreases s.len() - i,
{
    if i < s.len() && word_char(s[i], inner) {
        word_end_bounds(s, inner, i + 1);
    }
}

/// A word starts where the search for one stops, and is not empty.
proof fn word_bounds(s: Seq<char>, inner: Option<char>, i: int)
    requires
        0 <= i <= s.len(),
    ensures
        i <= word_start(s, inner, i) <= s.len(),
        word_start(s, inner, i) < s.len() ==> word_start(s, inner, i) < word_end(
            s,
            inner,
            word_start(s, inner, i),
        ) <= s.len(),
{
    word_start_bounds(s, inner, i);
    let a = word_start(s, inner, i);
    word_end_bounds(s, inner, a);
    if a < s.len() {
        word_end_bounds(s, inner, a + 1);
    }
}

/// The places of all words of a text.
pub open spec fn spans(s: Seq<char>, inner: Option<char>) -> Seq<(int, int)> {
    spans_from(s, inner, 0)
}

/// All words of a text, in order.
pub open spec fn words(s: Seq<char>, inner: Option<char>) -> Seq<Seq<char>> {
    spans(s, inner).map_values(|p: (int, int)| s.subrange(p.0, p.1))
}

/// Where a word begins and ends.
#[derive(Debug, Clone, Copy, PartialEq, Eq)]
pub struct Span {
    pub start: usize,
    pub end: usize,
}

/// The places that a list of spans names.
pub open spec fn places(v: Seq<Span>) -> Seq<(int, int)> {
    v.map_values(|p: Span| (p.start as int, p.end as int))
}

/// Every span of a text lies inside it, is not empty, and is a maximal run of
/// word characters.
pub proof fn spans_are_maximal_runs(s: Seq<char>, inner: Option<char>, i: int)
    requires
        0 <= i <= s.len(),
        i == 0 || i == s.len() || !word_char(s[i], inner) || !word_char(s[i - 1], inner),
    ensures
        forall|k: int|
            #![trigger spans_from(s, inner, i)[k]]
            0 <= k < spans_from(s, inner, i).len() ==> {
                let p = spans_from(s, inner, i)[k];
                &&& i <= p.0 < p.1 <= s.len()
                &&& forall|m: int| p.0 <= m < p.1 ==> word_char(#[trigger] s[m], inner)
                &&& p.0 == 0 || p.0 == i || !word_char(s[p.0 - 1], inner)
                &&& p.1 == s.len() || !word_char(s[p.1], inner)
            },
    decreases s.len() - i,
{
    word_bounds(s, inner, i);
    word_start_bounds(s, inner, i);
    let a = word_start(s, inner, i);
    if a < s.len() {
        word_end_bounds(s, inner, a);
        let b = word_end(s, inner, a);
        spans_are_maximal_runs(s, inner, b);
        let rest = spans_from(s, inner, b);
        assert forall|k: int| 0 <= k < spans_from(s, inner, i).len() implies ({
            let p = #[trigger] spans_from(s, inner, i)[k];
            &&& i <= p.0 < p.1 <= s.len()
            &&& forall|m: int| p.0 <= m < p.1 ==> word_char(#[trigger] s[m], inner)
            &&& p.0 == 0 || p.0 == i || !word_char(s[p.0 - 1], inner)
            &&& p.1 == s.len() || !word_char(s[p.1], inner)
        }) by {
            if k > 0 {
                assert(spans_from(s, inner, i)[k] == rest[k - 1]);
                if b < s.len() && rest[k - 1].0 == b {
                    assert(!word_char(s[b], inner));
                    assert(word_char(s[rest[k - 1].0], inner));
                }
            }
        }
    }
}

/// What is true of the classes of an ASCII character.
pub open spec fn is_plain(c: char) -> bool {
    (c as u32) < 128 ==> alphanumeric(c) == ascii_alphanumeric(c)
}

/// The places of the words of a text. On ASCII a word is made of letters and
/// digits, and of the one further character.
pub fn word_spans(v: &Vec<char>, inner: Option<char>) -> (r: Vec<Span>)
    ensures
        places(r@) == spans(v@, inner),
        forall|k: int| 0 <= k < r@.len() ==> (#[trigger] r@[k]).start < r@[k].end <= v@.len(),
        forall|k: int| 0 <= k < v@.len() ==> is_plain(#[trigger] v@[k]),
{
    let mut out: Vec<Span> = Vec::new();
    let mut i: usize = 0;
    assert(places(out@) + spans_from(v@, inner, 0) =~= spans(v@, inner));
    while i < v.len()
        invariant
            i <= v@.len(),
            places(out@) + spans_from(v@, inner, i as int) == spans(v@, inner),
            forall|k: int| 0 <= k < out@.len() ==> (#[trigger] out@[k]).start < out@[k].end
                <= v@.len(),
            forall|k: int| 0 <= k < i ==> is_plain(#[trigger] v@[k]),
        decreases v@.len() - i,
    {
        let ghost here = i as int;
        let mut a: usize = i;
        while a < v.len() && !is_inner(v[a], inner)
            invariant
                here <= a <= v@.len(),
                word_start(v@, inner, here) == word_start(v@, inner, a as int),
                forall|k: int| 0 <= k < a ==> is_plain(#[trigger] v@[k]),
            decreases v@.len() - a,
        {
            a = a + 1;
        }
        if a >= v.len() {
            i = a;
            assert(spans_from(v@, inner, here) =~= Seq::empty());
            assert(spans_from(v@, inner, i as int) =~= Seq::empty());
        } else {
            let mut b: usize = a;
            while b < v.len() && is_inner(v[b], inner)
                invariant
                    a <= b <= v@.len(),
                    word_end(v@, inner, a as int) == word_end(v@, inner, b as int),
                    forall|k: int| 0 <= k < b ==> is_plain(#[trigger] v@[k]),
                decreases v@.len() - b,
            {
                b = b + 1;
            }
            let ghost before = places(out@);
            out.push(Span { start: a, end: b });
            proof {
                word_bounds(v@, inner, here);
                assert(places(out@) =~= before.push((a as int, b as int)));
                assert(before + spans_from(v@, inner, here) =~= places(out@) + spans_from(
                    v@,
                    inner,
                    b as int,
                ));
            }
            i = b;
        }
    }
    assert(spans_from(v@, inner, i as int) =~= Seq::empty());
    assert(places(out@) + Seq::empty() =~= places(out@));
    out
}

/// Whether the character belongs to a word.
fn is_inner(c: char, inner: Option<char>) -> (r: bool)
    ensures
        r == word_char(c, inner),
        is_plain(c),
{
    if is_alphanumeric(c) {
        return true;
    }
    match inner {
        Some(x) => x == c,
        None => false,
    }
}

/// A text with every character made small by itself.
pub open spec fn lowered_chars(s: Seq<char>) -> Seq<char>
    decreases s.len(),
{
    if s.len() == 0 {
        Seq::empty()
    } else {
        lowered_chars(s.drop_last()) + lowercase_of(s.last())
    }
}

/// The characters from `from` up to `to`, each made small by itself.
pub fn lower_chars(v: &Vec<char>, from: usize, to: usize) -> (r: Vec<char>)
    requires
        from <= to <= v@.len(),
    ensures
        r@ == lowered_chars(v@.subrange(from as int, to as int)),
        ascii(v@) ==> r@ == v@.subrange(from as int, to as int).map_values(
            |c: char| ascii_lower(c),
        ),
{
    let mut out: Vec<char> = Vec::new();
    let mut i: usize = from;
    while i < to
        invariant
            from <= i <= to <= v@.len(),
            out@ == lowered_chars(v@.subrange(from as int, i as int)),
            ascii(v@) ==> out@ == v@.subrange(from as int, i as int).map_values(
                |c: char| ascii_lower(c),
            ),
        decreases to - i,
    {
        let mut low = lowercase_char(v[i]);
        out.append(&mut low);
        proof {
            let t = v@.subrange(from as int, i + 1);
            assert(t.drop_last() =~= v@.subrange(from as int, i as int));
            assert(t.last() == v@[i as int]);
            if ascii(v@) {
                assert(out@ =~= t.map_values(|c: char| ascii_lower(c)));
            }
        }
        i = i + 1;
    }
    out
}

// ---------------------------------------------------------------------------
// Words of texts side by side
// ---------------------------------------------------------------------------

/// Places, each moved on by `n`.
pub open spec fn moved(p: Seq<(int, int)>, n: int) -> Seq<(int, int)> {
    p.map_values(|q: (int, int)| (q.0 + n, q.1 + n))
}

proof fn bounds_behind_a_prefix(pre: Seq<char>, b: Seq<char>, inner: Option<char>, i: int)
    requires
        0 <= i <= b.len(),
    ensures
        word_start(pre + b, inner, pre.len() + i) == pre.len() + word_start(b, inner, i),
        word_end(pre + b, inner, pre.len() + i) == pre.len() + word_end(b, inner, i),
    decreases b.len() - i,
{
    if i < b.len() {
        assert((pre + b)[pre.len() + i] == b[i]);
        bounds_behind_a_prefix(pre, b, inner, i + 1);
    }
}

proof fn spans_behind_a_prefix(pre: Seq<char>, b: Seq<char>, inner: Option<char>, i: int)
    requires
        0 <= i <= b.len(),
    ensures
        spans_from(pre + b, inner, pre.len() + i) == moved(
            spans_from(b, inner, i),
            pre.len() as int,
        ),
    decreases b.len() - i,
{
    bounds_behind_a_prefix(pre, b, inner, i);
    word_bounds(b, inner, i);
    let a = word_start(b, inner, i);
    if a < b.len() {
        bounds_behind_a_prefix(pre, b, inner, a);
        let e = word_end(b, inner, a);
        spans_behind_a_prefix(pre, b, inner, e);
        assert(spans_from(pre + b, inner, pre.len() + i) =~= seq![
            (pre.len() + a, pre.len() + e),
        ] + spans_from(pre + b, inner, pre.len() + e));
        assert(moved(spans_from(b, inner, i), pre.len() as int) =~= seq![
            (a + pre.len(), e + pre.len()),
        ] + moved(spans_from(b, inner, e), pre.len() as int));
    } else {
        assert(spans_from(pre + b, inner, pre.len() + i) =~= Seq::empty());
        assert(moved(spans_from(b, inner, i), pre.len() as int) =~= Seq::empty());
    }
}

/// Before a character that belongs to no word, bounds are those of the text
/// before it.
proof fn bounds_before_a_separator(
    a: Seq<char>,
    c: char,
    b: Seq<char>,
    inner: Option<char>,
    i: int,
)
    requires
        0 <= i <= a.len(),
        !word_char(c, inner),
    ensures
        ({
            let s = a.push(c) + b;
            &&& word_start(a, inner, i) < a.len() ==> word_start(s, inner, i) == word_start(
                a,
                inner,
                i,
            )
            &&& word_start(a, inner, i) >= a.len() ==> word_start(s, inner, i) == word_start(
                s,
                inner,
                a.len() as int + 1,
            )
            &&& word_end(s, inner, i) == word_end(a, inner, i)
        }),
    decreases a.len() - i,
{
    let s = a.push(c) + b;
    if i < a.len() {
        assert(s[i] == a[i]);
        bounds_before_a_separator(a, c, b, inner, i + 1);
    } else {
        assert(s[i] == c);
    }
}

proof fn spans_before_a_separator(
    a: Seq<char>,
    c: char,
    b: Seq<char>,
    inner: Option<char>,
    i: int,
)
    requires
        0 <= i <= a.len(),
        !word_char(c, inner),
    ensures
        spans_from(a.push(c) + b, inner, i) == spans_from(a, inner, i) + spans_from(
            a.push(c) + b,
            inner,
            a.len() as int + 1,
        ),
    decreases a.len() - i,
{
    let s = a.push(c) + b;
    let rest = spans_from(s, inner, a.len() as int + 1);
    bounds_before_a_separator(a, c, b, inner, i);
    word_bounds(a, inner, i);
    let p = word_start(a, inner, i);
    if p < a.len() {
        bounds_before_a_separator(a, c, b, inner, p);
        let e = word_end(a, inner, p);
        spans_before_a_separator(a, c, b, inner, e);
        assert(spans_from(s, inner, i) =~= seq![(p, e)] + spans_from(s, inner, e));
        assert(spans_from(s, inner, i) =~= (seq![(p, e)] + spans_from(a, inner, e)) + rest);
    } else {
        assert(spans_from(a, inner, i) =~= Seq::empty());
        assert(spans_from(s, inner, i) =~= rest);
        assert(Seq::empty() + rest =~= rest);
    }
}

/// The words of two texts with a character between them that belongs to no
/// word: those of the one, and then those of the other.
pub proof fn spans_of_joined_texts(a: Seq<char>, c: char, b: Seq<char>, inner: Option<char>)
    requires
        !word_char(c, inner),
    ensures
        spans(a.push(c) + b, inner) == spans(a, inner) + moved(
            spans(b, inner),
            a.len() as int + 1,
        ),
        words(a.push(c) + b, inner) == words(a, inner) + words(b, inner),
{
    let s = a.push(c) + b;
    spans_before_a_separator(a, c, b, inner, 0);
    spans_behind_a_prefix(a.push(c), b, inner, 0);
    spans_are_maximal_runs(a, inner, 0);
    spans_are_maximal_runs(b, inner, 0);
    assert forall|k: int| 0 <= k < spans(a, inner).len() implies s.subrange(
        (#[trigger] spans(a, inner)[k]).0,
        spans(a, inner)[k].1,
    ) == a.subrange(spans(a, inner)[k].0, spans(a, inner)[k].1) by {
        assert(spans_from(a, inner, 0)[k] == spans(a, inner)[k]);
        let p = spans(a, inner)[k];
        assert(s.subrange(p.0, p.1) =~= a.subrange(p.0, p.1));
    }
    let n = a.len() as int + 1;
    assert forall|k: int| 0 <= k < spans(b, inner).len() implies s.subrange(
        (#[trigger] spans(b, inner)[k]).0 + n,
        spans(b, inner)[k].1 + n,
    ) == b.subrange(spans(b, inner)[k].0, spans(b, inner)[k].1) by {
        assert(spans_from(b, inner, 0)[k] == spans(b, inner)[k]);
        let p = spans(b, inner)[k];
        assert(s.subrange(p.0 + n, p.1 + n) =~= b.subrange(p.0, p.1));
    }
    assert(words(s, inner) =~= words(a, inner) + words(b, inner));
}

/// The words of a text stand in order, apart from each other.
pub proof fn spans_stand_in_order(s: Seq<char>, inner: Option<char>, from: int)
    requires
        0 <= from <= s.len(),
    ensures
        forall|j: int, k: int|
            #![trigger spans_from(s, inner, from)[j], spans_from(s, inner, from)[k]]
            0 <= j < k < spans_from(s, inner, from).len() ==> spans_from(s, inner, from)[j].1
                <= spans_from(s, inner, from)[k].0,
        forall|k: int|
            0 <= k < spans_from(s, inner, from).len() ==> from <= (#[trigger] spans_from(
                s,
                inner,
                from,
            )[k]).0,
    decreases s.len() - from,
{
    word_bounds(s, inner, from);
    let a = word_start(s, inner, from);
    if a < s.len() {
        let e = word_end(s, inner, a);
        spans_stand_in_order(s, inner, e);
        let all = spans_from(s, inner, from);
        let rest = spans_from(s, inner, e);
        assert forall|k: int| 0 < k < all.len() implies #[trigger] all[k] == rest[k - 1] by {}
        assert(all[0] == (a, e));
        assert forall|j: int, k: int|
            #![trigger all[j], all[k]]
            0 <= j < k < all.len() implies all[j].1 <= all[k].0 by {
            assert(all[k] == rest[k - 1]);
            if j > 0 {
                assert(all[j] == rest[j - 1]);
            }
        }
        assert forall|k: int| 0 <= k < all.len() implies from <= (#[trigger] all[k]).0 by {
            if k > 0 {
                assert(all[k] == rest[k - 1]);
            }
        }
    }
}

/// Every word character of a text from `from` on stands in one of the words
/// from there on.
pub proof fn spans_cover_every_word_character(
    s: Seq<char>,
    inner: Option<char>,
    from: int,
    i: int,
)
    requires
        0 <= from <= i < s.len(),
        word_char(s[i], inner),
    ensures
        exists|k: int|
            0 <= k < spans_from(s, inner, from).len() && (#[trigger] spans_from(
                s,
                inner,
                from,
            )[k]).0 <= i < spans_from(s, inner, from)[k].1,
    decreases s.len() - from,
{
    word_start_bounds(s, inner, from);
    word_bounds(s, inner, from);
    let a = word_start(s, inner, from);
    assert(a <= i);
    let e = word_end(s, inner, a);
    let all = spans_from(s, inner, from);
    if i < e {
        assert(all[0] == (a, e));
    } else {
        spans_cover_every_word_character(s, inner, e, i);
        let rest = spans_from(s, inner, e);
        let k = choose|k: int| 0 <= k < rest.len() && (#[trigger] rest[k]).0 <= i < rest[k].1;
        assert(all[k + 1] == rest[k]);
    }
}

/// Looking for words from where one starts gives that word and those behind it.
proof fn spans_from_a_word(s: Seq<char>, inner: Option<char>, from: int, i: int)
    requires
        0 <= from <= s.len(),
        0 <= i < spans_from(s, inner, from).len(),
    ensures
        0 <= spans_from(s, inner, from)[i].0 <= s.len(),
        spans_from(s, inner, spans_from(s, inner, from)[i].0) == spans_from(s, inner, from).skip(i),
    decreases i,
{
    word_start_bounds(s, inner, from);
    word_bounds(s, inner, from);
    let all = spans_from(s, inner, from);
    let a = word_start(s, inner, from);
    let e = word_end(s, inner, a);
    let rest = spans_from(s, inner, e);
    assert(all =~= seq![(a, e)] + rest);
    if i == 0 {
        assert(word_start(s, inner, a) == a);
        assert(all.skip(0) =~= all);
        assert(spans_from(s, inner, a) =~= seq![(a, e)] + rest);
    } else {
        assert(all[i] == rest[i - 1]);
        spans_from_a_word(s, inner, e, i - 1);
        assert(all.skip(i) =~= rest.skip(i - 1));
    }
}

proof fn a_span_lies_inside(s: Seq<char>, inner: Option<char>, k: int)
    requires
        0 <= k < spans(s, inner).len(),
    ensures
        0 <= spans(s, inner)[k].0 < spans(s, inner)[k].1 <= s.len(),
        spans(s, inner)[k].1 == s.len() || !word_char(s[spans(s, inner)[k].1], inner),
{
    spans_are_maximal_runs(s, inner, 0);
    assert(spans_from(s, inner, 0)[k] == spans(s, inner)[k]);
}

proof fn two_spans_stand_apart(s: Seq<char>, inner: Option<char>, j: int, k: int)
    requires
        0 <= j < k < spans(s, inner).len(),
    ensures
        spans(s, inner)[j].1 <= spans(s, inner)[k].0,
{
    spans_stand_in_order(s, inner, 0);
    assert(spans_from(s, inner, 0)[j] == spans(s, inner)[j]);
    assert(spans_from(s, inner, 0)[k] == spans(s, inner)[k]);
}

/// From where a word starts, a text has that word and those behind it.
proof fn spans_of_a_tail(s: Seq<char>, inner: Option<char>, i: int)
    requires
        0 <= i < spans(s, inner).len(),
    ensures
        0 <= spans(s, inner)[i].0 <= s.len(),
        spans(s.skip(spans(s, inner)[i].0), inner) == moved(
            spans(s, inner).skip(i),
            -spans(s, inner)[i].0,
        ),
{
    let p = spans(s, inner);
    a_span_lies_inside(s, inner, i);
    let a = p[i].0;
    let rest = s.skip(a);
    assert(s =~= s.take(a) + rest);
    spans_from_a_word(s, inner, 0, i);
    spans_behind_a_prefix(s.take(a), rest, inner, 0);
    let q = spans(rest, inner);
    assert(moved(q, a) == p.skip(i));
    assert(q.len() == p.skip(i).len());
    assert forall|k: int| 0 <= k < q.len() implies #[trigger] q[k] == moved(p.skip(i), -a)[k] by {
        assert(moved(q, a)[k] == p.skip(i)[k]);
    }
    assert(q =~= moved(p.skip(i), -a));
}

/// Up to where a word ends, a text has that word and those before it.
proof fn spans_of_a_head(s: Seq<char>, inner: Option<char>, last: int)
    requires
        0 <= last < spans(s, inner).len(),
    ensures
        0 <= spans(s, inner)[last].1 <= s.len(),
        spans(s.take(spans(s, inner)[last].1), inner) == spans(s, inner).take(last + 1),
{
    let q = spans(s, inner);
    a_span_lies_inside(s, inner, last);
    let n = q[last].1;
    let m = s.take(n);
    if n < s.len() {
        let tail = s.skip(n + 1);
        assert(s =~= m.push(s[n]) + tail);
        spans_of_joined_texts(m, s[n], tail, inner);
        let front = spans(m, inner);
        let back = moved(spans(tail, inner), m.len() as int + 1);
        assert(q == front + back);
        if front.len() <= last {
            let k = last - front.len();
            assert(q[last] == back[k]);
            a_span_lies_inside(tail, inner, k);
            assert(back[k].1 == spans(tail, inner)[k].1 + n + 1);
        }
        if front.len() > last + 1 {
            assert(q[last + 1] == front[last + 1]);
            a_span_lies_inside(m, inner, last + 1);
            two_spans_stand_apart(s, inner, last, last + 1);
        }
        assert(q.take(last + 1) =~= front);
    } else {
        assert(m =~= s);
        if last + 1 < q.len() {
            two_spans_stand_apart(s, inner, last, last + 1);
            a_span_lies_inside(s, inner, last + 1);
        }
        assert(q.take(last + 1) =~= q);
    }
}

/// The words of the part of a text from one of its words to another are those
/// words.
pub proof fn spans_of_a_part(s: Seq<char>, inner: Option<char>, i: int, j: int)
    requires
        0 <= i <= j < spans(s, inner).len(),
    ensures
        ({
            let p = spans(s, inner);
            let m = s.subrange(p[i].0, p[j].1);
            &&& 0 <= p[i].0 < p[j].1 <= s.len()
            &&& spans(m, inner) == moved(p.subrange(i, j + 1), -p[i].0)
            &&& words(m, inner) == words(s, inner).subrange(i, j + 1)
        }),
{
    let p = spans(s, inner);
    a_span_lies_inside(s, inner, i);
    a_span_lies_inside(s, inner, j);
    if i < j {
        two_spans_stand_apart(s, inner, i, j);
    }
    let a = p[i].0;
    let m = s.subrange(a, p[j].1);
    spans_of_a_tail(s, inner, i);
    let rest = s.skip(a);
    let q = spans(rest, inner);
    assert(q[j - i] == (p.skip(i)[j - i].0 - a, p.skip(i)[j - i].1 - a));
    spans_of_a_head(rest, inner, j - i);
    assert(m =~= rest.take(p[j].1 - a));
    let found = spans(m, inner);
    assert(found == q.take(j - i + 1));
    assert(found =~= moved(p.subrange(i, j + 1), -a));
    assert forall|k: int| 0 <= k < found.len() implies #[trigger] words(m, inner)[k] == words(
        s,
        inner,
    )[i + k] by {
        let w = p[i + k];
        assert(found[k] == moved(p.subrange(i, j + 1), -a)[k]);
        assert(p.subrange(i, j + 1)[k] == w);
        a_span_lies_inside(s, inner, i + k);
        if k > 0 {
            two_spans_stand_apart(s, inner, i, i + k);
        }
        if i + k < j {
            two_spans_stand_apart(s, inner, i + k, j);
        }
        assert(m.subrange(w.0 - a, w.1 - a) =~= s.subrange(w.0, w.1));
    }
    assert(words(m, inner) =~= words(s, inner).subrange(i, j + 1));
}

// ---------------------------------------------------------------------------
// Runs of letters and digits
// ---------------------------------------------------------------------------

/// An ASCII letter, an ASCII digit, or the one further character.
pub open spec fn is_run_char(c: char, inner: Option<char>) -> bool {
    'a' <= c <= 'z' || 'A' <= c <= 'Z' || '0' <= c <= '9' || inner == Some(c)
}

/// Whether these are the places of the longest runs of ASCII letters, digits
/// and the one further character, all of them, in order.
pub open spec fn are_runs(s: Seq<char>, p: Seq<(int, int)>, inner: Option<char>) -> bool {
    &&& forall|k: int|
        0 <= k < p.len() ==> {
            &&& 0 <= (#[trigger] p[k]).0 < p[k].1 <= s.len()
            &&& forall|m: int| p[k].0 <= m < p[k].1 ==> is_run_char(#[trigger] s[m], inner)
            &&& p[k].0 == 0 || !is_run_char(s[p[k].0 - 1], inner)
            &&& p[k].1 == s.len() || !is_run_char(s[p[k].1], inner)
        }
    &&& forall|j: int, k: int|
        #![trigger p[j], p[k]]
        0 <= j < k < p.len() ==> p[j].1 <= p[k].0
    &&& forall|i: int|
        0 <= i < s.len() && is_run_char(#[trigger] s[i], inner) ==> exists|k: int|
            0 <= k < p.len() && (#[trigger] p[k]).0 <= i < p[k].1
}

/// The runs at these places, made small.
pub open spec fn run_texts(s: Seq<char>, p: Seq<(int, int)>) -> Seq<Seq<char>> {
    p.map_values(|q: (int, int)| s.subrange(q.0, q.1).map_values(|c: char| ascii_lower(c)))
}

proof fn a_run_is_in_its_place(s: Seq<char>, p: Seq<(int, int)>, q: Seq<(int, int)>, inner: Option<char>, k: int)
    requires
        are_runs(s, p, inner),
        are_runs(s, q, inner),
        0 <= k < p.len(),
        k <= q.len(),
        forall|j: int| 0 <= j < k ==> #[trigger] p[j] == q[j],
    ensures
        k < q.len(),
        p[k] == q[k],
{
    let a = p[k].0;
    assert(is_run_char(s[a], inner));
    let m = choose|m: int| 0 <= m < q.len() && (#[trigger] q[m]).0 <= a < q[m].1;
    if m < k {
        assert(p[m] == q[m]);
        assert(p[m].1 <= p[k].0);
    }
    if q[m].0 < a {
        assert(is_run_char(s[a - 1], inner));
    }
    if q[m].1 < p[k].1 {
        assert(is_run_char(s[q[m].1], inner));
    }
    if p[k].1 < q[m].1 {
        assert(is_run_char(s[p[k].1], inner));
    }
    assert(q[m] == p[k]);
    if m > k {
        let b = q[k].0;
        assert(q[k].1 <= q[m].0);
        assert(is_run_char(s[b], inner));
        let j = choose|j: int| 0 <= j < p.len() && (#[trigger] p[j]).0 <= b < p[j].1;
        if j < k {
            assert(p[j] == q[j]);
            assert(q[j].1 <= q[k].0);
        } else if j > k {
            assert(p[k].1 <= p[j].0);
        }
    }
}

proof fn runs_agree_upto(s: Seq<char>, p: Seq<(int, int)>, q: Seq<(int, int)>, inner: Option<char>, n: int)
    requires
        are_runs(s, p, inner),
        are_runs(s, q, inner),
        0 <= n <= p.len(),
    ensures
        n <= q.len(),
        forall|j: int| 0 <= j < n ==> #[trigger] p[j] == q[j],
    decreases n,
{
    if n > 0 {
        runs_agree_upto(s, p, q, inner, n - 1);
        a_run_is_in_its_place(s, p, q, inner, n - 1);
    }
}

/// A text has one list of runs.
pub proof fn runs_are_unique(
    s: Seq<char>,
    p: Seq<(int, int)>,
    q: Seq<(int, int)>,
    inner: Option<char>,
)
    requires
        are_runs(s, p, inner),
        are_runs(s, q, inner),
    ensures
        p == q,
{
    runs_agree_upto(s, p, q, inner, p.len() as int);
    runs_agree_upto(s, q, p, inner, q.len() as int);
    if p.len() > 0 {
        assert(p[p.len() - 1] == q[p.len() - 1]);
    }
    if q.len() > 0 {
        assert(q[q.len() - 1] == p[q.len() - 1]);
    }
    assert(p =~= q);
}

/// The words of an ASCII text are its runs.
pub proof fn spans_are_runs(s: Seq<char>, inner: Option<char>)
    requires
        ascii(s),
        forall|k: int| 0 <= k < s.len() ==> is_plain(#[trigger] s[k]),
    ensures
        are_runs(s, spans(s, inner), inner),
{
    let p = spans(s, inner);
    assert forall|k: int| 0 <= k < s.len() implies word_char(#[trigger] s[k], inner)
        == is_run_char(s[k], inner) by {
        assert(is_plain(s[k]));
    }
    spans_are_maximal_runs(s, inner, 0);
    assert forall|k: int| 0 <= k < p.len() implies {
        &&& 0 <= (#[trigger] p[k]).0 < p[k].1 <= s.len()
        &&& forall|m: int| p[k].0 <= m < p[k].1 ==> is_run_char(#[trigger] s[m], inner)
        &&& p[k].0 == 0 || !is_run_char(s[p[k].0 - 1], inner)
        &&& p[k].1 == s.len() || !is_run_char(s[p[k].1], inner)
    } by {
        assert(spans_from(s, inner, 0)[k] == p[k]);
    }
    spans_stand_in_order(s, inner, 0);
    assert forall|i: int| 0 <= i < s.len() && is_run_char(#[trigger] s[i], inner) implies exists|
        k: int,
    | 0 <= k < p.len() && (#[trigger] p[k]).0 <= i < p[k].1 by {
        spans_cover_every_word_character(s, inner, 0, i);
    }
}

/// The words of the small form of an ASCII text are its runs, made small.
pub proof fn small_words_are_runs(s: Seq<char>, low: Seq<char>)
    requires
        ascii(s),
        low == s.map_values(|c: char| ascii_lower(c)),
        forall|k: int| 0 <= k < low.len() ==> is_plain(#[trigger] low[k]),
    ensures
        are_runs(s, spans(low, None), None),
        words(low, None) == run_texts(s, spans(low, None)),
{
    let p = spans(low, None);
    assert forall|k: int| 0 <= k < s.len() implies is_run_char(#[trigger] low[k], None)
        == is_run_char(s[k], None) by {
        assert(low[k] == ascii_lower(s[k]));
        assert((s[k] as u32) < 128);
    }
    assert(ascii(low)) by {
        assert forall|k: int| 0 <= k < low.len() implies (#[trigger] low[k] as u32) < 128 by {
            assert(low[k] == ascii_lower(s[k]));
            assert((s[k] as u32) < 128);
        }
    }
    spans_are_runs(low, None);
    assert forall|k: int| 0 <= k < p.len() implies {
        &&& 0 <= (#[trigger] p[k]).0 < p[k].1 <= s.len()
        &&& forall|m: int| p[k].0 <= m < p[k].1 ==> is_run_char(#[trigger] s[m], None)
        &&& p[k].0 == 0 || !is_run_char(s[p[k].0 - 1], None)
        &&& p[k].1 == s.len() || !is_run_char(s[p[k].1], None)
    } by {
        assert forall|m: int| p[k].0 <= m < p[k].1 implies is_run_char(#[trigger] s[m], None) by {
            assert(is_run_char(low[m], None));
        }
        if p[k].0 > 0 {
            assert(!is_run_char(low[p[k].0 - 1], None));
        }
        if p[k].1 < s.len() {
            assert(!is_run_char(low[p[k].1], None));
        }
    }
    assert forall|i: int| 0 <= i < s.len() && is_run_char(#[trigger] s[i], None) implies exists|
        k: int,
    | 0 <= k < p.len() && (#[trigger] p[k]).0 <= i < p[k].1 by {
        assert(is_run_char(low[i], None));
    }
    assert(words(low, None) =~= run_texts(s, p)) by {
        assert forall|k: int| 0 <= k < p.len() implies low.subrange((#[trigger] p[k]).0, p[k].1)
            == s.subrange(p[k].0, p[k].1).map_values(|c: char| ascii_lower(c)) by {
            assert(low.subrange(p[k].0, p[k].1) =~= s.subrange(p[k].0, p[k].1).map_values(
                |c: char| ascii_lower(c),
            ));
        }
    }
}

/// The small form of an ASCII character: of a capital letter the letter 32
/// places on, of every other character itself.
pub proof fn small_letters_stand_apart(c: char)
    ensures
        'A' <= c <= 'Z' ==> ascii_lower(c) as u32 == c as u32 + 32,
        !('A' <= c <= 'Z') ==> ascii_lower(c) == c,
        'a' <= c <= 'z' ==> ascii_upper(c) as u32 == c as u32 - 32,
        !('a' <= c <= 'z') ==> ascii_upper(c) == c,
{
}

/// One text comes before another where it is a proper beginning of it, or has
/// the lesser character where they first differ.
pub proof fn dictionary_order_goes_by_the_first_difference(a: Seq<char>, b: Seq<char>)
    ensures
        text_before(a, b) <==> exists|k: int|
            0 <= k <= a.len() && k < b.len() && #[trigger] a.take(k) == b.take(k) && (k == a.len()
                || a[k] < b[k]),
{
    assert(a.take(0) =~= b.take(0));
    dictionary_order_from(a, b, 0);
}

proof fn dictionary_order_from(a: Seq<char>, b: Seq<char>, i: int)
    requires
        0 <= i <= a.len(),
        i <= b.len(),
        a.take(i) == b.take(i),
    ensures
        text_before_from(a, b, i) <==> exists|k: int|
            0 <= k <= a.len() && k < b.len() && #[trigger] a.take(k) == b.take(k) && (k == a.len()
                || a[k] < b[k]),
    decreases a.len() - i,
{
    if i < a.len() && i < b.len() && a[i] == b[i] {
        assert(a.take(i + 1) =~= a.take(i).push(a[i]));
        assert(b.take(i + 1) =~= b.take(i).push(b[i]));
        dictionary_order_from(a, b, i + 1);
    } else {
        if text_before_from(a, b, i) {
            assert(a.take(i) == b.take(i));
        }
        assert forall|k: int|
            0 <= k <= a.len() && k < b.len() && #[trigger] a.take(k) == b.take(k) && (k == a.len()
                || a[k] < b[k]) implies text_before_from(a, b, i) by {
            if k > i {
                assert(a.take(k)[i] == a[i]);
                assert(b.take(k)[i] == b[i]);
            } else if k < i {
                if k < a.len() {
                    assert(a.take(i)[k] == a[k]);
                    assert(b.take(i)[k] == b[k]);
                }
            }
        }
    }
}

/// Trimming takes away white space around a text, and nothing else: what is left
/// is a piece of it, and all before and behind that piece is white space.
pub proof fn trimming_takes_away_only_space(s: Seq<char>) -> (p: (int, int))
    ensures
        0 <= p.0 <= p.1 <= s.len(),
        trimmed(s) == s.subrange(p.0, p.1),
        forall|i: int| 0 <= i < p.0 ==> is_space(#[trigger] s[i]),
        forall|i: int| p.1 <= i < s.len() ==> is_space(#[trigger] s[i]),
        p.0 < p.1 ==> !is_space(s[p.0]) && !is_space(s[p.1 - 1]),
{
    let a = leading_space(s);
    let t = trim_start(s);
    let n = trailing_space(t);
    trimmed_has_no_space_around(s);
    assert(t.take(n) =~= s.subrange(a, a + n));
    assert forall|i: int| a + n <= i < s.len() implies is_space(#[trigger] s[i]) by {
        assert(t[i - a] == s[i]);
    }
    (a, a + n)
}

proof fn leading_space(s: Seq<char>) -> (a: int)
    ensures
        0 <= a <= s.len(),
        trim_start(s) == s.skip(a),
        forall|i: int| 0 <= i < a ==> is_space(#[trigger] s[i]),
    decreases s.len(),
{
    if s.len() > 0 && is_space(s[0]) {
        let b = leading_space(s.skip(1));
        assert(s.skip(1).skip(b) =~= s.skip(b + 1));
        assert forall|i: int| 0 <= i < b + 1 implies is_space(#[trigger] s[i]) by {
            if i > 0 {
                assert(s.skip(1)[i - 1] == s[i]);
            }
        }
        b + 1
    } else {
        assert(s.skip(0) =~= s);
        0
    }
}

proof fn trailing_space(s: Seq<char>) -> (n: int)
    ensures
        0 <= n <= s.len(),
        trim_end(s) == s.take(n),
        forall|i: int| n <= i < s.len() ==> is_space(#[trigger] s[i]),
        n > 0 ==> !is_space(s[n - 1]),
    decreases s.len(),
{
    if s.len() > 0 && is_space(s.last()) {
        let t = s.drop_last();
        let n = trailing_space(t);
        assert(t.take(n) =~= s.take(n));
        assert forall|i: int| n <= i < s.len() implies is_space(#[trigger] s[i]) by {
            if i < t.len() {
                assert(t[i] == s[i]);
            }
        }
        if n > 0 {
            assert(t[n - 1] == s[n - 1]);
        }
        n
    } else {
        assert(s.take(s.len() as int) =~= s);
        s.len() as int
    }
}

/// The end of a text without trailing white space.
pub proof fn the_end_is_trimmed(s: Seq<char>) -> (n: int)
    ensures
        0 <= n <= s.len(),
        trim_end(s) == s.take(n),
        forall|i: int| n <= i < s.len() ==> is_space(#[trigger] s[i]),
        n > 0 ==> !is_space(s[n - 1]),
{
    trailing_space(s)
}

/// A number is written without leading zeros, its last digit last: a number
/// below ten is one digit, and ten times a number and a digit is that number
/// with the digit behind it.
pub proof fn decimal_is_positional(n: nat, d: nat)
    requires
        d < 10,
    ensures
        decimal(d) == seq![(48 + d) as char],
        n > 0 ==> decimal(10 * n + d) == decimal(n) + seq![(48 + d) as char],
        decimal(n).len() > 1 ==> decimal(n)[0] != '0',
    decreases n,
{
    if n > 0 {
        assert((10 * n + d) / 10 == n);
        assert((10 * n + d) % 10 == d);
        assert(decimal(n).push(digit_char(d)) =~= decimal(n) + seq![(48 + d) as char]);
        if n >= 10 {
            decimal_is_positional(n / 10, d);
            decimal_reads_back(n / 10);
            if n / 10 < 10 {
                assert(decimal(n / 10)[0] == digit_char(n / 10));
            } else {
                decimal_reads_back(n / 10 / 10);
            }
            assert(decimal(n)[0] == decimal(n / 10)[0]);
        }
    }
}

/// Joining keeps every text in order: two texts stand with the separator between
/// them, and one more text is put behind the rest.
pub proof fn joining_puts_the_separator_between(v: Seq<Seq<char>>, t: Seq<char>, sep: Seq<char>)
    ensures
        joined(Seq::<Seq<char>>::empty(), sep) == Seq::<char>::empty(),
        joined(seq![t], sep) == t,
        v.len() > 0 ==> joined(v.push(t), sep) == joined(v, sep) + sep + t,
{
    assert(v.push(t).drop_last() =~= v);
}

/// The bytes of a text are those of its parts, and a character takes as many as
/// UTF-8 gives its range.
pub proof fn bytes_add_up(a: Seq<char>, b: Seq<char>, c: char)
    ensures
        utf8_len(a + b) == utf8_len(a) + utf8_len(b),
        utf8_len(seq![c]) == utf8_width(c),
        c as u32 <= 0x7f ==> utf8_width(c) == 1,
        0x80 <= c as u32 <= 0x7ff ==> utf8_width(c) == 2,
        0x800 <= c as u32 <= 0xffff ==> utf8_width(c) == 3,
        0x1_0000 <= c as u32 ==> utf8_width(c) == 4,
    decreases b.len(),
{
    assert(seq![c].drop_last() =~= Seq::<char>::empty());
    assert(utf8_len(seq![c].drop_last()) == 0);
    if b.len() > 0 {
        bytes_add_up(a, b.drop_last(), c);
        assert((a + b).drop_last() =~= a + b.drop_last());
    } else {
        assert(a + b =~= a);
    }
}

/// To make the characters of a text small is to make those of its parts small.
pub proof fn small_characters_add_up(a: Seq<char>, b: Seq<char>, c: char)
    ensures
        lowered_chars(a + b) == lowered_chars(a) + lowered_chars(b),
        lowered_chars(seq![c]) == lowercase_of(c),
    decreases b.len(),
{
    assert(seq![c].drop_last() =~= Seq::<char>::empty());
    assert(lowered_chars(seq![c].drop_last()) =~= Seq::<char>::empty());
    assert(lowered_chars(seq![c]) =~= lowercase_of(c));
    if b.len() > 0 {
        small_characters_add_up(a, b.drop_last(), c);
        assert((a + b).drop_last() =~= a + b.drop_last());
        assert(lowered_chars(a + b) =~= lowered_chars(a) + lowered_chars(b));
    } else {
        assert(a + b =~= a);
        assert(lowered_chars(a) + lowered_chars(b) =~= lowered_chars(a));
    }
}

} // verus!
