//! Text as a sequence of characters: trimming, splitting, searching, ordering, numbers.

use vstd::prelude::*;

verus! {

/// `String::push` puts one character at the end of the text.
pub assume_specification[ String::push ](text: &mut String, c: char)
    ensures
        final(text)@ == old(text)@.push(c),
;

// ---------------------------------------------------------------------------
// Models
// ---------------------------------------------------------------------------

/// The characters with the Unicode property `White_Space`.
pub open spec fn white(c: char) -> bool {
    let n = c as int;
    ||| 0x09 <= n <= 0x0d
    ||| n == 0x20
    ||| n == 0x85
    ||| n == 0xa0
    ||| n == 0x1680
    ||| 0x2000 <= n <= 0x200a
    ||| n == 0x2028
    ||| n == 0x2029
    ||| n == 0x202f
    ||| n == 0x205f
    ||| n == 0x3000
}

/// The text without leading white space.
pub open spec fn trim_start(s: Seq<char>) -> Seq<char>
    decreases s.len(),
{
    if s.len() > 0 && white(s[0]) {
        trim_start(s.drop_first())
    } else {
        s
    }
}

/// The text without trailing white space.
pub open spec fn trim_end(s: Seq<char>) -> Seq<char>
    decreases s.len(),
{
    if s.len() > 0 && white(s.last()) {
        trim_end(s.drop_last())
    } else {
        s
    }
}

/// The text without white space at either end.
pub open spec fn trim(s: Seq<char>) -> Seq<char> {
    trim_end(trim_start(s))
}

/// Whether nothing but white space is in the text.
pub open spec fn blank(s: Seq<char>) -> bool {
    trim(s).len() == 0
}

/// The text without trailing characters `c`.
pub open spec fn trim_end_char(s: Seq<char>, c: char) -> Seq<char>
    decreases s.len(),
{
    if s.len() > 0 && s.last() == c {
        trim_end_char(s.drop_last(), c)
    } else {
        s
    }
}

/// How many characters stand before the first white space.
pub open spec fn word_len(s: Seq<char>) -> nat
    decreases s.len(),
{
    if s.len() == 0 || white(s[0]) {
        0
    } else {
        1 + word_len(s.drop_first())
    }
}

/// The words of a text: its longest parts without white space, in order.
pub open spec fn words(s: Seq<char>) -> Seq<Seq<char>>
    decreases s.len(),
{
    if s.len() == 0 {
        seq![]
    } else if white(s[0]) {
        words(s.drop_first())
    } else {
        let n = word_len(s);
        if 0 < n <= s.len() {
            seq![s.take(n as int)] + words(s.skip(n as int))
        } else {
            seq![]
        }
    }
}

/// One character with `A` to `Z` put in lower case.
pub open spec fn lower_char(c: char) -> char {
    if 'A' <= c <= 'Z' {
        ((c as int) + 32) as char
    } else {
        c
    }
}

/// The text with `A` to `Z` put in lower case.
pub open spec fn lower(s: Seq<char>) -> Seq<char> {
    s.map_values(|c: char| lower_char(c))
}

/// Whether `needle` stands in `s` at position `i`.
pub open spec fn occurs_at(s: Seq<char>, needle: Seq<char>, i: int) -> bool {
    &&& 0 <= i
    &&& i + needle.len() <= s.len()
    &&& s.subrange(i, i + needle.len()) == needle
}

/// Whether `needle` stands somewhere in `s`.
pub open spec fn contains(s: Seq<char>, needle: Seq<char>) -> bool {
    exists|i: int| occurs_at(s, needle, i)
}

/// Whether `s` begins with `prefix`.
pub open spec fn starts_with(s: Seq<char>, prefix: Seq<char>) -> bool {
    prefix.len() <= s.len() && s.take(prefix.len() as int) == prefix
}

/// Whether `s` ends with `suffix`.
pub open spec fn ends_with(s: Seq<char>, suffix: Seq<char>) -> bool {
    suffix.len() <= s.len() && s.skip(s.len() - suffix.len()) == suffix
}

/// Whether `a` stands before `b` in the order of texts: the order of the code points at
/// the first place where they differ, a proper beginning before the longer text.
pub open spec fn precedes(a: Seq<char>, b: Seq<char>) -> bool
    decreases a.len(),
{
    if b.len() == 0 {
        false
    } else if a.len() == 0 {
        true
    } else if a[0] == b[0] {
        precedes(a.drop_first(), b.drop_first())
    } else {
        a[0] < b[0]
    }
}

/// Whether `c` is one of `0` to `9`.
pub open spec fn digit(c: char) -> bool {
    '0' <= c <= '9'
}

/// The character for a number below ten.
pub open spec fn digit_char(n: int) -> char {
    (('0' as int) + n) as char
}

/// The decimal digits of a number, without leading zeros.
pub open spec fn decimal(n: nat) -> Seq<char>
    decreases n,
{
    if n < 10 {
        seq![digit_char(n as int)]
    } else {
        decimal(n / 10).push(digit_char((n % 10) as int))
    }
}

/// The number that decimal digits stand for, most significant first.
pub open spec fn decimal_value(s: Seq<char>) -> nat
    decreases s.len(),
{
    if s.len() == 0 {
        0
    } else {
        10 * decimal_value(s.drop_last()) + ((s.last() as int) - ('0' as int)) as nat
    }
}

/// Whether there is at least one character and each is a digit.
pub open spec fn all_digits(s: Seq<char>) -> bool {
    s.len() > 0 && forall|i: int| 0 <= i < s.len() ==> digit(#[trigger] s[i])
}

/// The digits that are read as an unsigned number: a leading `+` does not count.
pub open spec fn number_digits(s: Seq<char>) -> Seq<char> {
    if s.len() > 0 && s[0] == '+' {
        s.drop_first()
    } else {
        s
    }
}

/// Reading an unsigned number of at most `max`.
pub open spec fn number(s: Seq<char>, max: nat) -> Option<nat> {
    let digits = number_digits(s);
    if all_digits(digits) && decimal_value(digits) <= max {
        Some(decimal_value(digits))
    } else {
        None
    }
}

/// The texts of a list of strings.
pub open spec fn texts(v: Seq<String>) -> Seq<Seq<char>> {
    v.map_values(|s: String| s@)
}

/// The text of an optional string.
pub open spec fn opt_text(o: Option<String>) -> Option<Seq<char>> {
    match o {
        Some(s) => Some(s@),
        None => None,
    }
}

/// The texts one after the other, with `separator` between neighbours.
pub open spec fn joined(parts: Seq<Seq<char>>, separator: Seq<char>) -> Seq<char>
    decreases parts.len(),
{
    if parts.len() == 0 {
        seq![]
    } else if parts.len() == 1 {
        parts[0]
    } else {
        joined(parts.drop_last(), separator) + separator + parts.last()
    }
}

/// The character `c`, `n` times.
pub open spec fn repeated(c: char, n: nat) -> Seq<char> {
    Seq::new(n, |i: int| c)
}

/// The text with blanks behind it, as many as it lacks of `width`.
pub open spec fn padded_right(s: Seq<char>, width: nat) -> Seq<char> {
    if s.len() < width {
        s + repeated(' ', (width - s.len()) as nat)
    } else {
        s
    }
}

/// The text with blanks before it, as many as it lacks of `width`.
pub open spec fn padded_left(s: Seq<char>, width: nat) -> Seq<char> {
    if s.len() < width {
        repeated(' ', (width - s.len()) as nat) + s
    } else {
        s
    }
}

/// One character with `a` to `z` put in upper case.
pub open spec fn upper_char(c: char) -> char {
    if 'a' <= c <= 'z' {
        ((c as int) - 32) as char
    } else {
        c
    }
}

/// The text with `a` to `z` put in upper case.
pub open spec fn upper(s: Seq<char>) -> Seq<char> {
    s.map_values(|c: char| upper_char(c))
}

// ---------------------------------------------------------------------------
// Characters and strings
// ---------------------------------------------------------------------------

/// The characters of a text.
pub fn chars_of(s: &str) -> (out: Vec<char>)
    ensures
        out@ == s@,
{
    let mut out: Vec<char> = Vec::new();
    for c in it: s.chars()
        invariant
            it.seq() == s@,
            out@ == s@.take(it.index() as int),
    {
        out.push(c);
        assert(out@ =~= s@.take(it.index() + 1));
    }
    assert(s@.take(s@.len() as int) =~= s@);
    out
}

/// The text made of the characters from `from` up to, not including, `to`.
pub fn text_between(chars: &Vec<char>, from: usize, to: usize) -> (out: String)
    requires
        from <= to <= chars.len(),
    ensures
        out@ == chars@.subrange(from as int, to as int),
{
    let mut out = String::new();
    assert(out@ =~= chars@.subrange(from as int, from as int));
    let mut i: usize = from;
    while i < to
        invariant
            from <= i <= to <= chars.len(),
            out@ == chars@.subrange(from as int, i as int),
        decreases to - i,
    {
        out.push(chars[i]);
        i += 1;
        assert(out@ =~= chars@.subrange(from as int, i as int));
    }
    out
}

/// Whether two texts are the same.
pub fn same_text(a: &str, b: &str) -> (same: bool)
    ensures
        same == (a@ == b@),
{
    let x = a.to_owned();
    let y = b.to_owned();
    x == y
}

/// A copy of a list of strings.
pub fn copy_texts(v: &Vec<String>) -> (out: Vec<String>)
    ensures
        out@ == v@,
{
    let mut out: Vec<String> = Vec::new();
    for i in 0..v.len()
        invariant
            out@ == v@.take(i as int),
    {
        out.push(v[i].clone());
        assert(out@ =~= v@.take(i + 1));
    }
    assert(v@.take(v@.len() as int) =~= v@);
    out
}

/// Two texts, one after the other.
pub fn concat2(a: &str, b: &str) -> (out: String)
    ensures
        out@ == a@ + b@,
{
    let mut out = a.to_owned();
    out.append(b);
    out
}

/// Three texts, one after the other.
pub fn concat3(a: &str, b: &str, c: &str) -> (out: String)
    ensures
        out@ == a@ + b@ + c@,
{
    let mut out = concat2(a, b);
    out.append(c);
    out
}

/// Four texts, one after the other.
pub fn concat4(a: &str, b: &str, c: &str, d: &str) -> (out: String)
    ensures
        out@ == a@ + b@ + c@ + d@,
{
    let mut out = concat3(a, b, c);
    out.append(d);
    out
}

// ---------------------------------------------------------------------------
// White space
// ---------------------------------------------------------------------------

/// Whether a character is white space.
pub fn is_white(c: char) -> (res: bool)
    ensures
        res == white(c),
{
    let n: u32 = c as u32;
    (0x09 <= n && n <= 0x0d) || n == 0x20 || n == 0x85 || n == 0xa0 || n == 0x1680 || (0x2000 <= n
        && n <= 0x200a) || n == 0x2028 || n == 0x2029 || n == 0x202f || n == 0x205f || n == 0x3000
}

/// The text without white space at either end.
pub fn trimmed(s: &str) -> (out: String)
    ensures
        out@ == trim(s@),
{
    let chars = chars_of(s);
    let mut from: usize = 0;
    assert(s@.skip(0) =~= s@);
    while from < chars.len() && is_white(chars[from])
        invariant
            from <= chars.len(),
            chars@ == s@,
            trim_start(s@.skip(from as int)) == trim_start(s@),
        decreases chars.len() - from,
    {
        assert(s@.skip(from as int).drop_first() =~= s@.skip(from + 1));
        from += 1;
    }
    let mut to: usize = chars.len();
    assert(s@.skip(from as int) =~= s@.subrange(from as int, to as int));
    while from < to && is_white(chars[to - 1])
        invariant
            from <= to <= chars.len(),
            chars@ == s@,
            trim_end(s@.subrange(from as int, to as int)) == trim(s@),
        decreases to,
    {
        assert(s@.subrange(from as int, to as int).drop_last() =~= s@.subrange(
            from as int,
            to - 1,
        ));
        to -= 1;
    }
    text_between(&chars, from, to)
}

/// Whether nothing but white space is in the text.
pub fn is_blank(s: &str) -> (res: bool)
    ensures
        res == blank(s@),
{
    let t = trimmed(s);
    t.as_str().unicode_len() == 0
}

/// The text without trailing characters `c`.
pub fn without_trailing(s: &str, c: char) -> (out: String)
    ensures
        out@ == trim_end_char(s@, c),
{
    let chars = chars_of(s);
    let mut to: usize = chars.len();
    assert(s@.take(to as int) =~= s@);
    while 0 < to && chars[to - 1] == c
        invariant
            to <= chars.len(),
            chars@ == s@,
            trim_end_char(s@.take(to as int), c) == trim_end_char(s@, c),
        decreases to,
    {
        assert(s@.take(to as int).drop_last() =~= s@.take(to - 1));
        to -= 1;
    }
    assert(s@.take(to as int) =~= s@.subrange(0, to as int));
    text_between(&chars, 0, to)
}

proof fn lemma_word_len(s: Seq<char>, n: int)
    requires
        0 <= n <= s.len(),
        forall|i: int| 0 <= i < n ==> !white(#[trigger] s[i]),
        n == s.len() || white(s[n]),
    ensures
        word_len(s) == n,
    decreases n,
{
    if n > 0 {
        assert(!white(s[0]));
        let rest = s.drop_first();
        assert forall|i: int| 0 <= i < n - 1 implies !white(#[trigger] rest[i]) by {
            assert(rest[i] == s[i + 1]);
        }
        lemma_word_len(rest, n - 1);
    }
}

/// The words of a text.
pub fn words_of(s: &str) -> (out: Vec<String>)
    ensures
        texts(out@) == words(s@),
{
    let chars = chars_of(s);
    let mut out: Vec<String> = Vec::new();
    let mut at: usize = 0;
    assert(s@.skip(0) =~= s@);
    assert(texts(out@) + words(s@) =~= words(s@));
    while at < chars.len()
        invariant
            at <= chars.len(),
            chars@ == s@,
            texts(out@) + words(s@.skip(at as int)) == words(s@),
        decreases chars.len() - at,
    {
        let ghost rest = s@.skip(at as int);
        if is_white(chars[at]) {
            assert(rest.drop_first() =~= s@.skip(at + 1));
            at += 1;
        } else {
            let mut end: usize = at;
            while end < chars.len() && !is_white(chars[end])
                invariant
                    at <= end <= chars.len(),
                    chars@ == s@,
                    rest == s@.skip(at as int),
                    forall|i: int| 0 <= i < end - at ==> !white(#[trigger] rest[i]),
                decreases chars.len() - end,
            {
                end += 1;
            }
            proof {
                lemma_word_len(rest, end - at);
            }
            let word = text_between(&chars, at, end);
            let ghost before = texts(out@);
            out.push(word);
            proof {
                assert(word@ =~= rest.take(end - at));
                assert(rest.skip(end - at) =~= s@.skip(end as int));
                assert(texts(out@) =~= before.push(word@));
                assert(texts(out@) + words(s@.skip(end as int)) =~= before + words(rest));
            }
            at = end;
        }
    }
    assert(s@.skip(at as int).len() == 0);
    assert(texts(out@) + words(s@.skip(at as int)) =~= texts(out@));
    out
}

// ---------------------------------------------------------------------------
// Case, search, order
// ---------------------------------------------------------------------------

/// One character with `A` to `Z` put in lower case.
pub fn lowered_char(c: char) -> (res: char)
    ensures
        res == lower_char(c),
{
    if 'A' <= c && c <= 'Z' {
        let n: u8 = c as u8;
        (n + 32) as char
    } else {
        c
    }
}

/// The text with `A` to `Z` put in lower case.
pub fn lowered(s: &str) -> (out: String)
    ensures
        out@ == lower(s@),
{
    let chars = chars_of(s);
    let mut out = String::new();
    assert(out@ =~= lower(s@).take(0));
    for i in 0..chars.len()
        invariant
            chars@ == s@,
            out@ == lower(s@).take(i as int),
    {
        out.push(lowered_char(chars[i]));
        assert(out@ =~= lower(s@).take(i + 1));
    }
    assert(lower(s@).take(s@.len() as int) =~= lower(s@));
    out
}

/// Whether `needle` stands in the characters at position `at`.
fn stands_at(chars: &Vec<char>, needle: &Vec<char>, at: usize) -> (res: bool)
    requires
        at + needle.len() <= chars.len(),
    ensures
        res == occurs_at(chars@, needle@, at as int),
{
    for k in 0..needle.len()
        invariant
            at + needle.len() <= chars.len(),
            forall|j: int| 0 <= j < k ==> chars@[at + j] == #[trigger] needle@[j],
    {
        if chars[at + k] != needle[k] {
            assert(chars@.subrange(at as int, at + needle.len())[k as int] == chars@[at + k]);
            return false;
        }
    }
    assert(chars@.subrange(at as int, at + needle.len()) =~= needle@);
    true
}

/// Whether `needle` stands somewhere in `s`.
pub fn has_text(s: &str, needle: &str) -> (res: bool)
    ensures
        res == contains(s@, needle@),
{
    let chars = chars_of(s);
    let wanted = chars_of(needle);
    if wanted.len() > chars.len() {
        return false;
    }
    let mut at: usize = 0;
    while at <= chars.len() - wanted.len()
        invariant
            chars@ == s@,
            wanted@ == needle@,
            wanted.len() <= chars.len(),
            at <= chars.len() - wanted.len() + 1,
            forall|i: int| 0 <= i < at ==> !occurs_at(s@, needle@, i),
        decreases chars.len() - at + 1,
    {
        if stands_at(&chars, &wanted, at) {
            return true;
        }
        if at == chars.len() - wanted.len() {
            return false;
        }
        at += 1;
    }
    false
}

/// Whether `s` begins with `prefix`.
pub fn has_prefix(s: &str, prefix: &str) -> (res: bool)
    ensures
        res == starts_with(s@, prefix@),
{
    let chars = chars_of(s);
    let wanted = chars_of(prefix);
    if wanted.len() > chars.len() {
        return false;
    }
    let res = stands_at(&chars, &wanted, 0);
    assert(s@.take(prefix@.len() as int) =~= s@.subrange(0, prefix@.len() as int));
    res
}

/// Whether `s` ends with `suffix`.
pub fn has_suffix(s: &str, suffix: &str) -> (res: bool)
    ensures
        res == ends_with(s@, suffix@),
{
    let chars = chars_of(s);
    let wanted = chars_of(suffix);
    if wanted.len() > chars.len() {
        return false;
    }
    let res = stands_at(&chars, &wanted, chars.len() - wanted.len());
    assert(s@.skip(s@.len() - suffix@.len()) =~= s@.subrange(
        s@.len() - suffix@.len(),
        s@.len() - suffix@.len() + suffix@.len(),
    ));
    res
}

/// What follows `prefix` in `s`, where `s` begins with it.
pub fn after_prefix(s: &str, prefix: &str) -> (out: Option<String>)
    ensures
        opt_text(out) == (if starts_with(s@, prefix@) {
            Some(s@.skip(prefix@.len() as int))
        } else {
            None
        }),
{
    if has_prefix(s, prefix) {
        let chars = chars_of(s);
        let n: usize = prefix.unicode_len();
        let out = text_between(&chars, n, chars.len());
        assert(out@ =~= s@.skip(n as int));
        Some(out)
    } else {
        None
    }
}

proof fn lemma_precedes_common(a: Seq<char>, b: Seq<char>, n: int)
    requires
        0 <= n <= a.len(),
        n <= b.len(),
        a.take(n) == b.take(n),
    ensures
        precedes(a, b) == precedes(a.skip(n), b.skip(n)),
    decreases n,
{
    if n == 0 {
        assert(a.skip(0) =~= a);
        assert(b.skip(0) =~= b);
    } else {
        assert(a[0] == a.take(n)[0] && b[0] == b.take(n)[0]);
        assert(a.drop_first().take(n - 1) =~= a.take(n).drop_first());
        assert(b.drop_first().take(n - 1) =~= b.take(n).drop_first());
        lemma_precedes_common(a.drop_first(), b.drop_first(), n - 1);
        assert(a.drop_first().skip(n - 1) =~= a.skip(n));
        assert(b.drop_first().skip(n - 1) =~= b.skip(n));
    }
}

/// Whether `a` stands before `b` in the order of texts.
pub fn is_before(a: &str, b: &str) -> (res: bool)
    ensures
        res == precedes(a@, b@),
{
    let x = chars_of(a);
    let y = chars_of(b);
    let mut i: usize = 0;
    while i < x.len() && i < y.len() && x[i] == y[i]
        invariant
            x@ == a@,
            y@ == b@,
            i <= x.len(),
            i <= y.len(),
            a@.take(i as int) =~= b@.take(i as int),
        decreases x.len() - i,
    {
        i += 1;
    }
    proof {
        lemma_precedes_common(a@, b@, i as int);
    }
    if i < y.len() {
        if i < x.len() {
            x[i] < y[i]
        } else {
            true
        }
    } else {
        false
    }
}

/// A text does not stand before itself.
pub proof fn lemma_precedes_irreflexive(a: Seq<char>)
    ensures
        !precedes(a, a),
    decreases a.len(),
{
    if a.len() > 0 {
        lemma_precedes_irreflexive(a.drop_first());
    }
}

/// The order of texts is transitive.
pub proof fn lemma_precedes_transitive(a: Seq<char>, b: Seq<char>, c: Seq<char>)
    requires
        precedes(a, b),
        precedes(b, c),
    ensures
        precedes(a, c),
    decreases a.len(),
{
    if a.len() > 0 && a[0] == b[0] && b[0] == c[0] {
        lemma_precedes_transitive(a.drop_first(), b.drop_first(), c.drop_first());
    }
}

/// Of two different texts one stands before the other.
pub proof fn lemma_precedes_total(a: Seq<char>, b: Seq<char>)
    ensures
        a == b || precedes(a, b) || precedes(b, a),
    decreases a.len(),
{
    if a.len() == 0 || b.len() == 0 {
        if a.len() == b.len() {
            assert(a =~= b);
        }
    } else if a[0] == b[0] {
        lemma_precedes_total(a.drop_first(), b.drop_first());
        if a.drop_first() == b.drop_first() {
            assert forall|i: int| 0 <= i < a.len() implies a[i] == b[i] by {
                if i > 0 {
                    assert(a[i] == a.drop_first()[i - 1]);
                    assert(b[i] == b.drop_first()[i - 1]);
                }
            }
            assert(a.len() == a.drop_first().len() + 1);
            assert(b.len() == b.drop_first().len() + 1);
            assert(a =~= b);
        }
    }
}

// ---------------------------------------------------------------------------
// Numbers
// ---------------------------------------------------------------------------

/// The decimal digits of a number.
pub fn decimal_of(n: u64) -> (out: String)
    ensures
        out@ == decimal(n as nat),
    decreases n,
{
    let c: char = (48u8 + (n % 10) as u8) as char;
    if n < 10 {
        let mut out = String::new();
        out.push(c);
        assert(out@ =~= decimal(n as nat));
        out
    } else {
        let mut out = decimal_of(n / 10);
        out.push(c);
        out
    }
}

proof fn lemma_decimal_value_grows(s: Seq<char>, k: int)
    requires
        0 <= k <= s.len(),
        forall|i: int| 0 <= i < s.len() ==> digit(#[trigger] s[i]),
    ensures
        decimal_value(s.take(k)) <= decimal_value(s),
    decreases s.len(),
{
    if k == s.len() {
        assert(s.take(k) =~= s);
    } else {
        assert(s.drop_last().take(k) =~= s.take(k));
        assert forall|i: int| 0 <= i < s.len() - 1 implies digit(#[trigger] s.drop_last()[i]) by {
            assert(s.drop_last()[i] == s[i]);
        }
        lemma_decimal_value_grows(s.drop_last(), k);
        assert(digit(s.last()));
    }
}

/// Reads an unsigned number of at most `max`: digits, with one leading `+` or none.
pub fn read_number(s: &str, max: u64) -> (out: Option<u64>)
    ensures
        out is Some == number(s@, max as nat) is Some,
        out is Some ==> number(s@, max as nat) == Some(out->0 as nat),
{
    let chars = chars_of(s);
    let from: usize = if chars.len() > 0 && chars[0] == '+' { 1 } else { 0 };
    let ghost digits = number_digits(s@);
    assert(digits =~= s@.skip(from as int));
    if from == chars.len() {
        return None;
    }
    let mut value: u64 = 0;
    let mut i: usize = from;
    assert(digits.take(0).len() == 0);
    while i < chars.len()
        invariant
            from <= i <= chars.len(),
            chars@ == s@,
            digits == s@.skip(from as int),
            digits == number_digits(s@),
            value <= max,
            forall|j: int| 0 <= j < i - from ==> digit(#[trigger] digits[j]),
            value == decimal_value(digits.take(i - from)),
        decreases chars.len() - i,
    {
        let c = chars[i];
        assert(digits[i - from] == c);
        if c < '0' || '9' < c {
            assert(!digit(digits[i - from]));
            return None;
        }
        let d: u64 = (c as u32 - 48) as u64;
        let ghost k = i - from;
        assert(digits.take(k + 1).drop_last() =~= digits.take(k));
        assert(digits.take(k + 1).last() == c);
        assert(decimal_value(digits.take(k + 1)) == 10 * value + d);
        proof {
            if all_digits(digits) {
                lemma_decimal_value_grows(digits, k + 1);
            }
        }
        if value > max / 10 {
            assert(10 * value > max) by (nonlinear_arith)
                requires
                    value > max / 10,
            ;
            return None;
        }
        assert(10 * value <= max) by (nonlinear_arith)
            requires
                value <= max / 10,
        ;
        if d > max - 10 * value {
            return None;
        }
        value = 10 * value + d;
        i += 1;
    }
    assert(digits.take(digits.len() as int) =~= digits);
    Some(value)
}

/// The texts one after the other, with `separator` between neighbours.
pub fn join_texts(parts: &Vec<String>, separator: &str) -> (out: String)
    ensures
        out@ == joined(texts(parts@), separator@),
{
    let mut out = String::new();
    let ghost all = texts(parts@);
    assert(out@ =~= joined(all.take(0), separator@));
    for i in 0..parts.len()
        invariant
            all == texts(parts@),
            out@ == joined(all.take(i as int), separator@),
    {
        let ghost before = all.take(i as int);
        let ghost after = all.take(i + 1);
        assert(after.drop_last() =~= before);
        assert(after.last() == parts@[i as int]@);
        if i > 0 {
            out.append(separator);
            out.append(parts[i].as_str());
        } else {
            out.append(parts[i].as_str());
            assert(out@ =~= joined(after, separator@));
        }
    }
    assert(all.take(all.len() as int) =~= all);
    out
}

/// The text without its last character.
pub fn without_last(s: &str) -> (out: String)
    ensures
        out@ == (if s@.len() > 0 {
            s@.drop_last()
        } else {
            s@
        }),
{
    let chars = chars_of(s);
    if chars.len() == 0 {
        return s.to_owned();
    }
    let out = text_between(&chars, 0, chars.len() - 1);
    assert(out@ =~= s@.drop_last());
    out
}

/// The text with `a` to `z` put in upper case.
pub fn uppered(s: &str) -> (out: String)
    ensures
        out@ == upper(s@),
{
    let chars = chars_of(s);
    let mut out = String::new();
    assert(out@ =~= upper(s@).take(0));
    for i in 0..chars.len()
        invariant
            chars@ == s@,
            out@ == upper(s@).take(i as int),
    {
        let c = chars[i];
        if 'a' <= c && c <= 'z' {
            let n: u8 = c as u8;
            out.push((n - 32) as char);
        } else {
            out.push(c);
        }
        assert(out@ =~= upper(s@).take(i + 1));
    }
    assert(upper(s@).take(s@.len() as int) =~= upper(s@));
    out
}

/// The character `c`, `n` times.
pub fn repeat_char(c: char, n: usize) -> (out: String)
    ensures
        out@ == repeated(c, n as nat),
{
    let mut out = String::new();
    assert(out@ =~= repeated(c, 0));
    for i in 0..n
        invariant
            out@ == repeated(c, i as nat),
    {
        out.push(c);
        assert(out@ =~= repeated(c, (i + 1) as nat));
    }
    out
}

/// The text with blanks behind it, as many as it lacks of `width`.
pub fn pad_right(s: &str, width: usize) -> (out: String)
    ensures
        out@ == padded_right(s@, width as nat),
{
    let n: usize = s.unicode_len();
    if n < width {
        let blanks = repeat_char(' ', width - n);
        concat2(s, blanks.as_str())
    } else {
        s.to_owned()
    }
}

/// The text with blanks before it, as many as it lacks of `width`.
pub fn pad_left(s: &str, width: usize) -> (out: String)
    ensures
        out@ == padded_left(s@, width as nat),
{
    let n: usize = s.unicode_len();
    if n < width {
        let blanks = repeat_char(' ', width - n);
        concat2(blanks.as_str(), s)
    } else {
        s.to_owned()
    }
}

// ---------------------------------------------------------------------------
// Lists of lines
// ---------------------------------------------------------------------------

/// Puts a line at the end.
pub fn push_line(lines: &mut Vec<String>, line: String)
    ensures
        texts(final(lines)@) == texts(old(lines)@).push(line@),
{
    let ghost text = line@;
    lines.push(line);
    assert(texts(lines@) =~= texts(old(lines)@).push(text));
}

/// No lines.
pub fn no_lines() -> (out: Vec<String>)
    ensures
        texts(out@) == Seq::<Seq<char>>::empty(),
{
    let out: Vec<String> = Vec::new();
    assert(texts(out@) =~= Seq::<Seq<char>>::empty());
    out
}

/// Whether a text is one of the lines.
pub fn is_listed(lines: &Vec<String>, text: &str) -> (res: bool)
    ensures
        res == texts(lines@).contains(text@),
{
    let ghost all = texts(lines@);
    for i in 0..lines.len()
        invariant
            all == texts(lines@),
            forall|j: int| 0 <= j < i ==> all[j] != text@,
    {
        assert(all[i as int] == lines@[i as int]@);
        if same_text(lines[i].as_str(), text) {
            assert(all.contains(text@));
            return true;
        }
    }
    assert(!all.contains(text@));
    false
}

// ---------------------------------------------------------------------------
// What searching and trimming come to
// ---------------------------------------------------------------------------

/// Whether two characters are the same, but for the case of a letter from `a` to `z`.
pub open spec fn same_letter(a: char, b: char) -> bool {
    ||| a == b
    ||| 'A' <= a <= 'Z' && b as int == a as int + 32
    ||| 'A' <= b <= 'Z' && a as int == b as int + 32
}

/// Whether `word` can be read in `text` from position `i` on, whatever the case.
pub open spec fn reads_at(text: Seq<char>, word: Seq<char>, i: int) -> bool {
    &&& 0 <= i
    &&& i + word.len() <= text.len()
    &&& forall|k: int| 0 <= k < word.len() ==> same_letter(text[i + k], #[trigger] word[k])
}

/// Whether `word` can be read somewhere in `text`, whatever the case.
pub open spec fn reads(text: Seq<char>, word: Seq<char>) -> bool {
    exists|i: int| reads_at(text, word, i)
}

/// Two characters come to the same in lower case if and only if they are the same but for their
/// case.
pub proof fn lemma_lower_char(a: char, b: char)
    ensures
        lower_char(a) == lower_char(b) <==> same_letter(a, b),
        !white(a) ==> !white(lower_char(a)),
        white(a) ==> lower_char(a) == a,
{
}

/// Looking for a text in lower case in another finds what can be read there, whatever the case.
pub proof fn lemma_lower_contains(text: Seq<char>, word: Seq<char>)
    ensures
        contains(lower(text), lower(word)) <==> reads(text, word),
{
    let a = lower(text);
    let b = lower(word);
    assert forall|i: int| occurs_at(a, b, i) implies reads_at(text, word, i) by {
        assert forall|k: int| 0 <= k < word.len() implies same_letter(
            text[i + k],
            #[trigger] word[k],
        ) by {
            assert(a.subrange(i, i + b.len())[k] == b[k]);
            lemma_lower_char(text[i + k], word[k]);
        }
    }
    assert forall|i: int| reads_at(text, word, i) implies occurs_at(a, b, i) by {
        assert forall|k: int| 0 <= k < b.len() implies a.subrange(i, i + b.len())[k] == b[k] by {
            assert(same_letter(text[i + k], word[k]));
            lemma_lower_char(text[i + k], word[k]);
        }
        assert(a.subrange(i, i + b.len()) =~= b);
    }
    if contains(a, b) {
        let i = choose|i: int| occurs_at(a, b, i);
        assert(reads_at(text, word, i));
    }
    if reads(text, word) {
        let i = choose|i: int| reads_at(text, word, i);
        assert(occurs_at(a, b, i));
    }
}

/// A word without a blank can be read in two texts with a blank between if and only if it can be read
/// in one of them.
pub proof fn lemma_reads_around_blank(a: Seq<char>, b: Seq<char>, word: Seq<char>)
    requires
        !word.contains(' '),
    ensures
        reads(a + seq![' '] + b, word) <==> reads(a, word) || reads(b, word),
{
    let all = a + seq![' '] + b;
    let n = word.len() as int;
    if reads(all, word) {
        let i = choose|i: int| reads_at(all, word, i);
        if i + n <= a.len() {
            assert forall|k: int| 0 <= k < n implies same_letter(a[i + k], #[trigger] word[k]) by {
                assert(all[i + k] == a[i + k]);
            }
            assert(reads_at(a, word, i));
        } else if i > a.len() {
            let j = i - a.len() - 1;
            assert forall|k: int| 0 <= k < n implies same_letter(b[j + k], #[trigger] word[k]) by {
                assert(all[i + k] == b[j + k]);
            }
            assert(reads_at(b, word, j));
        } else {
            let k = a.len() - i;
            assert(all[i + k] == ' ');
            assert(same_letter(all[i + k], word[k]));
            assert(word.contains(word[k]));
        }
    }
    if reads(a, word) {
        let i = choose|i: int| reads_at(a, word, i);
        assert forall|k: int| 0 <= k < n implies same_letter(all[i + k], #[trigger] word[k]) by {
            assert(all[i + k] == a[i + k]);
        }
        assert(reads_at(all, word, i));
    }
    if reads(b, word) {
        let j = choose|j: int| reads_at(b, word, j);
        let i = j + a.len() + 1;
        assert forall|k: int| 0 <= k < n implies same_letter(all[i + k], #[trigger] word[k]) by {
            assert(all[i + k] == b[j + k]);
        }
        assert(reads_at(all, word, i));
    }
}

/// A word without a blank can be read in texts that are joined by blanks if and only if it can be
/// read in one of them.
pub proof fn lemma_reads_joined(parts: Seq<Seq<char>>, word: Seq<char>)
    requires
        word.len() > 0,
        !word.contains(' '),
    ensures
        reads(joined(parts, " "@), word) <==> exists|i: int|
            0 <= i < parts.len() && reads(#[trigger] parts[i], word),
    decreases parts.len(),
{
    reveal_strlit(" ");
    assert(" "@ =~= seq![' ']);
    let all = joined(parts, " "@);
    if parts.len() == 0 {
        assert forall|i: int| !reads_at(all, word, i) by {}
    } else if parts.len() == 1 {
        assert(all == parts[0]);
    } else {
        let front = parts.drop_last();
        lemma_reads_joined(front, word);
        lemma_reads_around_blank(joined(front, " "@), parts.last(), word);
        if reads(all, word) {
            if reads(joined(front, " "@), word) {
                let i = choose|i: int| 0 <= i < front.len() && reads(#[trigger] front[i], word);
                assert(reads(parts[i], word));
            } else {
                assert(reads(parts[parts.len() - 1], word));
            }
        }
        if exists|i: int| 0 <= i < parts.len() && reads(#[trigger] parts[i], word) {
            let i = choose|i: int| 0 <= i < parts.len() && reads(#[trigger] parts[i], word);
            if i < front.len() {
                assert(front[i] == parts[i]);
            }
        }
    }
}

/// A text without white space is one word.
pub proof fn lemma_one_word(s: Seq<char>)
    requires
        s.len() > 0,
        forall|i: int| 0 <= i < s.len() ==> !white(#[trigger] s[i]),
    ensures
        words(s) == seq![s],
{
    lemma_word_len(s, s.len() as int);
    assert(!white(s[0]));
    assert(s.take(s.len() as int) =~= s);
    assert(words(s.skip(s.len() as int)) =~= seq![]);
    assert(words(s) =~= seq![s]);
}

proof fn lemma_word_len_bound(s: Seq<char>)
    ensures
        word_len(s) <= s.len(),
        forall|i: int| 0 <= i < word_len(s) ==> !white(#[trigger] s[i]),
        word_len(s) < s.len() ==> white(s[word_len(s) as int]),
    decreases s.len(),
{
    if s.len() > 0 && !white(s[0]) {
        let rest = s.drop_first();
        lemma_word_len_bound(rest);
        assert forall|i: int| 0 <= i < word_len(s) implies !white(#[trigger] s[i]) by {
            if i > 0 {
                assert(rest[i - 1] == s[i]);
            }
        }
    }
}

/// The words of two texts with white space between are those of the one, then those of the other.
pub proof fn lemma_words_apart(a: Seq<char>, gap: char, b: Seq<char>)
    requires
        white(gap),
    ensures
        words(a + seq![gap] + b) == words(a) + words(b),
    decreases a.len(),
{
    let all = a + seq![gap] + b;
    if a.len() == 0 {
        assert(all[0] == gap);
        assert(all.drop_first() =~= b);
        assert(words(a) + words(b) =~= words(b));
    } else if white(a[0]) {
        assert(all[0] == a[0]);
        assert(all.drop_first() =~= a.drop_first() + seq![gap] + b);
        lemma_words_apart(a.drop_first(), gap, b);
    } else {
        let n = word_len(a) as int;
        lemma_word_len_bound(a);
        assert forall|i: int| 0 <= i < n implies !white(#[trigger] all[i]) by {
            assert(all[i] == a[i]);
        }
        if n < a.len() {
            assert(all[n] == a[n]);
        } else {
            assert(all[n] == gap);
        }
        lemma_word_len(all, n);
        assert(all[0] == a[0]);
        assert(n > 0);
        assert(all.take(n) =~= a.take(n));
        assert(all.skip(n) =~= a.skip(n) + seq![gap] + b);
        lemma_words_apart(a.skip(n), gap, b);
        assert(words(all) =~= words(a) + words(b));
    }
}

proof fn lemma_trim_start_parts(s: Seq<char>)
    ensures
        trim_start(s).len() <= s.len(),
        s.skip(s.len() - trim_start(s).len()) == trim_start(s),
        forall|i: int| 0 <= i < s.len() - trim_start(s).len() ==> white(#[trigger] s[i]),
        trim_start(s).len() > 0 ==> !white(trim_start(s)[0]),
    decreases s.len(),
{
    if s.len() > 0 && white(s[0]) {
        let rest = s.drop_first();
        lemma_trim_start_parts(rest);
        let n = s.len() - trim_start(s).len();
        assert(s.skip(n) =~= rest.skip(n - 1));
        assert forall|i: int| 0 <= i < n implies white(#[trigger] s[i]) by {
            if i > 0 {
                assert(rest[i - 1] == s[i]);
            }
        }
    } else {
        assert(s.skip(0) =~= s);
    }
}

proof fn lemma_trim_end_parts(s: Seq<char>)
    ensures
        trim_end(s).len() <= s.len(),
        s.take(trim_end(s).len() as int) == trim_end(s),
        forall|i: int| trim_end(s).len() <= i < s.len() ==> white(#[trigger] s[i]),
        trim_end(s).len() > 0 ==> !white(trim_end(s).last()),
    decreases s.len(),
{
    if s.len() > 0 && white(s.last()) {
        let rest = s.drop_last();
        lemma_trim_end_parts(rest);
        assert(s.take(trim_end(s).len() as int) =~= rest.take(trim_end(s).len() as int));
        assert forall|i: int| trim_end(s).len() <= i < s.len() implies white(#[trigger] s[i]) by {
            if i < rest.len() {
                assert(rest[i] == s[i]);
            }
        }
    } else {
        assert(s.take(s.len() as int) =~= s);
    }
}

/// Trimming takes white space away at both ends and nothing else: what is left stands in the text,
/// with white space alone around it, and begins and ends with something else. The answer is where it
/// stands.
pub proof fn lemma_trim(s: Seq<char>) -> (at: int)
    ensures
        0 <= at,
        at + trim(s).len() <= s.len(),
        s.subrange(at, at + trim(s).len()) == trim(s),
        forall|i: int| 0 <= i < at || at + trim(s).len() <= i < s.len() ==> white(#[trigger] s[i]),
        trim(s).len() > 0 ==> !white(trim(s)[0]) && !white(trim(s).last()),
        trim(s).len() == 0 <==> forall|i: int| 0 <= i < s.len() ==> white(#[trigger] s[i]),
{
    let rest = trim_start(s);
    let at = s.len() - rest.len();
    lemma_trim_start_parts(s);
    lemma_trim_end_parts(rest);
    let n = trim(s).len();
    assert(s.subrange(at, at + n) =~= rest.take(n as int));
    assert forall|i: int| 0 <= i < at || at + n <= i < s.len() implies white(#[trigger] s[i]) by {
        if i >= at {
            assert(rest[i - at] == s[i]);
        }
    }
    if n > 0 {
        assert(trim(s)[0] == rest[0]);
        assert(s[at] == rest[0]);
    }
    at
}

/// The digits of a number are read as that number.
pub proof fn lemma_decimal_reads_back(n: nat)
    ensures
        all_digits(decimal(n)),
        decimal_value(decimal(n)) == n,
        decimal(n)[0] == '0' ==> n == 0,
    decreases n,
{
    let s = decimal(n);
    if n < 10 {
        assert(s.drop_last() =~= seq![]);
        assert(decimal_value(s.drop_last()) == 0);
    } else {
        let front = decimal(n / 10);
        lemma_decimal_reads_back(n / 10);
        assert(s.drop_last() =~= front);
        assert forall|i: int| 0 <= i < s.len() implies digit(#[trigger] s[i]) by {
            if i < front.len() {
                assert(s[i] == front[i]);
            }
        }
        assert(s[0] == front[0]);
    }
}

/// A number that is written out is read as it is, up to the largest that is allowed, also with a
/// plus sign before it, and one above that is refused.
pub proof fn lemma_written_number_is_read(n: nat, max: nat)
    ensures
        number(decimal(n), max) == (if n <= max {
            Some(n)
        } else {
            None
        }),
        number(seq!['+'] + decimal(n), max) == number(decimal(n), max),
{
    lemma_decimal_reads_back(n);
    assert(digit(decimal(n)[0]));
    assert((seq!['+'] + decimal(n)).drop_first() =~= decimal(n));
}

/// A text whose first and last characters are no white space is not trimmed.
pub proof fn lemma_nothing_to_trim(s: Seq<char>)
    requires
        s.len() > 0,
        !white(s[0]),
        !white(s.last()),
    ensures
        trim(s) == s,
{
}

/// Taking a character away at the end takes it away as often as it stands there, and nothing else.
pub proof fn lemma_trim_end_char(s: Seq<char>, c: char)
    ensures
        trim_end_char(s, c).len() <= s.len(),
        s.take(trim_end_char(s, c).len() as int) == trim_end_char(s, c),
        forall|i: int| trim_end_char(s, c).len() <= i < s.len() ==> #[trigger] s[i] == c,
        trim_end_char(s, c).len() > 0 ==> trim_end_char(s, c).last() != c,
    decreases s.len(),
{
    if s.len() > 0 && s.last() == c {
        let rest = s.drop_last();
        let n = trim_end_char(s, c).len() as int;
        lemma_trim_end_char(rest, c);
        assert(s.take(n) =~= rest.take(n));
        assert forall|i: int| n <= i < s.len() implies #[trigger] s[i] == c by {
            if i < rest.len() {
                assert(rest[i] == s[i]);
            }
        }
    } else {
        assert(s.take(s.len() as int) =~= s);
    }
}

/// One text comes before another if and only if it is a proper beginning of the other, or has the
/// smaller character where they first differ.
pub proof fn lemma_order_of_texts(a: &str, b: &str, out: bool)
    requires
        call_ensures(is_before, (a, b), out),
    ensures
        out <==> exists|n: int| #[trigger] first_difference(a@, b@, n) && (n == a@.len() || n < b@.len()
            && a@[n] < b@[n]) && n < b@.len(),
{
    lemma_precedes_means(a@, b@);
}

/// Whether two texts are the same up to position `n`, and there one ends or they differ.
pub open spec fn first_difference(a: Seq<char>, b: Seq<char>, n: int) -> bool {
    &&& 0 <= n <= a.len()
    &&& n <= b.len()
    &&& forall|i: int| 0 <= i < n ==> #[trigger] a[i] == b[i]
    &&& n < a.len() && n < b.len() ==> a[n] != b[n]
}

proof fn lemma_precedes_means(a: Seq<char>, b: Seq<char>)
    ensures
        precedes(a, b) <==> exists|n: int| #[trigger] first_difference(a, b, n) && (n == a.len() || n
            < b.len() && a[n] < b[n]) && n < b.len(),
    decreases a.len(),
{
    if b.len() == 0 {
    } else if a.len() == 0 {
        assert(first_difference(a, b, 0));
    } else if a[0] != b[0] {
        assert(first_difference(a, b, 0));
        assert forall|n: int| #[trigger] first_difference(a, b, n) implies n == 0 by {
            if n > 0 {
                assert(a[0] == b[0]);
            }
        }
    } else {
        let c = a.drop_first();
        let d = b.drop_first();
        lemma_precedes_means(c, d);
        if precedes(c, d) {
            let n = choose|n: int| #[trigger]
                first_difference(c, d, n) && (n == c.len() || n < d.len() && c[n] < d[n]) && n
                    < d.len();
            assert forall|i: int| 0 <= i < n + 1 implies #[trigger] a[i] == b[i] by {
                if i > 0 {
                    assert(c[i - 1] == d[i - 1]);
                }
            }
            assert(first_difference(a, b, n + 1));
        }
        if exists|n: int| #[trigger]
            first_difference(a, b, n) && (n == a.len() || n < b.len() && a[n] < b[n]) && n < b.len() {
            let n = choose|n: int| #[trigger]
                first_difference(a, b, n) && (n == a.len() || n < b.len() && a[n] < b[n]) && n
                    < b.len();
            assert(n > 0);
            assert forall|i: int| 0 <= i < n - 1 implies #[trigger] c[i] == d[i] by {
                assert(a[i + 1] == b[i + 1]);
            }
            assert(first_difference(c, d, n - 1));
        }
    }
}

} // verus!
