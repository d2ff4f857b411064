//! Text as sequences of characters: trimming, splitting, and numbers.

use vstd::prelude::*;
use vstd::string::StringExecFns;

verus! {

/// Appending one character to a text. `String::push` is taken to do what its
/// documentation says: the text grows by that character at its end.
pub assume_specification[ std::string::String::push ](s: &mut std::string::String, c: char)
    ensures
        final(s)@ == old(s)@.push(c),
;

/// The characters of a text, in order.
pub fn chars_of(s: &str) -> (out: Vec<char>)
    ensures
        out@ == s@,
{
    let mut out: Vec<char> = Vec::new();
    for c in iter: s.chars()
        invariant
            iter.seq() == s@,
            out@ == s@.take(iter.index() as int),
    {
        out.push(c);
        assert(s@.take(iter.index() as int).push(c) =~= s@.take(iter.index() as int + 1));
    }
    assert(s@.take(s@.len() as int) =~= s@);
    out
}

/// The text made of the given characters.
pub fn text_of(chars: &[char]) -> (out: String)
    ensures
        out@ == chars@,
{
    let mut out = String::new();
    for i in 0..chars.len()
        invariant
            out@ == chars@.take(i as int),
    {
        out.push(chars[i]);
        assert(chars@.take(i as int).push(chars@[i as int]) =~= chars@.take(i as int + 1));
    }
    assert(chars@.take(chars@.len() as int) =~= chars@);
    out
}

/// The characters from `from` up to `to`.
pub fn piece(chars: &[char], from: usize, to: usize) -> (out: Vec<char>)
    requires
        from <= to <= chars@.len(),
    ensures
        out@ == chars@.subrange(from as int, to as int),
{
    let mut out: Vec<char> = Vec::new();
    for i in from..to
        invariant
            from <= to <= chars@.len(),
            out@ == chars@.subrange(from as int, i as int),
    {
        out.push(chars[i]);
        assert(chars@.subrange(from as int, i as int).push(chars@[i as int]) =~= chars@.subrange(
            from as int,
            i as int + 1,
        ));
    }
    out
}

/// Whether two texts hold the same characters.
pub fn same(a: &str, b: &str) -> (r: bool)
    ensures
        r == (a@ == b@),
{
    a.to_owned() == b.to_owned()
}

/// Two texts, one after the other.
pub fn join2(a: &str, b: &str) -> (out: String)
    ensures
        out@ == a@ + b@,
{
    let mut out = a.to_owned();
    out.append(b);
    out
}

/// Three texts, one after the other.
pub fn join3(a: &str, b: &str, c: &str) -> (out: String)
    ensures
        out@ == a@ + b@ + c@,
{
    let mut out = a.to_owned();
    out.append(b);
    out.append(c);
    out
}

/// Texts with a separator between each two of them.
pub open spec fn joined(parts: Seq<Seq<char>>, separator: Seq<char>) -> Seq<char>
    decreases parts.len(),
{
    if parts.len() == 0 {
        Seq::empty()
    } else if parts.len() == 1 {
        parts[0]
    } else {
        joined(parts.drop_last(), separator) + separator + parts.last()
    }
}

/// The contents of each text in a list.
pub open spec fn texts(list: Seq<String>) -> Seq<Seq<char>> {
    Seq::new(list.len(), |i: int| list[i]@)
}

/// The texts of `parts` with `separator` between each two of them.
pub fn join(parts: &[String], separator: &str) -> (out: String)
    ensures
        out@ == joined(texts(parts@), separator@),
{
    let mut out = String::new();
    let ghost all = texts(parts@);
    for i in 0..parts.len()
        invariant
            all == texts(parts@),
            out@ == joined(all.take(i as int), separator@),
    {
        if i > 0 {
            out.append(separator);
        }
        out.append(parts[i].as_str());
        proof {
            let next = all.take(i as int + 1);
            assert(next.drop_last() =~= all.take(i as int));
            assert(next.last() == parts@[i as int]@);
            if i == 0 {
                assert(all.take(0) =~= Seq::<Seq<char>>::empty());
                assert(next.len() == 1);
                assert(out@ =~= next[0]);
            }
        }
    }
    assert(all.take(all.len() as int) =~= all);
    out
}

/// Unicode's White_Space property.
pub open spec fn is_whitespace(c: char) -> bool {
    let n = c as u32;
    ||| 0x09 <= n <= 0x0D
    ||| n == 0x20
    ||| n == 0x85
    ||| n == 0xA0
    ||| n == 0x1680
    ||| 0x2000 <= n <= 0x200A
    ||| n == 0x2028
    ||| n == 0x2029
    ||| n == 0x202F
    ||| n == 0x205F
    ||| n == 0x3000
}

/// Whether a character is white space.
pub fn char_is_whitespace(c: char) -> (r: bool)
    ensures
        r == is_whitespace(c),
{
    let n: u32 = c as u32;
    (0x09 <= n && n <= 0x0D) || n == 0x20 || n == 0x85 || n == 0xA0 || n == 0x1680 || (0x2000 <= n
        && n <= 0x200A) || n == 0x2028 || n == 0x2029 || n == 0x202F || n == 0x205F || n == 0x3000
}

/// What is left of a text without the white space before it.
pub open spec fn trimmed_start(s: Seq<char>) -> Seq<char>
    decreases s.len(),
{
    if s.len() > 0 && is_whitespace(s[0]) {
        trimmed_start(s.drop_first())
    } else {
        s
    }
}

/// What is left of a text without the white space after it.
pub open spec fn trimmed_end(s: Seq<char>) -> Seq<char>
    decreases s.len(),
{
    if s.len() > 0 && is_whitespace(s.last()) {
        trimmed_end(s.drop_last())
    } else {
        s
    }
}

/// What is left of a text without the white space around it.
pub open spec fn trimmed(s: Seq<char>) -> Seq<char> {
    trimmed_end(trimmed_start(s))
}

/// A text without the white space around it.
pub fn trim(chars: &[char]) -> (out: Vec<char>)
    ensures
        out@ == trimmed(chars@),
{
    let mut from: usize = 0;
    assert(chars@.subrange(0, chars@.len() as int) =~= chars@);
    while from < chars.len() && char_is_whitespace(chars[from])
        invariant
            from <= chars@.len(),
            trimmed_start(chars@.subrange(from as int, chars@.len() as int)) == trimmed_start(
                chars@,
            ),
        decreases chars@.len() - from,
    {
        assert(chars@.subrange(from as int, chars@.len() as int).drop_first() =~= chars@.subrange(
            from as int + 1,
            chars@.len() as int,
        ));
        from = from + 1;
    }
    let ghost rest = chars@.subrange(from as int, chars@.len() as int);
    let mut to: usize = chars.len();
    while to > from && char_is_whitespace(chars[to - 1])
        invariant
            from <= to <= chars@.len(),
            rest == chars@.subrange(from as int, chars@.len() as int),
            trimmed_end(chars@.subrange(from as int, to as int)) == trimmed_end(rest),
        decreases to,
    {
        assert(chars@.subrange(from as int, to as int).drop_last() =~= chars@.subrange(
            from as int,
            to as int - 1,
        ));
        to = to - 1;
    }
    piece(chars, from, to)
}

/// Whether a text holds a character.
pub open spec fn holds(s: Seq<char>, c: char) -> bool {
    exists|i: int| 0 <= i < s.len() && s[i] == c
}

/// The text before the first `c`, or all of it where there is none.
pub open spec fn before(s: Seq<char>, c: char) -> Seq<char>
    decreases s.len(),
{
    if s.len() == 0 || s[0] == c {
        Seq::empty()
    } else {
        seq![s[0]] + before(s.drop_first(), c)
    }
}

/// `before` is the part up to `at` where the first `c` stands at `at`, or the
/// whole text where `at` is its end.
pub proof fn lemma_before(s: Seq<char>, c: char, at: int)
    requires
        0 <= at <= s.len(),
        forall|i: int| 0 <= i < at ==> s[i] != c,
        at < s.len() ==> s[at] == c,
    ensures
        before(s, c) == s.take(at),
    decreases s.len(),
{
    if at == 0 {
        assert(s.take(0) =~= Seq::<char>::empty());
    } else {
        let rest = s.drop_first();
        assert forall|i: int| 0 <= i < at - 1 implies rest[i] != c by {
            assert(s[i + 1] != c);
        }
        lemma_before(rest, c, at - 1);
        assert(s.take(at) =~= seq![s[0]] + rest.take(at - 1));
    }
}

/// A text cut at the first `c` in it: what stands before, and what after.
pub open spec fn split_first(s: Seq<char>, c: char) -> Option<(Seq<char>, Seq<char>)> {
    if holds(s, c) {
        Some((before(s, c), s.skip(before(s, c).len() as int + 1)))
    } else {
        None
    }
}

/// Where the first `c` stands, or the text's length where there is none.
pub fn find(chars: &[char], c: char) -> (at: usize)
    ensures
        at <= chars@.len(),
        forall|i: int| 0 <= i < at ==> chars@[i] != c,
        at < chars@.len() ==> chars@[at as int] == c,
        before(chars@, c) == chars@.take(at as int),
        holds(chars@, c) == (at < chars@.len()),
{
    let mut at: usize = 0;
    while at < chars.len() && chars[at] != c
        invariant
            at <= chars@.len(),
            forall|i: int| 0 <= i < at ==> chars@[i] != c,
        decreases chars@.len() - at,
    {
        at = at + 1;
    }
    proof {
        lemma_before(chars@, c, at as int);
    }
    at
}

/// Cuts a text at the first `c` in it.
pub fn split_once(chars: &[char], c: char) -> (r: Option<(Vec<char>, Vec<char>)>)
    ensures
        match split_first(chars@, c) {
            Some((head, tail)) => r matches Some((h, t)) && h@ == head && t@ == tail,
            None => r is None,
        },
{
    let at = find(chars, c);
    if at == chars.len() {
        return None;
    }
    let head = piece(chars, 0, at);
    let tail = piece(chars, at + 1, chars.len());
    proof {
        assert(head@ =~= before(chars@, c));
        assert(tail@ =~= chars@.skip(at as int + 1));
    }
    Some((head, tail))
}

/// Whether a text begins with another.
pub open spec fn begins(s: Seq<char>, prefix: Seq<char>) -> bool {
    prefix.len() <= s.len() && s.take(prefix.len() as int) == prefix
}

/// Whether a text ends with another.
pub open spec fn ends(s: Seq<char>, suffix: Seq<char>) -> bool {
    suffix.len() <= s.len() && s.skip(s.len() - suffix.len()) == suffix
}

/// Whether `chars` begins with `prefix`.
pub fn starts_with(chars: &[char], prefix: &[char]) -> (r: bool)
    ensures
        r == begins(chars@, prefix@),
{
    if prefix.len() > chars.len() {
        return false;
    }
    for i in 0..prefix.len()
        invariant
            prefix@.len() <= chars@.len(),
            forall|j: int| 0 <= j < i ==> chars@[j] == prefix@[j],
    {
        if chars[i] != prefix[i] {
            assert(chars@.take(prefix@.len() as int)[i as int] != prefix@[i as int]);
            return false;
        }
    }
    assert(chars@.take(prefix@.len() as int) =~= prefix@);
    true
}

/// Whether `chars` ends with `suffix`.
pub fn ends_with(chars: &[char], suffix: &[char]) -> (r: bool)
    ensures
        r == ends(chars@, suffix@),
{
    if suffix.len() > chars.len() {
        return false;
    }
    let total: usize = chars.len();
    let start: usize = total - suffix.len();
    for i in 0..suffix.len()
        invariant
            start + suffix@.len() == total,
            total == chars@.len(),
            forall|j: int| 0 <= j < i ==> chars@[start + j] == suffix@[j],
    {
        if chars[start + i] != suffix[i] {
            assert(chars@.skip(start as int)[i as int] != suffix@[i as int]);
            return false;
        }
    }
    assert(chars@.skip(start as int) =~= suffix@);
    true
}

/// Whether a character is one of the ten decimal digits.
pub open spec fn is_digit(c: char) -> bool {
    '0' <= c && c <= '9'
}

/// Whether a text is made of decimal digits alone.
pub open spec fn all_digits(s: Seq<char>) -> bool {
    forall|i: int| 0 <= i < s.len() ==> is_digit(#[trigger] s[i])
}

/// The number that a text of decimal digits writes.
pub open spec fn digits_value(s: Seq<char>) -> nat
    decreases s.len(),
{
    if s.len() == 0 {
        0
    } else {
        digits_value(s.drop_last()) * 10 + (s.last() as int - '0' as int) as nat
    }
}

/// The digits of a written number: what follows one leading plus sign.
pub open spec fn number_digits(s: Seq<char>) -> Seq<char> {
    if s.len() > 0 && s[0] == '+' {
        s.drop_first()
    } else {
        s
    }
}

/// The number that a text writes: decimal digits, at least one, after at most
/// one plus sign, and nothing else.
pub open spec fn number(s: Seq<char>) -> Option<nat> {
    let digits = number_digits(s);
    if digits.len() > 0 && all_digits(digits) {
        Some(digits_value(digits))
    } else {
        None
    }
}

/// The number that a text writes, where it is no more than `max`.
pub open spec fn number_within(s: Seq<char>, max: nat) -> Option<nat> {
    match number(s) {
        Some(n) => if n <= max {
            Some(n)
        } else {
            None
        },
        None => None,
    }
}

proof fn lemma_digits_value_grows(s: Seq<char>, k: int)
    requires
        0 <= k <= s.len(),
        all_digits(s),
    ensures
        digits_value(s.take(k)) <= digits_value(s),
    decreases s.len() - k,
{
    if k < s.len() {
        lemma_digits_value_grows(s, k + 1);
        assert(s.take(k + 1).drop_last() =~= s.take(k));
    } else {
        assert(s.take(k) =~= s);
    }
}

/// Reads a number no greater than `max`.
pub fn parse_number(chars: &[char], max: u64) -> (r: Option<u64>)
    ensures
        match number_within(chars@, max as nat) {
            Some(n) => r == Some(n as u64),
            None => r is None,
        },
        r matches Some(n) ==> number(chars@) == Some(n as nat) && n <= max,
{
    let start: usize = if chars.len() > 0 && chars[0] == '+' {
        1
    } else {
        0
    };
    let ghost digits = number_digits(chars@);
    assert(digits =~= chars@.skip(start as int));
    if start == chars.len() {
        return None;
    }
    for i in start..chars.len()
        invariant
            start <= 1,
            digits == chars@.skip(start as int),
            digits == number_digits(chars@),
            forall|j: int| start <= j < i ==> is_digit(#[trigger] chars@[j]),
    {
        let c = chars[i];
        if c < '0' || c > '9' {
            assert(digits[i - start] == c);
            assert(!is_digit(digits[i - start]));
            assert(!all_digits(digits));
            return None;
        }
    }
    assert forall|j: int| 0 <= j < digits.len() implies is_digit(#[trigger] digits[j]) by {
        assert(digits[j] == chars@[start + j]);
    }
    let mut value: u64 = 0;
    assert(digits.take(0) =~= Seq::<char>::empty());
    for i in start..chars.len()
        invariant
            start <= 1,
            digits == chars@.skip(start as int),
            number(chars@) == Some(digits_value(digits)),
            all_digits(digits),
            value == digits_value(digits.take(i - start)),
            value <= max,
    {
        let ghost done = digits.take(i - start + 1);
        assert(done.drop_last() =~= digits.take(i - start));
        assert(done.last() == chars@[i as int] && digits[i - start] == chars@[i as int]);
        proof {
            lemma_digits_value_grows(digits, i - start + 1);
        }
        let digit: u64 = (chars[i] as u32 - '0' as u32) as u64;
        if value > max / 10 {
            assert(value * 10 > max) by (nonlinear_arith)
                requires
                    value > max / 10,
            ;
            return None;
        }
        assert(value * 10 <= max) by (nonlinear_arith)
            requires
                value <= max / 10,
        ;
        let tens: u64 = value * 10;
        if digit > max - tens {
            return None;
        }
        value = tens + digit;
    }
    assert(digits.take(digits.len() as int) =~= digits);
    Some(value)
}

/// Reads a number that fits sixteen bits.
pub fn parse_u16(chars: &[char]) -> (r: Option<u16>)
    ensures
        match number_within(chars@, u16::MAX as nat) {
            Some(n) => r == Some(n as u16),
            None => r is None,
        },
{
    match parse_number(chars, u16::MAX as u64) {
        Some(n) => Some(n as u16),
        None => None,
    }
}

/// Reads a number that fits thirty-two bits.
pub fn parse_u32(chars: &[char]) -> (r: Option<u32>)
    ensures
        match number_within(chars@, u32::MAX as nat) {
            Some(n) => r == Some(n as u32),
            None => r is None,
        },
{
    match parse_number(chars, u32::MAX as u64) {
        Some(n) => Some(n as u32),
        None => None,
    }
}

/// The character that writes a digit.
pub open spec fn digit_char(d: nat) -> char {
    ('0' as nat + d) as char
}

/// A number in decimal, without leading zeros.
pub open spec fn decimal(n: nat) -> Seq<char>
    decreases n,
{
    if n < 10 {
        seq![digit_char(n)]
    } else {
        decimal(n / 10).push(digit_char(n % 10))
    }
}

/// Writes one digit.
pub fn digit(d: u8) -> (c: char)
    requires
        d < 10,
    ensures
        c == digit_char(d as nat),
{
    (48 + d) as char
}

fn push_decimal(out: &mut String, n: u128)
    ensures
        final(out)@ == old(out)@ + decimal(n as nat),
    decreases n,
{
    if n >= 10 {
        push_decimal(out, n / 10);
    }
    out.push(digit((n % 10) as u8));
    assert(out@ =~= old(out)@ + decimal(n as nat));
}

/// Writes a number in decimal.
pub fn number_text(n: u128) -> (out: String)
    ensures
        out@ == decimal(n as nat),
{
    let mut out = String::new();
    push_decimal(&mut out, n);
    assert(out@ =~= decimal(n as nat));
    out
}

/// Reading back a number that was written gives the number.
pub proof fn law_decimal_reads_back(n: nat)
    ensures
        number(decimal(n)) == Some(n),
        all_digits(decimal(n)),
        decimal(n).len() > 0,
    decreases n,
{
    if n >= 10 {
        law_decimal_reads_back(n / 10);
        let d = decimal(n);
        assert(d.drop_last() =~= decimal(n / 10));
        assert(d.last() == digit_char(n % 10));
        assert(is_digit(d.last()));
        assert forall|i: int| 0 <= i < d.len() implies is_digit(#[trigger] d[i]) by {
            if i < d.len() - 1 {
                assert(d[i] == decimal(n / 10)[i]);
            }
        }
        assert(digits_value(decimal(n / 10)) == n / 10) by {
            assert(number_digits(decimal(n / 10)) == decimal(n / 10)) by {
                assert(is_digit(decimal(n / 10)[0]));
            }
        }
        assert(is_digit(d[0]));
        assert(number_digits(d) == d);
        assert((n / 10) * 10 + n % 10 == n);
    } else {
        let d = decimal(n);
        assert(d.drop_last() =~= Seq::<char>::empty());
        assert(digits_value(d.drop_last()) == 0);
        assert(is_digit(d[0]));
        assert(number_digits(d) == d);
    }
}

/// A number in decimal is written digit by digit: the last character stands for
/// what is left over ten, the ones before it write the tenth part, and a number
/// below ten takes one character.
pub proof fn law_decimal_is_base_ten(n: nat)
    ensures
        decimal(n).len() > 0,
        decimal(n).last() as int == 48 + n % 10,
        n < 10 ==> decimal(n).len() == 1,
        n >= 10 ==> decimal(n).drop_last() == decimal(n / 10),
        forall|m: nat| #[trigger] decimal(m) == decimal(n) ==> m == n,
{
    if n >= 10 {
        assert(decimal(n).drop_last() =~= decimal(n / 10));
    }
    law_decimal_reads_back(n);
    assert forall|m: nat| #[trigger] decimal(m) == decimal(n) implies m == n by {
        law_decimal_reads_back(m);
    }
}

/// A text of digits counts the last one once, the one before it ten times, and so
/// on; with a leading zero or one leading plus sign it writes the same number, and
/// with any other character in it, or with no digit, none.
pub proof fn law_number_is_positional(s: Seq<char>, c: char)
    ensures
        number(Seq::empty()) is None,
        number(seq![c]) == if 48 <= c as int <= 57 {
            Some((c as int - 48) as nat)
        } else {
            None
        },
        s.len() > 0 ==> number(s.push(c)) == if 48 <= c as int <= 57 {
            match number(s) {
                Some(n) => Some((10 * n + (c as int - 48)) as nat),
                None => if s == seq!['+'] {
                    Some((c as int - 48) as nat)
                } else {
                    None
                },
            }
        } else {
            None
        },
{
    let one = seq![c];
    assert(one.drop_last() =~= Seq::<char>::empty());
    assert(digits_value(Seq::<char>::empty()) == 0);
    if is_digit(c) {
        assert(all_digits(one));
    } else if c == '+' {
        assert(number_digits(one) =~= Seq::<char>::empty());
    } else {
        assert(!is_digit(one[0]));
    }
    if s.len() > 0 {
        let more = s.push(c);
        let ds = number_digits(s);
        let dm = number_digits(more);
        assert(more[0] == s[0]);
        assert(dm =~= ds.push(c));
        assert(dm.drop_last() =~= ds);
        assert(dm.last() == c);
        if is_digit(c) {
            if all_digits(ds) {
                assert forall|i: int| 0 <= i < dm.len() implies is_digit(#[trigger] dm[i]) by {
                    if i < ds.len() {
                        assert(dm[i] == ds[i]);
                    }
                }
            } else {
                let i = choose|i: int| 0 <= i < ds.len() && !is_digit(#[trigger] ds[i]);
                assert(dm[i] == ds[i]);
                assert(!all_digits(dm));
            }
            if ds.len() == 0 {
                assert(s =~= seq!['+']);
                assert(digits_value(ds) == 0);
            } else if s == seq!['+'] {
                assert(s.len() == 1);
                assert(s[0] == '+');
                assert(ds.len() == 0);
            }
        } else {
            assert(!is_digit(dm[dm.len() - 1]));
            assert(!all_digits(dm));
        }
    }
}

/// Joining texts puts the separator between each two of them and nowhere else.
pub proof fn law_joining_puts_one_between(
    a: Seq<Seq<char>>,
    b: Seq<Seq<char>>,
    one: Seq<char>,
    separator: Seq<char>,
)
    ensures
        joined(Seq::empty(), separator) == Seq::<char>::empty(),
        joined(seq![one], separator) == one,
        a.len() > 0 && b.len() > 0 ==> joined(a + b, separator) == joined(a, separator) + separator
            + joined(b, separator),
    decreases b.len(),
{
    if a.len() > 0 && b.len() > 0 {
        assert((a + b).drop_last() =~= a + b.drop_last());
        assert((a + b).last() == b.last());
        if b.len() == 1 {
            assert(a + b.drop_last() =~= a);
            assert(joined(a + b, separator) =~= joined(a, separator) + separator + b[0]);
        } else {
            law_joining_puts_one_between(a, b.drop_last(), one, separator);
            assert(joined(a + b, separator) =~= joined(a, separator) + separator + joined(
                b,
                separator,
            ));
        }
    }
}

/// A text is cut at the first `c`: what stands before it holds none, the two parts
/// with the `c` between them are the text, and a text that holds one is cut.
pub proof fn law_split_is_at_the_first(s: Seq<char>, c: char)
    ensures
        match split_first(s, c) {
            Some((head, tail)) => s == head.push(c) + tail && !head.contains(c),
            None => !s.contains(c),
        },
        s.contains(c) ==> split_first(s, c) is Some,
        !before(s, c).contains(c),
        !s.contains(c) ==> before(s, c) == s,
        forall|head: Seq<char>, tail: Seq<char>|
            !head.contains(c) ==> #[trigger] before(head.push(c) + tail, c) == head,
{
    if s.contains(c) {
        let any = s.index_of(c);
        assert(holds(s, c)) by {
            assert(s[any] == c);
        }
        let at = lemma_first(s, c, any);
        lemma_before(s, c, at);
        assert(s =~= s.take(at).push(c) + s.skip(at + 1));
        assert(!s.take(at).contains(c));
    } else {
        assert(!holds(s, c));
        assert forall|i: int| 0 <= i < s.len() implies s[i] != c by {
            assert(s.contains(s[i]));
        }
        lemma_before(s, c, s.len() as int);
        assert(s.take(s.len() as int) =~= s);
    }
    assert forall|head: Seq<char>, tail: Seq<char>| !head.contains(c) implies #[trigger] before(
        head.push(c) + tail,
        c,
    ) == head by {
        let all = head.push(c) + tail;
        assert forall|i: int| 0 <= i < head.len() implies all[i] != c by {
            assert(all[i] == head[i]);
            assert(head.contains(head[i]));
        }
        lemma_before(all, c, head.len() as int);
        assert(all.take(head.len() as int) =~= head);
    }
}

proof fn lemma_first(s: Seq<char>, c: char, any: int) -> (at: int)
    requires
        0 <= any < s.len(),
        s[any] == c,
    ensures
        0 <= at <= any,
        s[at] == c,
        forall|i: int| 0 <= i < at ==> s[i] != c,
    decreases any,
{
    if exists|i: int| 0 <= i < any && s[i] == c {
        let i = choose|i: int| 0 <= i < any && s[i] == c;
        lemma_first(s, c, i)
    } else {
        any
    }
}

/// Trimming takes white space off both ends, all of it, and nothing else; what is
/// left begins and ends with something that is none.
pub proof fn law_trimming_takes_the_ends(s: Seq<char>) -> (ends: (Seq<char>, Seq<char>))
    ensures
        s == ends.0 + trimmed(s) + ends.1,
        forall|i: int| 0 <= i < ends.0.len() ==> is_whitespace(#[trigger] ends.0[i]),
        forall|i: int| 0 <= i < ends.1.len() ==> is_whitespace(#[trigger] ends.1[i]),
        trimmed(s).len() > 0 ==> !is_whitespace(trimmed(s)[0]) && !is_whitespace(
            trimmed(s).last(),
        ),
{
    let rest = trimmed_start(s);
    let lead = lemma_trimmed_start(s);
    let trail = lemma_trimmed_end(rest);
    assert(s =~= lead + trimmed(s) + trail);
    if trimmed(s).len() > 0 {
        assert(trimmed(s)[0] == rest[0]);
    }
    (lead, trail)
}

proof fn lemma_trimmed_start(s: Seq<char>) -> (lead: Seq<char>)
    ensures
        s == lead + trimmed_start(s),
        forall|i: int| 0 <= i < lead.len() ==> is_whitespace(#[trigger] lead[i]),
        trimmed_start(s).len() > 0 ==> !is_whitespace(trimmed_start(s)[0]),
    decreases s.len(),
{
    if s.len() > 0 && is_whitespace(s[0]) {
        let more = lemma_trimmed_start(s.drop_first());
        let lead = seq![s[0]] + more;
        assert(s =~= seq![s[0]] + s.drop_first());
        assert(s =~= lead + trimmed_start(s));
        lead
    } else {
        assert(s =~= Seq::<char>::empty() + s);
        Seq::empty()
    }
}

proof fn lemma_trimmed_end(s: Seq<char>) -> (trail: Seq<char>)
    ensures
        s == trimmed_end(s) + trail,
        forall|i: int| 0 <= i < trail.len() ==> is_whitespace(#[trigger] trail[i]),
        trimmed_end(s).len() > 0 ==> !is_whitespace(trimmed_end(s).last()),
    decreases s.len(),
{
    if s.len() > 0 && is_whitespace(s.last()) {
        let more = lemma_trimmed_end(s.drop_last());
        let trail = more.push(s.last());
        assert(s =~= s.drop_last().push(s.last()));
        assert(s =~= trimmed_end(s) + trail);
        trail
    } else {
        assert(s =~= s + Seq::<char>::empty());
        Seq::empty()
    }
}

/// White space is the twenty-five characters of Unicode's property and no others.
pub proof fn law_white_space(c: char)
    ensures
        is_whitespace(c) <==> seq![
            0x09int,
            0x0A,
            0x0B,
            0x0C,
            0x0D,
            0x20,
            0x85,
            0xA0,
            0x1680,
            0x2000,
            0x2001,
            0x2002,
            0x2003,
            0x2004,
            0x2005,
            0x2006,
            0x2007,
            0x2008,
            0x2009,
            0x200A,
            0x2028,
            0x2029,
            0x202F,
            0x205F,
            0x3000,
        ].contains(c as int),
{
    let all = seq![
        0x09int,
        0x0A,
        0x0B,
        0x0C,
        0x0D,
        0x20,
        0x85,
        0xA0,
        0x1680,
        0x2000,
        0x2001,
        0x2002,
        0x2003,
        0x2004,
        0x2005,
        0x2006,
        0x2007,
        0x2008,
        0x2009,
        0x200A,
        0x2028,
        0x2029,
        0x202F,
        0x205F,
        0x3000,
    ];
    let n = c as int;
    if is_whitespace(c) {
        let at: int = if n <= 0x0D {
            n - 9
        } else if n == 0x20 {
            5
        } else if n == 0x85 {
            6
        } else if n == 0xA0 {
            7
        } else if n == 0x1680 {
            8
        } else if n <= 0x200A {
            n - 0x2000 + 9
        } else if n == 0x2028 {
            20
        } else if n == 0x2029 {
            21
        } else if n == 0x202F {
            22
        } else if n == 0x205F {
            23
        } else {
            24
        };
        assert(all[at] == n);
    }
}

/// A text begins with another exactly where it is that text with something after
/// it, and ends with another where it is that text with something before it.
pub proof fn law_begins_and_ends(s: Seq<char>, part: Seq<char>)
    ensures
        begins(s, part) <==> exists|rest: Seq<char>| s == #[trigger] (part + rest),
        ends(s, part) <==> exists|rest: Seq<char>| s == #[trigger] (rest + part),
{
    if begins(s, part) {
        assert(s =~= part + s.skip(part.len() as int));
    }
    if exists|rest: Seq<char>| s == #[trigger] (part + rest) {
        let rest = choose|rest: Seq<char>| s == #[trigger] (part + rest);
        assert(s.take(part.len() as int) =~= part);
    }
    if ends(s, part) {
        assert(s =~= s.take(s.len() - part.len()) + part);
    }
    if exists|rest: Seq<char>| s == #[trigger] (rest + part) {
        let rest = choose|rest: Seq<char>| s == #[trigger] (rest + part);
        assert(s.skip(s.len() - part.len()) =~= part);
    }
}

/// The part of a text at `k`, counted from zero, where `c` parts it.
pub open spec fn part_at(s: Seq<char>, c: char, k: nat) -> Seq<char>
    decreases k,
{
    if k == 0 {
        before(s, c)
    } else {
        part_at(s.skip(before(s, c).len() as int + 1), c, (k - 1) as nat)
    }
}

/// Texts that were joined are read back in their order: where none up to the one
/// at `k` holds the separator, the part at `k` is the text at `k`.
pub proof fn law_joined_texts_are_read_back(parts: Seq<Seq<char>>, c: char, k: nat)
    requires
        k < parts.len(),
        forall|i: int| 0 <= i <= k ==> !(#[trigger] parts[i]).contains(c),
    ensures
        part_at(joined(parts, seq![c]), c, k) == parts[k as int],
    decreases parts.len(),
{
    let first = parts[0];
    let whole = joined(parts, seq![c]);
    if parts.len() == 1 {
        law_split_is_at_the_first(first, c);
    } else {
        let rest = parts.drop_first();
        assert(parts =~= seq![first] + rest);
        law_joining_puts_one_between(seq![first], rest, first, seq![c]);
        let tail = joined(rest, seq![c]);
        assert(whole =~= first.push(c) + tail);
        law_split_is_at_the_first(whole, c);
        assert(before(first.push(c) + tail, c) == first);
        if k > 0 {
            assert(whole.skip(first.len() as int + 1) =~= tail);
            assert forall|i: int| 0 <= i <= k - 1 implies !(#[trigger] rest[i]).contains(c) by {
                assert(rest[i] == parts[i + 1]);
            }
            law_joined_texts_are_read_back(rest, c, (k - 1) as nat);
        }
    }
}

/// The digits of a number hold nothing but digits.
pub proof fn lemma_decimal_holds_no(n: nat, c: char)
    requires
        !is_digit(c),
    ensures
        !decimal(n).contains(c),
{
    law_decimal_reads_back(n);
    if decimal(n).contains(c) {
        let i = decimal(n).index_of(c);
        assert(is_digit(decimal(n)[i]));
    }
}

/// Digits without a leading zero are the decimal of the number that they write.
pub proof fn law_digits_are_the_decimal(s: Seq<char>)
    requires
        s.len() > 0,
        all_digits(s),
        s[0] == '0' ==> s.len() == 1,
    ensures
        decimal(digits_value(s)) == s,
        s[0] != '0' ==> digits_value(s) > 0,
    decreases s.len(),
{
    let init = s.drop_last();
    let d = (s.last() as int - '0' as int) as nat;
    assert(is_digit(s[s.len() - 1]));
    assert(digit_char(d) == s.last());
    if s.len() == 1 {
        assert(init =~= Seq::<char>::empty());
        assert(digits_value(init) == 0);
        assert(is_digit(s[0]));
        assert(decimal(d) =~= s);
    } else {
        assert forall|i: int| 0 <= i < init.len() implies is_digit(#[trigger] init[i]) by {
            assert(init[i] == s[i]);
        }
        assert(init[0] == s[0]);
        law_digits_are_the_decimal(init);
        let n = digits_value(init);
        assert((n * 10 + d) / 10 == n);
        assert((n * 10 + d) % 10 == d);
        assert(s =~= init.push(s.last()));
    }
}

/// The contents of a list are those of its texts, each in its place.
pub proof fn law_contents_of_a_list(list: Seq<String>, i: int)
    ensures
        texts(list).len() == list.len(),
        0 <= i < list.len() ==> texts(list)[i] == list[i]@,
{
}

/// A number is within a limit exactly where it is one and no more than it.
pub proof fn law_numbers_within_a_limit(s: Seq<char>, max: nat, n: nat)
    ensures
        number_within(s, max) == Some(n) <==> number(s) == Some(n) && n <= max,
        number_within(decimal(n), max) is Some <==> n <= max,
{
    law_decimal_reads_back(n);
}

}
