//! Text as sequences of characters: comparison, trimming, searching, and the
//! writing and reading of numbers in a given radix.

use vstd::prelude::*;
use vstd::utf8::*;

verus! {

// ---------------------------------------------------------------------------
// Strings
// ---------------------------------------------------------------------------

/// `String::push` puts one character at the end of the string and leaves the
/// characters before it as they are.
pub assume_specification[ String::push ](s: &mut String, ch: char)
    ensures
        final(s)@ == old(s)@.push(ch),
;

/// The texts that strings hold.
pub open spec fn texts(strings: Seq<String>) -> Seq<Seq<char>> {
    strings.map_values(|s: String| s@)
}

/// Two texts have the same UTF-8 encoding exactly if they are the same.
pub proof fn lemma_same_bytes_same_text(a: Seq<char>, b: Seq<char>)
    ensures
        encode_utf8(a) == encode_utf8(b) <==> a == b,
{
    encode_utf8_decode_utf8(a);
    encode_utf8_decode_utf8(b);
}

/// Whether two texts are equal.
pub fn str_eq(a: &str, b: &str) -> (equal: bool)
    ensures
        equal == (a@ == b@),
{
    proof {
        lemma_same_bytes_same_text(a@, b@);
    }
    let x = a.as_bytes();
    let y = b.as_bytes();
    if x.len() != y.len() {
        return false;
    }
    let n: usize = x.len();
    for i in 0..n
        invariant
            n == x@.len(),
            n == y@.len(),
            x@ == encode_utf8(a@),
            y@ == encode_utf8(b@),
            encode_utf8(a@) == encode_utf8(b@) <==> a@ == b@,
            forall|j: int| 0 <= j < i ==> x@[j] == y@[j],
    {
        if x[i] != y[i] {
            return false;
        }
    }
    assert(x@ =~= y@);
    true
}

/// The characters of a text, one by one.
pub fn chars_of(s: &str) -> (chars: Vec<char>)
    ensures
        chars@ == s@,
{
    let mut chars: Vec<char> = Vec::new();
    for c in it: s.chars()
        invariant
            it.seq() == s@,
            chars@ == s@.take(it.index()),
    {
        chars.push(c);
    }
    assert(chars@ =~= s@);
    chars
}

// ---------------------------------------------------------------------------
// Trimming
// ---------------------------------------------------------------------------

/// The characters with the Unicode property `White_Space`.
pub open spec fn is_white_space(c: char) -> bool {
    let u = c as int;
    ||| 0x09 <= u <= 0x0d
    ||| u == 0x20
    ||| u == 0x85
    ||| u == 0xa0
    ||| u == 0x1680
    ||| 0x2000 <= u <= 0x200a
    ||| u == 0x2028
    ||| u == 0x2029
    ||| u == 0x202f
    ||| u == 0x205f
    ||| u == 0x3000
}

/// `s` without the white space in front.
pub open spec fn trimmed_start(s: Seq<char>) -> Seq<char>
    decreases s.len(),
{
    if s.len() > 0 && is_white_space(s[0]) {
        trimmed_start(s.drop_first())
    } else {
        s
    }
}

/// `s` without the white space at the end.
pub open spec fn trimmed_end(s: Seq<char>) -> Seq<char>
    decreases s.len(),
{
    if s.len() > 0 && is_white_space(s.last()) {
        trimmed_end(s.drop_last())
    } else {
        s
    }
}

/// `s` without the white space at either end.
pub open spec fn trimmed(s: Seq<char>) -> Seq<char> {
    trimmed_end(trimmed_start(s))
}

/// `str::trim` returns the part of the text that is left when the characters
/// with the Unicode property `White_Space` are taken off both of its ends.
pub assume_specification[ str::trim ](s: &str) -> (res: &str)
    ensures
        res@ == trimmed(s@),
;

/// Text that neither begins nor ends with white space is left alone by trimming.
pub proof fn lemma_trimmed_unchanged(s: Seq<char>)
    requires
        s.len() > 0 ==> !is_white_space(s[0]) && !is_white_space(s.last()),
    ensures
        trimmed(s) == s,
{
}

// ---------------------------------------------------------------------------
// Searching
// ---------------------------------------------------------------------------

/// `needle` stands in `hay` from position `at` on.
pub open spec fn occurs_at(hay: Seq<char>, needle: Seq<char>, at: int) -> bool {
    &&& 0 <= at
    &&& at + needle.len() <= hay.len()
    &&& hay.subrange(at, at + needle.len()) == needle
}

/// `needle` stands somewhere in `hay`.
pub open spec fn occurs_in(hay: Seq<char>, needle: Seq<char>) -> bool {
    exists|at: int| occurs_at(hay, needle, at)
}

/// Whether `needle` stands in `hay` from position `at` on.
fn matches_at(hay: &Vec<char>, needle: &Vec<char>, at: usize) -> (found: bool)
    requires
        at + needle@.len() <= hay@.len(),
    ensures
        found == occurs_at(hay@, needle@, at as int),
{
    let n: usize = needle.len();
    let total: usize = hay.len();
    for k in 0..n
        invariant
            n == needle@.len(),
            total == hay@.len(),
            at + n <= total,
            forall|j: int| 0 <= j < k ==> hay@[at + j] == needle@[j],
    {
        if hay[at + k] != needle[k] {
            assert(hay@.subrange(at as int, at + n)[k as int] != needle@[k as int]);
            return false;
        }
    }
    assert(hay@.subrange(at as int, at + n) =~= needle@);
    true
}

/// Whether `needle` stands somewhere in `hay`.
pub fn contains(hay: &str, needle: &str) -> (found: bool)
    ensures
        found == occurs_in(hay@, needle@),
{
    let h = chars_of(hay);
    let n = chars_of(needle);
    if n.len() > h.len() {
        return false;
    }
    let last: usize = h.len() - n.len();
    let mut at: usize = 0;
    loop
        invariant
            h@ == hay@,
            n@ == needle@,
            last + n@.len() == h@.len(),
            at <= last,
            forall|j: int| 0 <= j < at ==> !occurs_at(h@, n@, j),
        decreases last - at,
    {
        if matches_at(&h, &n, at) {
            return true;
        }
        if at == last {
            return false;
        }
        at = at + 1;
    }
}

// ---------------------------------------------------------------------------
// Letter case
// ---------------------------------------------------------------------------

/// The lower-case form of a text, as `str::to_lowercase` computes it.
pub uninterp spec fn lowercase(s: Seq<char>) -> Seq<char>;

/// The lower-case form of an ASCII character; other characters stay.
pub open spec fn ascii_lowercase(c: char) -> char {
    if 'A' <= c && c <= 'Z' {
        (c as int + 32) as char
    } else {
        c
    }
}

/// ASCII text with small letters in place of capital ones.
pub open spec fn ascii_lowered(s: Seq<char>) -> Seq<char> {
    s.map_values(|c: char| ascii_lowercase(c))
}

/// `str::to_lowercase` gives the lower-case form of a text. On ASCII text it
/// maps the letters `A` to `Z`, each to its small letter, and nothing else; of
/// other text nothing more is stated than that equal texts have equal forms.
#[verifier::external_body]
pub(crate) fn to_lowercase(s: &str) -> (res: String)
    ensures
        res@ == lowercase(s@),
        is_ascii_chars(s@) ==> res@ == ascii_lowered(s@),
{
    s.to_lowercase()
}

// ---------------------------------------------------------------------------
// Numbers
// ---------------------------------------------------------------------------

/// The digit that stands for `d`: `0` to `9`, then `a` to `f`.
pub open spec fn digit_char(d: nat) -> char {
    if d < 10 {
        (0x30 + d) as char
    } else {
        (0x57 + d) as char
    }
}

/// What the character stands for as a digit, in either letter case; sixteen or
/// more if it is no digit.
pub open spec fn digit_value(c: char) -> nat {
    let u = c as nat;
    if 0x30 <= u <= 0x39 {
        (u - 0x30) as nat
    } else if 0x61 <= u <= 0x66 {
        (u - 0x57) as nat
    } else if 0x41 <= u <= 0x46 {
        (u - 0x37) as nat
    } else {
        16
    }
}

/// Whether the character is a digit in the given radix.
pub open spec fn is_digit(c: char, radix: nat) -> bool {
    digit_value(c) < radix
}

/// Division by two or more makes a positive number smaller.
pub proof fn lemma_quotient_smaller(n: nat, radix: nat)
    by (nonlinear_arith)
    requires
        n >= radix,
        radix >= 2,
    ensures
        0 <= n / radix < n,
{
}

/// `n` written out in the given radix, without leading zeros.
pub open spec fn number_text(n: nat, radix: nat) -> Seq<char>
    decreases n,
{
    if n < radix || radix < 2 {
        seq![digit_char(n)]
    } else {
        proof {
            lemma_quotient_smaller(n, radix);
        }
        number_text(n / radix, radix).push(digit_char(n % radix))
    }
}

/// The number that a sequence of digits stands for.
pub open spec fn digits_value(s: Seq<char>, radix: nat) -> nat
    decreases s.len(),
{
    if s.len() == 0 {
        0
    } else {
        digits_value(s.drop_last(), radix) * radix + digit_value(s.last())
    }
}

/// How many digits stand at the beginning of `s`.
pub open spec fn digit_run(s: Seq<char>, radix: nat) -> nat
    decreases s.len(),
{
    if s.len() > 0 && is_digit(s[0], radix) {
        1 + digit_run(s.drop_first(), radix)
    } else {
        0
    }
}

/// The number at the beginning of `s`, and what follows its last digit.
///
/// All digits that stand there belong to the number. There must be at least one
/// of them, at most `max_digits` where that is given, no zero in front of others
/// unless `zero_prefix` is set, and the number must not be above `max`.
pub open spec fn read_number(
    s: Seq<char>,
    radix: nat,
    max_digits: Option<nat>,
    zero_prefix: bool,
    max: nat,
) -> Option<(nat, Seq<char>)> {
    let run = digit_run(s, radix);
    let value = digits_value(s.take(run as int), radix);
    if run == 0 || (max_digits matches Some(m) && run > m) || (!zero_prefix && s[0] == '0' && run
        > 1) || value > max {
        None
    } else {
        Some((value, s.skip(run as int)))
    }
}

/// The digit that stands for `d`.
pub fn digit_of(d: u32) -> (c: char)
    requires
        d < 16,
    ensures
        c == digit_char(d as nat),
{
    if d < 10 {
        (0x30u8 + d as u8) as char
    } else {
        (0x57u8 + d as u8) as char
    }
}

/// What the character stands for as a digit in the given radix.
pub fn value_of(c: char, radix: u32) -> (value: Option<u32>)
    requires
        radix <= 16,
    ensures
        match value {
            Some(v) => is_digit(c, radix as nat) && v == digit_value(c),
            None => !is_digit(c, radix as nat),
        },
{
    let u: u32 = c as u32;
    let v: u32 = if 0x30 <= u && u <= 0x39 {
        u - 0x30
    } else if 0x61 <= u && u <= 0x66 {
        u - 0x57
    } else if 0x41 <= u && u <= 0x46 {
        u - 0x37
    } else {
        16
    };
    if v < radix {
        Some(v)
    } else {
        None
    }
}

/// Writes `n` in the given radix at the end of `out`.
pub fn push_number(out: &mut String, n: u32, radix: u32)
    requires
        2 <= radix <= 16,
    ensures
        final(out)@ == old(out)@ + number_text(n as nat, radix as nat),
    decreases n,
{
    if n >= radix {
        proof {
            lemma_quotient_smaller(n as nat, radix as nat);
        }
        push_number(out, n / radix, radix);
        out.push(digit_of(n % radix));
    } else {
        out.push(digit_of(n));
    }
    assert(out@ =~= old(out)@ + number_text(n as nat, radix as nat));
}

/// Digits in front of `rest` are all of the run of digits there, if `rest` does
/// not go on with one.
proof fn lemma_digit_run(digits: Seq<char>, rest: Seq<char>, radix: nat)
    requires
        forall|i: int| 0 <= i < digits.len() ==> is_digit(#[trigger] digits[i], radix),
        rest.len() == 0 || !is_digit(rest[0], radix),
    ensures
        digit_run(digits + rest, radix) == digits.len(),
    decreases digits.len(),
{
    if digits.len() == 0 {
        assert(digits + rest =~= rest);
    } else {
        let tail = digits.drop_first();
        assert forall|i: int| 0 <= i < tail.len() implies is_digit(#[trigger] tail[i], radix) by {
            assert(tail[i] == digits[i + 1]);
        }
        lemma_digit_run(tail, rest, radix);
        assert((digits + rest).drop_first() =~= tail + rest);
        assert((digits + rest)[0] == digits[0]);
    }
}

/// The run of digits lies within the text, and consists of digits.
pub proof fn lemma_digit_run_bounds(s: Seq<char>, radix: nat)
    ensures
        digit_run(s, radix) <= s.len(),
        forall|i: int| 0 <= i < digit_run(s, radix) ==> is_digit(#[trigger] s[i], radix),
        digit_run(s, radix) < s.len() ==> !is_digit(s[digit_run(s, radix) as int], radix),
    decreases s.len(),
{
    if s.len() > 0 && is_digit(s[0], radix) {
        let tail = s.drop_first();
        lemma_digit_run_bounds(tail, radix);
        assert forall|i: int| 0 <= i < digit_run(s, radix) implies is_digit(
            #[trigger] s[i],
            radix,
        ) by {
            if i > 0 {
                assert(s[i] == tail[i - 1]);
            }
        }
        if digit_run(s, radix) < s.len() {
            assert(s[digit_run(s, radix) as int] == tail[digit_run(tail, radix) as int]);
        }
    }
}

/// The written form of a number: digits only, none of them a leading zero, and
/// together they stand for the number.
pub proof fn lemma_number_text(n: nat, radix: nat)
    requires
        2 <= radix <= 16,
    ensures
        number_text(n, radix).len() > 0,
        forall|i: int|
            0 <= i < number_text(n, radix).len() ==> is_digit(
                #[trigger] number_text(n, radix)[i],
                radix,
            ),
        digits_value(number_text(n, radix), radix) == n,
        n > 0 ==> digit_value(number_text(n, radix)[0]) > 0,
        n == 0 ==> number_text(n, radix).len() == 1,
    decreases n,
{
    let text = number_text(n, radix);
    if n < radix {
        assert(text.drop_last() =~= Seq::<char>::empty());
        assert(digits_value(text.drop_last(), radix) == 0);
        assert(digits_value(text.drop_last(), radix) * radix == 0);
    } else {
        lemma_quotient_smaller(n, radix);
        let q = n / radix;
        lemma_number_text(q, radix);
        let front = number_text(q, radix);
        assert(text.drop_last() =~= front);
        assert(n % radix < radix && q * radix + n % radix == n && q > 0) by (nonlinear_arith)
            requires
                n >= radix,
                radix >= 2,
                q == n / radix,
        ;
        assert forall|i: int| 0 <= i < text.len() implies is_digit(#[trigger] text[i], radix) by {
            if i < front.len() {
                assert(text[i] == front[i]);
            }
        }
        assert(text[0] == front[0]);
    }
}

/// `radix` to the power `len`.
pub open spec fn pow_nat(radix: nat, len: nat) -> nat
    decreases len,
{
    if len == 0 {
        1
    } else {
        radix * pow_nat(radix, (len - 1) as nat)
    }
}

/// A number below `radix` to the power `len` has at most `len` digits.
pub proof fn lemma_number_text_len(n: nat, radix: nat, len: nat)
    requires
        2 <= radix <= 16,
        len > 0,
        n < pow_nat(radix, len),
    ensures
        number_text(n, radix).len() <= len,
    decreases len,
{
    if n >= radix {
        lemma_quotient_smaller(n, radix);
        let q = n / radix;
        if len == 1 {
            assert(pow_nat(radix, 0) == 1);
            assert(pow_nat(radix, 1) == radix * 1);
            assert(false);
        }
        let p = pow_nat(radix, (len - 1) as nat);
        assert(q < p) by (nonlinear_arith)
            requires
                n < radix * p,
                q == n / radix,
                radix >= 2,
        ;
        lemma_number_text_len(q, radix, (len - 1) as nat);
    }
}

/// A written number is read back, whatever follows it that is no digit.
pub proof fn lemma_read_number_text(
    n: nat,
    radix: nat,
    max_digits: Option<nat>,
    zero_prefix: bool,
    max: nat,
    rest: Seq<char>,
)
    requires
        2 <= radix <= 16,
        n <= max,
        max_digits matches Some(m) ==> m > 0 && n < pow_nat(radix, m),
        rest.len() == 0 || !is_digit(rest[0], radix),
    ensures
        read_number(number_text(n, radix) + rest, radix, max_digits, zero_prefix, max) == Some(
            (n, rest),
        ),
{
    let text = number_text(n, radix);
    lemma_number_text(n, radix);
    if let Some(m) = max_digits {
        lemma_number_text_len(n, radix, m);
    }
    lemma_digit_run(text, rest, radix);
    assert((text + rest).take(text.len() as int) =~= text);
    assert((text + rest).skip(text.len() as int) =~= rest);
    assert((text + rest)[0] == text[0]);
}

/// Reads the number that stands in `chars` from `pos` on, and returns it with the
/// position behind its last digit.
pub fn parse_number(
    chars: &Vec<char>,
    pos: usize,
    radix: u32,
    max_digits: Option<usize>,
    zero_prefix: bool,
    max: u32,
) -> (res: Option<(u32, usize)>)
    requires
        pos <= chars@.len(),
        2 <= radix <= 16,
    ensures
        match res {
            Some((value, next)) => {
                &&& pos <= next <= chars@.len()
                &&& read_number(
                    chars@.skip(pos as int),
                    radix as nat,
                    match max_digits {
                        Some(m) => Some(m as nat),
                        None => None,
                    },
                    zero_prefix,
                    max as nat,
                ) == Some((value as nat, chars@.skip(next as int)))
            },
            None => read_number(
                chars@.skip(pos as int),
                radix as nat,
                match max_digits {
                    Some(m) => Some(m as nat),
                    None => None,
                },
                zero_prefix,
                max as nat,
            ) is None,
        },
{
    let ghost s = chars@.skip(pos as int);
    let ghost run = digit_run(s, radix as nat);
    proof {
        lemma_digit_run_bounds(s, radix as nat);
    }
    let total: usize = chars.len();
    let mut next: usize = pos;
    let mut value: u64 = 0;
    let mut above: bool = false;
    loop
        invariant
            total == chars@.len(),
            pos <= next <= total,
            2 <= radix <= 16,
            s == chars@.skip(pos as int),
            run == digit_run(s, radix as nat),
            run <= s.len(),
            next - pos <= run,
            forall|i: int| 0 <= i < run ==> is_digit(#[trigger] s[i], radix as nat),
            run < s.len() ==> !is_digit(s[run as int], radix as nat),
            above == (digits_value(s.take(next - pos), radix as nat) > max),
            !above ==> value == digits_value(s.take(next - pos), radix as nat),
            value <= u32::MAX,
        ensures
            next - pos == run,
        decreases total - next,
    {
        if next == total {
            break;
        }
        let ghost k = next - pos;
        assert(s[k] == chars@[next as int]);
        match value_of(chars[next], radix) {
            None => {
                break;
            },
            Some(d) => {
                assert(s.take(k + 1).drop_last() =~= s.take(k));
                assert(s.take(k + 1).last() == s[k]);
                let ghost before = digits_value(s.take(k), radix as nat);
                assert(before * radix >= before) by (nonlinear_arith)
                    requires
                        radix >= 1,
                        before >= 0,
                ;
                if !above {
                    assert(value * radix <= u32::MAX * 16) by (nonlinear_arith)
                        requires
                            value <= u32::MAX,
                            radix <= 16,
                    ;
                    value = value * (radix as u64) + d as u64;
                    if value > max as u64 {
                        above = true;
                        value = 0;
                    }
                }
                next = next + 1;
            },
        }
    }
    let count: usize = next - pos;
    let too_long: bool = match max_digits {
        Some(m) => count > m,
        None => false,
    };
    if count == 0 || too_long || above {
        return None;
    }
    assert(s[0] == chars@[pos as int]);
    if !zero_prefix && count > 1 && chars[pos] == '0' {
        return None;
    }
    assert(s.skip(run as int) =~= chars@.skip(next as int));
    Some((value as u32, next))
}

// ---------------------------------------------------------------------------
// What holds of texts
// ---------------------------------------------------------------------------

/// The texts of strings are theirs, one for one.
pub proof fn law_texts_one_by_one(strings: Seq<String>, i: int)
    requires
        0 <= i < strings.len(),
    ensures
        texts(strings).len() == strings.len(),
        texts(strings)[i] == strings[i]@,
{
}

/// Of the ASCII characters, white space are the blank and those from the tabulator
/// to the carriage return; so no printed character is.
pub proof fn law_ascii_white_space(c: char)
    requires
        c <= '\u{7f}',
    ensures
        is_white_space(c) <==> (c == ' ' || '\t' <= c <= '\r'),
{
}

/// How many characters of white space are in front.
proof fn lemma_trimmed_start(s: Seq<char>) -> (a: int)
    ensures
        0 <= a <= s.len(),
        trimmed_start(s) == s.skip(a),
        forall|i: int| 0 <= i < a ==> is_white_space(#[trigger] s[i]),
        a < s.len() ==> !is_white_space(s[a]),
    decreases s.len(),
{
    if s.len() > 0 && is_white_space(s[0]) {
        let rest = s.drop_first();
        let b = lemma_trimmed_start(rest);
        assert(rest.skip(b) =~= s.skip(b + 1));
        assert forall|i: int| 0 <= i < b + 1 implies is_white_space(#[trigger] s[i]) by {
            if i > 0 {
                assert(rest[i - 1] == s[i]);
            }
        }
        if b + 1 < s.len() {
            assert(rest[b] == s[b + 1]);
        }
        b + 1
    } else {
        assert(s.skip(0) =~= s);
        0
    }
}

/// How many characters are left without the white space at the end.
proof fn lemma_trimmed_end(s: Seq<char>) -> (b: int)
    ensures
        0 <= b <= s.len(),
        trimmed_end(s) == s.take(b),
        forall|i: int| b <= i < s.len() ==> is_white_space(#[trigger] s[i]),
        b > 0 ==> !is_white_space(s[b - 1]),
    decreases s.len(),
{
    if s.len() > 0 && is_white_space(s.last()) {
        let front = s.drop_last();
        let b = lemma_trimmed_end(front);
        assert(front.take(b) =~= s.take(b));
        assert forall|i: int| b <= i < s.len() implies is_white_space(#[trigger] s[i]) by {
            if i < s.len() - 1 {
                assert(front[i] == s[i]);
            }
        }
        if b > 0 {
            assert(front[b - 1] == s[b - 1]);
        }
        b
    } else {
        assert(s.take(s.len() as int) =~= s);
        s.len() as int
    }
}

/// Trimming takes white space off both ends, nothing else, and all of it.
pub proof fn law_trimming(s: Seq<char>)
    ensures
        exists|a: int, b: int|
            0 <= a <= b <= s.len() && trimmed(s) == #[trigger] s.subrange(a, b) && (forall|i: int|
                0 <= i < a || b <= i < s.len() ==> is_white_space(#[trigger] s[i])) && (a < b
                ==> !is_white_space(s[a]) && !is_white_space(s[b - 1])),
{
    let a = lemma_trimmed_start(s);
    let t = s.skip(a);
    let n = lemma_trimmed_end(t);
    let b = a + n;
    assert(t.take(n) =~= s.subrange(a, b));
    assert forall|i: int| 0 <= i < a || b <= i < s.len() implies is_white_space(#[trigger] s[i]) by {
        if i >= b {
            assert(t[i - a] == s[i]);
        }
    }
    if a < b {
        assert(t[n - 1] == s[b - 1]);
    }
}

/// White space around a text does not matter: with it or without, the text is what
/// is left by trimming.
pub proof fn law_padding_is_trimmed(before: Seq<char>, s: Seq<char>, after: Seq<char>)
    requires
        forall|i: int| 0 <= i < before.len() ==> is_white_space(#[trigger] before[i]),
        forall|i: int| 0 <= i < after.len() ==> is_white_space(#[trigger] after[i]),
        s.len() > 0,
        !is_white_space(s[0]),
        !is_white_space(s.last()),
    ensures
        trimmed(before + s + after) == s,
{
    let all = before + s + after;
    let a = lemma_trimmed_start(all);
    assert(all[before.len() as int] == s[0]);
    if a < before.len() {
        assert(all[a] == before[a]);
    }
    assert(a == before.len());
    let t = all.skip(a);
    assert(t =~= s + after);
    let b = lemma_trimmed_end(t);
    assert(t[s.len() - 1] == s.last());
    if b > s.len() {
        assert(t[b - 1] == after[b - 1 - s.len()]);
    }
    assert(t.take(b) =~= s);
}

/// A text occurs in another exactly if that one consists of something, the text,
/// and something again.
pub proof fn law_occurring_is_being_part(hay: Seq<char>, needle: Seq<char>)
    ensures
        occurs_in(hay, needle) <==> exists|before: Seq<char>, after: Seq<char>|
            hay == #[trigger] (before + needle + after),
{
    if occurs_in(hay, needle) {
        let at = choose|at: int| occurs_at(hay, needle, at);
        let before = hay.take(at);
        let after = hay.skip(at + needle.len());
        assert(hay =~= before + needle + after) by {
            assert(hay.subrange(at, at + needle.len()) == needle);
        }
    }
    if exists|before: Seq<char>, after: Seq<char>| hay == #[trigger] (before + needle + after) {
        let (before, after) = choose|before: Seq<char>, after: Seq<char>|
            hay == #[trigger] (before + needle + after);
        let at = before.len() as int;
        assert(hay.subrange(at, at + needle.len()) =~= needle);
        assert(occurs_at(hay, needle, at));
    }
}

/// Lowering ASCII text changes capital letters, each to the small one, and leaves
/// all other characters where and as they are.
pub proof fn law_lowering_changes_capital_letters(s: Seq<char>, i: int)
    requires
        0 <= i < s.len(),
    ensures
        ascii_lowered(s).len() == s.len(),
        'A' <= s[i] <= 'Z' ==> ascii_lowered(s)[i] as int == s[i] as int + 32,
        !('A' <= s[i] <= 'Z') ==> ascii_lowered(s)[i] == s[i],
{
}

/// A number below the radix is written as one digit: `0` to `9`, then `a` to `f`.
pub proof fn law_one_digit(d: nat, radix: nat)
    requires
        d < radix <= 16,
    ensures
        number_text(d, radix).len() == 1,
        number_text(d, radix)[0] as int == (if d < 10 {
            0x30 + d as int
        } else {
            0x61 + d as int - 10
        }),
{
}

/// A longer number is written as the number without its last digit, and then that
/// digit.
pub proof fn law_more_digits(q: nat, d: nat, radix: nat)
    requires
        2 <= radix <= 16,
        q > 0,
        d < radix,
    ensures
        number_text(q * radix + d, radix) == number_text(q, radix) + number_text(d, radix),
{
    let n = q * radix + d;
    assert(n >= radix && n / radix == q && n % radix == d) by {
        assert(q * radix >= radix) by (nonlinear_arith)
            requires
                q > 0,
                radix >= 2,
        ;
        vstd::arithmetic::div_mod::lemma_fundamental_div_mod_converse(
            n as int,
            radix as int,
            q as int,
            d as int,
        );
    }
    lemma_quotient_smaller(n, radix);
    assert(number_text(n, radix) =~= number_text(q, radix) + number_text(d, radix));
}

/// A further digit multiplies what the digits stand for by the radix, and adds what
/// it stands for itself: `0` to `9`, and `a` to `f` or `A` to `F` from ten on.
pub proof fn law_digits_stand_for_a_number(s: Seq<char>, c: char, radix: nat)
    requires
        is_digit(c, radix),
        radix <= 16,
    ensures
        digits_value(Seq::<char>::empty(), radix) == 0,
        digits_value(s.push(c), radix) == digits_value(s, radix) * radix + (if '0' <= c <= '9' {
            c as int - 0x30
        } else if 'a' <= c <= 'f' {
            c as int - 0x61 + 10
        } else {
            c as int - 0x41 + 10
        }),
        '0' <= c <= '9' || 'a' <= c <= 'f' || 'A' <= c <= 'F',
        radix == 10 ==> '0' <= c <= '9',
{
    assert(s.push(c).drop_last() =~= s);
}

/// What is read as a number are all the digits in front, at least one; their number
/// and value are within the bounds; and unless zeros may stand in front, they are
/// the number's written form.
pub proof fn law_read_number_is_there(
    s: Seq<char>,
    radix: nat,
    max_digits: Option<nat>,
    zero_prefix: bool,
    max: nat,
)
    requires
        2 <= radix <= 16,
    ensures
        read_number(s, radix, max_digits, zero_prefix, max) matches Some((value, rest)) ==> {
            let count = s.len() - rest.len();
            let digits = s.take(count);
            &&& 0 < count <= s.len()
            &&& rest == s.skip(count)
            &&& forall|i: int| 0 <= i < count ==> is_digit(#[trigger] s[i], radix)
            &&& rest.len() > 0 ==> !is_digit(rest[0], radix)
            &&& max_digits matches Some(m) ==> count <= m
            &&& digits_value(digits, radix) == value <= max
            &&& !zero_prefix && radix == 10 ==> digits == number_text(value, 10)
        },
{
    lemma_digit_run_bounds(s, radix);
    match read_number(s, radix, max_digits, zero_prefix, max) {
        None => {},
        Some((value, rest)) => {
            let run = digit_run(s, radix) as int;
            let digits = s.take(run);
            assert(rest.len() == s.len() - run);
            if rest.len() > 0 {
                assert(rest[0] == s[run]);
            }
            if !zero_prefix && radix == 10 {
                assert forall|i: int| 0 <= i < digits.len() implies is_digit(
                    #[trigger] digits[i],
                    10,
                ) by {
                    assert(digits[i] == s[i]);
                }
                lemma_decimal_is_unique(digits);
            }
        },
    }
}

/// A decimal digit is the one that stands for what it stands for.
proof fn lemma_decimal_digit(c: char)
    requires
        is_digit(c, 10),
    ensures
        digit_char(digit_value(c)) == c,
        c != '0' ==> digit_value(c) > 0,
{
}

/// Decimal digits without a leading zero are the written form of their number.
proof fn lemma_decimal_is_unique(digits: Seq<char>)
    requires
        digits.len() > 0,
        forall|i: int| 0 <= i < digits.len() ==> is_digit(#[trigger] digits[i], 10),
        digits.len() > 1 ==> digits[0] != '0',
    ensures
        number_text(digits_value(digits, 10), 10) == digits,
        digits[0] != '0' ==> digits_value(digits, 10) > 0,
    decreases digits.len(),
{
    let front = digits.drop_last();
    let d = digit_value(digits.last());
    assert(is_digit(digits[digits.len() - 1], 10));
    lemma_decimal_digit(digits.last());
    law_one_digit(d, 10);
    if digits.len() == 1 {
        assert(front =~= Seq::<char>::empty());
        assert(digits_value(front, 10) == 0);
        assert(number_text(d, 10) =~= digits);
        assert(digits[0] == digits.last());
    } else {
        assert forall|i: int| 0 <= i < front.len() implies is_digit(#[trigger] front[i], 10) by {
            assert(front[i] == digits[i]);
        }
        assert(front[0] == digits[0]);
        lemma_decimal_is_unique(front);
        let q = digits_value(front, 10);
        law_more_digits(q, d, 10);
        assert(number_text(q, 10) + number_text(d, 10) =~= digits);
    }
}

/// The decimal digits are `0` to `9`; the hexadecimal ones are these and `a` to `f`,
/// large or small.
pub proof fn law_digit_characters(c: char)
    ensures
        is_digit(c, 10) == ('0' <= c <= '9'),
        is_digit(c, 16) == ('0' <= c <= '9' || 'a' <= c <= 'f' || 'A' <= c <= 'F'),
{
}

/// Digits that keep within the bounds are read as what they stand for, whatever
/// follows them that is no digit.
pub proof fn law_digits_are_read(
    digits: Seq<char>,
    radix: nat,
    max_digits: Option<nat>,
    zero_prefix: bool,
    max: nat,
    rest: Seq<char>,
)
    requires
        digits.len() > 0,
        forall|i: int| 0 <= i < digits.len() ==> is_digit(#[trigger] digits[i], radix),
        max_digits matches Some(m) ==> digits.len() <= m,
        zero_prefix || digits.len() == 1 || digits[0] != '0',
        digits_value(digits, radix) <= max,
        rest.len() == 0 || !is_digit(rest[0], radix),
    ensures
        read_number(digits + rest, radix, max_digits, zero_prefix, max) == Some(
            (digits_value(digits, radix), rest),
        ),
{
    lemma_digit_run(digits, rest, radix);
    assert((digits + rest).take(digits.len() as int) =~= digits);
    assert((digits + rest).skip(digits.len() as int) =~= rest);
    assert((digits + rest)[0] == digits[0]);
}

/// A hexadecimal digit stands for less than sixteen.
proof fn lemma_digit_value_bound(c: char)
    requires
        is_digit(c, 16),
    ensures
        digit_value(c) < 16,
{
}

/// Up to four hexadecimal digits stand for a number of sixteen bits.
pub proof fn lemma_four_digits(digits: Seq<char>)
    requires
        digits.len() <= 4,
        forall|i: int| 0 <= i < digits.len() ==> is_digit(#[trigger] digits[i], 16),
    ensures
        digits.len() == 0 ==> digits_value(digits, 16) == 0,
        digits.len() <= 1 ==> digits_value(digits, 16) < 0x10,
        digits.len() <= 2 ==> digits_value(digits, 16) < 0x100,
        digits.len() <= 3 ==> digits_value(digits, 16) < 0x1000,
        digits_value(digits, 16) < 0x10000,
    decreases digits.len(),
{
    if digits.len() > 0 {
        let front = digits.drop_last();
        assert forall|i: int| 0 <= i < front.len() implies is_digit(#[trigger] front[i], 16) by {
            assert(front[i] == digits[i]);
        }
        lemma_four_digits(front);
        lemma_digit_value_bound(digits[digits.len() - 1]);
    }
}

} // verus!
