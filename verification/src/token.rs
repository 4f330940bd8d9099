//! The token that authenticates commands on the local admin socket.
//!
//! Every local process can reach the socket. What scopes its commands to one
//! user is a random token in a file that only this user can read: a command is
//! obeyed only if it comes with the token.

use rand::Rng;
use vstd::prelude::*;
use vstd::utf8::encode_utf8;
use crate::text;

verus! {

/// How many characters a token has.
pub const TOKEN_LEN: usize = 32;

/// How many characters there are to choose from.
pub const CHARSET_LEN: usize = 62;

/// How many bytes of two tokens are compared.
pub const WINDOW: usize = 64;

/// The characters that a token is made of.
pub open spec fn charset() -> Seq<char> {
    "abcdefghijklmnopqrstuvwxyzABCDEFGHIJKLMNOPQRSTUVWXYZ0123456789"@
}

/// Whether the text is a token as the daemon makes them.
pub open spec fn is_admin_token(token: Seq<char>) -> bool {
    &&& token.len() == TOKEN_LEN
    &&& forall|i: int| 0 <= i < token.len() ==> charset().contains(#[trigger] token[i])
}

/// The text that a sequence of choices from the character set spells.
pub open spec fn spelled(choices: Seq<usize>) -> Seq<char> {
    choices.map_values(|i: usize| charset()[i as int])
}

/// There are as many characters in the set as said, and all of them are ASCII
/// letters and digits.
pub proof fn lemma_charset()
    ensures
        charset().len() == CHARSET_LEN,
        forall|i: int|
            0 <= i < charset().len() ==> {
                let u = #[trigger] charset()[i] as int;
                0x30 <= u <= 0x39 || 0x41 <= u <= 0x5a || 0x61 <= u <= 0x7a
            },
{
    reveal_strlit("abcdefghijklmnopqrstuvwxyzABCDEFGHIJKLMNOPQRSTUVWXYZ0123456789");
}

/// The character of the set that a choice stands for.
fn charset_char(choice: usize) -> (c: char)
    requires
        choice < CHARSET_LEN,
    ensures
        c == charset()[choice as int],
{
    proof {
        reveal_strlit("abcdefghijklmnopqrstuvwxyzABCDEFGHIJKLMNOPQRSTUVWXYZ0123456789");
    }
    let c: u8 = if choice < 26 {
        0x61 + choice as u8
    } else if choice < 52 {
        0x41 + (choice - 26) as u8
    } else {
        0x30 + (choice - 52) as u8
    };
    c as char
}

/// `rand::Rng::gen_range`, called on the handle that `rand::thread_rng` returns,
/// gives a number from the range `0..bound`, which must not be empty. Which one
/// is left to chance. The generator behind the handle is seeded by the operating
/// system; where that cannot be had, there is no token, and the call panics.
#[verifier::external_body]
fn random_index(bound: usize) -> (index: usize)
    requires
        bound > 0,
    ensures
        index < bound,
{
    rand::thread_rng().gen_range(0..bound)
}

/// Whether the choices were drawn as those of a token are: as many as it has
/// characters, each at random from the whole of the character set.
pub closed spec fn drawn(choices: Seq<usize>) -> bool {
    &&& choices.len() == TOKEN_LEN
    &&& forall|i: int|
        0 <= i < choices.len() ==> call_ensures(
            random_index,
            (CHARSET_LEN,),
            #[trigger] choices[i],
        )
}

/// Spells the token that the choices stand for.
pub fn token_from_choices(choices: &Vec<usize>) -> (token: String)
    requires
        forall|i: int| 0 <= i < choices@.len() ==> #[trigger] choices@[i] < CHARSET_LEN,
    ensures
        token@ == spelled(choices@),
{
    let mut token = String::new();
    let n: usize = choices.len();
    for k in 0..n
        invariant
            n == choices@.len(),
            forall|i: int| 0 <= i < choices@.len() ==> #[trigger] choices@[i] < CHARSET_LEN,
            token@ == spelled(choices@).take(k as int),
    {
        token.push(charset_char(choices[k]));
        assert(token@ =~= spelled(choices@).take(k + 1));
    }
    assert(token@ =~= spelled(choices@));
    token
}

/// Makes a fresh token: as many characters as it has, each chosen at random.
pub fn generate_admin_token() -> (token: String)
    ensures
        is_admin_token(token@),
        exists|choices: Seq<usize>| drawn(choices) && token@ == #[trigger] spelled(choices),
{
    let mut choices: Vec<usize> = Vec::new();
    for k in 0..TOKEN_LEN
        invariant
            choices@.len() == k,
            forall|i: int|
                0 <= i < choices@.len() ==> call_ensures(
                    random_index,
                    (CHARSET_LEN,),
                    #[trigger] choices@[i],
                ),
            forall|i: int| 0 <= i < choices@.len() ==> #[trigger] choices@[i] < CHARSET_LEN,
    {
        choices.push(random_index(CHARSET_LEN));
    }
    let token = token_from_choices(&choices);
    assert(drawn(choices@));
    proof {
        lemma_charset();
        assert forall|i: int| 0 <= i < token@.len() implies charset().contains(
            #[trigger] token@[i],
        ) by {
            assert(token@[i] == charset()[choices@[i] as int]);
        }
    }
    token
}

/// The token in the contents of the token file; `None` where there is no file to
/// read.
pub fn read_admin_token(contents: Option<&str>) -> (token: Option<String>)
    ensures
        match contents {
            Some(s) => token matches Some(t) && t@ == text::trimmed(s@),
            None => token is None,
        },
{
    match contents {
        Some(s) => Some(s.trim().to_string()),
        None => None,
    }
}

/// Whether two byte strings have the same length and do not differ within the
/// window that is compared.
pub open spec fn bytes_match(a: Seq<u8>, b: Seq<u8>) -> bool {
    &&& a.len() == b.len()
    &&& forall|i: int| 0 <= i < a.len() && i < WINDOW ==> #[trigger] a[i] == b[i]
}

/// Compares two tokens without leaking through the time it takes how far they
/// agree: it always walks the whole window, whatever the lengths are, and never
/// leaves early.
pub fn tokens_match(a: &str, b: &str) -> (matched: bool)
    ensures
        matched == bytes_match(encode_utf8(a@), encode_utf8(b@)),
{
    let a = a.as_bytes();
    let b = b.as_bytes();
    let mut diff: u8 = (a.len() != b.len()) as u8;
    for i in 0..WINDOW
        invariant
            diff == 0 <==> {
                &&& a@.len() == b@.len()
                &&& forall|j: int| 0 <= j < a@.len() && j < i ==> #[trigger] a@[j] == b@[j]
            },
    {
        let x: u8 = match a.get(i) {
            Some(byte) => *byte,
            None => 0,
        };
        let y: u8 = match b.get(i) {
            Some(byte) => *byte,
            None => 0,
        };
        let before: u8 = diff;
        diff = diff | (x ^ y);
        assert(diff == 0 <==> before == 0 && x == y) by (bit_vector)
            requires
                diff == before | (x ^ y),
        ;
    }
    diff == 0
}

/// Tokens that fit into the window match exactly if they are equal.
pub proof fn law_tokens_match_is_equality(a: Seq<char>, b: Seq<char>)
    requires
        encode_utf8(a).len() <= WINDOW || encode_utf8(b).len() <= WINDOW,
    ensures
        bytes_match(encode_utf8(a), encode_utf8(b)) <==> a == b,
{
    let x = encode_utf8(a);
    let y = encode_utf8(b);
    text::lemma_same_bytes_same_text(a, b);
    if bytes_match(x, y) {
        assert(x =~= y);
    }
}

/// A token made by the daemon is matched by itself and by nothing else.
pub proof fn law_only_the_token_matches(token: Seq<char>, candidate: Seq<char>)
    requires
        is_admin_token(token),
    ensures
        bytes_match(encode_utf8(candidate), encode_utf8(token)) <==> candidate == token,
{
    lemma_token_characters(token);
    vstd::utf8::is_ascii_chars_encode_utf8(token);
    law_tokens_match_is_equality(candidate, token);
}

/// The characters of a token are ASCII, and none of them is white space.
proof fn lemma_token_characters(token: Seq<char>)
    requires
        is_admin_token(token),
    ensures
        vstd::utf8::is_ascii_chars(token),
        forall|i: int| 0 <= i < token.len() ==> !text::is_white_space(#[trigger] token[i]),
{
    lemma_charset();
    assert forall|i: int| 0 <= i < token.len() implies !text::is_white_space(#[trigger] token[i])
        && token[i] <= '\u{7f}' by {
        assert(charset().contains(token[i]));
        let k = choose|k: int| 0 <= k < charset().len() && charset()[k] == token[i];
        assert(charset()[k] == token[i]);
    }
}

/// The token that is read from a file to which the daemon wrote its token is that
/// token.
pub proof fn law_token_read_back(token: Seq<char>)
    requires
        is_admin_token(token),
    ensures
        text::trimmed(token) == token,
{
    lemma_token_characters(token);
    text::lemma_trimmed_unchanged(token);
}

/// The character set consists of the small and the capital ASCII letters and the
/// digits, and each of them stands in it once.
pub proof fn law_charset_is_alphanumeric(c: char)
    ensures
        charset().len() == 62,
        charset().contains(c) <==> ('a' <= c <= 'z' || 'A' <= c <= 'Z' || '0' <= c <= '9'),
        forall|i: int, j: int|
            0 <= i < j < charset().len() ==> #[trigger] charset()[i] != #[trigger] charset()[j],
{
    reveal_strlit("abcdefghijklmnopqrstuvwxyzABCDEFGHIJKLMNOPQRSTUVWXYZ0123456789");
    lemma_charset_order();
    let u = c as int;
    if 'a' <= c <= 'z' {
        assert(charset()[u - 0x61] == c);
    } else if 'A' <= c <= 'Z' {
        assert(charset()[u - 0x41 + 26] == c);
    } else if '0' <= c <= '9' {
        assert(charset()[u - 0x30 + 52] == c);
    }
    if charset().contains(c) {
        let k = choose|k: int| 0 <= k < charset().len() && charset()[k] == c;
        assert(charset()[k] == c);
    }
}

/// The order of the character set: small letters, capital letters, digits.
proof fn lemma_charset_order()
    ensures
        charset().len() == 62,
        forall|i: int| 0 <= i < 26 ==> #[trigger] charset()[i] as int == 0x61 + i,
        forall|i: int| 26 <= i < 52 ==> #[trigger] charset()[i] as int == 0x41 + i - 26,
        forall|i: int| 52 <= i < 62 ==> #[trigger] charset()[i] as int == 0x30 + i - 52,
{
    reveal_strlit("abcdefghijklmnopqrstuvwxyzABCDEFGHIJKLMNOPQRSTUVWXYZ0123456789");
}

/// A choice below 26 is spelled as a small letter, one below 52 as a capital letter,
/// and one below 62 as a digit, each in its order; so different choices are spelled
/// differently.
pub proof fn law_choices_are_spelled_one_by_one(choices: Seq<usize>, i: int)
    requires
        0 <= i < choices.len(),
        choices[i] < 62,
    ensures
        spelled(choices).len() == choices.len(),
        spelled(choices)[i] as int == (if choices[i] < 26 {
            0x61 + choices[i]
        } else if choices[i] < 52 {
            0x41 + choices[i] - 26
        } else {
            0x30 + choices[i] - 52
        }),
{
    lemma_charset_order();
}

/// A token has 32 characters, each a letter or a digit, and any such text is one.
pub proof fn law_token_is_alphanumeric(token: Seq<char>)
    ensures
        is_admin_token(token) <==> token.len() == 32 && forall|i: int|
            0 <= i < token.len() ==> {
                let c = #[trigger] token[i];
                'a' <= c <= 'z' || 'A' <= c <= 'Z' || '0' <= c <= '9'
            },
{
    assert forall|i: int| 0 <= i < token.len() implies charset().contains(#[trigger] token[i])
        == ({
        let c = token[i];
        'a' <= c <= 'z' || 'A' <= c <= 'Z' || '0' <= c <= '9'
    }) by {
        law_charset_is_alphanumeric(token[i]);
    }
}

/// Choices that were drawn are 32 results of `random_index` on the whole set.
proof fn law_drawn_from_the_whole_set(choices: Seq<usize>, i: int)
    requires
        drawn(choices),
        0 <= i < choices.len(),
    ensures
        choices.len() == 32,
        call_ensures(random_index, (62usize,), choices[i]),
        choices[i] < 62,
{
}

/// Byte strings match exactly if they have the same length and the same first 64
/// bytes, or all of them where there are fewer.
pub proof fn law_first_bytes_decide(a: Seq<u8>, b: Seq<u8>)
    ensures
        a.len() <= 64 || b.len() <= 64 ==> (bytes_match(a, b) <==> a == b),
        a.len() > 64 && b.len() > 64 ==> (bytes_match(a, b) <==> a.len() == b.len() && a.take(64)
            == b.take(64)),
        bytes_match(a, b) == bytes_match(b, a),
{
    if a.len() == b.len() {
        if a.len() > 64 {
            if bytes_match(a, b) {
                assert(a.take(64) =~= b.take(64));
            }
            if a.take(64) == b.take(64) {
                assert forall|i: int| 0 <= i < a.len() && i < WINDOW implies #[trigger] a[i]
                    == b[i] by {
                    assert(a.take(64)[i] == b.take(64)[i]);
                }
            }
        } else if bytes_match(a, b) {
            assert(a =~= b);
        }
        if bytes_match(a, b) {
            assert forall|i: int| 0 <= i < b.len() && i < WINDOW implies #[trigger] b[i] == a[i] by {
                assert(a[i] == b[i]);
            }
        }
        if bytes_match(b, a) {
            assert forall|i: int| 0 <= i < a.len() && i < WINDOW implies #[trigger] a[i] == b[i] by {
                assert(b[i] == a[i]);
            }
        }
    }
}

} // verus!
