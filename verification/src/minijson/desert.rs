//! The character-level JSON deserializer and the trait that wires it to
//! Rust types. The deserializer holds the not-yet-consumed input; every
//! parser consumes a prefix of it.

use std::collections::HashMap;
use std::hash::Hash;
use vstd::prelude::*;
use vstd::string::StrSliceExecFns;
use crate::minijson::error::Error;

verus! {

/// `p` is a prefix of `s`.
pub open spec fn starts_with(s: Seq<char>, p: Seq<char>) -> bool {
    p.len() <= s.len() && s.subrange(0, p.len() as int) == p
}

/// A decimal digit.
pub open spec fn is_digit(c: char) -> bool {
    '0' as u32 <= c as u32 && c as u32 <= '9' as u32
}

/// The numeric value of a decimal digit.
pub open spec fn digit_val(c: char) -> int {
    c as u32 - '0' as u32
}

/// The number denoted by a sequence of decimal digits, most significant
/// first.
pub open spec fn digits_value(s: Seq<char>) -> int
    decreases s.len(),
{
    if s.len() == 0 {
        0
    } else {
        digits_value(s.drop_last()) * 10 + digit_val(s.last())
    }
}

/// At `j` stands the closing quote of the string that opens `s`: `s`
/// begins with a quote, `s[j]` is the next one.
pub open spec fn string_token(s: Seq<char>, j: int) -> bool {
    &&& 1 <= j < s.len()
    &&& s[0] == '"'
    &&& s[j] == '"'
    &&& forall|k: int| 1 <= k < j ==> s[k] != '"'
}

/// The first `d` characters of `s` are digits and no further one is.
pub open spec fn digit_run(s: Seq<char>, d: int) -> bool {
    &&& 0 <= d <= s.len()
    &&& forall|k: int| 0 <= k < d ==> is_digit(#[trigger] s[k])
    &&& d == s.len() || !is_digit(s[d])
}

/// Whether `p` stands at the very start of `s`.
fn has_prefix(s: &str, p: &str) -> (b: bool)
    ensures
        b == starts_with(s@, p@),
{
    let s_len = s.unicode_len();
    let p_len = p.unicode_len();
    if p_len > s_len {
        return false;
    }
    let mut j: usize = 0;
    while j < p_len
        invariant
            s_len == s@.len(),
            p_len == p@.len(),
            p_len <= s_len,
            j <= p_len,
            forall|k: int| 0 <= k < j ==> s@[k] == p@[k],
        decreases p_len - j,
    {
        if s.get_char(j) != p.get_char(j) {
            proof {
                assert(s@.subrange(0, p@.len() as int)[j as int] == s@[j as int]);
            }
            return false;
        }
        j = j + 1;
    }
    proof {
        assert(s@.subrange(0, p@.len() as int) =~= p@);
    }
    true
}

/// Anything a value can be decoded from: holds the remaining input.
pub struct Deserializer<'de> {
    input: &'de str,
}

impl<'de> View for Deserializer<'de> {
    type V = Seq<char>;

    closed spec fn view(&self) -> Seq<char> {
        self.input@
    }
}

impl<'de> Deserializer<'de> {
    /// Starts reading from the beginning of `input`.
    pub fn new(input: &'de str) -> (r: Deserializer<'de>)
        ensures
            r@ == input@,
    {
        Self { input }
    }

    /// The next character, without consuming it; `Eof` when none is left.
    pub fn peek_char(&self) -> (r: Result<char, Error>)
        ensures
            self@.len() > 0 ==> r == Ok::<char, Error>(self@[0]),
            self@.len() == 0 ==> r == Err::<char, Error>(Error::Eof),
    {
        if self.input.unicode_len() > 0 {
            Ok(self.input.get_char(0))
        } else {
            Err(Error::Eof)
        }
    }

    /// The next character, consuming it; `Eof` when none is left.
    pub fn next_char(&mut self) -> (r: Result<char, Error>)
        ensures
            old(self)@.len() > 0 ==> r == Ok::<char, Error>(old(self)@[0])
                && final(self)@ == old(self)@.drop_first(),
            old(self)@.len() == 0 ==> r == Err::<char, Error>(Error::Eof)
                && final(self)@ == old(self)@,
            final(self)@.len() <= old(self)@.len(),
            final(self)@ == old(self)@.skip(old(self)@.len() - final(self)@.len()),
            r is Ok ==> final(self)@.len() < old(self)@.len(),
    {
        let len = self.input.unicode_len();
        proof {
            assert(self@.skip(0) =~= self@);
            if self@.len() > 0 {
                assert(self@.drop_first() =~= self@.skip(1));
            }
        }
        if len > 0 {
            let c = self.input.get_char(0);
            self.input = self.input.substring_char(1, len);
            Ok(c)
        } else {
            Err(Error::Eof)
        }
    }

    /// Decodes the literal `true` or `false`; on anything else reports
    /// `ExpectedBoolean` and consumes nothing.
    pub fn parse_bool(&mut self) -> (r: Result<bool, Error>)
        ensures
            starts_with(old(self)@, "true"@) ==> r == Ok::<bool, Error>(true)
                && final(self)@ == old(self)@.skip(4),
            starts_with(old(self)@, "false"@) ==> r == Ok::<bool, Error>(false)
                && final(self)@ == old(self)@.skip(5),
            !starts_with(old(self)@, "true"@) && !starts_with(old(self)@, "false"@) ==> r
                == Err::<bool, Error>(Error::ExpectedBoolean) && final(self)@ == old(self)@,
            final(self)@.len() <= old(self)@.len(),
            final(self)@ == old(self)@.skip(old(self)@.len() - final(self)@.len()),
            r is Ok ==> final(self)@.len() < old(self)@.len(),
    {
        proof {
            assert(self@.skip(0) =~= self@);
        }
        let len = self.input.unicode_len();
        proof {
            reveal_strlit("true");
            reveal_strlit("false");
        }
        if has_prefix(self.input, "true") {
            proof {
                if starts_with(self@, "false"@) {
                    assert(self@.subrange(0, 4)[0] == self@[0]);
                    assert(self@.subrange(0, 5)[0] == self@[0]);
                    assert(false);
                }
            }
            self.input = self.input.substring_char(4, len);
            return Ok(true);
        }
        if has_prefix(self.input, "false") {
            self.input = self.input.substring_char(5, len);
            return Ok(false);
        }
        Err(Error::ExpectedBoolean)
    }

    /// Decodes a run of decimal digits as an unsigned integer, wrapping
    /// around on overflow exactly as repeated `acc * 10 + digit` does.
    /// Reports `Eof` on empty input and `ExpectedInteger` (consuming the
    /// offending character) when the input does not begin with a digit.
    pub fn parse_unsigned(&mut self) -> (r: Result<u64, Error>)
        ensures
            old(self)@.len() == 0 ==> r == Err::<u64, Error>(Error::Eof)
                && final(self)@ == old(self)@,
            old(self)@.len() > 0 && !is_digit(old(self)@[0]) ==> r == Err::<u64, Error>(
                Error::ExpectedInteger,
            ) && final(self)@ == old(self)@.drop_first(),
            forall|d: int|
                #![trigger digit_run(old(self)@, d)]
                digit_run(old(self)@, d) && d >= 1 ==> r == Ok::<u64, Error>(
                    (digits_value(old(self)@.subrange(0, d)) % 0x10000000000000000) as u64,
                ) && final(self)@ == old(self)@.skip(d),
            final(self)@.len() <= old(self)@.len(),
            final(self)@ == old(self)@.skip(old(self)@.len() - final(self)@.len()),
            r is Ok ==> final(self)@.len() < old(self)@.len(),
    {
        proof {
            assert(self@.skip(0) =~= self@);
            if self@.len() > 0 {
                assert(self@.drop_first() =~= self@.skip(1));
            }
        }
        let first = match self.next_char() {
            Ok(c) => c,
            Err(e) => {
                return Err(e);
            },
        };
        let first_code = first as u32;
        if !('0' as u32 <= first_code && first_code <= '9' as u32) {
            return Err(Error::ExpectedInteger);
        }
        let mut int_acc: u64 = (first_code - '0' as u32) as u64;
        let ghost consumed: int = 1;
        proof {
            let s1 = old(self)@.subrange(0, 1);
            assert(s1.drop_last() =~= Seq::<char>::empty());
            assert(s1.last() == old(self)@[0]);
            assert(digits_value(Seq::<char>::empty()) == 0);
            assert(digits_value(s1) == digit_val(old(self)@[0]));
            vstd::arithmetic::div_mod::lemma_small_mod(
                digits_value(s1) as nat,
                0x10000000000000000 as nat,
            );
        }
        loop
            invariant
                1 <= consumed <= old(self)@.len(),
                self@ == old(self)@.skip(consumed),
                forall|k: int| 0 <= k < consumed ==> is_digit(#[trigger] old(self)@[k]),
                int_acc == digits_value(old(self)@.subrange(0, consumed)) % 0x10000000000000000,
            decreases old(self)@.len() - consumed,
        {
            let next = match self.peek_char() {
                Ok(c) => c,
                Err(_) => {
                    proof {
                        lemma_digit_run_unique(old(self)@, consumed);
                    }
                    return Ok(int_acc);
                },
            };
            let next_code = next as u32;
            if !('0' as u32 <= next_code && next_code <= '9' as u32) {
                proof {
                    lemma_digit_run_unique(old(self)@, consumed);
                }
                return Ok(int_acc);
            }
            let got = match self.next_char() {
                Ok(c) => c,
                Err(_) => {
                    proof {
                        assert(false);
                    }
                    return Err(Error::Eof);
                },
            };
            let digit: u64 = (got as u32 - '0' as u32) as u64;
            proof {
                assert(got == old(self)@[consumed]);
                assert(old(self)@.subrange(0, consumed + 1) =~= old(self)@.subrange(
                    0,
                    consumed,
                ).push(got));
            }
            let ghost acc_before = int_acc;
            int_acc = int_acc.wrapping_mul(10).wrapping_add(digit);
            proof {
                lemma_accumulate_digit(
                    old(self)@.subrange(0, consumed),
                    old(self)@.subrange(0, consumed + 1),
                    acc_before,
                    int_acc,
                    got,
                );
            }
            proof {
                consumed = consumed + 1;
                assert(self@ =~= old(self)@.skip(consumed));
            }
        }
    }

    /// Decodes a string: an opening quote, the characters up to the next
    /// quote, and that closing quote. Without an opening quote it reports
    /// `ExpectedString`; with no closing quote, `Eof`. Escape sequences
    /// are not interpreted.
    pub fn parse_string(&mut self) -> (r: Result<&'de str, Error>)
        ensures
            old(self)@.len() == 0 ==> r == Err::<&'de str, Error>(Error::Eof)
                && final(self)@ == old(self)@,
            old(self)@.len() > 0 && old(self)@[0] != '"' ==> r == Err::<&'de str, Error>(
                Error::ExpectedString,
            ) && final(self)@ == old(self)@.drop_first(),
            old(self)@.len() > 0 && old(self)@[0] == '"' && (forall|k: int|
                1 <= k < old(self)@.len() ==> old(self)@[k] != '"') ==> r == Err::<
                &'de str,
                Error,
            >(Error::Eof) && final(self)@ == old(self)@.drop_first(),
            forall|j: int|
                #![trigger string_token(old(self)@, j)]
                string_token(old(self)@, j) ==> r is Ok && r.unwrap()@ == old(self)@.subrange(
                    1,
                    j,
                ) && final(self)@ == old(self)@.skip(j + 1),
            final(self)@.len() <= old(self)@.len(),
            final(self)@ == old(self)@.skip(old(self)@.len() - final(self)@.len()),
            r is Ok ==> final(self)@.len() < old(self)@.len(),
    {
        proof {
            assert(self@.skip(0) =~= self@);
            if self@.len() > 0 {
                assert(self@.drop_first() =~= self@.skip(1));
            }
        }
        let first = match self.next_char() {
            Ok(c) => c,
            Err(e) => {
                return Err(e);
            },
        };
        if first != '"' {
            return Err(Error::ExpectedString);
        }
        let rest_len = self.input.unicode_len();
        let mut i: usize = 0;
        while i < rest_len
            invariant
                old(self)@.len() > 0,
                old(self)@[0] == '"',
                self@ == old(self)@.drop_first(),
                rest_len == self@.len(),
                i <= rest_len,
                forall|k: int| 0 <= k < i ==> self@[k] != '"',
            decreases rest_len - i,
        {
            if self.input.get_char(i) == '"' {
                let s = self.input.substring_char(0, i);
                self.input = self.input.substring_char(i + 1, rest_len);
                proof {
                    let pre = old(self)@;
                    assert(pre[i + 1] == '"');
                    assert(pre.drop_first().subrange(0, i as int) =~= pre.subrange(
                        1,
                        i + 1,
                    ));
                    assert(pre.drop_first().subrange(i + 1, pre.len() - 1) =~= pre.skip(i + 2));
                    assert forall|j: int|
                        #![trigger string_token(pre, j)]
                        string_token(pre, j) implies j == i + 1 by {
                        assert(pre[i + 1] == '"');
                        if j < i + 1 {
                            assert(pre.drop_first()[j - 1] != '"');
                        }
                    }
                }
                return Ok(s);
            }
            i = i + 1;
        }
        proof {
            assert forall|k: int|
                1 <= k < old(self)@.len() implies old(self)@[k] != '"' by {
                assert(old(self)@.drop_first()[k - 1] != '"');
            }
        }
        Err(Error::Eof)
    }
}

/// A type that can be decoded by a [`Deserializer`]. Every decode only
/// consumes from the front — what is left is a suffix of what was there —
/// and a successful one consumes at least one character.
pub trait Serializable<'se>: Sized {
    fn deserialize(deserializer: &mut Deserializer<'se>) -> (r: Result<Self, Error>)
        ensures
            final(deserializer)@.len() <= old(deserializer)@.len(),
            final(deserializer)@ == old(deserializer)@.skip(
                old(deserializer)@.len() - final(deserializer)@.len(),
            ),
            r is Ok ==> final(deserializer)@.len() < old(deserializer)@.len(),
    ;
}

/// Decodes a `T` from the front of `input`.
pub fn from_str<'se, T: Serializable<'se>>(input: &'se str) -> (r: Result<T, Error>)
    ensures
        r is Ok ==> input@.len() > 0,
{
    let mut deserializer = Deserializer::new(input);
    T::deserialize(&mut deserializer)
}

impl<'se> Serializable<'se> for String {
    /// The decoded string is an owned copy of the quoted characters.
    fn deserialize(deserializer: &mut Deserializer<'se>) -> (r: Result<Self, Error>)
        ensures
            forall|j: int|
                #![trigger string_token(old(deserializer)@, j)]
                string_token(old(deserializer)@, j) ==> r is Ok && r.unwrap()@ == old(
                    deserializer,
                )@.subrange(1, j),
    {
        match deserializer.parse_string() {
            Ok(s) => Ok(s.to_owned()),
            Err(e) => Err(e),
        }
    }
}

impl<'se> Serializable<'se> for &'se str {
    /// The decoded slice borrows the quoted characters from the input.
    fn deserialize(deserializer: &mut Deserializer<'se>) -> (r: Result<Self, Error>)
        ensures
            forall|j: int|
                #![trigger string_token(old(deserializer)@, j)]
                string_token(old(deserializer)@, j) ==> r is Ok && r.unwrap()@ == old(
                    deserializer,
                )@.subrange(1, j),
    {
        deserializer.parse_string()
    }
}

impl<'se> Serializable<'se> for bool {
    /// Exactly the two literals decode, to their own values.
    fn deserialize(deserializer: &mut Deserializer<'se>) -> (r: Result<Self, Error>)
        ensures
            starts_with(old(deserializer)@, "true"@) ==> r == Ok::<bool, Error>(true),
            starts_with(old(deserializer)@, "false"@) ==> r == Ok::<bool, Error>(false),
            !starts_with(old(deserializer)@, "true"@) && !starts_with(old(deserializer)@, "false"@)
                ==> r == Err::<bool, Error>(Error::ExpectedBoolean),
    {
        deserializer.parse_bool()
    }
}

impl<'se> Serializable<'se> for u32 {
    /// The decoded value is the digit run's value, wrapped to 32 bits.
    fn deserialize(deserializer: &mut Deserializer<'se>) -> (r: Result<Self, Error>)
        ensures
            forall|d: int|
                #![trigger digit_run(old(deserializer)@, d)]
                digit_run(old(deserializer)@, d) && d >= 1 ==> r == Ok::<u32, Error>(
                    (digits_value(old(deserializer)@.subrange(0, d)) % 0x100000000) as u32,
                ),
    {
        let parsed = deserializer.parse_unsigned();
        let r = match parsed {
            Ok(v) => Ok(#[verifier::truncate] (v as u32)),
            Err(e) => Err(e),
        };
        proof {
            assert forall|d: int|
                digit_run(old(deserializer)@, d) && d >= 1 implies r == Ok::<u32, Error>(
                (digits_value(old(deserializer)@.subrange(0, d)) % 0x100000000) as u32,
            ) by {
                let m32: int = 0x100000000;
                let m64: int = 0x10000000000000000;
                let v = digits_value(old(deserializer)@.subrange(0, d));
                assert(parsed == Ok::<u64, Error>((v % m64) as u64));
                let v64 = parsed.unwrap();
                assert(v64 == v % m64);
                assert(m32 * m32 == m64);
                vstd::arithmetic::div_mod::lemma_mod_mod(v, m32, m32);
                assert((v % m64) % m32 == v % m32);
                assert(v64 as u32 == (v64 % 0x100000000) as u32) by (bit_vector);
            }
        }
        r
    }
}

impl<'se> Serializable<'se> for u64 {
    /// The decoded value is the digit run's value, wrapped to 64 bits.
    fn deserialize(deserializer: &mut Deserializer<'se>) -> (r: Result<Self, Error>)
        ensures
            forall|d: int|
                #![trigger digit_run(old(deserializer)@, d)]
                digit_run(old(deserializer)@, d) && d >= 1 ==> r == Ok::<u64, Error>(
                    (digits_value(old(deserializer)@.subrange(0, d)) % 0x10000000000000000) as u64,
                ),
    {
        deserializer.parse_unsigned()
    }
}

impl<'se, K, V> Serializable<'se> for HashMap<K, V> where
    K: Serializable<'se> + Eq + Hash,
    V: Serializable<'se>,
 {
    fn deserialize(deserializer: &mut Deserializer<'se>) -> (r: Result<Self, Error>) {
        broadcast use vstd::seq_lib::lemma_seq_skip_of_skip;

        let mut map = HashMap::new();
        let open = match deserializer.next_char() {
            Ok(c) => c,
            Err(e) => {
                return Err(e);
            },
        };
        if open != '{' {
            return Err(Error::ExpectedMap);
        }
        let mut first = true;
        loop
            invariant
                1 <= old(deserializer)@.len() - deserializer@.len(),
                deserializer@ == old(deserializer)@.skip(
                    old(deserializer)@.len() - deserializer@.len(),
                ),
            decreases deserializer@.len(),
        {
            let peeked = match deserializer.peek_char() {
                Ok(c) => c,
                Err(e) => {
                    return Err(e);
                },
            };
            if peeked == '}' {
                let _ = deserializer.next_char();
                return Ok(map);
            }
            if !first {
                let comma = match deserializer.next_char() {
                    Ok(c) => c,
                    Err(e) => {
                        return Err(e);
                    },
                };
                if comma != ',' {
                    return Err(Error::ExpectedMapComma);
                }
            } else {
                first = false;
            }
            let key = match K::deserialize(deserializer) {
                Ok(k) => k,
                Err(e) => {
                    return Err(e);
                },
            };
            let colon = match deserializer.next_char() {
                Ok(c) => c,
                Err(e) => {
                    return Err(e);
                },
            };
            if colon != ':' {
                return Err(Error::ExpectedMapColon);
            }
            let value = match V::deserialize(deserializer) {
                Ok(v) => v,
                Err(e) => {
                    return Err(e);
                },
            };
            map.insert(key, value);
        }
    }
}

impl<'se, V> Serializable<'se> for Vec<V> where V: Serializable<'se> {
    fn deserialize(deserializer: &mut Deserializer<'se>) -> (r: Result<Self, Error>) {
        broadcast use vstd::seq_lib::lemma_seq_skip_of_skip;

        let mut vec = Vec::new();
        let open = match deserializer.next_char() {
            Ok(c) => c,
            Err(e) => {
                return Err(e);
            },
        };
        if open != '[' {
            return Err(Error::ExpectedArray);
        }
        let mut first = true;
        loop
            invariant
                1 <= old(deserializer)@.len() - deserializer@.len(),
                deserializer@ == old(deserializer)@.skip(
                    old(deserializer)@.len() - deserializer@.len(),
                ),
            decreases deserializer@.len(),
        {
            let peeked = match deserializer.peek_char() {
                Ok(c) => c,
                Err(e) => {
                    return Err(e);
                },
            };
            if peeked == ']' {
                let _ = deserializer.next_char();
                return Ok(vec);
            }
            if !first {
                let comma = match deserializer.next_char() {
                    Ok(c) => c,
                    Err(e) => {
                        return Err(e);
                    },
                };
                if comma != ',' {
                    return Err(Error::ExpectedArrayComma);
                }
            } else {
                first = false;
            }
            let element = match V::deserialize(deserializer) {
                Ok(v) => v,
                Err(e) => {
                    return Err(e);
                },
            };
            vec.push(element);
        }
    }
}

/// The length of a digit run is determined by the sequence.
proof fn lemma_digit_run_unique(s: Seq<char>, d: int)
    requires
        0 <= d <= s.len(),
        forall|k: int| 0 <= k < d ==> is_digit(#[trigger] s[k]),
        d == s.len() || !is_digit(s[d]),
    ensures
        forall|e: int| digit_run(s, e) ==> e == d,
{
}

/// One accumulation step keeps the wrapped value in line with the digits
/// consumed so far.
proof fn lemma_accumulate_digit(
    run: Seq<char>,
    extended: Seq<char>,
    acc: u64,
    acc2: u64,
    c: char,
)
    requires
        extended == run.push(c),
        is_digit(c),
        acc == digits_value(run) % 0x10000000000000000,
        acc2 == vstd::wrapping::u64_specs::wrapping_add(
            vstd::wrapping::u64_specs::wrapping_mul(acc, 10),
            (digit_val(c)) as u64,
    ),
    ensures
        acc2 == digits_value(extended) % 0x10000000000000000,
{
    let m: int = 0x10000000000000000;
    let v = digits_value(run);
    assert(extended.drop_last() =~= run);
    assert(extended.last() == c);
    assert(digits_value(extended) == v * 10 + digit_val(c));
    let mul = vstd::wrapping::u64_specs::wrapping_mul(acc, 10) as int;
    assert(mul == (acc * 10) % m);
    vstd::arithmetic::div_mod::lemma_mul_mod_noop_left(v, 10, m);
    assert(mul == (v * 10) % m);
    let dv = digit_val(c);
    assert(0 <= dv < 10);
    let sum = mul + dv;
    assert(acc2 == sum % m) by {
        if sum <= u64::MAX {
            vstd::arithmetic::div_mod::lemma_small_mod(sum as nat, m as nat);
        } else {
            vstd::arithmetic::div_mod::lemma_mod_multiples_vanish(-1, sum, m);
            vstd::arithmetic::div_mod::lemma_small_mod((sum - m) as nat, m as nat);
        }
    }
    vstd::arithmetic::div_mod::lemma_add_mod_noop(v * 10, dv, m);
    vstd::arithmetic::div_mod::lemma_small_mod(dv as nat, m as nat);
    assert(sum % m == (v * 10 + dv) % m);
}

} // verus!
