//! Session identifiers: `pty_` followed by 16 lower-case hexadecimal digits.
use vstd::prelude::*;

use crate::text::{hex_digits, push_hex_digits};

verus! {

/// The odd multiplier that spreads the salt over all 64 bits.
pub const ID_MULTIPLIER: u64 = 0x9E37_79B9_7F4A_7C15;

/// The word an identifier is made of: the time xored with the spread salt.
pub open spec fn id_word(nanos: u64, salt: u64) -> u64 {
    nanos ^ vstd::wrapping::u64_specs::wrapping_mul(salt, ID_MULTIPLIER)
}

/// The identifier text for a word.
pub open spec fn id_text(word: u64) -> Seq<char> {
    seq!['p', 't', 'y', '_'] + hex_digits(word as nat, 16)
}

/// The current time, in nanoseconds since the Unix epoch, truncated to 64
/// bits (`SystemTime::now().duration_since(UNIX_EPOCH)`), or `None` when the
/// system clock reads before 1970. Nothing is stated of the value.
#[verifier::external_body]
fn clock_nanos() -> Option<u64> {
    match std::time::SystemTime::now().duration_since(std::time::UNIX_EPOCH) {
        Ok(elapsed) => Some(elapsed.as_nanos() as u64),
        Err(_) => None,
    }
}

/// The time an id is made with: the clock's nanoseconds, or 0 when the clock
/// reads before the epoch.
fn id_clock() -> u64 {
    match clock_nanos() {
        Some(nanos) => nanos,
        None => 0,
    }
}

/// A fresh hasher state of std (`RandomState::new`): each call on a thread
/// gets new keys. Nothing is stated of it.
#[verifier::external_body]
fn fresh_random_state() -> std::collections::hash_map::RandomState {
    std::collections::hash_map::RandomState::new()
}

/// Hashes a fixed word with `state` (`BuildHasher::hash_one`). Nothing is
/// stated of the value, which depends on the state's random keys.
#[verifier::external_body]
fn hash_word(state: &std::collections::hash_map::RandomState) -> u64 {
    std::hash::BuildHasher::hash_one(state, 0u64)
}

/// The identifier made of a time and a salt.
pub fn session_id_from(nanos: u64, salt: u64) -> (id: String)
    ensures
        id@ == id_text(id_word(nanos, salt)),
{
    let word = nanos ^ salt.wrapping_mul(ID_MULTIPLIER);
    let mut id = String::from_str("pty_");
    push_hex_digits(&mut id, word, 16);
    proof {
        reveal_strlit("pty_");
        assert("pty_"@ =~= seq!['p', 't', 'y', '_']);
    }
    id
}

/// Generate a session id "pty_<16 hex>" from the time and a fresh salt.
pub fn generate_id() -> (id: String)
    ensures
        exists|nanos: u64, salt: u64| id@ == id_text(id_word(nanos, salt)),
{
    let nanos = id_clock();
    let state = fresh_random_state();
    let salt = hash_word(&state);
    session_id_from(nanos, salt)
}

/// The multiplicative inverse of `ID_MULTIPLIER` modulo `2^64`.
pub open spec fn spread_inverse() -> u64 {
    0xF1DE_83E1_9937_733D
}

/// Spreading is undone by multiplying with the inverse: distinct salts spread
/// to distinct words.
proof fn lemma_spread_invertible(x: u64)
    ensures
        vstd::wrapping::u64_specs::wrapping_mul(
            vstd::wrapping::u64_specs::wrapping_mul(x, ID_MULTIPLIER),
            spread_inverse(),
        ) == x,
{
    assert((((x * 0x9E37_79B9_7F4A_7C15u64) as u64) * 0xF1DE_83E1_9937_733Du64) as u64 == x)
        by (bit_vector);
    assert(vstd::wrapping::u64_specs::wrapping_mul(x, ID_MULTIPLIER) == (x * 0x9E37_79B9_7F4A_7C15u64) as u64) by (bit_vector);
    let y = vstd::wrapping::u64_specs::wrapping_mul(x, ID_MULTIPLIER);
    assert(vstd::wrapping::u64_specs::wrapping_mul(y, spread_inverse()) == (y * 0xF1DE_83E1_9937_733Du64) as u64) by (bit_vector);
}

/// Ids from one clock reading differ when their counts differ.
pub proof fn law_same_reading_distinct_ids(nanos: u64, a: u64, b: u64)
    requires
        a != b,
    ensures
        id_text(id_word(nanos, a)) != id_text(id_word(nanos, b)),
{
    let sa = vstd::wrapping::u64_specs::wrapping_mul(a, ID_MULTIPLIER);
    let sb = vstd::wrapping::u64_specs::wrapping_mul(b, ID_MULTIPLIER);
    lemma_spread_invertible(a);
    lemma_spread_invertible(b);
    assert(sa != sb);
    assert((nanos ^ sa) != (nanos ^ sb)) by (bit_vector)
        requires
            sa != sb,
    ;
    law_distinct_words_distinct_ids(id_word(nanos, a), id_word(nanos, b));
}

/// A source of session ids: the time, mixed with a count of the ids it has
/// handed out.
pub struct IdSource {
    next: u64,
}

impl View for IdSource {
    type V = u64;

    /// The count the next id is made with.
    closed spec fn view(&self) -> u64 {
        self.next
    }
}

impl IdSource {
    /// A source that has handed out no id.
    pub fn new() -> (s: Self)
        ensures
            s@ == 0,
    {
        IdSource { next: 0 }
    }

    /// The next id: `pty_` and the hex of the time xored with the spread count.
    pub fn next_id(&mut self) -> (id: String)
        ensures
            exists|nanos: u64| id@ == id_text(id_word(nanos, old(self)@)),
            final(self)@ == vstd::wrapping::u64_specs::wrapping_add(old(self)@, 1),
    {
        let nanos = id_clock();
        let id = session_id_from(nanos, self.next);
        self.next = self.next.wrapping_add(1);
        id
    }
}

/// Every identifier is `pty_` and 16 hexadecimal digits: 20 characters.
pub proof fn law_id_shape(word: u64)
    ensures
        id_text(word).len() == 20,
        id_text(word).subrange(0, 4) == seq!['p', 't', 'y', '_'],
{
    lemma_hex_digits_len(word as nat, 16);
    assert(id_text(word).subrange(0, 4) =~= seq!['p', 't', 'y', '_']);
}

proof fn lemma_hex_digits_len(n: nat, width: nat)
    ensures
        hex_digits(n, width).len() == width,
    decreases width,
{
    if width > 0 {
        lemma_hex_digits_len(n / 16, (width - 1) as nat);
    }
}

/// `16` to the power `w`.
pub open spec fn pow16(w: nat) -> nat
    decreases w,
{
    if w == 0 {
        1
    } else {
        16 * pow16((w - 1) as nat)
    }
}

proof fn lemma_hex_char_injective(a: nat, b: nat)
    requires
        a < 16,
        b < 16,
        crate::text::hex_char(a) == crate::text::hex_char(b),
    ensures
        a == b,
{
}

proof fn lemma_hex_digits_injective(n: nat, m: nat, w: nat)
    requires
        n < pow16(w),
        m < pow16(w),
        hex_digits(n, w) == hex_digits(m, w),
    ensures
        n == m,
    decreases w,
{
    if w > 0 {
        let a = hex_digits(n, w);
        let b = hex_digits(m, w);
        assert(a.last() == b.last());
        lemma_hex_char_injective(n % 16, m % 16);
        assert(a.drop_last() =~= hex_digits(n / 16, (w - 1) as nat));
        assert(b.drop_last() =~= hex_digits(m / 16, (w - 1) as nat));
        lemma_hex_digits_injective(n / 16, m / 16, (w - 1) as nat);
    }
}

/// Distinct words give distinct identifiers: an identifier is unique as long
/// as the time and salt it is made of differ.
pub proof fn law_distinct_words_distinct_ids(a: u64, b: u64)
    requires
        a != b,
    ensures
        id_text(a) != id_text(b),
{
    assert(pow16(16) == 0x1_0000_0000_0000_0000) by {
        reveal_with_fuel(pow16, 17);
    }
    if id_text(a) == id_text(b) {
        assert(hex_digits(a as nat, 16) =~= id_text(a).subrange(4, 20)) by {
            lemma_hex_digits_len(a as nat, 16);
        }
        assert(hex_digits(b as nat, 16) =~= id_text(b).subrange(4, 20)) by {
            lemma_hex_digits_len(b as nat, 16);
        }
        lemma_hex_digits_injective(a as nat, b as nat, 16);
    }
}

} // verus!
