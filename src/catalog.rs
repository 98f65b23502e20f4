//! The catalog of matrix-core items, and identifiers in their hexadecimal form.
use vstd::prelude::*;

verus! {

/// What an item costs to forge.
#[derive(Debug, Clone, Copy, PartialEq, Eq)]
pub struct Cost {
    pub credits: u32,
    pub bismor: u32,
    pub croppa: u32,
    pub enor: u32,
    pub jadiz: u32,
    pub magnite: u32,
    pub umanite: u32,
}

/// Whether an item is forged, owned but not yet forged, or not owned.
#[derive(Debug, Clone, Copy, PartialEq, Eq, Structural)]
pub enum OverclockState {
    Forged,
    Unforged,
    Unacquired,
}

impl Default for OverclockState {
    fn default() -> (r: OverclockState)
        ensures
            r == OverclockState::Unacquired,
    {
        OverclockState::Unacquired
    }
}

/// A weapon overclock of the catalog.
#[derive(Debug, Clone, PartialEq)]
pub struct Overclock {
    pub class: String,
    pub weapon: String,
    pub name: String,
    pub cost: Cost,
    pub state: OverclockState,
}

/// A cosmetic item of the catalog.
#[derive(Debug, Clone, PartialEq)]
pub struct Cosmetic {
    pub class: String,
    pub name: String,
    pub cost: Cost,
    pub state: OverclockState,
}

/// The catalog: each entry keyed by the upper-case hexadecimal form of its
/// 16-byte identifier. Entries keep the order in which they were given, and
/// that order is the order in which they are written back.
#[derive(Debug, Clone, PartialEq)]
pub struct MatrixCores {
    pub overclocks: Vec<(String, Overclock)>,
    pub cosmetics: Vec<(String, Cosmetic)>,
}

/// `o` with its state replaced.
pub open spec fn overclock_with(o: Overclock, st: OverclockState) -> Overclock {
    Overclock { class: o.class, weapon: o.weapon, name: o.name, cost: o.cost, state: st }
}

/// `c` with its state replaced.
pub open spec fn cosmetic_with(c: Cosmetic, st: OverclockState) -> Cosmetic {
    Cosmetic { class: c.class, name: c.name, cost: c.cost, state: st }
}

impl Overclock {
    /// A copy of this overclock in state `st`.
    pub fn with_state(&self, st: OverclockState) -> (r: Overclock)
        ensures
            r == overclock_with(*self, st),
    {
        Overclock {
            class: self.class.clone(),
            weapon: self.weapon.clone(),
            name: self.name.clone(),
            cost: self.cost,
            state: st,
        }
    }
}

impl Cosmetic {
    /// A copy of this cosmetic in state `st`.
    pub fn with_state(&self, st: OverclockState) -> (r: Cosmetic)
        ensures
            r == cosmetic_with(*self, st),
    {
        Cosmetic { class: self.class.clone(), name: self.name.clone(), cost: self.cost, state: st }
    }
}

/// The upper-case hexadecimal digit for `n < 16`.
pub open spec fn upper_digit(n: int) -> char {
    if n == 0 {
        '0'
    } else if n == 1 {
        '1'
    } else if n == 2 {
        '2'
    } else if n == 3 {
        '3'
    } else if n == 4 {
        '4'
    } else if n == 5 {
        '5'
    } else if n == 6 {
        '6'
    } else if n == 7 {
        '7'
    } else if n == 8 {
        '8'
    } else if n == 9 {
        '9'
    } else if n == 10 {
        'A'
    } else if n == 11 {
        'B'
    } else if n == 12 {
        'C'
    } else if n == 13 {
        'D'
    } else if n == 14 {
        'E'
    } else {
        'F'
    }
}

/// The value of a hexadecimal digit of either case.
pub open spec fn hex_val(c: char) -> Option<int> {
    if '0' <= c && c <= '9' {
        Some(c as int - '0' as int)
    } else if 'A' <= c && c <= 'F' {
        Some(c as int - 'A' as int + 10)
    } else if 'a' <= c && c <= 'f' {
        Some(c as int - 'a' as int + 10)
    } else {
        None
    }
}

/// Two upper-case hexadecimal digits per byte, high digit first.
#[verifier::opaque]
pub open spec fn hex_upper(b: Seq<u8>) -> Seq<char> {
    Seq::new(
        2 * b.len(),
        |i: int|
            if i % 2 == 0 {
                upper_digit(b[i / 2] as int / 16)
            } else {
                upper_digit(b[i / 2] as int % 16)
            },
    )
}

/// The bytes that an even number of hexadecimal digits (of either case)
/// stand for, or `None` for any other text.
pub open spec fn hex_decode(s: Seq<char>) -> Option<Seq<u8>> {
    if s.len() % 2 == 0 && forall|i: int| 0 <= i < s.len() ==> (#[trigger] hex_val(s[i])) is Some {
        Some(
            Seq::new(
                s.len() / 2,
                |i: int| (hex_val(s[2 * i]).unwrap() * 16 + hex_val(s[2 * i + 1]).unwrap()) as u8,
            ),
        )
    } else {
        None
    }
}

/// A catalog key that is the upper-case form of a 16-byte identifier: it
/// decodes to 16 bytes, and those encode back to the key.
pub open spec fn is_id_key(k: Seq<char>) -> bool {
    match hex_decode(k) {
        Some(b) => b.len() == 16 && hex_upper(b) == k,
        None => false,
    }
}

/// The identifier that a valid key stands for.
pub open spec fn key_id(k: Seq<char>) -> Seq<u8> {
    hex_decode(k).unwrap()
}

#[verifier::external_type_specification]
#[verifier::external_body]
pub struct ExFromHexError(hex::FromHexError);

/// Relies on hex::encode_upper: two upper-case digits for each byte, high
/// digit first.
#[verifier::external_body]
pub(crate) fn encode_upper(b: &[u8]) -> (r: String)
    ensures
        r@ == hex_upper(b@),
{
    hex::encode_upper(b)
}

/// Relies on hex::decode: it takes the text's bytes two at a time, accepts
/// digits of either case, and fails on an odd length or any other byte.
#[verifier::external_body]
pub(crate) fn decode_hex(s: &String) -> (r: Result<Vec<u8>, hex::FromHexError>)
    ensures
        match r {
            Ok(v) => hex_decode(s@) == Some(v@),
            Err(_) => hex_decode(s@) is None,
        },
{
    hex::decode(s)
}

/// The identifier behind `key`, where `key` is the upper-case hexadecimal form
/// of 16 bytes; `None` for any other key.
pub fn key_to_id(key: &String) -> (r: Option<Vec<u8>>)
    ensures
        r is Some <==> is_id_key(key@),
        r matches Some(v) ==> v@ == key_id(key@),
{
    match decode_hex(key) {
        Ok(v) => {
            if v.len() != 16 {
                return None;
            }
            let back = encode_upper(v.as_slice());
            if back == *key {
                Some(v)
            } else {
                None
            }
        },
        Err(_) => None,
    }
}

/// Each upper-case digit reads back as its value.
proof fn lemma_digit(n: int)
    requires
        0 <= n < 16,
    ensures
        hex_val(upper_digit(n)) == Some(n),
{
}

/// The upper-case hexadecimal form of a 16-byte identifier is a key that
/// stands for that identifier.
pub proof fn lemma_hex_id_key(id: Seq<u8>)
    requires
        id.len() == 16,
    ensures
        is_id_key(hex_upper(id)),
        key_id(hex_upper(id)) == id,
{
    reveal(hex_upper);
    let s = hex_upper(id);
    assert forall|i: int| 0 <= i < s.len() implies (#[trigger] hex_val(s[i])) is Some by {
        if i % 2 == 0 {
            lemma_digit(id[i / 2] as int / 16);
        } else {
            lemma_digit(id[i / 2] as int % 16);
        }
    }
    let d = hex_decode(s).unwrap();
    assert forall|i: int| 0 <= i < 16 implies d[i] == id[i] by {
        assert((2 * i) / 2 == i && (2 * i) % 2 == 0);
        assert((2 * i + 1) / 2 == i && (2 * i + 1) % 2 == 1);
        lemma_digit(id[i] as int / 16);
        lemma_digit(id[i] as int % 16);
        assert((id[i] as int / 16) * 16 + id[i] as int % 16 == id[i] as int);
    }
    assert(d =~= id);
}

} // verus!
