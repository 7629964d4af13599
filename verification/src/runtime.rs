//! What the run-time support makes of snake values and error codes: how a
//! value's bits say what it is, how a value is rendered, and the message
//! for each run-time error.
use vstd::prelude::*;
use crate::check::{MIN_SNAKE_INT, MAX_SNAKE_INT};
use crate::codegen::{SNAKE_TRU, SNAKE_FLS};
use crate::text::{dec_int, dec_nat, hex_nat, push_dec_i64, push_dec_u64, push_hex_nat};

verus! {

// ---------------------------------------------------------------------------
// Values.

/// A snake value: a number shifted left by one (its lowest bit clear), or a
/// tagged word (its lowest bit set): the two booleans, a closure (low bits
/// `011`), an array (low bits `001`, the rest its address) or a float (low
/// bits `101`, the float's bits in the upper half).
#[derive(Copy, Clone, Debug, PartialEq, Eq, Structural)]
pub struct SnakeVal(pub u64);

pub const TAG_MASK: u64 = 0x00_00_00_00_00_00_00_01u64;

pub const ARI_EXP_NUM: u64 = 1u64;
pub const COM_EXP_NUM: u64 = 2u64;
pub const OVERFLOW: u64 = 3u64;
pub const IF_EXP_BOOL: u64 = 4u64;
pub const LOGIC_EXP_BOOL: u64 = 5u64;
pub const INDEX_NOT_NUMBER: u64 = 6u64;
pub const INDEX_OUT_OF_BOUND: u64 = 7u64;
pub const INDEX_INTO_NONARRAY: u64 = 8u64;
pub const LENGTH_INTO_NONARRAY: u64 = 9u64;
pub const NOT_CLOSURE: u64 = 10u64;
pub const ARITY_MISMATCH: u64 = 11u64;
pub const FARI_EXP_FLOAT: u64 = 12u64;
pub const FCOM_EXP_FLOAT: u64 = 13u64;
pub const FLOAT_OVERFLOW: u64 = 14u64;

/// The two's complement reading of a word.
pub open spec fn signed(x: u64) -> int {
    if x <= i64::MAX { x as int } else { x - 0x1_0000_0000_0000_0000int }
}

/// Reads the bits of `x` as a signed number.
pub fn unsigned_to_signed(x: u64) -> (r: i64)
    ensures
        r == signed(x),
{
    assert(x <= 0x7FFF_FFFF_FFFF_FFFFu64 ==> (x as i64) as int == x as int) by (bit_vector);
    assert(x > 0x7FFF_FFFF_FFFF_FFFFu64 ==> (x as i64) as int == x as int - 0x1_0000_0000_0000_0000int)
        by (bit_vector);
    x as i64
}

/// Whether `x` is an array: its low bits are `001`.
pub fn is_array(x: SnakeVal) -> (r: bool)
    ensures
        r == (x.0 % 8 == 1),
{
    let b = x.0;
    assert(((b & 1u64 == 1u64) && (b & 2u64 == 0u64) && (b & 4u64 == 0u64)) == (b % 8 == 1)) by (bit_vector);
    (x.0 & TAG_MASK == 1) && (x.0 & 0x02 == 0) && (x.0 & 0x04 == 0)
}

/// What a value is, read off its bits.
#[derive(Copy, Clone, Debug, PartialEq, Eq, Structural)]
pub enum ValueKind {
    Number(i64),
    True,
    False,
    Closure,
    /// The address of the array's header word (its length).
    Array(u64),
    /// The float's bits.
    Float(u32),
    Invalid,
}

pub open spec fn kind_of(x: u64) -> ValueKind {
    if x % 2 == 0 {
        ValueKind::Number((signed(x) / 2) as i64)
    } else if x == SNAKE_TRU {
        ValueKind::True
    } else if x == SNAKE_FLS {
        ValueKind::False
    } else if x % 8 == 3 {
        ValueKind::Closure
    } else if x % 8 == 1 {
        ValueKind::Array((x - 1) as u64)
    } else if x % 4 == 1 {
        ValueKind::Float((x / 0x1_0000_0000) as u32)
    } else {
        ValueKind::Invalid
    }
}

/// Tells what `x` is, in the order the rendering of values asks.
pub fn value_kind(x: SnakeVal) -> (k: ValueKind)
    ensures
        k == kind_of(x.0),
{
    let b = x.0;
    assert(b & 1u64 != 0u64 ==> b & 1u64 == 1u64) by (bit_vector);
    if b & TAG_MASK == 0 {
        assert((b & 1u64 == 0u64) == (b % 2 == 0)) by (bit_vector);
        let i = unsigned_to_signed(b);
        let h = i >> 1u32;
        assert(h as int == (i as int) / 2) by (bit_vector)
            requires h == i >> 1u32;
        assert(kind_of(b) == ValueKind::Number(h));
        ValueKind::Number(h)
    } else if b == SNAKE_TRU {
        assert((b & 1u64 == 1u64) == (b % 2 == 1)) by (bit_vector);
        assert(kind_of(b) == ValueKind::True);
        ValueKind::True
    } else if b == SNAKE_FLS {
        assert((b & 1u64 == 1u64) == (b % 2 == 1)) by (bit_vector);
        assert(kind_of(b) == ValueKind::False);
        ValueKind::False
    } else if b & TAG_MASK == 1 && b & 0x02 == 2 && b & 0x04 == 0 {
        assert(((b & 1u64 == 1u64) && (b & 2u64 == 2u64) && (b & 4u64 == 0u64)) == (b % 8 == 3)) by (bit_vector);
        assert(kind_of(b) == ValueKind::Closure);
        ValueKind::Closure
    } else if is_array(x) {
        assert((b & 1u64 == 1u64) == (b % 2 == 1)) by (bit_vector);
        assert(((b & 1u64 == 1u64) && (b & 2u64 == 2u64) && (b & 4u64 == 0u64)) == (b % 8 == 3)) by (bit_vector);
        assert(kind_of(b) == ValueKind::Array((b - 1) as u64));
        ValueKind::Array(b - 1)
    } else if b & TAG_MASK == 1 && b & 0x02 == 0 {
        assert((b & 1u64 == 1u64) == (b % 2 == 1)) by (bit_vector);
        assert(((b & 1u64 == 1u64) && (b & 2u64 == 2u64) && (b & 4u64 == 0u64)) == (b % 8 == 3)) by (bit_vector);
        assert(((b & 1u64 == 1u64) && (b & 2u64 == 0u64)) == (b % 4 == 1)) by (bit_vector);
        assert((b >> 32u64) == b / 0x1_0000_0000u64 && (b >> 32u64) <= 0xFFFF_FFFFu64) by (bit_vector);
        let f = (b >> 32u64) as u32;
        assert(kind_of(b) == ValueKind::Float(f));
        ValueKind::Float(f)
    } else {
        assert((b & 1u64 == 1u64) == (b % 2 == 1)) by (bit_vector);
        assert(((b & 1u64 == 1u64) && (b & 2u64 == 2u64) && (b & 4u64 == 0u64)) == (b % 8 == 3)) by (bit_vector);
        assert(((b & 1u64 == 1u64) && (b & 2u64 == 0u64)) == (b % 4 == 1)) by (bit_vector);
        assert((b & 1u64 == 1u64) && !((b & 1u64 == 1u64) && (b & 2u64 == 2u64) && (b & 4u64 == 0u64))
            && b % 8 != 1 && !((b & 1u64 == 1u64) && (b & 2u64 == 0u64))
            ==> b % 2 == 1 && b % 8 != 3 && b % 4 != 1) by (bit_vector);
        assert(kind_of(b) == ValueKind::Invalid);
        ValueKind::Invalid
    }
}


/// The two's complement reading of a word is the word cast to `i64`.
pub proof fn lemma_signed_cast(x: u64)
    ensures
        signed(x) == (x as i64) as int,
{
    assert(x <= 0x7FFF_FFFF_FFFF_FFFFu64 ==> (x as i64) as int == x as int) by (bit_vector);
    assert(x > 0x7FFF_FFFF_FFFF_FFFFu64 ==> (x as i64) as int == x as int - 0x1_0000_0000_0000_0000int)
        by (bit_vector);
}

/// A number that the check lets through, stored the way compiled code
/// stores it (shifted left by one), reads back as that number.
pub proof fn lemma_number_round_trip(n: i64)
    requires
        MIN_SNAKE_INT <= n <= MAX_SNAKE_INT,
    ensures
        kind_of((n << 1u64) as u64) == ValueKind::Number(n),
{
    let w = (n << 1u64) as u64;
    assert(((n << 1u64) as u64) % 2 == 0) by (bit_vector);
    assert((((n << 1u64) as u64) as i64) as int == 2 * (n as int)) by (bit_vector)
        requires
            -0x4000_0000_0000_0000i64 <= n <= 0x3FFF_FFFF_FFFF_FFFFi64;
    lemma_signed_cast(w);
}

/// The words that compiled code uses for the booleans read back as them.
pub proof fn lemma_booleans_read_back()
    ensures
        kind_of(SNAKE_TRU) == ValueKind::True,
        kind_of(SNAKE_FLS) == ValueKind::False,
{
}

// ---------------------------------------------------------------------------
// Rendering values.

/// The rendering of a value that is neither an array nor a float, whose
/// renderings need the heap and floating-point formatting.
pub open spec fn scalar_text(x: u64) -> Option<Seq<char>> {
    match kind_of(x) {
        ValueKind::Number(n) => Some(dec_int(n as int)),
        ValueKind::True => Some("true"@),
        ValueKind::False => Some("false"@),
        ValueKind::Closure => Some("<closure>"@),
        ValueKind::Invalid => Some("Invalid snake value 0x"@ + hex_nat(x as nat)),
        _ => None,
    }
}

/// Renders a value that is neither an array nor a float; `None` for those.
pub fn sprint_scalar(x: SnakeVal) -> (r: Option<String>)
    ensures
        r is Some <==> scalar_text(x.0) is Some,
        r matches Some(s) ==> s@ == scalar_text(x.0).unwrap(),
{
    let mut s = String::new();
    match value_kind(x) {
        ValueKind::Number(n) => push_dec_i64(&mut s, n),
        ValueKind::True => s.append("true"),
        ValueKind::False => s.append("false"),
        ValueKind::Closure => s.append("<closure>"),
        ValueKind::Invalid => {
            s.append("Invalid snake value 0x");
            push_hex_nat(&mut s, x.0);
        },
        _ => return None,
    }
    proof {
        assert(s@ =~= scalar_text(x.0).unwrap());
    }
    Some(s)
}

/// The first `i` parts, separated by `, `.
pub open spec fn joined(parts: Seq<Seq<char>>, i: int) -> Seq<char>
    decreases i,
{
    if i <= 0 {
        Seq::empty()
    } else if i == 1 {
        parts[0]
    } else {
        joined(parts, i - 1) + ", "@ + parts[i - 1]
    }
}

/// The rendering of an array from the renderings of its first elements;
/// where the next element is the array itself, `<loop>` stands for it and
/// ends the rendering.
pub open spec fn array_text(parts: Seq<Seq<char>>, looped: bool) -> Seq<char> {
    let all = if looped { parts.push("<loop>"@) } else { parts };
    "["@ + joined(all, all.len() as int) + "]"@
}

/// Renders an array from the renderings of its elements, as far as they go.
pub fn sprint_array(parts: &Vec<String>, looped: bool) -> (s: String)
    ensures
        s@ == array_text(parts@.map_values(|p: String| p@), looped),
{
    let ghost views = parts@.map_values(|p: String| p@);
    let ghost all = if looped { views.push("<loop>"@) } else { views };
    let mut s = String::new();
    s.append("[");
    let mut k: usize = 0;
    while k < parts.len()
        invariant
            k <= parts@.len(),
            views == parts@.map_values(|p: String| p@),
            all == (if looped { views.push("<loop>"@) } else { views }),
            s@ == "["@ + joined(all, k as int),
        decreases parts@.len() - k,
    {
        if k != 0 {
            s.append(", ");
        }
        s.append(parts[k].as_str());
        proof {
            assert(all[k as int] == parts@[k as int]@);
            if k != 0 {
                assert("["@ + joined(all, k as int) + ", "@ + all[k as int]
                    =~= "["@ + (joined(all, k as int) + ", "@ + all[k as int]));
            } else {
                assert("["@ + Seq::<char>::empty() + all[0] =~= "["@ + all[0]);
            }
        }
        k = k + 1;
    }
    if looped {
        if k != 0 {
            s.append(", ");
        }
        s.append("<loop>");
        proof {
            reveal_strlit("<loop>");
            if k != 0 {
                assert("["@ + joined(all, k as int) + ", "@ + "<loop>"@
                    =~= "["@ + (joined(all, k as int) + ", "@ + all[k as int]));
            } else {
                assert("["@ + Seq::<char>::empty() + "<loop>"@ =~= "["@ + all[0]);
            }
        }
    }
    s.append("]");
    proof {
        assert(s@ =~= array_text(views, looped));
    }
    s
}

// ---------------------------------------------------------------------------
// Run-time errors.

/// What an error message says before the offending value; `None` for the
/// codes whose message does not show the value.
pub open spec fn error_lead(code: u64) -> Option<Seq<char>> {
    if code == ARI_EXP_NUM { Some("arithmetic expected a number, but got "@) }
    else if code == COM_EXP_NUM { Some("comparison expected a number, but got "@) }
    else if code == OVERFLOW { Some("overflow, "@) }
    else if code == IF_EXP_BOOL { Some("if expected a boolean, but got "@) }
    else if code == LOGIC_EXP_BOOL { Some("logic expected a boolean, but got "@) }
    else if code == INDEX_NOT_NUMBER { Some("index not a number, but got "@) }
    else if code == INDEX_OUT_OF_BOUND { Some("index out of bounds, but got "@) }
    else if code == INDEX_INTO_NONARRAY { Some("indexed into non-array, but got "@) }
    else if code == LENGTH_INTO_NONARRAY { Some("length called with non-array, but got "@) }
    else if code == NOT_CLOSURE { Some("called a non-function, but got "@) }
    else if code == ARITY_MISMATCH { Some("wrong number of arguments, but got "@) }
    else if code == FARI_EXP_FLOAT { Some("arithmetic expected a float, but got "@) }
    else if code == FCOM_EXP_FLOAT { Some("comparison expected a float, but got "@) }
    else { None }
}

/// The message of a run-time error with code `code` about a value rendered
/// as `value`.
pub open spec fn error_text(code: u64, value: Seq<char>) -> Seq<char> {
    match error_lead(code) {
        Some(lead) => lead + value,
        None => if code == FLOAT_OVERFLOW { "overflow"@ } else { "unknown error code "@ + dec_nat(code as nat) },
    }
}

fn error_lead_str(code: u64) -> (r: Option<&'static str>)
    ensures
        r is Some <==> error_lead(code) is Some,
        r matches Some(t) ==> t@ == error_lead(code).unwrap(),
{
    if code == ARI_EXP_NUM { Some("arithmetic expected a number, but got ") }
    else if code == COM_EXP_NUM { Some("comparison expected a number, but got ") }
    else if code == OVERFLOW { Some("overflow, ") }
    else if code == IF_EXP_BOOL { Some("if expected a boolean, but got ") }
    else if code == LOGIC_EXP_BOOL { Some("logic expected a boolean, but got ") }
    else if code == INDEX_NOT_NUMBER { Some("index not a number, but got ") }
    else if code == INDEX_OUT_OF_BOUND { Some("index out of bounds, but got ") }
    else if code == INDEX_INTO_NONARRAY { Some("indexed into non-array, but got ") }
    else if code == LENGTH_INTO_NONARRAY { Some("length called with non-array, but got ") }
    else if code == NOT_CLOSURE { Some("called a non-function, but got ") }
    else if code == ARITY_MISMATCH { Some("wrong number of arguments, but got ") }
    else if code == FARI_EXP_FLOAT { Some("arithmetic expected a float, but got ") }
    else if code == FCOM_EXP_FLOAT { Some("comparison expected a float, but got ") }
    else { None }
}

/// Whether the message for `code` shows the offending value.
pub fn error_shows_value(code: u64) -> (r: bool)
    ensures
        r == error_lead(code) is Some,
{
    error_lead_str(code).is_some()
}

/// The message of a run-time error with code `code` about a value rendered
/// as `value`.
pub fn error_message(code: u64, value: &str) -> (s: String)
    ensures
        s@ == error_text(code, value@),
{
    let mut s = String::new();
    match error_lead_str(code) {
        Some(lead) => {
            s.append(lead);
            s.append(value);
        },
        None => {
            if code == FLOAT_OVERFLOW {
                s.append("overflow");
            } else {
                s.append("unknown error code ");
                push_dec_u64(&mut s, code);
            }
        },
    }
    assert(s@ =~= error_text(code, value@));
    s
}

} // verus!
