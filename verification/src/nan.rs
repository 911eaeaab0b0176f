//! NaN-boxed runtime values.
//!
//! A value is 64 bits. When its upper 16 bits hold one of the tags below, the
//! value is not a float but a boxed non-number, whose payload, where it has
//! one, is the lower 32 bits. Any other bit pattern is a float.

use crate::pointers::{JsPrimitiveString, ObjectPointer, StringPointer};
use core::marker::PhantomData;
use vstd::prelude::*;

verus! {

/// A NaN-boxed value of the realm whose lifetime is `'a`.
#[derive(Copy, Clone)]
pub struct Value<'a> {
    inner: u64,
    phantom: PhantomData<ObjectPointer<'a>>,
}

/// What a value holds, as read from its bits.
#[derive(Copy, Clone)]
pub enum ValueType<'a> {
    Float,
    FloatNaN,
    Object(ObjectPointer<'a>),
    String(JsPrimitiveString),
    Null,
    Undefined,
    Boolean(bool),
    Local(u32),
    StringReference(JsPrimitiveString),
    NumberReference(u32),
}

/// The bit pattern of the canonical quiet NaN.
pub const QUIET_NAN_BITS: u64 = 9221120237041090560;

pub const DOWNSHIFT: u64 = 47;

/// The first tag: the quiet NaN pattern shifted down by `DOWNSHIFT`
/// (see `lemma_tag_values`).
pub const FLOAT_NAN_TAG: u64 = 0xFFF0;

pub const OBJECT_TAG: u64 = FLOAT_NAN_TAG + 1;

pub const NULL_TAG: u64 = FLOAT_NAN_TAG + 2;

pub const UNDEFINED_TAG: u64 = FLOAT_NAN_TAG + 3;

pub const STRING_TAG: u64 = FLOAT_NAN_TAG + 4;

pub const BOOLEAN_TRUE_TAG: u64 = FLOAT_NAN_TAG + 5;

pub const BOOLEAN_FALSE_TAG: u64 = FLOAT_NAN_TAG + 6;

pub const LOCAL_TAG: u64 = FLOAT_NAN_TAG + 7;

pub const STRING_REFERENCE_TAG: u64 = FLOAT_NAN_TAG + 8;

pub const NUMBER_REFERENCE_TAG: u64 = FLOAT_NAN_TAG + 9;

/// The tag of a bit pattern: its upper 16 bits.
pub open spec fn tag_of(bits: u64) -> int {
    bits as int / 0x1_0000_0000_0000
}

/// The payload of a bit pattern: its lower 32 bits.
pub open spec fn payload_of(bits: u64) -> u32 {
    (bits as int % 0x1_0000_0000) as u32
}

/// What the bit pattern `bits` holds.
pub open spec fn type_of_bits<'a>(bits: u64) -> ValueType<'a> {
    let tag: int = tag_of(bits);
    let payload: u32 = payload_of(bits);
    if tag == FLOAT_NAN_TAG {
        ValueType::FloatNaN
    } else if tag == OBJECT_TAG {
        ValueType::Object(ObjectPointer::spec_new(payload))
    } else if tag == NULL_TAG {
        ValueType::Null
    } else if tag == UNDEFINED_TAG {
        ValueType::Undefined
    } else if tag == STRING_TAG {
        ValueType::String(StringPointer::spec_new(payload))
    } else if tag == BOOLEAN_TRUE_TAG {
        ValueType::Boolean(true)
    } else if tag == BOOLEAN_FALSE_TAG {
        ValueType::Boolean(false)
    } else if tag == LOCAL_TAG {
        // A local carries its tag, not its payload.
        ValueType::Local(LOCAL_TAG as u32)
    } else if tag == STRING_REFERENCE_TAG {
        ValueType::StringReference(StringPointer::spec_new(payload))
    } else if tag == NUMBER_REFERENCE_TAG {
        ValueType::NumberReference(payload)
    } else {
        ValueType::Float
    }
}

impl<'a> View for Value<'a> {
    type V = u64;

    closed spec fn view(&self) -> u64 {
        self.inner
    }
}

/// The tags, as numbers; the first one is the quiet NaN shifted down.
pub proof fn lemma_tag_values()
    ensures
        QUIET_NAN_BITS >> DOWNSHIFT == FLOAT_NAN_TAG,
        FLOAT_NAN_TAG == 0xFFF0,
        OBJECT_TAG == 0xFFF1,
        NULL_TAG == 0xFFF2,
        UNDEFINED_TAG == 0xFFF3,
        STRING_TAG == 0xFFF4,
        BOOLEAN_TRUE_TAG == 0xFFF5,
        BOOLEAN_FALSE_TAG == 0xFFF6,
        LOCAL_TAG == 0xFFF7,
        STRING_REFERENCE_TAG == 0xFFF8,
        NUMBER_REFERENCE_TAG == 0xFFF9,
{
    assert(9221120237041090560u64 >> 47u64 == 0xFFF0u64) by (bit_vector);
    assert(QUIET_NAN_BITS >> DOWNSHIFT == FLOAT_NAN_TAG);
}

/// A bit pattern is read as a float exactly when its tag is none of the
/// runtime's tags.
pub proof fn lemma_float_iff_untagged<'a>(bits: u64)
    ensures
        type_of_bits::<'a>(bits) is Float <==> !(FLOAT_NAN_TAG <= tag_of(bits)
            <= NUMBER_REFERENCE_TAG),
{
    lemma_tag_values();
}

/// What a value holds depends on its tag and its payload alone.
pub proof fn lemma_type_depends_on_tag_and_payload<'a>(a: u64, b: u64)
    requires
        tag_of(a) == tag_of(b),
        payload_of(a) == payload_of(b),
    ensures
        type_of_bits::<'a>(a) == type_of_bits::<'a>(b),
{
}

/// Boxing a payload under a tag and reading the box gives back the tag and
/// the payload: a box made with the object, string or reference tags reads
/// as that kind of value, holding that payload.
pub proof fn lemma_box_roundtrip<'a>(tag: u64, payload: u32)
    requires
        FLOAT_NAN_TAG <= tag <= NUMBER_REFERENCE_TAG,
    ensures
        tag_of((tag << 48u64) | payload as u64) == tag,
        payload_of((tag << 48u64) | payload as u64) == payload,
        tag == OBJECT_TAG ==> type_of_bits::<'a>((tag << 48u64) | payload as u64)
            == ValueType::<'a>::Object(ObjectPointer::spec_new(payload)),
        tag == STRING_TAG ==> type_of_bits::<'a>((tag << 48u64) | payload as u64)
            == ValueType::<'a>::String(StringPointer::spec_new(payload)),
        tag == STRING_REFERENCE_TAG ==> type_of_bits::<'a>((tag << 48u64) | payload as u64)
            == ValueType::<'a>::StringReference(StringPointer::spec_new(payload)),
        tag == NUMBER_REFERENCE_TAG ==> type_of_bits::<'a>((tag << 48u64) | payload as u64)
            == ValueType::<'a>::NumberReference(payload),
{
    lemma_tag_values();
    assert(0xFFF0u64 <= tag <= 0xFFF9u64 ==> ((tag << 48u64) | payload as u64) / 0x1_0000_0000_0000u64 == tag) by (bit_vector);
    assert(((tag << 48u64) | payload as u64) % 0x1_0000_0000u64 == payload as u64) by (bit_vector);
}

/// How every bit pattern reads, told by its upper 16 bits (`bits / 2^48`)
/// and, where a kind carries one, its lower 32 bits (`bits % 2^32`) as
/// payload: 0xFFF0 is the NaN box, 0xFFF1 an object, 0xFFF2 null, 0xFFF3
/// undefined, 0xFFF4 a string, 0xFFF5 true, 0xFFF6 false, 0xFFF7 a local
/// (which carries its tag, 0xFFF7, whatever the payload), 0xFFF8 a string
/// reference, 0xFFF9 a number reference, and anything else a float. Null,
/// undefined, the booleans and locals do not depend on the payload.
pub proof fn lemma_decoding_table<'a>(bits: u64)
    ensures
        bits / 0x1_0000_0000_0000 == 0xFFF0 ==> type_of_bits::<'a>(bits) is FloatNaN,
        bits / 0x1_0000_0000_0000 == 0xFFF1 ==> (type_of_bits::<'a>(bits) matches ValueType::Object(p)
            && p.spec_index() == bits % 0x1_0000_0000),
        bits / 0x1_0000_0000_0000 == 0xFFF2 ==> type_of_bits::<'a>(bits) is Null,
        bits / 0x1_0000_0000_0000 == 0xFFF3 ==> type_of_bits::<'a>(bits) is Undefined,
        bits / 0x1_0000_0000_0000 == 0xFFF4 ==> (type_of_bits::<'a>(bits) matches ValueType::String(p)
            && p.spec_index() == bits % 0x1_0000_0000),
        bits / 0x1_0000_0000_0000 == 0xFFF5 ==> type_of_bits::<'a>(bits) == ValueType::<'a>::Boolean(
            true,
        ),
        bits / 0x1_0000_0000_0000 == 0xFFF6 ==> type_of_bits::<'a>(bits) == ValueType::<'a>::Boolean(
            false,
        ),
        bits / 0x1_0000_0000_0000 == 0xFFF7 ==> type_of_bits::<'a>(bits) == ValueType::<'a>::Local(
            0xFFF7u32,
        ),
        bits / 0x1_0000_0000_0000 == 0xFFF8 ==> (type_of_bits::<'a>(bits) matches ValueType::StringReference(p)
            && p.spec_index() == bits % 0x1_0000_0000),
        bits / 0x1_0000_0000_0000 == 0xFFF9 ==> (type_of_bits::<'a>(bits) matches ValueType::NumberReference(n)
            && n == bits % 0x1_0000_0000),
        !(0xFFF0 <= bits / 0x1_0000_0000_0000 <= 0xFFF9) ==> type_of_bits::<'a>(bits) is Float,
{
    lemma_tag_values();
    let low: u32 = payload_of(bits);
    assert(low == bits % 0x1_0000_0000);
    ObjectPointer::<'a>::lemma_new_index(low);
    StringPointer::lemma_new_index(low);
}

/// Null and undefined are told apart by their tags alone: every pattern
/// tagged 0xFFF2 reads as null and every one tagged 0xFFF3 as undefined,
/// whatever its lower 32 bits hold; so two patterns that differ only below
/// the tag read the same.
pub proof fn lemma_null_undefined_by_tag<'a>(a: u64, b: u64)
    requires
        a / 0x1_0000_0000_0000 == b / 0x1_0000_0000_0000,
        a / 0x1_0000_0000_0000 == 0xFFF2 || a / 0x1_0000_0000_0000 == 0xFFF3,
    ensures
        type_of_bits::<'a>(a) == type_of_bits::<'a>(b),
        a / 0x1_0000_0000_0000 == 0xFFF2 ==> type_of_bits::<'a>(a) is Null,
        a / 0x1_0000_0000_0000 == 0xFFF3 ==> type_of_bits::<'a>(a) is Undefined,
{
    lemma_decoding_table(a);
    lemma_decoding_table(b);
}

/// A local reads as its tag, 0xFFF7, whatever its lower 32 bits hold: two
/// local patterns always read the same.
pub proof fn lemma_local_ignores_payload<'a>(a: u64, b: u64)
    requires
        a / 0x1_0000_0000_0000 == 0xFFF7,
        b / 0x1_0000_0000_0000 == 0xFFF7,
    ensures
        type_of_bits::<'a>(a) == ValueType::<'a>::Local(0xFFF7u32),
        type_of_bits::<'a>(a) == type_of_bits::<'a>(b),
{
    lemma_decoding_table(a);
    lemma_decoding_table(b);
}

impl<'a> Value<'a> {
    /// The value whose bit pattern is `bits`.
    pub fn from_bits(bits: u64) -> (r: Self)
        ensures
            r@ == bits,
    {
        Value { inner: bits, phantom: PhantomData }
    }

    /// The bit pattern of the value.
    pub fn bits(&self) -> (r: u64)
        ensures
            r == self@,
    {
        self.inner
    }

    /// Reads what the value holds from its tag and payload.
    pub fn get_type(self) -> (r: ValueType<'a>)
        ensures
            r == type_of_bits::<'a>(self@),
    {
        let tag: u64 = self.inner >> 48;
        let low: u32 = self.inner as u32;
        proof {
            lemma_tag_values();
            let bits: u64 = self.inner;
            assert(bits >> 48u64 == bits / 0x1_0000_0000_0000u64) by (bit_vector);
            assert(bits as u32 == (bits % 0x1_0000_0000u64) as u32) by (bit_vector);
        }
        if tag == FLOAT_NAN_TAG {
            ValueType::FloatNaN
        } else if tag == OBJECT_TAG {
            ValueType::Object(ObjectPointer::new(low))
        } else if tag == NULL_TAG {
            ValueType::Null
        } else if tag == UNDEFINED_TAG {
            ValueType::Undefined
        } else if tag == STRING_TAG {
            ValueType::String(StringPointer::new(low))
        } else if tag == BOOLEAN_TRUE_TAG {
            ValueType::Boolean(true)
        } else if tag == BOOLEAN_FALSE_TAG {
            ValueType::Boolean(false)
        } else if tag == LOCAL_TAG {
            ValueType::Local(tag as u32)
        } else if tag == STRING_REFERENCE_TAG {
            ValueType::StringReference(StringPointer::new(low))
        } else if tag == NUMBER_REFERENCE_TAG {
            ValueType::NumberReference(low)
        } else {
            ValueType::Float
        }
    }
}

} // verus!
