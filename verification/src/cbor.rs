//! The CBOR reader and the items it hands out.

use ciborium::value::Integer as CborInteger;
use ciborium::Value as CborValue;
use vstd::float::FloatBitsProperties;
use vstd::prelude::*;

use crate::double::Double;
use crate::value::{cbor_view, settled_view, ValueView};

verus! {

/// An integer item: opaque, read through [`integer_value`].
#[verifier::external_type_specification]
#[verifier::external_body]
pub struct ExCborInteger(CborInteger);

/// A decoded CBOR data item. Its variants are read as they are declared.
#[verifier::external_type_specification]
pub struct ExCborValue(CborValue);

/// What reading one item from the front of `bytes` gives: the value of the item, every
/// NaN in it as the quiet one, and the number of bytes that follow it, or the
/// description of the failure.
pub uninterp spec fn cbor_read(bytes: Seq<u8>) -> Result<(ValueView, nat), Seq<char>>;

/// The number that an integer item stands for.
pub uninterp spec fn cbor_integer(integer: CborInteger) -> i128;

/// The double with this bit pattern in decimal, as `Display` writes it.
pub uninterp spec fn double_text(bits: u64) -> Seq<char>;

/// The nine-byte item that encodes a double: the initial byte `0xfb`, then the bit
/// pattern with its most significant byte first.
pub open spec fn double_item(bits: u64) -> Seq<u8> {
    seq![
        0xfb,
        (bits / 0x100_0000_0000_0000) as u8,
        (bits / 0x1_0000_0000_0000 % 0x100) as u8,
        (bits / 0x100_0000_0000 % 0x100) as u8,
        (bits / 0x1_0000_0000 % 0x100) as u8,
        (bits / 0x100_0000 % 0x100) as u8,
        (bits / 0x1_0000 % 0x100) as u8,
        (bits / 0x100 % 0x100) as u8,
        (bits % 0x100) as u8,
    ]
}

/// `ciborium::from_reader` into a dynamic value. It reads one item from the front
/// of the bytes. The outcome is named by [`cbor_read`], the item taken by its value and
/// without sign and payload of a NaN, which are left open; an item takes at least its
/// initial byte; and the item that encodes a double other than a NaN reads as that
/// double. A failure is handed out by its `Display` text.
#[verifier::external_body]
pub(crate) fn read_item(bytes: &[u8]) -> (read: Result<(CborValue, usize), String>)
    ensures
        match read {
            Ok((item, rest)) => cbor_read(bytes@) == Ok::<(ValueView, nat), Seq<char>>(
                (settled_view(cbor_view(item)), rest as nat),
            ) && rest < bytes@.len(),
            Err(failure) => cbor_read(bytes@) == Err::<(ValueView, nat), Seq<char>>(failure@),
        },
        forall|number: Double|
            #![trigger double_item(number.bits)]
            !number.is_nan() && bytes@ == double_item(number.bits) ==> match read {
                Ok((CborValue::Float(float), rest)) => float.to_bits_spec() == number.bits,
                _ => false,
            },
{
    let mut cursor = bytes;
    match ciborium::from_reader::<CborValue, _>(&mut cursor) {
        Ok(item) => Ok((item, cursor.len())),
        Err(failure) => Err(failure.to_string()),
    }
}

/// `i128::from` on an integer item: the number it stands for.
#[verifier::external_body]
pub(crate) fn integer_value(integer: &CborInteger) -> (number: i128)
    ensures
        number == cbor_integer(*integer),
{
    i128::from(*integer)
}

/// `to_bits` on the number of a float item.
#[verifier::external_body]
pub(crate) fn float_bits(item: &CborValue) -> (bits: Option<u64>)
    ensures
        bits == (match *item {
            CborValue::Float(float) => Some(float.to_bits_spec()),
            _ => None,
        }),
{
    match item {
        CborValue::Float(float) => Some(float.to_bits()),
        _ => None,
    }
}

/// `Display` on the number of a float item, named by [`double_text`].
#[verifier::external_body]
pub(crate) fn float_text(item: &CborValue) -> (text: Option<String>)
    ensures
        match (*item, text) {
            (CborValue::Float(float), Some(digits)) => digits@ == double_text(float.to_bits_spec()),
            (CborValue::Float(_), None) => false,
            (_, shown) => shown is None,
        },
{
    match item {
        CborValue::Float(float) => Some(float.to_string()),
        _ => None,
    }
}

impl Double {
    /// The number in decimal.
    pub open spec fn written(self) -> Seq<char> {
        if self.is_nan() {
            "NaN"@
        } else {
            double_text(self.bits)
        }
    }

    /// Writes the number as the nine-byte item that encodes it.
    pub fn to_item(self) -> (item: Vec<u8>)
        ensures
            item@ == double_item(self.bits),
    {
        let bits = self.bits;
        let item: Vec<u8> = vec![
            0xfb,
            (bits / 0x100_0000_0000_0000) as u8,
            (bits / 0x1_0000_0000_0000 % 0x100) as u8,
            (bits / 0x100_0000_0000 % 0x100) as u8,
            (bits / 0x1_0000_0000 % 0x100) as u8,
            (bits / 0x100_0000 % 0x100) as u8,
            (bits / 0x1_0000 % 0x100) as u8,
            (bits / 0x100 % 0x100) as u8,
            (bits % 0x100) as u8,
        ];
        assert(item@ =~= double_item(self.bits));
        item
    }

    /// Writes the number in decimal. It reaches the formatter as the item that
    /// encodes it.
    pub fn text(self) -> (text: String)
        ensures
            text@ == self.written(),
    {
        if self.is_not_a_number() {
            return "NaN".to_owned();
        }
        let item = self.to_item();
        match read_item(item.as_slice()) {
            Ok((item, _)) => match float_text(&item) {
                Some(text) => text,
                None => String::new(),
            },
            Err(failure) => failure,
        }
    }
}

} // verus!
