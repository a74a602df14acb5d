//! Line settings of the serial data source, read from the plain values a
//! caller supplies.
use vstd::prelude::*;
use vstd::string::*;

verus! {

/// Number of stop bits.
#[derive(Clone, Copy, Debug, PartialEq, Eq, Structural)]
pub enum StopBitsSetting {
    One,
    Two,
}

/// Parity checking.
#[derive(Clone, Copy, Debug, PartialEq, Eq, Structural)]
pub enum ParitySetting {
    NoParity,
    Odd,
    Even,
}

/// Bits per character.
#[derive(Clone, Copy, Debug, PartialEq, Eq, Structural)]
pub enum DataBitsSetting {
    Five,
    Six,
    Seven,
    Eight,
}

/// The framing of a serial line.
#[derive(Clone, Copy, Debug, PartialEq, Eq, Structural)]
pub struct SerialSettings {
    pub stop_bits: StopBitsSetting,
    pub parity: ParitySetting,
    pub data_bits: DataBitsSetting,
}

/// Two stop bits when asked for 2, else one.
pub open spec fn stop_bits_of(n: u8) -> StopBitsSetting {
    if n == 2 {
        StopBitsSetting::Two
    } else {
        StopBitsSetting::One
    }
}

/// Odd parity for `odd` (111 100 100), even for `even` (101 118 101 110),
/// none for anything else.
pub open spec fn parity_of(name: Seq<u8>) -> ParitySetting {
    if name == seq![111u8, 100u8, 100u8] {
        ParitySetting::Odd
    } else if name == seq![101u8, 118u8, 101u8, 110u8] {
        ParitySetting::Even
    } else {
        ParitySetting::NoParity
    }
}

/// Five to seven data bits as asked, eight for anything else.
pub open spec fn data_bits_of(n: u8) -> DataBitsSetting {
    if n == 5 {
        DataBitsSetting::Five
    } else if n == 6 {
        DataBitsSetting::Six
    } else if n == 7 {
        DataBitsSetting::Seven
    } else {
        DataBitsSetting::Eight
    }
}

fn is_word(b: &[u8], word: &[u8]) -> (r: bool)
    ensures
        r == (b@ == word@),
{
    if b.len() != word.len() {
        return false;
    }
    let mut i: usize = 0;
    while i < b.len()
        invariant
            b@.len() == word@.len(),
            i <= b@.len(),
            forall|k: int| 0 <= k < i ==> b@[k] == word@[k],
        decreases b@.len() - i,
    {
        if b[i] != word[i] {
            return false;
        }
        i = i + 1;
    }
    assert(b@ =~= word@);
    true
}

/// Reads the line settings: stop bits 1 or 2 (anything else is 1), parity
/// `none`, `odd` or `even` (anything else is none), data bits 5 to 8
/// (anything else is 8).
pub fn serial_settings(stop_bits: u8, parity: &str, data_bits: u8) -> (r: SerialSettings)
    ensures
        r.stop_bits == stop_bits_of(stop_bits),
        r.parity == parity_of(parity.spec_bytes()),
        r.data_bits == data_bits_of(data_bits),
{
    let sb = if stop_bits == 2 {
        StopBitsSetting::Two
    } else {
        StopBitsSetting::One
    };
    let p = parity.as_bytes();
    let pa = if is_word(p, [111u8, 100u8, 100u8].as_slice()) {
        ParitySetting::Odd
    } else if is_word(p, [101u8, 118u8, 101u8, 110u8].as_slice()) {
        ParitySetting::Even
    } else {
        ParitySetting::NoParity
    };
    let db = if data_bits == 5 {
        DataBitsSetting::Five
    } else if data_bits == 6 {
        DataBitsSetting::Six
    } else if data_bits == 7 {
        DataBitsSetting::Seven
    } else {
        DataBitsSetting::Eight
    };
    SerialSettings { stop_bits: sb, parity: pa, data_bits: db }
}

} // verus!
