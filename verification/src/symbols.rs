//! The four-symbol alphabet: a fixed bijection between the 2-bit codes
//! 0..=3 and four single-codepoint text symbols.

use vstd::prelude::*;

verus! {

/// The errors a transcoding pass can report.
///
/// `IoFailure` is reserved for callers whose streams fail underneath them;
/// the in-memory passes here never produce it themselves.
#[derive(Clone, Copy, Debug, PartialEq, Eq, Structural)]
pub enum UguuError {
    /// An underlying stream read or write failed.
    IoFailure,
    /// The decoder met a codepoint outside the four-symbol alphabet.
    InvalidSymbol,
    /// The decoder's input bytes were not valid text in the expected encoding.
    MalformedTextEncoding,
    /// The decoder's input ended with a partial group of 1 to 3 symbols.
    TruncatedStream,
}

/// The symbol that stands for a 2-bit code. Codes 4 and above are never
/// produced; they are mapped arbitrarily to the last symbol.
pub open spec fn symbol_of(code: u8) -> char {
    if code == 0 {
        'う'
    } else if code == 1 {
        'ぐ'
    } else if code == 2 {
        'ぅ'
    } else {
        '〜'
    }
}

/// Whether a character belongs to the four-symbol alphabet.
pub open spec fn is_symbol(c: char) -> bool {
    c == 'う' || c == 'ぐ' || c == 'ぅ' || c == '〜'
}

/// The 2-bit code of a symbol. Meaningful only on the four symbols;
/// other characters are mapped arbitrarily to 3.
pub open spec fn code_of(c: char) -> u8 {
    if c == 'う' {
        0
    } else if c == 'ぐ' {
        1
    } else if c == 'ぅ' {
        2
    } else {
        3
    }
}

/// The mapping is a bijection: every code below 4 round-trips through its
/// symbol, and every symbol round-trips through its code.
pub proof fn lemma_symbol_bijection()
    ensures
        forall|code: u8| code < 4 ==> #[trigger] code_of(symbol_of(code)) == code,
        forall|c: char| is_symbol(c) ==> #[trigger] symbol_of(code_of(c)) == c,
        forall|code: u8| code < 4 ==> is_symbol(#[trigger] symbol_of(code)),
        forall|c: char| is_symbol(c) ==> #[trigger] code_of(c) < 4,
{
}

/// Map a 2-bit code to its symbol.
pub fn uguu(bits: u8) -> (c: char)
    requires
        bits < 4,
    ensures
        c == symbol_of(bits),
        is_symbol(c),
        code_of(c) == bits,
{
    match bits {
        0b00 => 'う',
        0b01 => 'ぐ',
        0b10 => 'ぅ',
        _ => '〜',
    }
}

/// Map a symbol back to its 2-bit code; any character outside the alphabet
/// is rejected with `InvalidSymbol`.
pub fn uugu(c: char) -> (r: Result<u8, UguuError>)
    ensures
        is_symbol(c) ==> r == Ok::<u8, UguuError>(code_of(c)),
        !is_symbol(c) ==> r == Err::<u8, UguuError>(UguuError::InvalidSymbol),
{
    match c {
        'う' => Ok(0b00),
        'ぐ' => Ok(0b01),
        'ぅ' => Ok(0b10),
        '〜' => Ok(0b11),
        _ => Err(UguuError::InvalidSymbol),
    }
}

} // verus!
