//! From one instruction to its word: sixteen binary digits, the highest
//! first.

use vstd::prelude::*;
use vstd::arithmetic::div_mod::lemma_mod_breakdown;
use crate::error::{AssembleError, Failure};
use crate::instruction::{optional_text, Instruction, Statement};
use crate::symbols::{SymbolTable, Symbols};
use crate::tables::{
    comp_code,
    comp_to_binary,
    dest_code,
    dest_to_binary,
    jump_code,
    jump_to_binary,
};
use crate::text::to_chars;

verus! {

/// The least number that no address instruction can hold: an address has
/// fifteen bits.
pub const ADDRESS_LIMIT: usize = 32768;

/// The lowest `width` binary digits of `value`, the highest of them first.
pub open spec fn to_bits(value: nat, width: nat) -> Seq<char>
    decreases width,
{
    if width == 0 {
        Seq::empty()
    } else {
        to_bits(value / 2, (width - 1) as nat).push(
            if value % 2 == 1 {
                '1'
            } else {
                '0'
            },
        )
    }
}

/// The number that a sequence of binary digits spells, the highest digit
/// first.
pub open spec fn from_bits(digits: Seq<char>) -> nat
    decreases digits.len(),
{
    if digits.len() == 0 {
        0
    } else {
        2 * from_bits(digits.drop_last()) + if digits.last() == '1' {
            1nat
        } else {
            0nat
        }
    }
}

/// Two to the power `width`.
pub open spec fn two_to(width: nat) -> nat
    decreases width,
{
    if width == 0 {
        1
    } else {
        2 * two_to((width - 1) as nat)
    }
}

/// Whether `c` is one of the ten decimal digits.
pub open spec fn is_digit(c: char) -> bool {
    '0' as u32 <= c as u32 <= '9' as u32
}

/// Whether `s` is a run of decimal digits, at least one.
pub open spec fn is_digits(s: Seq<char>) -> bool {
    s.len() > 0 && forall|i: int| 0 <= i < s.len() ==> is_digit(#[trigger] s[i])
}

/// The number that a run of decimal digits spells.
pub open spec fn digits_value(s: Seq<char>) -> nat
    decreases s.len(),
{
    if s.len() == 0 {
        0
    } else {
        10 * digits_value(s.drop_last()) + (s.last() as u32 - '0' as u32) as nat
    }
}

/// Whether `s` has a sign in front.
pub open spec fn is_signed(s: Seq<char>) -> bool {
    s.len() > 0 && (s[0] == '+' || s[0] == '-')
}

/// Whether `s` is a decimal literal: a run of decimal digits, with or
/// without one sign in front of it. What is no literal is a symbol.
pub open spec fn is_literal(s: Seq<char>) -> bool {
    if is_signed(s) {
        is_digits(s.skip(1))
    } else {
        is_digits(s)
    }
}

/// The number that a decimal literal spells.
pub open spec fn literal_value(s: Seq<char>) -> int
    recommends
        is_literal(s),
{
    if is_signed(s) {
        if s[0] == '-' {
            -(digits_value(s.skip(1)) as int)
        } else {
            digits_value(s.skip(1)) as int
        }
    } else {
        digits_value(s) as int
    }
}

/// The word of an address instruction: a zero, then the fifteen bits of the
/// address.
pub open spec fn address_word(address: nat) -> Seq<char> {
    seq!['0'] + to_bits(address, 15)
}

/// The word of a computation: three ones, then the seven bits of the
/// computation, the three of the destination and the three of the jump.
pub open spec fn compute_word(comp: u16, dest: u16, jump: u16) -> Seq<char> {
    seq!['1', '1', '1'] + to_bits(comp as nat, 7) + to_bits(dest as nat, 3) + to_bits(
        jump as nat,
        3,
    )
}

/// What encoding one instruction gives: its word, if it has one, and the
/// symbol table after it; or the failure.
///
/// A label has no word. An address instruction with a literal holds the
/// literal's number; with a symbol it holds the address that the symbol is
/// bound to, and a symbol not yet bound is bound as the next variable first.
/// Either number must lie below `ADDRESS_LIMIT`. A computation fails on the
/// first of its computation, destination and jump that its table does not
/// hold.
pub open spec fn encode(statement: Statement, symbols: Symbols) -> Result<
    (Option<Seq<char>>, Symbols),
    Failure,
> {
    match statement {
        Statement::L { value } => Ok((None, symbols)),
        Statement::A { value } => if is_literal(value) {
            if 0 <= literal_value(value) < ADDRESS_LIMIT {
                Ok((Some(address_word(literal_value(value) as nat)), symbols))
            } else {
                Err(Failure::OutOfRangeLiteral(value))
            }
        } else {
            if symbols.address_of(value) < ADDRESS_LIMIT {
                Ok(
                    (
                        Some(address_word(symbols.address_of(value))),
                        symbols.after_reference(value),
                    ),
                )
            } else {
                Err(Failure::OutOfRangeAddress(value))
            }
        },
        Statement::C { dest, comp, jump } => match comp_code(comp) {
            None => Err(Failure::UnknownMnemonic(comp)),
            Some(c) => match dest_code(dest) {
                None => Err(Failure::UnknownMnemonic(dest->0)),
                Some(d) => match jump_code(jump) {
                    None => Err(Failure::UnknownMnemonic(jump->0)),
                    Some(j) => Ok((Some(compute_word(c, d, j)), symbols)),
                },
            },
        },
    }
}

/// `to_bits` gives as many digits as asked for, each a `0` or a `1`, and
/// they spell the number again as far as it fits in them.
pub proof fn lemma_to_bits(value: nat, width: nat)
    ensures
        to_bits(value, width).len() == width,
        forall|i: int|
            0 <= i < width ==> (#[trigger] to_bits(value, width)[i] == '0' || to_bits(
                value,
                width,
            )[i] == '1'),
        from_bits(to_bits(value, width)) == value % two_to(width),
    decreases width,
{
    if width > 0 {
        let rest = to_bits(value / 2, (width - 1) as nat);
        let half = two_to((width - 1) as nat);
        lemma_to_bits(value / 2, (width - 1) as nat);
        lemma_two_to_positive((width - 1) as nat);
        assert(to_bits(value, width).drop_last() =~= rest);
        lemma_mod_breakdown(value as int, 2, half as int);
    }
}

/// A power of two is positive.
pub proof fn lemma_two_to_positive(width: nat)
    ensures
        two_to(width) > 0,
    decreases width,
{
    if width > 0 {
        lemma_two_to_positive((width - 1) as nat);
    }
}

/// Appends the lowest `width` binary digits of `value` to `out`, the highest
/// of them first.
fn push_bits(out: &mut String, value: u16, width: u8)
    ensures
        final(out)@ == old(out)@ + to_bits(value as nat, width as nat),
    decreases width,
{
    if width == 0 {
        assert(out@ + to_bits(value as nat, 0) =~= out@);
    } else {
        push_bits(out, value / 2, width - 1);
        out.push(
            if value % 2 == 1 {
                '1'
            } else {
                '0'
            },
        );
        assert(out@ =~= old(out)@ + to_bits(value as nat, width as nat));
    }
}

/// The word of an address instruction that holds `address`.
fn address_to_word(address: u16) -> (word: String)
    ensures
        word@ == address_word(address as nat),
{
    let mut word = String::new();
    word.push('0');
    push_bits(&mut word, address, 15);
    assert(word@ =~= address_word(address as nat));
    word
}

/// Whether `c` is a decimal digit.
fn is_decimal_digit(c: char) -> (b: bool)
    ensures
        b == is_digit(c),
{
    let u: u32 = c as u32;
    48 <= u && u <= 57
}

/// Reads `s` as a decimal literal. `None` where it is none; else its number
/// where that lies below `ADDRESS_LIMIT`, and `ADDRESS_LIMIT` where it does
/// not.
fn read_literal(s: &Vec<char>) -> (r: Option<u32>)
    ensures
        match r {
            None => !is_literal(s@),
            Some(n) => is_literal(s@) && if 0 <= literal_value(s@) < ADDRESS_LIMIT {
                n == literal_value(s@)
            } else {
                n == ADDRESS_LIMIT
            },
        },
{
    let n: usize = s.len();
    let signed: bool = n > 0 && (s[0] == '+' || s[0] == '-');
    let from: usize = if signed {
        1
    } else {
        0
    };
    let ghost digits = s@.skip(from as int);
    assert(!signed ==> digits =~= s@);
    if from == n {
        return None;
    }
    let mut total: u32 = 0;
    let mut i: usize = from;
    while i < n
        invariant
            from <= i <= n == s@.len(),
            digits == s@.skip(from as int),
            signed == is_signed(s@),
            signed ==> from == 1,
            !signed ==> digits == s@,
            is_digits(digits.take(i - from)) || i == from,
            total <= ADDRESS_LIMIT,
            total < ADDRESS_LIMIT ==> total == digits_value(digits.take(i - from)),
            total == ADDRESS_LIMIT ==> digits_value(digits.take(i - from)) >= ADDRESS_LIMIT,
        decreases n - i,
    {
        let c = s[i];
        if !is_decimal_digit(c) {
            assert(digits[i - from] == c);
            return None;
        }
        let ghost before = digits.take(i - from);
        let ghost after = digits.take(i - from + 1);
        proof {
            assert(after.drop_last() =~= before);
            assert(after.last() == c);
            assert forall|k: int| 0 <= k < after.len() implies is_digit(#[trigger] after[k]) by {
                if k < before.len() {
                    assert(after[k] == before[k]);
                }
            }
        }
        let digit: u32 = c as u32 - 48u32;
        total = if total >= 3277 {
            32768
        } else {
            let sum: u32 = total * 10 + digit;
            if sum >= 32768 {
                32768
            } else {
                sum
            }
        };
        i += 1;
    }
    assert(digits.take(n - from) =~= digits);
    if signed && s[0] == '-' && total > 0 {
        return Some(32768);
    }
    Some(total)
}

/// Encodes one instruction: `None` for a label, else the word of sixteen
/// binary digits. A symbol that is not yet bound is bound in `symbols` as
/// the next variable. On a failure `symbols` is left as it was.
pub fn to_binary_string(instruction: &Instruction, symbols: &mut SymbolTable) -> (r: Result<
    Option<String>,
    AssembleError,
>)
    ensures
        match r {
            Ok(word) => encode(instruction@, old(symbols)@) == Ok::<
                (Option<Seq<char>>, Symbols),
                Failure,
            >((optional_text(word), final(symbols)@)),
            Err(e) => encode(instruction@, old(symbols)@) == Err::<
                (Option<Seq<char>>, Symbols),
                Failure,
            >(e@) && final(symbols)@ == old(symbols)@,
        },
{
    match instruction {
        Instruction::L { value } => Ok(None),
        Instruction::A { value } => {
            let chars = to_chars(value.as_str());
            match read_literal(&chars) {
                Some(n) => {
                    if n >= 32768 {
                        return Err(AssembleError::OutOfRangeLiteral(value.clone()));
                    }
                    Ok(Some(address_to_word(n as u16)))
                },
                None => {
                    let address: usize = match symbols.get(value.as_str()) {
                        Some(a) => {
                            if a >= ADDRESS_LIMIT {
                                return Err(AssembleError::OutOfRangeAddress(value.clone()));
                            }
                            a
                        },
                        None => {
                            if symbols.next_variable() >= ADDRESS_LIMIT {
                                return Err(AssembleError::OutOfRangeAddress(value.clone()));
                            }
                            symbols.add_variable(value.clone())
                        },
                    };
                    Ok(Some(address_to_word(address as u16)))
                },
            }
        },
        Instruction::C { dest, comp, jump } => {
            let c = comp_to_binary(comp.as_str())?;
            let d = dest_to_binary(
                match dest {
                    Some(token) => Some(token.as_str()),
                    None => None,
                },
            )?;
            let j = jump_to_binary(
                match jump {
                    Some(token) => Some(token.as_str()),
                    None => None,
                },
            )?;
            let mut word = String::new();
            word.push('1');
            word.push('1');
            word.push('1');
            push_bits(&mut word, c, 7);
            push_bits(&mut word, d, 3);
            push_bits(&mut word, j, 3);
            assert(word@ =~= compute_word(c, d, j));
            Ok(Some(word))
        },
    }
}

/// Whether `word` is a line of the translated program: sixteen characters,
/// each a `0` or a `1`.
pub open spec fn is_word(word: Seq<char>) -> bool {
    word.len() == 16 && forall|i: int| 0 <= i < 16 ==> (#[trigger] word[i] == '0' || word[i] == '1')
}

/// An instruction that is encoded gives a word exactly if it is no label,
/// and what it gives is sixteen binary digits.
pub proof fn lemma_encode_word(statement: Statement, symbols: Symbols)
    requires
        encode(statement, symbols) is Ok,
    ensures
        encode(statement, symbols)->Ok_0.0 is Some <==> statement.occupies_address(),
        encode(statement, symbols)->Ok_0.0 is Some ==> is_word(
            encode(statement, symbols)->Ok_0.0->0,
        ),
{
    match statement {
        Statement::L { value } => {},
        Statement::A { value } => {
            let word = encode(statement, symbols)->Ok_0.0->0;
            let address: nat = if is_literal(value) {
                literal_value(value) as nat
            } else {
                symbols.address_of(value)
            };
            lemma_to_bits(address, 15);
            assert(word == address_word(address));
            assert forall|i: int| 0 <= i < 16 implies (#[trigger] word[i] == '0' || word[i]
                == '1') by {
                if i > 0 {
                    assert(word[i] == to_bits(address, 15)[i - 1]);
                }
            }
        },
        Statement::C { dest, comp, jump } => {
            let word = encode(statement, symbols)->Ok_0.0->0;
            let c = comp_code(comp)->0 as nat;
            let d = dest_code(dest)->0 as nat;
            let j = jump_code(jump)->0 as nat;
            lemma_to_bits(c, 7);
            lemma_to_bits(d, 3);
            lemma_to_bits(j, 3);
            assert forall|i: int| 0 <= i < 16 implies (#[trigger] word[i] == '0' || word[i]
                == '1') by {
                if 3 <= i < 10 {
                    assert(word[i] == to_bits(c, 7)[i - 3]);
                } else if 10 <= i < 13 {
                    assert(word[i] == to_bits(d, 3)[i - 10]);
                } else if 13 <= i {
                    assert(word[i] == to_bits(j, 3)[i - 13]);
                }
            }
        },
    }
}

/// Encoding an instruction never changes what a name is bound to, and never
/// lowers the address of the next variable.
pub proof fn lemma_encode_keeps_bindings(statement: Statement, symbols: Symbols)
    requires
        encode(statement, symbols) is Ok,
    ensures
        symbols.addresses.submap_of(encode(statement, symbols)->Ok_0.1.addresses),
        symbols.next_variable <= encode(statement, symbols)->Ok_0.1.next_variable,
{
}

/// The word of an address instruction spells its address: the sixteen digits
/// read as a number give the address again.
pub proof fn lemma_address_word_value(address: nat)
    requires
        address < ADDRESS_LIMIT,
    ensures
        from_bits(address_word(address)) == address,
{
    let word = address_word(address);
    lemma_to_bits(address, 15);
    lemma_from_bits_leading_zero(to_bits(address, 15));
    assert(two_to(15) == 32768) by {
        reveal_with_fuel(two_to, 16);
    }
}

/// A zero in front of binary digits does not change the number they spell.
pub proof fn lemma_from_bits_leading_zero(digits: Seq<char>)
    ensures
        from_bits(seq!['0'] + digits) == from_bits(digits),
    decreases digits.len(),
{
    let all = seq!['0'] + digits;
    if digits.len() == 0 {
        assert(all.drop_last() =~= Seq::<char>::empty());
        reveal_with_fuel(from_bits, 2);
    } else {
        assert(all.drop_last() =~= seq!['0'] + digits.drop_last());
        lemma_from_bits_leading_zero(digits.drop_last());
    }
}

} // verus!
