//! The three fixed tables of the machine language: which bits select a
//! computation, a destination and a jump.

use vstd::prelude::*;
use vstd::string::StringExecFns;
use crate::error::{AssembleError, Failure};
use crate::text::to_chars;

verus! {

/// The seven bits that select a computation, as a number; `None` for a token
/// that names none. The mnemonics that read the memory `M` in place of the
/// register `A` have the highest of the seven bits set.
pub open spec fn comp_code(m: Seq<char>) -> Option<u16> {
    if m =~= "0"@ {
        Some(0b0101010)
    } else if m =~= "1"@ {
        Some(0b0111111)
    } else if m =~= "-1"@ {
        Some(0b0111010)
    } else if m =~= "D"@ {
        Some(0b0001100)
    } else if m =~= "A"@ {
        Some(0b0110000)
    } else if m =~= "!D"@ {
        Some(0b0001101)
    } else if m =~= "!A"@ {
        Some(0b0110001)
    } else if m =~= "-D"@ {
        Some(0b0001111)
    } else if m =~= "-A"@ {
        Some(0b0110011)
    } else if m =~= "D+1"@ {
        Some(0b0011111)
    } else if m =~= "A+1"@ {
        Some(0b0110111)
    } else if m =~= "D-1"@ {
        Some(0b0001110)
    } else if m =~= "A-1"@ {
        Some(0b0110010)
    } else if m =~= "D+A"@ {
        Some(0b0000010)
    } else if m =~= "D-A"@ {
        Some(0b0010011)
    } else if m =~= "A-D"@ {
        Some(0b0000111)
    } else if m =~= "D&A"@ {
        Some(0b0000000)
    } else if m =~= "D|A"@ {
        Some(0b0010101)
    } else if m =~= "M"@ {
        Some(0b1110000)
    } else if m =~= "!M"@ {
        Some(0b1110001)
    } else if m =~= "-M"@ {
        Some(0b1110011)
    } else if m =~= "M+1"@ {
        Some(0b1110111)
    } else if m =~= "M-1"@ {
        Some(0b1110010)
    } else if m =~= "D+M"@ {
        Some(0b1000010)
    } else if m =~= "D-M"@ {
        Some(0b1010011)
    } else if m =~= "M-D"@ {
        Some(0b1000111)
    } else if m =~= "D&M"@ {
        Some(0b1000000)
    } else if m =~= "D|M"@ {
        Some(0b1010101)
    } else {
        None
    }
}

/// The three bits that select where a result is stored, as a number: 4 for
/// `A`, 2 for `D`, 1 for `M`, added up. No destination selects none of them.
/// `None` for a token that is not one of the seven spellings.
pub open spec fn dest_code(d: Option<Seq<char>>) -> Option<u16> {
    match d {
        None => Some(0),
        Some(m) => if m =~= "M"@ {
            Some(1)
        } else if m =~= "D"@ {
            Some(2)
        } else if m =~= "MD"@ {
            Some(3)
        } else if m =~= "A"@ {
            Some(4)
        } else if m =~= "AM"@ {
            Some(5)
        } else if m =~= "AD"@ {
            Some(6)
        } else if m =~= "AMD"@ {
            Some(7)
        } else {
            None
        },
    }
}

/// The three bits that select a jump, as a number: 4 to jump on a negative
/// result, 2 on zero, 1 on a positive one, added up. No jump selects none of
/// them. `None` for a token that is not one of the seven mnemonics.
pub open spec fn jump_code(j: Option<Seq<char>>) -> Option<u16> {
    match j {
        None => Some(0),
        Some(m) => if m =~= "JGT"@ {
            Some(1)
        } else if m =~= "JEQ"@ {
            Some(2)
        } else if m =~= "JGE"@ {
            Some(3)
        } else if m =~= "JLT"@ {
            Some(4)
        } else if m =~= "JNE"@ {
            Some(5)
        } else if m =~= "JLE"@ {
            Some(6)
        } else if m =~= "JMP"@ {
            Some(7)
        } else {
            None
        },
    }
}

/// The characters of an optional piece of text.
pub open spec fn optional_chars(s: Option<&str>) -> Option<Seq<char>> {
    match s {
        Some(t) => Some(t@),
        None => None,
    }
}

/// The spellings of the computation table, character by character.
proof fn reveal_comp_mnemonics()
    ensures
        "0"@ =~= seq!['0'],
        "1"@ =~= seq!['1'],
        "-1"@ =~= seq!['-', '1'],
        "D"@ =~= seq!['D'],
        "A"@ =~= seq!['A'],
        "M"@ =~= seq!['M'],
        "!D"@ =~= seq!['!', 'D'],
        "!A"@ =~= seq!['!', 'A'],
        "!M"@ =~= seq!['!', 'M'],
        "-D"@ =~= seq!['-', 'D'],
        "-A"@ =~= seq!['-', 'A'],
        "-M"@ =~= seq!['-', 'M'],
        "D+1"@ =~= seq!['D', '+', '1'],
        "A+1"@ =~= seq!['A', '+', '1'],
        "M+1"@ =~= seq!['M', '+', '1'],
        "D-1"@ =~= seq!['D', '-', '1'],
        "A-1"@ =~= seq!['A', '-', '1'],
        "M-1"@ =~= seq!['M', '-', '1'],
        "D+A"@ =~= seq!['D', '+', 'A'],
        "D+M"@ =~= seq!['D', '+', 'M'],
        "D-A"@ =~= seq!['D', '-', 'A'],
        "D-M"@ =~= seq!['D', '-', 'M'],
        "A-D"@ =~= seq!['A', '-', 'D'],
        "M-D"@ =~= seq!['M', '-', 'D'],
        "D&A"@ =~= seq!['D', '&', 'A'],
        "D&M"@ =~= seq!['D', '&', 'M'],
        "D|A"@ =~= seq!['D', '|', 'A'],
        "D|M"@ =~= seq!['D', '|', 'M'],
{
    reveal_strlit("0");
    reveal_strlit("1");
    reveal_strlit("-1");
    reveal_strlit("D");
    reveal_strlit("A");
    reveal_strlit("M");
    reveal_strlit("!D");
    reveal_strlit("!A");
    reveal_strlit("!M");
    reveal_strlit("-D");
    reveal_strlit("-A");
    reveal_strlit("-M");
    reveal_strlit("D+1");
    reveal_strlit("A+1");
    reveal_strlit("M+1");
    reveal_strlit("D-1");
    reveal_strlit("A-1");
    reveal_strlit("M-1");
    reveal_strlit("D+A");
    reveal_strlit("D+M");
    reveal_strlit("D-A");
    reveal_strlit("D-M");
    reveal_strlit("A-D");
    reveal_strlit("M-D");
    reveal_strlit("D&A");
    reveal_strlit("D&M");
    reveal_strlit("D|A");
    reveal_strlit("D|M");
}

/// The spellings of the destination table, character by character.
proof fn reveal_dest_mnemonics()
    ensures
        "M"@ =~= seq!['M'],
        "D"@ =~= seq!['D'],
        "MD"@ =~= seq!['M', 'D'],
        "A"@ =~= seq!['A'],
        "AM"@ =~= seq!['A', 'M'],
        "AD"@ =~= seq!['A', 'D'],
        "AMD"@ =~= seq!['A', 'M', 'D'],
{
    reveal_strlit("M");
    reveal_strlit("D");
    reveal_strlit("MD");
    reveal_strlit("A");
    reveal_strlit("AM");
    reveal_strlit("AD");
    reveal_strlit("AMD");
}

/// The spellings of the jump table, character by character.
proof fn reveal_jump_mnemonics()
    ensures
        "JGT"@ =~= seq!['J', 'G', 'T'],
        "JEQ"@ =~= seq!['J', 'E', 'Q'],
        "JGE"@ =~= seq!['J', 'G', 'E'],
        "JLT"@ =~= seq!['J', 'L', 'T'],
        "JNE"@ =~= seq!['J', 'N', 'E'],
        "JLE"@ =~= seq!['J', 'L', 'E'],
        "JMP"@ =~= seq!['J', 'M', 'P'],
{
    reveal_strlit("JGT");
    reveal_strlit("JEQ");
    reveal_strlit("JGE");
    reveal_strlit("JLT");
    reveal_strlit("JNE");
    reveal_strlit("JLE");
    reveal_strlit("JMP");
}

/// Looks a token up in the computation table. A token that the table does
/// not hold fails with `AssembleError::UnknownMnemonic`.
pub fn comp_to_binary(s: &str) -> (r: Result<u16, AssembleError>)
    ensures
        match r {
            Ok(bits) => comp_code(s@) == Some(bits),
            Err(e) => comp_code(s@) is None && e@ == Failure::UnknownMnemonic(s@),
        },
{
    let m = to_chars(s);
    let n: usize = m.len();
    proof {
        reveal_comp_mnemonics();
    }
    let found: Option<u16> = if n == 1 {
        match m[0] {
            '0' => Some(0b0101010),
            '1' => Some(0b0111111),
            'D' => Some(0b0001100),
            'A' => Some(0b0110000),
            'M' => Some(0b1110000),
            _ => None,
        }
    } else if n == 2 {
        match (m[0], m[1]) {
            ('-', '1') => Some(0b0111010),
            ('!', 'D') => Some(0b0001101),
            ('!', 'A') => Some(0b0110001),
            ('!', 'M') => Some(0b1110001),
            ('-', 'D') => Some(0b0001111),
            ('-', 'A') => Some(0b0110011),
            ('-', 'M') => Some(0b1110011),
            _ => None,
        }
    } else if n == 3 {
        match (m[0], m[1], m[2]) {
            ('D', '+', '1') => Some(0b0011111),
            ('A', '+', '1') => Some(0b0110111),
            ('M', '+', '1') => Some(0b1110111),
            ('D', '-', '1') => Some(0b0001110),
            ('A', '-', '1') => Some(0b0110010),
            ('M', '-', '1') => Some(0b1110010),
            ('D', '+', 'A') => Some(0b0000010),
            ('D', '+', 'M') => Some(0b1000010),
            ('D', '-', 'A') => Some(0b0010011),
            ('D', '-', 'M') => Some(0b1010011),
            ('A', '-', 'D') => Some(0b0000111),
            ('M', '-', 'D') => Some(0b1000111),
            ('D', '&', 'A') => Some(0b0000000),
            ('D', '&', 'M') => Some(0b1000000),
            ('D', '|', 'A') => Some(0b0010101),
            ('D', '|', 'M') => Some(0b1010101),
            _ => None,
        }
    } else {
        None
    };
    assert(found == comp_code(s@));
    match found {
        Some(bits) => Ok(bits),
        None => Err(AssembleError::UnknownMnemonic(String::from_str(s))),
    }
}

/// Looks an optional token up in the destination table. A token that the
/// table does not hold fails with `AssembleError::UnknownMnemonic`.
pub fn dest_to_binary(s: Option<&str>) -> (r: Result<u16, AssembleError>)
    ensures
        match r {
            Ok(bits) => dest_code(optional_chars(s)) == Some(bits),
            Err(e) => dest_code(optional_chars(s)) is None && s is Some && e@
                == Failure::UnknownMnemonic(s->0@),
        },
{
    let token = match s {
        None => {
            return Ok(0);
        },
        Some(token) => token,
    };
    let m = to_chars(token);
    let n: usize = m.len();
    proof {
        reveal_dest_mnemonics();
    }
    let found: Option<u16> = if n == 1 {
        match m[0] {
            'M' => Some(1),
            'D' => Some(2),
            'A' => Some(4),
            _ => None,
        }
    } else if n == 2 {
        match (m[0], m[1]) {
            ('M', 'D') => Some(3),
            ('A', 'M') => Some(5),
            ('A', 'D') => Some(6),
            _ => None,
        }
    } else if n == 3 {
        match (m[0], m[1], m[2]) {
            ('A', 'M', 'D') => Some(7),
            _ => None,
        }
    } else {
        None
    };
    assert(found == dest_code(Some(token@)));
    match found {
        Some(bits) => Ok(bits),
        None => Err(AssembleError::UnknownMnemonic(String::from_str(token))),
    }
}

/// Looks an optional token up in the jump table. A token that the table does
/// not hold fails with `AssembleError::UnknownMnemonic`.
pub fn jump_to_binary(s: Option<&str>) -> (r: Result<u16, AssembleError>)
    ensures
        match r {
            Ok(bits) => jump_code(optional_chars(s)) == Some(bits),
            Err(e) => jump_code(optional_chars(s)) is None && s is Some && e@
                == Failure::UnknownMnemonic(s->0@),
        },
{
    let token = match s {
        None => {
            return Ok(0);
        },
        Some(token) => token,
    };
    let m = to_chars(token);
    let n: usize = m.len();
    proof {
        reveal_jump_mnemonics();
    }
    let found: Option<u16> = if n == 3 {
        match (m[0], m[1], m[2]) {
            ('J', 'G', 'T') => Some(1),
            ('J', 'E', 'Q') => Some(2),
            ('J', 'G', 'E') => Some(3),
            ('J', 'L', 'T') => Some(4),
            ('J', 'N', 'E') => Some(5),
            ('J', 'L', 'E') => Some(6),
            ('J', 'M', 'P') => Some(7),
            _ => None,
        }
    } else {
        None
    };
    assert(found == jump_code(Some(token@)));
    match found {
        Some(bits) => Ok(bits),
        None => Err(AssembleError::UnknownMnemonic(String::from_str(token))),
    }
}

} // verus!
