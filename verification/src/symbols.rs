//! The symbol table: the names that a program may use for addresses. It
//! begins with the names that the machine defines and takes up the labels of
//! the program; variables join it later, one by one, as they are first met.

use vstd::prelude::*;
use vstd::hash_map::StringHashMap;
use vstd::string::StringExecFns;
use crate::error::{AssembleError, Failure};
use crate::instruction::{instruction_count, Instruction, Statement};

verus! {

/// The address that the first variable of a program gets.
pub const FIRST_VARIABLE: usize = 16;

/// The names that every program may use, with their addresses: the stack
/// pointer and the four segment pointers, the sixteen registers, and the two
/// devices that are mapped into memory.
pub open spec fn predefined() -> Map<Seq<char>, nat> {
    map![
        "SP"@ => 0nat,
        "LCL"@ => 1nat,
        "ARG"@ => 2nat,
        "THIS"@ => 3nat,
        "THAT"@ => 4nat,
        "R0"@ => 0nat,
        "R1"@ => 1nat,
        "R2"@ => 2nat,
        "R3"@ => 3nat,
        "R4"@ => 4nat,
        "R5"@ => 5nat,
        "R6"@ => 6nat,
        "R7"@ => 7nat,
        "R8"@ => 8nat,
        "R9"@ => 9nat,
        "R10"@ => 10nat,
        "R11"@ => 11nat,
        "R12"@ => 12nat,
        "R13"@ => 13nat,
        "R14"@ => 14nat,
        "R15"@ => 15nat,
        "SCREEN"@ => 16384nat,
        "KBD"@ => 24576nat,
    ]
}

/// The bindings after the labels of `program` have been taken up, starting
/// from the predefined names. A label stands for the number of instructions
/// before it that take a place in the translated program. A label whose
/// name is already bound, by the machine or by an earlier label, is a
/// failure, and the first such label decides which.
pub open spec fn resolve_labels(program: Seq<Statement>) -> Result<Map<Seq<char>, nat>, Failure>
    decreases program.len(),
{
    if program.len() == 0 {
        Ok(predefined())
    } else {
        match resolve_labels(program.drop_last()) {
            Err(e) => Err(e),
            Ok(bound) => match program.last() {
                Statement::L { value } => if bound.contains_key(value) {
                    Err(Failure::DuplicateLabel(value))
                } else {
                    Ok(bound.insert(value, instruction_count(program.drop_last())))
                },
                _ => Ok(bound),
            },
        }
    }
}

/// The predefined names and their addresses, one by one: `SP`, `LCL`, `ARG`,
/// `THIS` and `THAT` stand for 0 to 4, `R0` to `R15` for 0 to 15, `SCREEN`
/// for 16384 and `KBD` for 24576. No two of the names are the same text.
pub proof fn lemma_predefined_addresses()
    ensures
        predefined().contains_key("SP"@) && predefined()["SP"@] == 0,
        predefined().contains_key("LCL"@) && predefined()["LCL"@] == 1,
        predefined().contains_key("ARG"@) && predefined()["ARG"@] == 2,
        predefined().contains_key("THIS"@) && predefined()["THIS"@] == 3,
        predefined().contains_key("THAT"@) && predefined()["THAT"@] == 4,
        predefined().contains_key("R0"@) && predefined()["R0"@] == 0,
        predefined().contains_key("R1"@) && predefined()["R1"@] == 1,
        predefined().contains_key("R2"@) && predefined()["R2"@] == 2,
        predefined().contains_key("R3"@) && predefined()["R3"@] == 3,
        predefined().contains_key("R4"@) && predefined()["R4"@] == 4,
        predefined().contains_key("R5"@) && predefined()["R5"@] == 5,
        predefined().contains_key("R6"@) && predefined()["R6"@] == 6,
        predefined().contains_key("R7"@) && predefined()["R7"@] == 7,
        predefined().contains_key("R8"@) && predefined()["R8"@] == 8,
        predefined().contains_key("R9"@) && predefined()["R9"@] == 9,
        predefined().contains_key("R10"@) && predefined()["R10"@] == 10,
        predefined().contains_key("R11"@) && predefined()["R11"@] == 11,
        predefined().contains_key("R12"@) && predefined()["R12"@] == 12,
        predefined().contains_key("R13"@) && predefined()["R13"@] == 13,
        predefined().contains_key("R14"@) && predefined()["R14"@] == 14,
        predefined().contains_key("R15"@) && predefined()["R15"@] == 15,
        predefined().contains_key("SCREEN"@) && predefined()["SCREEN"@] == 16384,
        predefined().contains_key("KBD"@) && predefined()["KBD"@] == 24576,
{
    reveal_strlit("SP");
    reveal_strlit("LCL");
    reveal_strlit("ARG");
    reveal_strlit("THIS");
    reveal_strlit("THAT");
    reveal_strlit("R0");
    reveal_strlit("R1");
    reveal_strlit("R2");
    reveal_strlit("R3");
    reveal_strlit("R4");
    reveal_strlit("R5");
    reveal_strlit("R6");
    reveal_strlit("R7");
    reveal_strlit("R8");
    reveal_strlit("R9");
    reveal_strlit("R10");
    reveal_strlit("R11");
    reveal_strlit("R12");
    reveal_strlit("R13");
    reveal_strlit("R14");
    reveal_strlit("R15");
    reveal_strlit("SCREEN");
    reveal_strlit("KBD");
    assert("SP"@.len() == 2);
    assert("LCL"@.len() == 3);
    assert("ARG"@.len() == 3);
    assert("THIS"@.len() == 4);
    assert("THAT"@.len() == 4);
    assert("R0"@.len() == 2);
    assert("R1"@.len() == 2);
    assert("R2"@.len() == 2);
    assert("R3"@.len() == 2);
    assert("R4"@.len() == 2);
    assert("R5"@.len() == 2);
    assert("R6"@.len() == 2);
    assert("R7"@.len() == 2);
    assert("R8"@.len() == 2);
    assert("R9"@.len() == 2);
    assert("R10"@.len() == 3);
    assert("R11"@.len() == 3);
    assert("R12"@.len() == 3);
    assert("R13"@.len() == 3);
    assert("R14"@.len() == 3);
    assert("R15"@.len() == 3);
    assert("SCREEN"@.len() == 6);
    assert("KBD"@.len() == 3);
    assert("SP"@[0] == 'S');
    assert("LCL"@[0] == 'L');
    assert("ARG"@[0] == 'A');
    assert("THIS"@[0] == 'T');
    assert("THAT"@[0] == 'T');
    assert("R0"@[1] == '0');
    assert("R1"@[1] == '1');
    assert("R2"@[1] == '2');
    assert("R3"@[1] == '3');
    assert("R4"@[1] == '4');
    assert("R5"@[1] == '5');
    assert("R6"@[1] == '6');
    assert("R7"@[1] == '7');
    assert("R8"@[1] == '8');
    assert("R9"@[1] == '9');
    assert("R10"@[2] == '0');
    assert("R11"@[2] == '1');
    assert("R12"@[2] == '2');
    assert("R13"@[2] == '3');
    assert("R14"@[2] == '4');
    assert("R15"@[2] == '5');
    assert("SCREEN"@[0] == 'S');
    assert("KBD"@[0] == 'K');
    assert("THIS"@[2] == 'I');
    assert("THAT"@[2] == 'A');
    assert("R10"@[0] == 'R');
}

/// What a symbol table holds: the address of each bound name, and the
/// address that the next new variable will get.
pub struct Symbols {
    pub addresses: Map<Seq<char>, nat>,
    pub next_variable: nat,
}

impl Symbols {
    /// The table of a program before its first instruction is encoded.
    pub open spec fn initial(labels: Map<Seq<char>, nat>) -> Symbols {
        Symbols { addresses: labels, next_variable: FIRST_VARIABLE as nat }
    }

    /// The table with `name` bound as the next variable.
    pub open spec fn with_variable(self, name: Seq<char>) -> Symbols {
        Symbols {
            addresses: self.addresses.insert(name, self.next_variable),
            next_variable: self.next_variable + 1,
        }
    }

    /// The address that a reference to `name` stands for: its binding, or for
    /// a name not yet bound the address of the next variable.
    pub open spec fn address_of(self, name: Seq<char>) -> nat {
        if self.addresses.contains_key(name) {
            self.addresses[name]
        } else {
            self.next_variable
        }
    }

    /// The table after a reference to `name`: the same where the name is
    /// bound, else with the name bound as the next variable.
    pub open spec fn after_reference(self, name: Seq<char>) -> Symbols {
        if self.addresses.contains_key(name) {
            self
        } else {
            self.with_variable(name)
        }
    }
}

/// The names of a program and their addresses.
pub struct SymbolTable {
    addresses: StringHashMap<usize>,
    next_variable: usize,
}

impl View for SymbolTable {
    type V = Symbols;

    closed spec fn view(&self) -> Symbols {
        Symbols {
            addresses: Map::new(
                |name: Seq<char>| self.addresses@.contains_key(name),
                |name: Seq<char>| self.addresses@[name] as nat,
            ),
            next_variable: self.next_variable as nat,
        }
    }
}

impl SymbolTable {
    /// A table that holds the predefined names and nothing else.
    pub fn new() -> (table: SymbolTable)
        ensures
            table@ == Symbols::initial(predefined()),
    {
        let mut addresses: StringHashMap<usize> = StringHashMap::new();
        addresses.insert(String::from_str("SP"), 0);
        addresses.insert(String::from_str("LCL"), 1);
        addresses.insert(String::from_str("ARG"), 2);
        addresses.insert(String::from_str("THIS"), 3);
        addresses.insert(String::from_str("THAT"), 4);
        addresses.insert(String::from_str("R0"), 0);
        addresses.insert(String::from_str("R1"), 1);
        addresses.insert(String::from_str("R2"), 2);
        addresses.insert(String::from_str("R3"), 3);
        addresses.insert(String::from_str("R4"), 4);
        addresses.insert(String::from_str("R5"), 5);
        addresses.insert(String::from_str("R6"), 6);
        addresses.insert(String::from_str("R7"), 7);
        addresses.insert(String::from_str("R8"), 8);
        addresses.insert(String::from_str("R9"), 9);
        addresses.insert(String::from_str("R10"), 10);
        addresses.insert(String::from_str("R11"), 11);
        addresses.insert(String::from_str("R12"), 12);
        addresses.insert(String::from_str("R13"), 13);
        addresses.insert(String::from_str("R14"), 14);
        addresses.insert(String::from_str("R15"), 15);
        addresses.insert(String::from_str("SCREEN"), 16384);
        addresses.insert(String::from_str("KBD"), 24576);
        let table = SymbolTable { addresses, next_variable: FIRST_VARIABLE };
        assert(table@.addresses =~= predefined());
        table
    }

    /// The address that `name` is bound to, if it is bound.
    pub fn get(&self, name: &str) -> (address: Option<usize>)
        ensures
            match address {
                Some(a) => self@.addresses.contains_key(name@) && self@.addresses[name@] == a,
                None => !self@.addresses.contains_key(name@),
            },
    {
        match self.addresses.get(name) {
            Some(a) => Some(*a),
            None => None,
        }
    }

    /// Whether `name` is bound.
    pub fn contains(&self, name: &str) -> (bound: bool)
        ensures
            bound == self@.addresses.contains_key(name@),
    {
        self.addresses.contains_key(name)
    }

    /// The address that the next new variable will get.
    pub fn next_variable(&self) -> (address: usize)
        ensures
            address == self@.next_variable,
    {
        self.next_variable
    }

    /// Binds `name` to `address`, in place of what it was bound to before.
    fn bind(&mut self, name: String, address: usize)
        ensures
            final(self)@ == (Symbols {
                addresses: old(self)@.addresses.insert(name@, address as nat),
                next_variable: old(self)@.next_variable,
            }),
    {
        self.addresses.insert(name, address);
        assert(self@.addresses =~= old(self)@.addresses.insert(name@, address as nat));
    }

    /// Binds `name` as the next variable and returns its address.
    pub fn add_variable(&mut self, name: String) -> (address: usize)
        requires
            old(self)@.next_variable < usize::MAX,
        ensures
            address == old(self)@.next_variable,
            final(self)@ == old(self)@.with_variable(name@),
    {
        let address = self.next_variable;
        self.bind(name, address);
        self.next_variable = address + 1;
        address
    }
}

/// A failure among the instructions read so far stays the failure of the
/// whole program.
pub proof fn lemma_resolve_labels_failed(program: Seq<Statement>, i: int)
    requires
        0 <= i <= program.len(),
        resolve_labels(program.take(i)) is Err,
    ensures
        resolve_labels(program) == resolve_labels(program.take(i)),
    decreases program.len() - i,
{
    if i < program.len() {
        assert(program.take(i + 1).drop_last() =~= program.take(i));
        lemma_resolve_labels_failed(program, i + 1);
    } else {
        assert(program.take(i) =~= program);
    }
}

/// The table of a program before its first instruction is encoded: the
/// predefined names and the program's labels, each label bound to the
/// address of the instruction that follows it. A label whose name is already
/// bound fails with `AssembleError::DuplicateLabel`.
pub fn build_symbol_table(instructions: &Vec<Instruction>) -> (r: Result<
    SymbolTable,
    AssembleError,
>)
    ensures
        match r {
            Ok(table) => resolve_labels(instructions.deep_view()) == Ok::<
                Map<Seq<char>, nat>,
                Failure,
            >(table@.addresses) && table@.next_variable == FIRST_VARIABLE,
            Err(e) => resolve_labels(instructions.deep_view()) == Err::<
                Map<Seq<char>, nat>,
                Failure,
            >(e@),
        },
{
    let mut table = SymbolTable::new();
    let mut address: usize = 0;
    let ghost program = instructions.deep_view();
    assert(program.take(0) =~= Seq::<Statement>::empty());
    let mut i: usize = 0;
    while i < instructions.len()
        invariant
            i <= instructions.len(),
            program == instructions.deep_view(),
            address == instruction_count(program.take(i as int)),
            address <= i,
            resolve_labels(program.take(i as int)) == Ok::<Map<Seq<char>, nat>, Failure>(
                table@.addresses,
            ),
            table@.next_variable == FIRST_VARIABLE,
        decreases instructions.len() - i,
    {
        proof {
            assert(program.take(i + 1).drop_last() =~= program.take(i as int));
            assert(program.take(i + 1).last() == instructions@[i as int]@);
        }
        match &instructions[i] {
            Instruction::L { value } => {
                if table.contains(value.as_str()) {
                    proof {
                        lemma_resolve_labels_failed(program, i + 1);
                    }
                    return Err(AssembleError::DuplicateLabel(value.clone()));
                }
                table.bind(value.clone(), address);
            },
            _ => {
                address += 1;
            },
        }
        i += 1;
    }
    assert(program.take(i as int) =~= program);
    Ok(table)
}

/// Taking up labels reads the program from its start: where the whole
/// program has no duplicate label, no part of it up to some instruction has
/// one, and what that part has bound stays bound to the same address.
pub proof fn lemma_resolve_labels_prefix(program: Seq<Statement>, i: int)
    requires
        0 <= i <= program.len(),
        resolve_labels(program) is Ok,
    ensures
        resolve_labels(program.take(i)) is Ok,
        resolve_labels(program.take(i))->Ok_0.submap_of(resolve_labels(program)->Ok_0),
    decreases program.len(),
{
    if i == program.len() {
        assert(program.take(i) =~= program);
    } else {
        let shorter = program.drop_last();
        assert(shorter.take(i) =~= program.take(i));
        lemma_resolve_labels_prefix(shorter, i);
    }
}

/// The predefined names are bound in every program's table, to the
/// addresses that `predefined` gives them.
pub proof fn lemma_predefined_fixed(program: Seq<Statement>)
    requires
        resolve_labels(program) is Ok,
    ensures
        predefined().submap_of(resolve_labels(program)->Ok_0),
{
    lemma_resolve_labels_prefix(program, 0);
    assert(program.take(0) =~= Seq::<Statement>::empty());
}

/// A label is bound to the number of address and computation instructions
/// that stand before it in the program.
pub proof fn lemma_label_address(program: Seq<Statement>, i: int, name: Seq<char>)
    requires
        resolve_labels(program) is Ok,
        0 <= i < program.len(),
        program[i] == (Statement::L { value: name }),
    ensures
        resolve_labels(program)->Ok_0.contains_key(name),
        resolve_labels(program)->Ok_0[name] == instruction_count(program.take(i)),
{
    let upto = program.take(i + 1);
    lemma_resolve_labels_prefix(program, i + 1);
    assert(upto.drop_last() =~= program.take(i));
    assert(upto.last() == program[i]);
    assert(resolve_labels(upto)->Ok_0.contains_key(name));
}

/// A program in which two labels have one name has no table.
pub proof fn lemma_duplicate_label(program: Seq<Statement>, i: int, j: int, name: Seq<char>)
    requires
        0 <= i < j < program.len(),
        program[i] == (Statement::L { value: name }),
        program[j] == (Statement::L { value: name }),
    ensures
        resolve_labels(program) is Err,
{
    if resolve_labels(program) is Ok {
        let upto = program.take(j + 1);
        lemma_resolve_labels_prefix(program, j + 1);
        assert(upto.drop_last() =~= program.take(j));
        assert(upto.last() == program[j]);
        let before = program.take(j);
        lemma_label_address(before, i, name);
    }
}

/// A program in which a label has a predefined name has no table.
pub proof fn lemma_label_with_predefined_name(program: Seq<Statement>, i: int, name: Seq<char>)
    requires
        0 <= i < program.len(),
        program[i] == (Statement::L { value: name }),
        predefined().contains_key(name),
    ensures
        resolve_labels(program) is Err,
{
    if resolve_labels(program) is Ok {
        let upto = program.take(i + 1);
        lemma_resolve_labels_prefix(program, i + 1);
        assert(upto.drop_last() =~= program.take(i));
        assert(upto.last() == program[i]);
        lemma_resolve_labels_prefix(program, i);
        lemma_predefined_fixed(program.take(i));
    }
}

} // verus!
