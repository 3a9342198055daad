use hack_assembler::encoder::to_binary_string;
use hack_assembler::error::AssembleError;
use hack_assembler::instruction::Instruction;
use hack_assembler::parser::parse;
use hack_assembler::symbols::{build_symbol_table, SymbolTable};
use hack_assembler::tables::{comp_to_binary, dest_to_binary, jump_to_binary};

fn a(value: &str) -> Instruction {
    Instruction::A { value: value.to_string() }
}

fn c(dest: Option<&str>, comp: &str, jump: Option<&str>) -> Instruction {
    Instruction::C {
        dest: dest.map(|s| s.to_string()),
        comp: comp.to_string(),
        jump: jump.map(|s| s.to_string()),
    }
}

fn unknown(token: &str) -> AssembleError {
    AssembleError::UnknownMnemonic(token.to_string())
}

#[test]
fn comp_table_is_complete() {
    let table = [
        ("0", 0b0101010),
        ("1", 0b0111111),
        ("-1", 0b0111010),
        ("D", 0b0001100),
        ("A", 0b0110000),
        ("M", 0b1110000),
        ("!D", 0b0001101),
        ("!A", 0b0110001),
        ("!M", 0b1110001),
        ("-D", 0b0001111),
        ("-A", 0b0110011),
        ("-M", 0b1110011),
        ("D+1", 0b0011111),
        ("A+1", 0b0110111),
        ("M+1", 0b1110111),
        ("D-1", 0b0001110),
        ("A-1", 0b0110010),
        ("M-1", 0b1110010),
        ("D+A", 0b0000010),
        ("D-A", 0b0010011),
        ("A-D", 0b0000111),
        ("D+M", 0b1000010),
        ("D-M", 0b1010011),
        ("M-D", 0b1000111),
        ("D&A", 0b0000000),
        ("D|A", 0b0010101),
        ("D&M", 0b1000000),
        ("D|M", 0b1010101),
    ];
    assert_eq!(table.len(), 28);
    for (mnemonic, bits) in table {
        assert_eq!(comp_to_binary(mnemonic), Ok(bits), "{}", mnemonic);
    }
}

#[test]
fn comp_table_holds_nothing_else() {
    for token in ["", "2", "d", "A+D", "1+D", "D+1 ", "D +1", "M+M", "D+11", "JMP", "!1", "-"] {
        assert_eq!(comp_to_binary(token), Err(unknown(token)), "{}", token);
    }
}

#[test]
fn dest_table_is_complete() {
    assert_eq!(dest_to_binary(None), Ok(0b000));
    assert_eq!(dest_to_binary(Some("M")), Ok(0b001));
    assert_eq!(dest_to_binary(Some("D")), Ok(0b010));
    assert_eq!(dest_to_binary(Some("MD")), Ok(0b011));
    assert_eq!(dest_to_binary(Some("A")), Ok(0b100));
    assert_eq!(dest_to_binary(Some("AM")), Ok(0b101));
    assert_eq!(dest_to_binary(Some("AD")), Ok(0b110));
    assert_eq!(dest_to_binary(Some("AMD")), Ok(0b111));
}

#[test]
fn dest_table_holds_nothing_else() {
    for token in ["", "DM", "MA", "DA", "ADM", "AA", "AMDA", "m", "X", " M"] {
        assert_eq!(dest_to_binary(Some(token)), Err(unknown(token)), "{}", token);
    }
}

#[test]
fn jump_table_is_complete() {
    assert_eq!(jump_to_binary(None), Ok(0b000));
    assert_eq!(jump_to_binary(Some("JGT")), Ok(0b001));
    assert_eq!(jump_to_binary(Some("JEQ")), Ok(0b010));
    assert_eq!(jump_to_binary(Some("JGE")), Ok(0b011));
    assert_eq!(jump_to_binary(Some("JLT")), Ok(0b100));
    assert_eq!(jump_to_binary(Some("JNE")), Ok(0b101));
    assert_eq!(jump_to_binary(Some("JLE")), Ok(0b110));
    assert_eq!(jump_to_binary(Some("JMP")), Ok(0b111));
}

#[test]
fn jump_table_holds_nothing_else() {
    for token in ["", "JM", "JMPP", "jmp", "JNZ", "GT", "JGT "] {
        assert_eq!(jump_to_binary(Some(token)), Err(unknown(token)), "{}", token);
    }
}

#[test]
fn predefined_symbols_have_their_addresses() {
    let table = SymbolTable::new();
    assert_eq!(table.get("SP"), Some(0));
    assert_eq!(table.get("LCL"), Some(1));
    assert_eq!(table.get("ARG"), Some(2));
    assert_eq!(table.get("THIS"), Some(3));
    assert_eq!(table.get("THAT"), Some(4));
    for n in 0..16usize {
        assert_eq!(table.get(&format!("R{}", n)), Some(n));
    }
    assert_eq!(table.get("SCREEN"), Some(16384));
    assert_eq!(table.get("KBD"), Some(24576));
    assert_eq!(table.get("R16"), None);
    assert_eq!(table.get("sp"), None);
    assert!(table.contains("KBD"));
    assert!(!table.contains("kbd"));
    assert_eq!(table.next_variable(), 16);
}

#[test]
fn predefined_symbols_stay_as_they_are() {
    let program = parse("@x\n(A)\nD=M\n(B)\n@y\n".to_string()).unwrap();
    let mut table = build_symbol_table(&program).unwrap();
    for instruction in &program {
        to_binary_string(instruction, &mut table).unwrap();
    }
    let fresh = SymbolTable::new();
    for name in ["SP", "LCL", "ARG", "THIS", "THAT", "R0", "R7", "R15", "SCREEN", "KBD"] {
        assert_eq!(table.get(name), fresh.get(name));
    }
    assert_eq!(table.get("A"), Some(1));
    assert_eq!(table.get("B"), Some(2));
    assert_eq!(table.get("x"), Some(16));
    assert_eq!(table.get("y"), Some(17));
    assert_eq!(table.next_variable(), 18);
}

#[test]
fn label_stands_for_the_next_instruction() {
    let program = parse("(START)\n@1\nD=A\n(MID)\n(ALSO)\n0;JMP\n(END)\n".to_string()).unwrap();
    let table = build_symbol_table(&program).unwrap();
    assert_eq!(table.get("START"), Some(0));
    assert_eq!(table.get("MID"), Some(2));
    assert_eq!(table.get("ALSO"), Some(2));
    assert_eq!(table.get("END"), Some(3));
    assert_eq!(table.next_variable(), 16);
}

#[test]
fn label_at_the_end_is_still_bound() {
    let program = parse("(LOOP)".to_string()).unwrap();
    let table = build_symbol_table(&program).unwrap();
    assert_eq!(table.get("LOOP"), Some(0));
}

#[test]
fn build_symbol_table_refuses_a_second_declaration() {
    let program = parse("(X)\n@1\n(X)".to_string()).unwrap();
    assert_eq!(
        build_symbol_table(&program).err(),
        Some(AssembleError::DuplicateLabel("X".to_string()))
    );
    let program = parse("(R3)".to_string()).unwrap();
    assert_eq!(
        build_symbol_table(&program).err(),
        Some(AssembleError::DuplicateLabel("R3".to_string()))
    );
}

#[test]
fn add_variable_binds_the_next_address() {
    let mut table = SymbolTable::new();
    assert_eq!(table.add_variable("i".to_string()), 16);
    assert_eq!(table.add_variable("j".to_string()), 17);
    assert_eq!(table.get("i"), Some(16));
    assert_eq!(table.get("j"), Some(17));
    assert_eq!(table.next_variable(), 18);
}

#[test]
fn label_has_no_word() {
    let mut table = SymbolTable::new();
    let label = Instruction::L { value: "LOOP".to_string() };
    assert_eq!(to_binary_string(&label, &mut table), Ok(None));
    assert_eq!(table.get("LOOP"), None);
    assert_eq!(table.next_variable(), 16);
}

#[test]
fn literal_is_written_in_fifteen_bits() {
    let mut table = SymbolTable::new();
    let word = |s: &str| Ok(Some(s.to_string()));
    assert_eq!(to_binary_string(&a("0"), &mut table), word("0000000000000000"));
    assert_eq!(to_binary_string(&a("1"), &mut table), word("0000000000000001"));
    assert_eq!(to_binary_string(&a("2"), &mut table), word("0000000000000010"));
    assert_eq!(to_binary_string(&a("007"), &mut table), word("0000000000000111"));
    assert_eq!(to_binary_string(&a("+5"), &mut table), word("0000000000000101"));
    assert_eq!(to_binary_string(&a("-0"), &mut table), word("0000000000000000"));
    assert_eq!(to_binary_string(&a("21845"), &mut table), word("0101010101010101"));
    assert_eq!(to_binary_string(&a("32767"), &mut table), word("0111111111111111"));
    assert_eq!(table.next_variable(), 16);
}

#[test]
fn literal_out_of_range_is_refused() {
    let mut table = SymbolTable::new();
    for literal in ["32768", "32769", "65536", "327670", "4294967296", "-1", "-32768", "+40000"] {
        assert_eq!(
            to_binary_string(&a(literal), &mut table),
            Err(AssembleError::OutOfRangeLiteral(literal.to_string())),
            "{}",
            literal
        );
    }
    assert_eq!(table.next_variable(), 16);
}

#[test]
fn symbol_is_replaced_by_its_address() {
    let mut table = SymbolTable::new();
    let word = |s: &str| Ok(Some(s.to_string()));
    assert_eq!(to_binary_string(&a("R5"), &mut table), word("0000000000000101"));
    assert_eq!(to_binary_string(&a("SCREEN"), &mut table), word("0100000000000000"));
    assert_eq!(to_binary_string(&a("KBD"), &mut table), word("0110000000000000"));
    assert_eq!(table.next_variable(), 16);
    assert_eq!(to_binary_string(&a("i"), &mut table), word("0000000000010000"));
    assert_eq!(to_binary_string(&a("1x"), &mut table), word("0000000000010001"));
    assert_eq!(to_binary_string(&a("i"), &mut table), word("0000000000010000"));
    assert_eq!(to_binary_string(&a("+"), &mut table), word("0000000000010010"));
    assert_eq!(to_binary_string(&a(""), &mut table), word("0000000000010011"));
    assert_eq!(table.next_variable(), 20);
    assert_eq!(table.get("1x"), Some(17));
}

#[test]
fn computation_is_three_ones_and_three_fields() {
    let mut table = SymbolTable::new();
    let word = |s: &str| Ok(Some(s.to_string()));
    assert_eq!(
        to_binary_string(&c(Some("D"), "A", None), &mut table),
        word("1110110000010000")
    );
    assert_eq!(
        to_binary_string(&c(None, "0", Some("JMP")), &mut table),
        word("1110101010000111")
    );
    assert_eq!(
        to_binary_string(&c(Some("AMD"), "D|M", Some("JNE")), &mut table),
        word("1111010101111101")
    );
    assert_eq!(to_binary_string(&c(None, "D&A", None), &mut table), word("1110000000000000"));
    assert_eq!(table.next_variable(), 16);
}

#[test]
fn computation_fails_on_its_first_unknown_field() {
    let mut table = SymbolTable::new();
    assert_eq!(
        to_binary_string(&c(Some("X"), "Y", Some("Z")), &mut table),
        Err(unknown("Y"))
    );
    assert_eq!(
        to_binary_string(&c(Some("X"), "D", Some("Z")), &mut table),
        Err(unknown("X"))
    );
    assert_eq!(
        to_binary_string(&c(Some("D"), "D", Some("Z")), &mut table),
        Err(unknown("Z"))
    );
    assert_eq!(to_binary_string(&c(Some(""), "D", None), &mut table), Err(unknown("")));
}

#[test]
fn message_names_the_failure() {
    assert_eq!(AssembleError::Parse("D+A=".to_string()).message(), "Unknown command: D+A=");
    assert_eq!(AssembleError::DuplicateLabel("X".to_string()).message(), "Duplicate label: X");
    assert_eq!(
        AssembleError::UnknownMnemonic("Q".to_string()).message(),
        "Unknown mnemonic: Q"
    );
    assert_eq!(
        AssembleError::OutOfRangeLiteral("32768".to_string()).message(),
        "Literal out of range: 32768"
    );
    assert_eq!(
        AssembleError::OutOfRangeAddress("FAR".to_string()).message(),
        "Address out of range: FAR"
    );
}
