use hack_assembler::assembler::translate;
use hack_assembler::error::AssembleError;

fn lines(words: &[&str]) -> String {
    let mut text = String::new();
    for word in words {
        text.push_str(word);
        text.push('\n');
    }
    text
}

#[test]
fn test_add() {
    let source = "// Computes R0 = 2 + 3\n\n@2\nD=A\n@3\nD=D+A\n@0\nM=D\n";
    let hack = lines(&[
        "0000000000000010",
        "1110110000010000",
        "0000000000000011",
        "1110000010010000",
        "0000000000000000",
        "1110001100001000",
    ]);
    assert_eq!(Ok(hack), translate(source.to_string()));
}

#[test]
fn test_max() {
    let source = "// Computes R2 = max(R0, R1)\r\n\r\n   @R0\r\n   D=M              // D = first number\r\n   @R1\r\n   D=D-M            // D = first number - second number\r\n   @OUTPUT_FIRST\r\n   D;JGT            // if D>0 (first is greater) goto output_first\r\n   @R1\r\n   D=M              // D = second number\r\n   @OUTPUT_D\r\n   0;JMP            // goto output_d\r\n(OUTPUT_FIRST)\r\n   @R0             \r\n   D=M              // D = first number\r\n(OUTPUT_D)\r\n   @R2\r\n   M=D              // M[2] = D (greatest number)\r\n(INFINITE_LOOP)\r\n   @INFINITE_LOOP\r\n   0;JMP            // infinite loop\r\n";
    let hack = lines(&[
        "0000000000000000",
        "1111110000010000",
        "0000000000000001",
        "1111010011010000",
        "0000000000001010",
        "1110001100000001",
        "0000000000000001",
        "1111110000010000",
        "0000000000001100",
        "1110101010000111",
        "0000000000000000",
        "1111110000010000",
        "0000000000000010",
        "1110001100001000",
        "0000000000001110",
        "1110101010000111",
    ]);
    assert_eq!(Ok(hack), translate(source.to_string()));
}

#[test]
fn test_rect() {
    let source = "   @0\n   D=M\n   @INFINITE_LOOP\n   D;JLE \n   @counter\n   M=D\n   @SCREEN\n   D=A\n   @address\n   M=D\n(LOOP)\n   @address\n   A=M\n   M=-1\n   @address\n   D=M\n   @32\n   D=D+A\n   @address\n   M=D\n   @counter\n   MD=M-1\n   @LOOP\n   D;JGT\n(INFINITE_LOOP)\n   @INFINITE_LOOP\n   0;JMP\n";
    let hack = lines(&[
        "0000000000000000",
        "1111110000010000",
        "0000000000010111",
        "1110001100000110",
        "0000000000010000",
        "1110001100001000",
        "0100000000000000",
        "1110110000010000",
        "0000000000010001",
        "1110001100001000",
        "0000000000010001",
        "1111110000100000",
        "1110111010001000",
        "0000000000010001",
        "1111110000010000",
        "0000000000100000",
        "1110000010010000",
        "0000000000010001",
        "1110001100001000",
        "0000000000010000",
        "1111110010011000",
        "0000000000001010",
        "1110001100000001",
        "0000000000010111",
        "1110101010000111",
    ]);
    assert_eq!(Ok(hack), translate(source.to_string()));
}

#[test]
fn translates_without_final_line_feed() {
    let hack = lines(&[
        "0000000000000010",
        "1110110000010000",
        "0000000000000011",
        "1110000010010000",
        "0000000000000000",
        "1110001100001000",
    ]);
    assert_eq!(Ok(hack), translate("@2\nD=A\n@3\nD=D+A\n@0\nM=D".to_string()));
}

#[test]
fn label_may_be_used_before_it_is_declared() {
    let hack = lines(&["0000000000000010", "1110101010000111"]);
    assert_eq!(Ok(hack), translate("@END\n0;JMP\n(END)".to_string()));
    let hack = lines(&["0000000000000001", "1110101010000111"]);
    assert_eq!(Ok(hack), translate("@END\n(END)\n0;JMP".to_string()));
}

#[test]
fn variable_keeps_its_address() {
    let hack = lines(&["0000000000010000", "0000000000010000"]);
    assert_eq!(Ok(hack), translate("@i\n@i".to_string()));
}

#[test]
fn variables_count_up_from_sixteen_in_order_of_appearance() {
    let hack = lines(&[
        "0000000000010000",
        "0000000000010001",
        "0000000000010000",
        "0000000000010010",
        "0000000000010001",
    ]);
    assert_eq!(Ok(hack), translate("@x\n@y\n@x\n@z\n@y\n".to_string()));
}

#[test]
fn labels_do_not_shift_variables() {
    let hack = lines(&["0000000000010000", "0000000000000010", "0000000000010001"]);
    assert_eq!(Ok(hack), translate("@first\n@LATER\n(LATER)\n@second\n".to_string()));
}

#[test]
fn label_alone_gives_no_line() {
    assert_eq!(Ok(String::new()), translate("(LOOP)".to_string()));
}

#[test]
fn empty_source_gives_empty_output() {
    assert_eq!(Ok(String::new()), translate(String::new()));
    assert_eq!(Ok(String::new()), translate("\n\n  \n// nothing\n".to_string()));
}

#[test]
fn duplicate_label_fails() {
    assert_eq!(
        Err(AssembleError::DuplicateLabel("X".to_string())),
        translate("(X)\n@1\n(X)".to_string())
    );
}

#[test]
fn label_with_predefined_name_fails() {
    assert_eq!(
        Err(AssembleError::DuplicateLabel("SCREEN".to_string())),
        translate("@1\n(SCREEN)\n".to_string())
    );
}

#[test]
fn malformed_line_fails() {
    assert_eq!(
        Err(AssembleError::Parse("D+A=".to_string())),
        translate("D+A=".to_string())
    );
}

#[test]
fn parse_failure_comes_before_duplicate_label() {
    assert_eq!(
        Err(AssembleError::Parse("nonsense".to_string())),
        translate("(X)\n(X)\nnonsense\n".to_string())
    );
}

#[test]
fn duplicate_label_comes_before_unknown_mnemonic() {
    assert_eq!(
        Err(AssembleError::DuplicateLabel("X".to_string())),
        translate("D=Q\n(X)\n(X)\n".to_string())
    );
}

#[test]
fn unknown_mnemonic_fails() {
    assert_eq!(
        Err(AssembleError::UnknownMnemonic("Q".to_string())),
        translate("@1\nD=Q\n".to_string())
    );
    assert_eq!(
        Err(AssembleError::UnknownMnemonic("DA".to_string())),
        translate("DA=D\n".to_string())
    );
    assert_eq!(
        Err(AssembleError::UnknownMnemonic("JXX".to_string())),
        translate("0;JXX\n".to_string())
    );
}

#[test]
fn literal_of_fifteen_bits_is_the_largest() {
    assert_eq!(Ok(lines(&["0111111111111111"])), translate("@32767".to_string()));
    assert_eq!(
        Err(AssembleError::OutOfRangeLiteral("32768".to_string())),
        translate("@32768".to_string())
    );
    assert_eq!(
        Err(AssembleError::OutOfRangeLiteral("99999999999999999999999".to_string())),
        translate("@99999999999999999999999".to_string())
    );
}

#[test]
fn translation_is_repeatable() {
    let source = "@sum\nM=0\n(LOOP)\n@i\nD=M\n@LOOP\nD;JGT\n@KBD\nD=M\n";
    let first = translate(source.to_string());
    let second = translate(source.to_string());
    assert!(first.is_ok());
    assert_eq!(first, second);
}

#[test]
fn every_line_is_sixteen_binary_digits() {
    let source = "@sum\nM=0\n(LOOP)\n@i\nD=M\n@LOOP\nD;JGT\n(END)\n@KBD\nAMD=D|M;JNE\n";
    let hack = translate(source.to_string()).unwrap();
    let found: Vec<&str> = hack.lines().collect();
    assert_eq!(found.len(), 8);
    assert_eq!(hack.len(), 17 * 8);
    for line in found {
        assert_eq!(line.len(), 16);
        assert!(line.chars().all(|c| c == '0' || c == '1'));
    }
}

#[test]
fn three_field_computation_uses_its_own_jump() {
    assert_eq!(Ok(lines(&["1110011111010010"])), translate("D=D+1;JEQ".to_string()));
}

#[test]
fn program_longer_than_the_address_space_fails_only_where_referenced() {
    let mut source = String::new();
    for _ in 0..32768 {
        source.push_str("0;JMP\n");
    }
    source.push_str("(FAR)\n");
    assert!(translate(source.clone()).is_ok());
    source.push_str("@FAR\n");
    assert_eq!(Err(AssembleError::OutOfRangeAddress("FAR".to_string())), translate(source));
}

#[test]
fn variable_beyond_the_address_space_fails() {
    let mut source = String::new();
    for i in 0..(32768 - 16) {
        source.push_str(&format!("@v{}\n", i));
    }
    let hack = translate(source.clone()).unwrap();
    assert!(hack.ends_with("0111111111111111\n"));
    source.push_str("@last\n");
    assert_eq!(Err(AssembleError::OutOfRangeAddress("last".to_string())), translate(source));
}
