use hack_rasm::assembler::{assemble, AsmError};

fn lines(src: &[&str]) -> Vec<String> {
    src.iter().map(|l| l.to_string()).collect()
}

fn out(expected: &[&str]) -> Result<Vec<String>, AsmError> {
    Ok(expected.iter().map(|l| l.to_string()).collect())
}

#[test]
fn label_binds_to_next_instruction() {
    assert_eq!(assemble(&lines(&["(LOOP)", "@LOOP"])), out(&["0000000000000000"]));
}

#[test]
fn end_to_end_add() {
    let src = lines(&["@2", "D=A", "@3", "D=D+A", "@0", "M=D"]);
    assert_eq!(
        assemble(&src),
        out(&[
            "0000000000000010",
            "1110110000010000",
            "0000000000000011",
            "1110000010010000",
            "0000000000000000",
            "1110001100001000",
        ])
    );
}

#[test]
fn translation_is_repeatable() {
    let src = lines(&["@x", "M=1", "(END)", "@END", "0;JMP", "@y", "D=M"]);
    let first = assemble(&src);
    let second = assemble(&src);
    assert_eq!(first, second);
    assert_eq!(
        first,
        out(&[
            "0000000000010000",
            "1110111111001000",
            "0000000000000010",
            "1110101010000111",
            "0000000000010001",
            "1111110000010000",
        ])
    );
}

#[test]
fn comments_and_blanks_take_no_address() {
    let src = lines(&["// start", "", "@1", "   ", "  // note", "(NEXT)", "D=A // set", "@NEXT"]);
    assert_eq!(
        assemble(&src),
        out(&["0000000000000001", "1110110000010000", "0000000000000001"])
    );
}

#[test]
fn forward_reference_and_variables() {
    let src = lines(&["@i", "M=1", "@END", "0;JMP", "@j", "(END)", "@i", "D;JLE"]);
    assert_eq!(
        assemble(&src),
        out(&[
            "0000000000010000",
            "1110111111001000",
            "0000000000000101",
            "1110101010000111",
            "0000000000010001",
            "0000000000010000",
            "1110001100000110",
        ])
    );
}

#[test]
fn empty_program_fails() {
    assert_eq!(assemble(&lines(&[])), Err(AsmError::EmptyProgram));
    assert_eq!(assemble(&lines(&["// nothing", "  "])), Err(AsmError::EmptyProgram));
}

#[test]
fn malformed_commands_fail() {
    assert_eq!(assemble(&lines(&["@"])), Err(AsmError::MalformedCommand));
    assert_eq!(assemble(&lines(&["D="])), Err(AsmError::MalformedCommand));
    assert_eq!(assemble(&lines(&["@1", ";JMP"])), Err(AsmError::MalformedCommand));
}

#[test]
fn unknown_mnemonic_fails() {
    assert_eq!(assemble(&lines(&["D=X"])), Err(AsmError::UnknownMnemonic));
    assert_eq!(assemble(&lines(&["Q=D"])), Err(AsmError::UnknownMnemonic));
    assert_eq!(assemble(&lines(&["D;JJJ"])), Err(AsmError::UnknownMnemonic));
}

#[test]
fn address_out_of_range_fails() {
    assert_eq!(assemble(&lines(&["@1", "@32768"])), Err(AsmError::AddressOutOfRange));
    assert_eq!(assemble(&lines(&["@32767"])), out(&["0111111111111111"]));
}

#[test]
fn duplicate_label_fails() {
    assert_eq!(assemble(&lines(&["(A)", "@1", "(A)", "@2"])), Err(AsmError::DuplicateLabel));
    assert_eq!(assemble(&lines(&["(SCREEN)", "@1"])), Err(AsmError::DuplicateLabel));
}

#[test]
fn many_inserted_blank_lines_change_nothing() {
    let plain = lines(&["(TOP)", "@x", "M=M+1", "@TOP", "0;JMP"]);
    let padded = lines(&[
        "", "// a", "(TOP)", "  ", "\t", "@x", "// b", "// c", "M=M+1", "", "@TOP", "   // d", "0;JMP", "",
    ]);
    assert_eq!(assemble(&plain), assemble(&padded));
    assert_eq!(
        assemble(&padded),
        out(&["0000000000010000", "1111110111001000", "0000000000000000", "1110101010000111"])
    );
}
