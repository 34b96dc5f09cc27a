use hack_rasm::parser::{Command, CommandType, Parser};

fn opt(x: &str) -> Option<String> {
    Some(x.to_string())
}

#[test]
fn test_cmd_from_str() {
    let test_cases = ["@154", "@test", "(Loop)", "M", "M=M+1", "A=D;JMP", "D;JEQ", "(Loop)//Test comment", "D=M+1;JEQ //test"];
    let test_results = [
        (opt("154"), None, None, None),
        (opt("test"), None, None, None),
        (opt("Loop"), None, None, None),
        (None, None, opt("M"), None),
        (None, opt("M"), opt("M+1"), None),
        (None, opt("A"), opt("D"), opt("JMP")),
        (None, None, opt("D"), opt("JEQ")),
        (opt("Loop"), None, None, None),
        (None, opt("D"), opt("M+1"), opt("JEQ")),
    ];
    for (test, result) in test_cases.iter().zip(test_results.iter()) {
        let test_cmd = Command::from_str(test).unwrap();
        assert!((test_cmd.symbol, test_cmd.dest, test_cmd.comp, test_cmd.jump) == *result);
    }
}

#[test]
fn command_types() {
    assert_eq!(Command::from_str("@1").unwrap().c_type, CommandType::ACommand);
    assert_eq!(Command::from_str("(X)").unwrap().c_type, CommandType::LCommand);
    assert_eq!(Command::from_str("0;JMP").unwrap().c_type, CommandType::CCommand);
}

#[test]
fn blank_and_comment_lines_are_no_command() {
    assert!(Command::from_str("").is_none());
    assert!(Command::from_str("   \t  ").is_none());
    assert!(Command::from_str("// only a comment").is_none());
    assert!(Command::from_str("   // indented comment").is_none());
    assert!(Command::from_str("\r\n").is_none());
}

#[test]
fn surrounding_blanks_are_removed() {
    let c = Command::from_str("\t  AM=M-1 ; JNE  // loop\r").unwrap();
    assert_eq!(c.dest, opt("AM"));
    assert_eq!(c.comp, opt("M-1 "));
    assert_eq!(c.jump, opt(" JNE"));
    let a = Command::from_str("  @R2  ").unwrap();
    assert_eq!(a.symbol, opt("R2"));
}

#[test]
fn compute_fields_split() {
    let (symbol, dest, comp, jump) = Command::extractCCommand("MD=D+1");
    assert_eq!((symbol, dest, comp, jump), (None, opt("MD"), opt("D+1"), None));
    let (_, dest, comp, jump) = Command::extractCCommand("0;JMP");
    assert_eq!((dest, comp, jump), (None, opt("0"), opt("JMP")));
    let (_, dest, comp, jump) = Command::extractCCommand("D=;");
    assert_eq!((dest, comp, jump), (opt("D"), opt(""), opt("")));
    let (_, dest, comp, jump) = Command::extractCCommand("A;B=C");
    assert_eq!((dest, comp, jump), (opt("A;B"), opt(""), opt("B=C")));
}

#[test]
fn parser_walks_and_rewinds() {
    let lines: Vec<String> = vec!["// header", "@5", "", "(L)", "D=A;JGT"].into_iter().map(String::from).collect();
    let mut p = Parser::new(&lines);
    assert_eq!(p.command_type(), Some(CommandType::ACommand));
    assert_eq!(p.symbol(), opt("5"));
    assert_eq!(p.advance(), Some(true));
    assert_eq!(p.command_type(), Some(CommandType::LCommand));
    assert_eq!(p.symbol(), opt("L"));
    assert_eq!(p.advance(), Some(true));
    assert_eq!(p.command_type(), Some(CommandType::CCommand));
    assert_eq!(p.dest(), opt("D"));
    assert_eq!(p.comp(), opt("A"));
    assert_eq!(p.jump(), opt("JGT"));
    assert_eq!(p.advance(), None);
    assert_eq!(p.command_type(), None);
    assert_eq!(p.symbol(), None);
    assert_eq!(p.advance(), None);
    p.rewind();
    assert_eq!(p.command_type(), Some(CommandType::ACommand));
    assert_eq!(p.symbol(), opt("5"));
}
