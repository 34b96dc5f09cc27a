use hack_rasm::encoder::Encoder;
use hack_rasm::symbol_table::SymbolTable;

fn s(x: &str) -> Option<String> {
    Some(x.to_string())
}

#[test]
fn test_encode_comp() {
    let enc = Encoder::new(SymbolTable::new());
    assert!(enc.encode_comp("M+1") == s("1110111"));
}

#[test]
fn test_encode_dest() {
    let enc = Encoder::new(SymbolTable::new());
    assert!(enc.encode_dest("AMD") == s("111"));
}

#[test]
fn test_encode_jump() {
    let enc = Encoder::new(SymbolTable::new());
    assert!(enc.encode_jump("JLT") == s("100"));
}

#[test]
fn test_encode_ACommand() {
    let mut enc = Encoder::new(SymbolTable::new());
    assert!(enc.encode_ACommand("15") == s("0000000000001111"));
    assert!(enc.encode_ACommand("131072") == None);
}

#[test]
fn every_comp_entry_encodes() {
    let table = [
        ("0", "0101010"), ("1", "0111111"), ("-1", "0111010"), ("D", "0001100"),
        ("A", "0110000"), ("!D", "0001101"), ("!A", "0110001"), ("-D", "0001111"),
        ("-A", "0110011"), ("D+1", "0011111"), ("A+1", "0110111"), ("D-1", "0001110"),
        ("A-1", "0110010"), ("D+A", "0000010"), ("D-A", "0010011"), ("A-D", "0000111"),
        ("D&A", "0000000"), ("D|A", "0010101"), ("M", "1110000"), ("!M", "1110001"),
        ("-M", "1110011"), ("M+1", "1110111"), ("M-1", "1110010"), ("D+M", "1000010"),
        ("D-M", "1010011"), ("M-D", "1000111"), ("D&M", "1000000"), ("D|M", "1010101"),
    ];
    let enc = Encoder::new(SymbolTable::new());
    for (m, bits) in table.iter() {
        assert_eq!(enc.encode_comp(m), s(bits), "comp {}", m);
    }
}

#[test]
fn every_dest_and_jump_entry_encodes() {
    let dests = [
        ("null", "000"), ("M", "001"), ("D", "010"), ("MD", "011"),
        ("A", "100"), ("AM", "101"), ("AD", "110"), ("AMD", "111"),
    ];
    let jumps = [
        ("null", "000"), ("JGT", "001"), ("JEQ", "010"), ("JGE", "011"),
        ("JLT", "100"), ("JNE", "101"), ("JLE", "110"), ("JMP", "111"),
    ];
    let enc = Encoder::new(SymbolTable::new());
    for (m, bits) in dests.iter() {
        assert_eq!(enc.encode_dest(m), s(bits), "dest {}", m);
    }
    for (m, bits) in jumps.iter() {
        assert_eq!(enc.encode_jump(m), s(bits), "jump {}", m);
    }
}

#[test]
fn unknown_mnemonics_fail() {
    let enc = Encoder::new(SymbolTable::new());
    assert_eq!(enc.encode_comp("A+D"), None);
    assert_eq!(enc.encode_comp(""), None);
    assert_eq!(enc.encode_comp("m+1"), None);
    assert_eq!(enc.encode_dest("DM"), None);
    assert_eq!(enc.encode_dest(""), None);
    assert_eq!(enc.encode_jump("JMPX"), None);
    assert_eq!(enc.encode_jump("jmp"), None);
}

#[test]
fn address_range_edges() {
    let mut enc = Encoder::new(SymbolTable::new());
    assert_eq!(enc.encode_ACommand("0"), s("0000000000000000"));
    assert_eq!(enc.encode_ACommand("32767"), s("0111111111111111"));
    assert_eq!(enc.encode_ACommand("32768"), None);
    assert_eq!(enc.encode_ACommand("99999999999999999999999"), None);
    assert_eq!(enc.encode_ACommand("0005"), s("0000000000000101"));
}

#[test]
fn address_symbols_resolve() {
    let mut enc = Encoder::new(SymbolTable::new());
    assert_eq!(enc.encode_ACommand("SCREEN"), s("0100000000000000"));
    assert_eq!(enc.encode_ACommand("KBD"), s("0110000000000000"));
    assert_eq!(enc.encode_ACommand("R13"), s("0000000000001101"));
    assert_eq!(enc.encode_ACommand("i"), s("0000000000010000"));
    assert_eq!(enc.encode_ACommand("j"), s("0000000000010001"));
    assert_eq!(enc.encode_ACommand("i"), s("0000000000010000"));
    assert_eq!(enc.encode_ACommand("-1"), s("0000000000010010"));
    let table = enc.into_table();
    assert_eq!(table.lookup("j"), Some(17));
    assert_eq!(table.lookup("-1"), Some(18));
    assert_eq!(table.lookup("5"), None);
}
