use hack_rasm::symbol_table::SymbolTable;

#[test]
fn predefined_symbols() {
    let t = SymbolTable::new();
    let expected = [
        ("R0", 0), ("R1", 1), ("R2", 2), ("R3", 3), ("R4", 4), ("R5", 5), ("R6", 6), ("R7", 7),
        ("R8", 8), ("R9", 9), ("R10", 10), ("R11", 11), ("R12", 12), ("R13", 13), ("R14", 14),
        ("R15", 15), ("SP", 0), ("LCL", 1), ("ARG", 2), ("THIS", 3), ("THAT", 4),
        ("SCREEN", 16384), ("KBD", 24576),
    ];
    for (name, addr) in expected.iter() {
        assert_eq!(t.lookup(name), Some(*addr), "{}", name);
    }
    assert_eq!(t.lookup("R16"), None);
    assert_eq!(t.lookup("sp"), None);
}

#[test]
fn variables_are_sequential_from_sixteen() {
    let mut t = SymbolTable::new();
    assert_eq!(t.get_symbol("first"), 16);
    assert_eq!(t.get_symbol("second"), 17);
    assert_eq!(t.get_symbol("first"), 16);
    assert_eq!(t.get_symbol("third"), 18);
    assert_eq!(t.get_symbol("LCL"), 1);
}

#[test]
fn labels_bind_once() {
    let mut t = SymbolTable::new();
    assert_eq!(t.add_L_symbol("LOOP", 7), Some(7));
    assert_eq!(t.add_L_symbol("LOOP", 9), None);
    assert_eq!(t.lookup("LOOP"), Some(7));
    assert_eq!(t.add_L_symbol("SP", 3), None);
    assert_eq!(t.lookup("SP"), Some(0));
    assert_eq!(t.get_symbol("LOOP"), 7);
    assert_eq!(t.get_symbol("v"), 16);
}
