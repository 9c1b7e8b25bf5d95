use hack_assembler::symbols::SymbolTable;
use hack_assembler::AsmError;

fn resolve(st: &mut SymbolTable, name: &str) -> Result<u16, AsmError> {
    st.resolve(&name.as_bytes().to_vec())
}

#[test]
fn literal_operands_resolve_to_their_value() {
    let mut st = SymbolTable::new();
    assert_eq!(resolve(&mut st, "0"), Ok(0));
    assert_eq!(resolve(&mut st, "2"), Ok(2));
    assert_eq!(resolve(&mut st, "007"), Ok(7));
    assert_eq!(resolve(&mut st, "32767"), Ok(32767));
    assert_eq!(resolve(&mut st, "32768"), Err(AsmError::AddressOverflow));
}

#[test]
fn predefined_names_resolve_to_the_fixed_table() {
    let mut st = SymbolTable::new();
    let expected: Vec<(&'static str, u16)> = vec![
        ("SP", 0),
        ("LCL", 1),
        ("ARG", 2),
        ("THIS", 3),
        ("THAT", 4),
        ("SCREEN", 16384),
        ("KBD", 24576),
    ];
    for (name, addr) in expected {
        assert_eq!(resolve(&mut st, name), Ok(addr));
    }
    for k in 0..16u16 {
        let name = format!("R{}", k);
        assert_eq!(resolve(&mut st, &name), Ok(k));
    }
}

#[test]
fn labels_in_the_table_resolve_before_the_alias_fallback() {
    let mut st = SymbolTable::new();
    st.insert("R99".as_bytes().to_vec(), 5);
    assert_eq!(resolve(&mut st, "R99"), Ok(5));
    // Without a table entry the digits are read directly.
    assert_eq!(resolve(&mut st, "R98"), Ok(98));
}

#[test]
fn register_alias_fallback_checks_the_range() {
    let mut st = SymbolTable::new();
    assert_eq!(resolve(&mut st, "R16"), Ok(16));
    assert_eq!(resolve(&mut st, "R32767"), Ok(32767));
    assert_eq!(resolve(&mut st, "R32768"), Err(AsmError::AddressOverflow));
}

#[test]
fn fresh_variables_count_up_and_are_reused() {
    let mut st = SymbolTable::new();
    assert_eq!(resolve(&mut st, "alpha"), Ok(16));
    assert_eq!(resolve(&mut st, "beta"), Ok(17));
    assert_eq!(resolve(&mut st, "alpha"), Ok(16));
    assert_eq!(resolve(&mut st, "gamma"), Ok(18));
    assert_eq!(resolve(&mut st, "beta"), Ok(17));
}

#[test]
fn inserted_labels_override_variables_to_come() {
    let mut st = SymbolTable::new();
    st.insert("loop".as_bytes().to_vec(), 3);
    assert_eq!(resolve(&mut st, "loop"), Ok(3));
    // The next fresh name still takes the first variable slot.
    assert_eq!(resolve(&mut st, "x"), Ok(16));
}

#[test]
fn lookup_reports_inserted_bindings() {
    let mut st = SymbolTable::new();
    assert_eq!(st.lookup(&"a".as_bytes().to_vec()), None);
    st.insert("a".as_bytes().to_vec(), 12);
    assert_eq!(st.lookup(&"a".as_bytes().to_vec()), Some(12));
    st.insert("a".as_bytes().to_vec(), 13);
    assert_eq!(st.lookup(&"a".as_bytes().to_vec()), Some(13));
    assert_eq!(st.lookup(&"b".as_bytes().to_vec()), None);
}

#[test]
fn label_addresses_beyond_the_range_overflow_at_resolution() {
    let mut st = SymbolTable::new();
    st.insert("far".as_bytes().to_vec(), 40000);
    assert_eq!(resolve(&mut st, "far"), Err(AsmError::AddressOverflow));
}
