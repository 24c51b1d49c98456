use hack_toolchain::hack_assembler::assembler::{
    assemble, predefined_symbols, try_convert_numeric_addr, AsmError, AssemblyFailure,
    VAR_MEMORY_BASE,
};
use hack_toolchain::hack_assembler::code::{decode_a_command, decode_c_command};
use hack_toolchain::hack_assembler::parser::{
    parse_line, try_convert_a_command, try_convert_c_command, try_convert_label,
    try_convert_white_space, Line,
};
use hack_toolchain::hack_assembler::symbol_table::{Addr, SymbolTable};

fn lines(text: &[&str]) -> Vec<String> {
    text.iter().map(|s| s.to_string()).collect()
}

fn error_of(source: &[String]) -> AsmError {
    let failure: AssemblyFailure = assemble(&source.to_vec()).unwrap_err();
    failure.error
}

#[test]
fn a_command_code_is_sixteen_binary_digits() {
    assert_eq!(decode_a_command(Addr::new(0)), "0000000000000000");
    assert_eq!(decode_a_command(Addr::new(5)), "0000000000000101");
    assert_eq!(decode_a_command(Addr::new(32767)), "0111111111111111");
}

#[test]
fn c_command_codes() {
    assert_eq!(
        decode_c_command(Some("D".to_string()), "A".to_string(), None),
        "1110110000010000"
    );
    assert_eq!(
        decode_c_command(None, "0".to_string(), Some("JMP".to_string())),
        "1110101010000111"
    );
    assert_eq!(
        decode_c_command(Some("AMD".to_string()), "D|M".to_string(), Some("JNE".to_string())),
        "1111010101111101"
    );
    assert_eq!(
        decode_c_command(Some("M".to_string()), "M+1".to_string(), None),
        "1111110111001000"
    );
}

#[test]
fn white_space_lines() {
    assert!(matches!(try_convert_white_space(""), Some(Line::WhiteSpace)));
    assert!(matches!(try_convert_white_space(" \t "), Some(Line::WhiteSpace)));
    assert!(matches!(try_convert_white_space("   // note"), Some(Line::WhiteSpace)));
    assert!(try_convert_white_space("@1 // note").is_none());
    assert!(try_convert_white_space("/ /").is_none());
}

#[test]
fn a_command_lines() {
    match try_convert_a_command("  @R0  ") {
        Some(Line::ACommand { symbol }) => assert_eq!(symbol, "R0"),
        _ => panic!("not an A-command"),
    }
    match try_convert_a_command("@") {
        Some(Line::ACommand { symbol }) => assert_eq!(symbol, ""),
        _ => panic!("not an A-command"),
    }
    assert!(try_convert_a_command("@a b").is_none());
    assert!(try_convert_a_command("D=M").is_none());
}

#[test]
fn label_lines() {
    match try_convert_label(" (LOOP) ") {
        Some(Line::Label { name }) => assert_eq!(name, "LOOP"),
        _ => panic!("not a label"),
    }
    match try_convert_label("(a)b)") {
        Some(Line::Label { name }) => assert_eq!(name, "a)b"),
        _ => panic!("not a label"),
    }
    assert!(try_convert_label("(LOOP").is_none());
    assert!(try_convert_label("(A B)").is_none());
}

#[test]
fn c_command_lines() {
    match try_convert_c_command(" AM = M + 1 ; JGT ") {
        Some(Line::CCommand { dest, comp, jump }) => {
            assert_eq!(dest.as_deref(), Some("AM"));
            assert_eq!(comp, "M+1");
            assert_eq!(jump.as_deref(), Some("JGT"));
        }
        _ => panic!("not a C-command"),
    }
    match try_convert_c_command("0;JMP") {
        Some(Line::CCommand { dest, comp, jump }) => {
            assert_eq!(dest, None);
            assert_eq!(comp, "0");
            assert_eq!(jump.as_deref(), Some("JMP"));
        }
        _ => panic!("not a C-command"),
    }
    assert!(try_convert_c_command("   ").is_none());
}

#[test]
fn parse_line_kinds() {
    assert!(matches!(parse_line("// only a comment".to_string()), Line::WhiteSpace));
    match parse_line("  @sum // the sum".to_string()) {
        Line::ACommand { symbol } => assert_eq!(symbol, "sum"),
        _ => panic!("not an A-command"),
    }
    match parse_line("(END) // stop".to_string()) {
        Line::Label { name } => assert_eq!(name, "END"),
        _ => panic!("not a label"),
    }
    match parse_line("D=M // load".to_string()) {
        Line::CCommand { dest, comp, jump } => {
            assert_eq!(dest.as_deref(), Some("D"));
            assert_eq!(comp, "M");
            assert_eq!(jump, None);
        }
        _ => panic!("not a C-command"),
    }
    match parse_line("@a b".to_string()) {
        Line::CCommand { dest, comp, jump } => {
            assert_eq!(dest, None);
            assert_eq!(comp, "@ab");
            assert_eq!(jump, None);
        }
        _ => panic!("not a C-command"),
    }
}

#[test]
fn symbol_table_labels_and_variables() {
    let mut table = SymbolTable::new(predefined_symbols(), Addr::new(VAR_MEMORY_BASE));
    assert_eq!(table.get_addr("SCREEN").map(|a| u16::from(*a)), Some(16384));
    assert_eq!(table.get_addr("R15").map(|a| u16::from(*a)), Some(15));
    assert!(table.get_addr("LOOP").is_none());

    table.set_label("LOOP".to_string(), Addr::new(4));
    table.set_label("LOOP".to_string(), Addr::new(9));
    assert_eq!(table.get_addr("LOOP").map(|a| u16::from(*a)), Some(4));
    table.set_label("R0".to_string(), Addr::new(7));
    assert_eq!(table.get_addr("R0").map(|a| u16::from(*a)), Some(0));

    assert_eq!(u16::from(*table.set_var_memory("i".to_string())), 16);
    assert_eq!(u16::from(*table.set_var_memory("j".to_string())), 17);
    assert_eq!(u16::from(*table.set_var_memory("i".to_string())), 16);
    assert_eq!(u16::from(*table.set_var_memory("LOOP".to_string())), 4);
    assert_eq!(u16::from(table.next_var_addr()), 18);
}

#[test]
fn numeric_addresses() {
    assert_eq!(try_convert_numeric_addr("123").map(u16::from), Some(123));
    assert_eq!(try_convert_numeric_addr("0007").map(u16::from), Some(7));
    assert!(try_convert_numeric_addr("R1").is_none());
    assert!(try_convert_numeric_addr("").is_none());
    assert!(try_convert_numeric_addr("+1").is_none());
}

#[test]
fn assemble_add_program() {
    let source = lines(&[
        "// Computes R0 = 2 + 3",
        "",
        "@2",
        "D=A",
        "@3",
        "D=D+A",
        "@0",
        "M=D",
    ]);
    let code = assemble(&source).unwrap();
    assert_eq!(
        code,
        vec![
            "0000000000000010",
            "1110110000010000",
            "0000000000000011",
            "1110000010010000",
            "0000000000000000",
            "1110001100001000",
        ]
    );
}

#[test]
fn assemble_labels_and_variables() {
    let source = lines(&[
        "@i", "M=1", "(LOOP)", "@i", "D=M", "@LOOP", "0;JMP", "@j", "(END)", "@END",
    ]);
    let code = assemble(&source).unwrap();
    assert_eq!(
        code,
        vec![
            "0000000000010000",
            "1110111111001000",
            "0000000000010000",
            "1111110000010000",
            "0000000000000010",
            "1110101010000111",
            "0000000000010001",
            "0000000000000111",
        ]
    );
}

#[test]
fn assemble_errors() {
    assert_eq!(error_of(&lines(&["@40000"])), AsmError::AddrOutOfRange);
    assert_eq!(error_of(&lines(&["@70000"])), AsmError::ParseAddrFailed);
    assert_eq!(error_of(&lines(&["X=D"])), AsmError::DecodeDestFailed);
    assert_eq!(error_of(&lines(&["D=Q"])), AsmError::DecodeCompFailed);
    assert_eq!(error_of(&lines(&["D;JXX"])), AsmError::DecodeJumpFailed);
    assert_eq!(AsmError::AddrOutOfRange.message(), "addr value must in 15-bit");
    assert_eq!(AsmError::ParseAddrFailed.message(), "parse addr failed!");
}

#[test]
fn assemble_too_many_instructions() {
    let mut source = vec!["D=A".to_string(); 32768];
    assert!(assemble(&source).is_ok());
    source.push("(AFTER)".to_string());
    assert_eq!(error_of(&source), AsmError::AddrOutOfRange);
}

#[test]
fn assemble_variables_exhaust_memory() {
    let mut source = Vec::new();
    for i in 0..(32767 - 16) {
        source.push(format!("@v{}", i));
    }
    assert!(assemble(&source).is_ok());
    source.push("@last".to_string());
    assert_eq!(error_of(&source), AsmError::AddrOutOfRange);
}

#[test]
fn unicode_digits_in_addresses() {
    // a symbol of Unicode digits is a number, which u16::from_str_radix cannot read
    assert_eq!(error_of(&lines(&["@\u{663}"])), AsmError::ParseAddrFailed);
    assert_eq!(error_of(&lines(&["@1\u{663}"])), AsmError::ParseAddrFailed);
    // a symbol that mixes letters and digits is a variable
    assert_eq!(assemble(&lines(&["@x\u{663}"])).unwrap(), vec!["0000000000010000"]);
}

#[test]
fn failure_keeps_the_code_written_before_it() {
    let failure = assemble(&lines(&["@1", "D=A", "D=Q", "@2"])).unwrap_err();
    assert_eq!(failure.error, AsmError::DecodeCompFailed);
    assert_eq!(
        failure.written,
        Some(vec!["0000000000000001".to_string(), "1110110000010000".to_string()])
    );
    let mut source = vec!["D=A".to_string(); 32768];
    source.push("(AFTER)".to_string());
    let failure = assemble(&source).unwrap_err();
    assert_eq!(failure.error, AsmError::AddrOutOfRange);
    assert_eq!(failure.written, None);
}

#[test]
fn addr_round_trip() {
    for v in [0u16, 1, 16384, 32767] {
        assert_eq!(u16::from(Addr::new(v)), v);
    }
}
