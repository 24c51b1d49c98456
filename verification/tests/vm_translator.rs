use hack_toolchain::vm_translator::code_writer::arithmetic::code_generator;
use hack_toolchain::vm_translator::code_writer::mem_segment::MemSegmentCodeGenerator;
use hack_toolchain::vm_translator::code_writer::{CodeWriter, IncreasedIdLabel};
use hack_toolchain::vm_translator::parser::{
    is_not_white_space, parse_line, remove_comment, Arithmetic, Command, MemorySegment,
};
use hack_toolchain::vm_translator::translator::{translate, translate_line};
use hack_toolchain::vm_translator::Config;

fn strs(v: &[&str]) -> Vec<String> {
    v.iter().map(|s| s.to_string()).collect()
}

#[test]
fn config_from_arguments() {
    assert_eq!(
        Config::build(&strs(&["prog"])).unwrap_err(),
        "Error: vm file path (arg 1) should be specificed!"
    );
    let c = Config::build(&strs(&["prog", "dir/Foo.vm"])).unwrap();
    assert_eq!(c.vm_path, "dir/Foo.vm");
    assert!(!c.output_with_comment);
    assert!(Config::build(&strs(&["prog", "Foo.vm", "1"])).unwrap().output_with_comment);
    assert!(!Config::build(&strs(&["prog", "Foo.vm", "0"])).unwrap().output_with_comment);
    assert!(!Config::build(&strs(&["prog", "Foo.vm", "11"])).unwrap().output_with_comment);
}

#[test]
fn comments_and_blank_lines() {
    assert_eq!(remove_comment("push constant 1 // one".to_string()), "push constant 1 ");
    assert_eq!(remove_comment("add".to_string()), "add");
    assert!(!is_not_white_space(&"   // only a comment".to_string()));
    assert!(!is_not_white_space(&"".to_string()));
    assert!(is_not_white_space(&" add ".to_string()));
}

#[test]
fn parse_commands() {
    let l = parse_line("push constant 7".to_string()).unwrap();
    assert_eq!(l.command, Command::Push { segment: MemorySegment::Constant, index: 7 });
    assert_eq!(l.line, "push constant 7");
    let l = parse_line("  add   // sum".to_string()).unwrap();
    assert_eq!(l.command, Command::Arithmetic(Arithmetic::Add));
    assert_eq!(l.line, "  add   // sum");
    let l = parse_line("pop\tthat  65535".to_string()).unwrap();
    assert_eq!(l.command, Command::Pop { segment: MemorySegment::That, index: 65535 });
    for (name, a) in [
        ("sub", Arithmetic::Sub),
        ("neg", Arithmetic::Neg),
        ("eq", Arithmetic::Eq),
        ("gt", Arithmetic::Gt),
        ("lt", Arithmetic::Lt),
        ("and", Arithmetic::And),
        ("or", Arithmetic::Or),
        ("not", Arithmetic::Not),
    ] {
        assert_eq!(parse_line(name.to_string()).unwrap().command, Command::Arithmetic(a));
    }
    for (name, s) in [
        ("local", MemorySegment::Local),
        ("argument", MemorySegment::Argument),
        ("this", MemorySegment::This),
        ("that", MemorySegment::That),
        ("static", MemorySegment::Static),
        ("pointer", MemorySegment::Pointer),
        ("temp", MemorySegment::Temp),
    ] {
        assert_eq!(
            parse_line(format!("push {} 3", name)).unwrap().command,
            Command::Push { segment: s, index: 3 }
        );
    }
}

#[test]
fn parse_errors() {
    let err = |s: &str| parse_line(s.to_string()).unwrap_err();
    assert_eq!(err("pop constant 1"), "constant segment can not be a pop command");
    assert_eq!(err("foo"), "unknown command");
    assert_eq!(err("add 1"), "arithmetic command could not have arguments");
    assert_eq!(err("push"), "missing memory segment argument");
    assert_eq!(err("push local"), "missing segment index argument");
    assert_eq!(err("push loc 1"), "can not parse memory segment argument");
    assert_eq!(err("push local 70000"), "can not parse segment index argument");
    assert_eq!(err("push local x"), "parse command failed!");
    assert_eq!(err("push-local 1"), "parse command failed!");
    assert_eq!(err("push local 1 2"), "parse command failed!");
}

#[test]
fn arithmetic_code() {
    let mut labels = IncreasedIdLabel::build("Foo".to_string());
    assert_eq!(
        code_generator(Arithmetic::Add, &mut labels),
        strs(&["@SP", "M=M-1", "A=M", "D=M", "@SP", "A=M-1", "D=D+M", "@SP", "A=M-1", "M=D"])
    );
    assert_eq!(
        code_generator(Arithmetic::Sub, &mut labels),
        strs(&["@SP", "M=M-1", "A=M", "D=M", "@SP", "A=M-1", "D=M-D", "@SP", "A=M-1", "M=D"])
    );
    assert_eq!(code_generator(Arithmetic::Neg, &mut labels), strs(&["@SP", "A=M-1", "M=-M"]));
    assert_eq!(code_generator(Arithmetic::Not, &mut labels), strs(&["@SP", "A=M-1", "M=!M"]));
    assert_eq!(
        code_generator(Arithmetic::Eq, &mut labels),
        strs(&[
            "@SP",
            "M=M-1",
            "A=M",
            "D=M",
            "@SP",
            "A=M-1",
            "D=M-D",
            "@Foo_LOGICAL_ORD_0",
            "D; JEQ",
            "@SP",
            "A=M-1",
            "M=0",
            "@Foo_LOGICAL_ORD_END_0",
            "0; JMP",
            "(Foo_LOGICAL_ORD_0)",
            "@SP",
            "A=M-1",
            "M=-1",
            "(Foo_LOGICAL_ORD_END_0)",
        ])
    );
    let lt = code_generator(Arithmetic::Lt, &mut labels);
    assert_eq!(lt[7], "@Foo_LOGICAL_ORD_1");
    assert_eq!(lt[8], "D; JLT");
    let gt = code_generator(Arithmetic::Gt, &mut labels);
    assert_eq!(gt[12], "@Foo_LOGICAL_ORD_END_2");
    assert_eq!(gt[8], "D; JGT");
    assert_eq!(code_generator(Arithmetic::And, &mut labels)[6], "D=D&M");
    assert_eq!(code_generator(Arithmetic::Or, &mut labels)[6], "D=D|M");
}

#[test]
fn increased_id_labels() {
    let mut labels = IncreasedIdLabel::build("Main".to_string());
    let [a, b] = labels.generate_increased_id_labels(["A".to_string(), "B".to_string()]);
    assert_eq!(a, "Main_A_0");
    assert_eq!(b, "Main_B_0");
    let [c] = labels.generate_increased_id_labels(["A".to_string()]);
    assert_eq!(c, "Main_A_1");
}

#[test]
fn push_code() {
    let mut g = MemSegmentCodeGenerator::build("Foo".to_string());
    let tail = ["@SP", "A=M", "M=D", "@SP", "M=M+1"];
    let with_tail = |head: &[&str]| {
        let mut v = strs(head);
        v.extend(strs(&tail));
        v
    };
    assert_eq!(
        g.generate_push_commands(MemorySegment::Local, 2),
        with_tail(&["@2", "D=A", "@LCL", "A=D+M", "D=M"])
    );
    assert_eq!(
        g.generate_push_commands(MemorySegment::Argument, 0),
        with_tail(&["@ARG", "A=M", "D=M"])
    );
    assert_eq!(g.generate_push_commands(MemorySegment::Constant, 17), with_tail(&["@17", "D=A"]));
    assert_eq!(g.generate_push_commands(MemorySegment::Static, 3), with_tail(&["@Foo.3", "D=M"]));
    assert_eq!(g.generate_push_commands(MemorySegment::Pointer, 0), with_tail(&["@THIS", "D=M"]));
    assert_eq!(g.generate_push_commands(MemorySegment::Pointer, 1), with_tail(&["@THAT", "D=M"]));
    assert_eq!(g.generate_push_commands(MemorySegment::Temp, 6), with_tail(&["@11", "D=M"]));
}

#[test]
fn pop_code() {
    let mut g = MemSegmentCodeGenerator::build("Foo".to_string());
    assert_eq!(
        g.generate_pop_commands(MemorySegment::This, 4),
        strs(&[
            "@4", "D=A", "@THIS", "D=D+M", "@5", "M=D", "@SP", "M=M-1", "A=M", "D=M", "@5", "A=M",
            "M=D",
        ])
    );
    assert_eq!(
        g.generate_pop_commands(MemorySegment::That, 0),
        strs(&["@THAT", "D=M", "@5", "M=D", "@SP", "M=M-1", "A=M", "D=M", "@5", "A=M", "M=D"])
    );
    assert_eq!(
        g.generate_pop_commands(MemorySegment::Static, 0),
        strs(&["@SP", "M=M-1", "A=M", "D=M", "@Foo.0", "M=D"])
    );
    assert_eq!(
        g.generate_pop_commands(MemorySegment::Pointer, 1),
        strs(&["@SP", "M=M-1", "A=M", "D=M", "@THAT", "M=D"])
    );
    assert_eq!(
        g.generate_pop_commands(MemorySegment::Temp, 0),
        strs(&["@SP", "M=M-1", "A=M", "D=M", "@5", "M=D"])
    );
}

#[test]
fn code_writer_buffers_lines() {
    let mut w = CodeWriter::new("Foo".to_string());
    w.write_comment("push constant 1");
    w.write_push(MemorySegment::Constant, 1);
    w.write_arithmetic(Arithmetic::Eq);
    w.write_pop(MemorySegment::Local, 0);
    let lines = w.take_lines();
    assert_eq!(lines[0], "// push constant 1");
    assert_eq!(lines[1], "@1");
    assert_eq!(lines.len(), 1 + 7 + 19 + 11);
    assert_eq!(w.next_label_id_value(), 1);
    assert!(w.take_lines().is_empty());
}

#[test]
fn translate_program() {
    let source = strs(&["// adds", "push constant 7", "", "push constant 8 // eight", "add"]);
    let code = translate(&source, "Add".to_string(), false).unwrap();
    let mut expected = strs(&["@7", "D=A", "@SP", "A=M", "M=D", "@SP", "M=M+1"]);
    expected.extend(strs(&["@8", "D=A", "@SP", "A=M", "M=D", "@SP", "M=M+1"]));
    expected.extend(strs(&[
        "@SP", "M=M-1", "A=M", "D=M", "@SP", "A=M-1", "D=D+M", "@SP", "A=M-1", "M=D",
    ]));
    assert_eq!(code, expected);

    let commented = translate(&source, "Add".to_string(), true).unwrap();
    assert_eq!(commented[0], "// push constant 7");
    assert_eq!(commented[8], "// push constant 8 // eight");
    assert_eq!(commented.len(), expected.len() + 3);
}

#[test]
fn translate_labels_are_distinct() {
    let source = strs(&["eq", "eq", "lt"]);
    let code = translate(&source, "F".to_string(), false).unwrap();
    assert_eq!(code[7], "@F_LOGICAL_ORD_0");
    assert_eq!(code[19 + 7], "@F_LOGICAL_ORD_1");
    assert_eq!(code[38 + 7], "@F_LOGICAL_ORD_2");
    assert_eq!(code[38 + 18], "(F_LOGICAL_ORD_END_2)");
}

#[test]
fn translate_errors() {
    let t = |s: &[&str]| translate(&strs(s), "F".to_string(), false).unwrap_err();
    assert_eq!(t(&["push pointer 2"]), "index of pointer segment must be 0 or 1");
    assert_eq!(t(&["pop pointer 5"]), "index of pointer segment must be 0 or 1");
    assert_eq!(t(&["push temp 65531"]), "attempt to add with overflow");
    assert_eq!(t(&["add", "bogus"]), "unknown command");
    assert!(translate(&strs(&["push temp 65530"]), "F".to_string(), false).is_ok());
}

#[test]
fn constant_round_trip_through_the_assembler() {
    let code = translate(&strs(&["push constant 32767"]), "F".to_string(), false).unwrap();
    assert_eq!(code[0], "@32767");
    let machine = hack_toolchain::hack_assembler::assembler::assemble(&code).unwrap();
    assert_eq!(machine[0], "0111111111111111");
}

#[test]
fn decimal_index_round_trip() {
    for n in [0u16, 9, 10, 255, 32767, 65535] {
        let line = format!("push constant {}", n);
        let parsed = parse_line(line.clone()).unwrap();
        assert_eq!(parsed.command, Command::Push { segment: MemorySegment::Constant, index: n });
        let code = translate(&vec![line], "F".to_string(), false).unwrap();
        assert_eq!(code[0], format!("@{}", n));
    }
}

#[test]
fn unicode_word_and_digit_classes() {
    let err = |s: &str| parse_line(s.to_string()).unwrap_err();
    // a word of Unicode letters is a command word, which no command has
    assert_eq!(err("\u{e1}dd"), "unknown command");
    assert_eq!(err("push l\u{f3}cal 1"), "can not parse memory segment argument");
    // an Arabic-Indic digit is a digit of the pattern, which u16::from_str_radix refuses
    assert_eq!(err("push constant \u{663}"), "can not parse segment index argument");
    // a letter is not a digit
    assert_eq!(err("push constant \u{e1}"), "parse command failed!");
    // punctuation outside ASCII is not a word character
    assert_eq!(err("add\u{2014}"), "parse command failed!");
    // white space outside ASCII separates words
    assert_eq!(
        parse_line("push\u{3000}local\u{a0}2".to_string()).unwrap().command,
        Command::Push { segment: MemorySegment::Local, index: 2 }
    );
}

#[test]
fn translate_line_writes_line_by_line() {
    let mut w = CodeWriter::new("F".to_string());
    assert!(translate_line(&mut w, &"// nothing".to_string(), true).is_ok());
    assert!(w.take_lines().is_empty());
    assert!(translate_line(&mut w, &"push constant 1".to_string(), true).is_ok());
    assert_eq!(w.take_lines().len(), 8);
    // the comment stands before a command that the code writer refuses
    assert_eq!(
        translate_line(&mut w, &"push pointer 2".to_string(), true).unwrap_err(),
        "index of pointer segment must be 0 or 1"
    );
    assert_eq!(w.take_lines(), vec!["// push pointer 2".to_string()]);
    // a line that does not parse leaves nothing
    assert_eq!(
        translate_line(&mut w, &"bogus".to_string(), true).unwrap_err(),
        "unknown command"
    );
    assert!(w.take_lines().is_empty());
}
