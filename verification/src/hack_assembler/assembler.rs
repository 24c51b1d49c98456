use crate::hack_assembler::code::{
    a_command_code, c_command_code, comp_bits, decode_a_command, decode_c_command, dest_bits,
    field_bits, jump_bits, lemma_c_command_code, lookup_comp, lookup_dest, lookup_jump,
};
use crate::hack_assembler::parser::{parse_line, parse_line_view, Line, LineView};
use crate::hack_assembler::symbol_table::{map_of_pairs, pairs_view, Addr, SymbolTable, ADDR_MAX};
use crate::text::{
    all_decimal_digits, decimal, decimal_digits_from, digit_char, lemma_binary_roundtrip, opt_view, parse_u16,
    parse_u16_chars, pow2, strings_view, to_chars,
};
use vstd::prelude::*;
use vstd::string::*;

verus! {

/// The address of the first variable.
pub const VAR_MEMORY_BASE: u16 = 16;

/// Why an assembly program cannot be translated.
#[derive(Debug, Clone, Copy, PartialEq, Eq, Structural)]
pub enum AsmError {
    /// An address does not fit in 15 bits.
    AddrOutOfRange,
    /// A numeric address does not fit in 16 bits.
    ParseAddrFailed,
    /// Unknown destination mnemonic.
    DecodeDestFailed,
    /// Unknown computation mnemonic.
    DecodeCompFailed,
    /// Unknown jump mnemonic.
    DecodeJumpFailed,
}

impl AsmError {
    /// The message that reports the error.
    pub fn message(&self) -> (r: &'static str)
        ensures
            r@ == error_message(*self),
    {
        match self {
            AsmError::AddrOutOfRange => "addr value must in 15-bit",
            AsmError::ParseAddrFailed => "parse addr failed!",
            AsmError::DecodeDestFailed => "decode dest({dest}) failed!",
            AsmError::DecodeCompFailed => "decode comp({comp}) failed!",
            AsmError::DecodeJumpFailed => "decode jump({jump}) failed!",
        }
    }
}

/// The message that reports an error.
pub open spec fn error_message(e: AsmError) -> Seq<char> {
    match e {
        AsmError::AddrOutOfRange => "addr value must in 15-bit"@,
        AsmError::ParseAddrFailed => "parse addr failed!"@,
        AsmError::DecodeDestFailed => "decode dest({dest}) failed!"@,
        AsmError::DecodeCompFailed => "decode comp({comp}) failed!"@,
        AsmError::DecodeJumpFailed => "decode jump({jump}) failed!"@,
    }
}

/// A line of the program and, unless it is blank, its address: the number of
/// instructions before it.
pub struct LineWithAddr {
    pub line: Line,
    pub addr: Option<Addr>,
}

/// The symbols that every program knows.
pub open spec fn predefined_view() -> Seq<(Seq<char>, u16)> {
    seq![
        ("R0"@, 0u16),
        ("R1"@, 1u16),
        ("R2"@, 2u16),
        ("R3"@, 3u16),
        ("R4"@, 4u16),
        ("R5"@, 5u16),
        ("R6"@, 6u16),
        ("R7"@, 7u16),
        ("R8"@, 8u16),
        ("R9"@, 9u16),
        ("R10"@, 10u16),
        ("R11"@, 11u16),
        ("R12"@, 12u16),
        ("R13"@, 13u16),
        ("R14"@, 14u16),
        ("R15"@, 15u16),
        ("SCREEN"@, 16384u16),
        ("KBD"@, 24576u16),
        ("SP"@, 0u16),
        ("LCL"@, 1u16),
        ("ARG"@, 2u16),
        ("THIS"@, 3u16),
        ("THAT"@, 4u16),
    ]
}

/// The name `R` followed by the decimal digits of `n`.
pub open spec fn register_name(n: u16) -> Seq<char> {
    "R"@ + decimal(n as nat)
}

/// The registers `R0` to `R15` are spelt with the decimal digits of their numbers.
proof fn lemma_register_names()
    ensures
        register_name(0) == "R0"@,
        register_name(1) == "R1"@,
        register_name(2) == "R2"@,
        register_name(3) == "R3"@,
        register_name(4) == "R4"@,
        register_name(5) == "R5"@,
        register_name(6) == "R6"@,
        register_name(7) == "R7"@,
        register_name(8) == "R8"@,
        register_name(9) == "R9"@,
        register_name(10) == "R10"@,
        register_name(11) == "R11"@,
        register_name(12) == "R12"@,
        register_name(13) == "R13"@,
        register_name(14) == "R14"@,
        register_name(15) == "R15"@,
{
    reveal_strlit("R");
    reveal_strlit("R0");
    reveal_strlit("R1");
    reveal_strlit("R2");
    reveal_strlit("R3");
    reveal_strlit("R4");
    reveal_strlit("R5");
    reveal_strlit("R6");
    reveal_strlit("R7");
    reveal_strlit("R8");
    reveal_strlit("R9");
    reveal_strlit("R10");
    reveal_strlit("R11");
    reveal_strlit("R12");
    reveal_strlit("R13");
    reveal_strlit("R14");
    reveal_strlit("R15");
    assert(register_name(0) == "R0"@) by {
        assert(decimal(0) == seq![digit_char(0)]);
    }
    assert(register_name(1) == "R1"@) by {
        assert(decimal(1) == seq![digit_char(1)]);
    }
    assert(register_name(2) == "R2"@) by {
        assert(decimal(2) == seq![digit_char(2)]);
    }
    assert(register_name(3) == "R3"@) by {
        assert(decimal(3) == seq![digit_char(3)]);
    }
    assert(register_name(4) == "R4"@) by {
        assert(decimal(4) == seq![digit_char(4)]);
    }
    assert(register_name(5) == "R5"@) by {
        assert(decimal(5) == seq![digit_char(5)]);
    }
    assert(register_name(6) == "R6"@) by {
        assert(decimal(6) == seq![digit_char(6)]);
    }
    assert(register_name(7) == "R7"@) by {
        assert(decimal(7) == seq![digit_char(7)]);
    }
    assert(register_name(8) == "R8"@) by {
        assert(decimal(8) == seq![digit_char(8)]);
    }
    assert(register_name(9) == "R9"@) by {
        assert(decimal(9) == seq![digit_char(9)]);
    }
    assert(register_name(10) == "R10"@) by {
        assert(decimal(10) == decimal(1).push(digit_char(0)));
        assert(decimal(1) == seq![digit_char(1)]);
    }
    assert(register_name(11) == "R11"@) by {
        assert(decimal(11) == decimal(1).push(digit_char(1)));
        assert(decimal(1) == seq![digit_char(1)]);
    }
    assert(register_name(12) == "R12"@) by {
        assert(decimal(12) == decimal(1).push(digit_char(2)));
        assert(decimal(1) == seq![digit_char(1)]);
    }
    assert(register_name(13) == "R13"@) by {
        assert(decimal(13) == decimal(1).push(digit_char(3)));
        assert(decimal(1) == seq![digit_char(1)]);
    }
    assert(register_name(14) == "R14"@) by {
        assert(decimal(14) == decimal(1).push(digit_char(4)));
        assert(decimal(1) == seq![digit_char(1)]);
    }
    assert(register_name(15) == "R15"@) by {
        assert(decimal(15) == decimal(1).push(digit_char(5)));
        assert(decimal(1) == seq![digit_char(1)]);
    }
}

/// A table built from pairs whose names differ holds each pair, and only them.
proof fn lemma_map_of_pairs_entries(pairs: Seq<(Seq<char>, u16)>)
    requires
        forall|i: int, j: int| 0 <= i < j < pairs.len() ==> pairs[i].0 != pairs[j].0,
    ensures
        forall|i: int|
            0 <= i < pairs.len() ==> map_of_pairs(pairs).contains_key(#[trigger] pairs[i].0)
                && map_of_pairs(pairs)[pairs[i].0] == pairs[i].1,
        forall|k: Seq<char>|
            map_of_pairs(pairs).contains_key(k) ==> exists|i: int| 0 <= i < pairs.len() && #[trigger] pairs[i].0 == k,
    decreases pairs.len(),
{
    if pairs.len() > 0 {
        let rest = pairs.drop_last();
        lemma_map_of_pairs_entries(rest);
        assert forall|i: int| 0 <= i < pairs.len() implies map_of_pairs(pairs).contains_key(
            #[trigger] pairs[i].0,
        ) && map_of_pairs(pairs)[pairs[i].0] == pairs[i].1 by {
            if i < pairs.len() - 1 {
                assert(rest[i] == pairs[i]);
            }
        }
        assert forall|k: Seq<char>| map_of_pairs(pairs).contains_key(k) implies exists|i: int|
            0 <= i < pairs.len() && #[trigger] pairs[i].0 == k by {
            if k != pairs.last().0 {
                assert(map_of_pairs(rest).contains_key(k));
                let i = choose|i: int| 0 <= i < rest.len() && #[trigger] rest[i].0 == k;
                assert(pairs[i] == rest[i]);
            } else {
                assert(pairs[pairs.len() - 1].0 == k);
            }
        }
    }
}

/// Names that differ in length, first or last character differ.
pub open spec fn name_print(s: Seq<char>) -> (nat, char, char) {
    (s.len(), s[0], s[s.len() - 1])
}

/// The names of the predefined symbols differ from one another.
proof fn lemma_predefined_distinct()
    ensures
        forall|i: int, j: int|
            0 <= i < j < predefined_view().len() ==> predefined_view()[i].0 != predefined_view()[j].0,
{
    reveal_strlit("R0");
    reveal_strlit("R1");
    reveal_strlit("R2");
    reveal_strlit("R3");
    reveal_strlit("R4");
    reveal_strlit("R5");
    reveal_strlit("R6");
    reveal_strlit("R7");
    reveal_strlit("R8");
    reveal_strlit("R9");
    reveal_strlit("R10");
    reveal_strlit("R11");
    reveal_strlit("R12");
    reveal_strlit("R13");
    reveal_strlit("R14");
    reveal_strlit("R15");
    reveal_strlit("SCREEN");
    reveal_strlit("KBD");
    reveal_strlit("SP");
    reveal_strlit("LCL");
    reveal_strlit("ARG");
    reveal_strlit("THIS");
    reveal_strlit("THAT");
    let p = predefined_view();
    assert forall|i: int, j: int| 0 <= i < j < p.len() implies p[i].0 != p[j].0 by {
        assert(name_print(p[i].0) != name_print(p[j].0));
    }
}

/// The initial symbol table is the Hack platform's: `R0` .. `R15` (the name
/// `R` and the decimal digits of `n`) stand for the addresses 0 .. 15,
/// `SCREEN` for 16384, `KBD` for 24576, and `SP`, `LCL`, `ARG`, `THIS`, `THAT`
/// for 0 .. 4; the table holds no other symbol.
pub proof fn lemma_predefined_table()
    ensures
        ({
            let t = map_of_pairs(predefined_view());
            &&& forall|n: u16| n <= 15 ==> t.contains_key(#[trigger] register_name(n)) && t[register_name(n)] == n
            &&& t.contains_key("SCREEN"@) && t["SCREEN"@] == 16384
            &&& t.contains_key("KBD"@) && t["KBD"@] == 24576
            &&& t.contains_key("SP"@) && t["SP"@] == 0
            &&& t.contains_key("LCL"@) && t["LCL"@] == 1
            &&& t.contains_key("ARG"@) && t["ARG"@] == 2
            &&& t.contains_key("THIS"@) && t["THIS"@] == 3
            &&& t.contains_key("THAT"@) && t["THAT"@] == 4
            &&& forall|k: Seq<char>|
                t.contains_key(k) ==> (exists|n: u16| n <= 15 && k == #[trigger] register_name(n)) || k
                    == "SCREEN"@ || k == "KBD"@ || k == "SP"@ || k == "LCL"@ || k == "ARG"@ || k
                    == "THIS"@ || k == "THAT"@
        }),
{
    lemma_predefined_distinct();
    lemma_map_of_pairs_entries(predefined_view());
    lemma_register_names();
    let p = predefined_view();
    reveal_strlit("R0");
    reveal_strlit("R1");
    reveal_strlit("R2");
    reveal_strlit("R3");
    reveal_strlit("R4");
    reveal_strlit("R5");
    reveal_strlit("R6");
    reveal_strlit("R7");
    reveal_strlit("R8");
    reveal_strlit("R9");
    reveal_strlit("R10");
    reveal_strlit("R11");
    reveal_strlit("R12");
    reveal_strlit("R13");
    reveal_strlit("R14");
    reveal_strlit("R15");
    reveal_strlit("SCREEN");
    reveal_strlit("KBD");
    reveal_strlit("SP");
    reveal_strlit("LCL");
    reveal_strlit("ARG");
    reveal_strlit("THIS");
    reveal_strlit("THAT");

    let t = map_of_pairs(p);
    assert(p[16].0 == "SCREEN"@ && p[17].0 == "KBD"@ && p[18].0 == "SP"@ && p[19].0 == "LCL"@);
    assert(p[20].0 == "ARG"@ && p[21].0 == "THIS"@ && p[22].0 == "THAT"@);
    assert forall|n: u16| n <= 15 implies t.contains_key(#[trigger] register_name(n)) && t[register_name(n)] == n by {
        lemma_register_entry(n);
    }
    assert forall|k: Seq<char>| t.contains_key(k) implies (exists|n: u16| n <= 15 && k == #[trigger] register_name(n)) || k
        == "SCREEN"@ || k == "KBD"@ || k == "SP"@ || k == "LCL"@ || k == "ARG"@ || k == "THIS"@
        || k == "THAT"@ by {
        let i = choose|i: int| 0 <= i < p.len() && #[trigger] p[i].0 == k;
        if i <= 15 {
            lemma_register_entry(i as u16);
        }
    }
}

/// Entry `n` of the predefined symbols, for `n` up to 15, is the register `Rn`.
proof fn lemma_register_entry(n: u16)
    requires
        n <= 15,
    ensures
        predefined_view()[n as int].0 == register_name(n),
        predefined_view()[n as int].1 == n,
{
    lemma_register_names();
    let p = predefined_view();
    if n == 0 {
        assert(p[0].0 == "R0"@);
    }
    if n == 1 {
        assert(p[1].0 == "R1"@);
    }
    if n == 2 {
        assert(p[2].0 == "R2"@);
    }
    if n == 3 {
        assert(p[3].0 == "R3"@);
    }
    if n == 4 {
        assert(p[4].0 == "R4"@);
    }
    if n == 5 {
        assert(p[5].0 == "R5"@);
    }
    if n == 6 {
        assert(p[6].0 == "R6"@);
    }
    if n == 7 {
        assert(p[7].0 == "R7"@);
    }
    if n == 8 {
        assert(p[8].0 == "R8"@);
    }
    if n == 9 {
        assert(p[9].0 == "R9"@);
    }
    if n == 10 {
        assert(p[10].0 == "R10"@);
    }
    if n == 11 {
        assert(p[11].0 == "R11"@);
    }
    if n == 12 {
        assert(p[12].0 == "R12"@);
    }
    if n == 13 {
        assert(p[13].0 == "R13"@);
    }
    if n == 14 {
        assert(p[14].0 == "R14"@);
    }
    if n == 15 {
        assert(p[15].0 == "R15"@);
    }
}

fn sym(name: &str, value: u16) -> (r: (String, Addr))
    requires
        value <= ADDR_MAX,
    ensures
        r.0@ == name@,
        r.1@ == value,
{
    (String::from_str(name), Addr::new(value))
}

/// The symbols that every program knows, with their addresses.
pub fn predefined_symbols() -> (r: [(String, Addr); 23])
    ensures
        pairs_view(r@) == predefined_view(),
{
    let r: [(String, Addr); 23] = [
        sym("R0", 0),
        sym("R1", 1),
        sym("R2", 2),
        sym("R3", 3),
        sym("R4", 4),
        sym("R5", 5),
        sym("R6", 6),
        sym("R7", 7),
        sym("R8", 8),
        sym("R9", 9),
        sym("R10", 10),
        sym("R11", 11),
        sym("R12", 12),
        sym("R13", 13),
        sym("R14", 14),
        sym("R15", 15),
        sym("SCREEN", 16384),
        sym("KBD", 24576),
        sym("SP", 0),
        sym("LCL", 1),
        sym("ARG", 2),
        sym("THIS", 3),
        sym("THAT", 4),
    ];
    assert(pairs_view(r@) == predefined_view());
    r
}

/// A symbol that is a number (`^\d+$`, with the Unicode class `\d`).
pub open spec fn is_numeric(s: Seq<char>) -> bool {
    s.len() > 0 && all_decimal_digits(s)
}

/// An instruction takes a word of program memory; labels and blank lines do not.
pub open spec fn is_instruction(l: LineView) -> bool {
    l is ACommand || l is CCommand
}

/// The number of instructions among `ls`.
pub open spec fn instruction_count(ls: Seq<LineView>) -> nat
    decreases ls.len(),
{
    if ls.len() == 0 {
        0
    } else {
        instruction_count(ls.drop_last()) + if is_instruction(ls.last()) {
            1nat
        } else {
            0nat
        }
    }
}

/// Every line that is not blank gets an address (the number of instructions
/// before it) that fits in 15 bits.
pub open spec fn addresses_fit(ls: Seq<LineView>) -> bool {
    forall|i: int|
        0 <= i < ls.len() && !(ls[i] is WhiteSpace) ==> instruction_count(#[trigger] ls.take(i))
            <= ADDR_MAX
}

/// The first pass: each label names the address of the instruction after it,
/// unless the symbol is known already.
pub open spec fn label_table(ls: Seq<LineView>, init: Map<Seq<char>, u16>) -> Map<Seq<char>, u16>
    decreases ls.len(),
{
    if ls.len() == 0 {
        init
    } else {
        let t = label_table(ls.drop_last(), init);
        match ls.last() {
            LineView::Label { name } => if t.contains_key(name) {
                t
            } else {
                t.insert(name, instruction_count(ls.drop_last()) as u16)
            },
            _ => t,
        }
    }
}

/// The code of an A-command, and the table and next variable address after it:
/// a number is its own address (read by `u16::from_str_radix`, which takes
/// ASCII digits only), a known symbol has its address, and a new
/// symbol becomes a variable.
pub open spec fn a_command_step(symbol: Seq<char>, table: Map<Seq<char>, u16>, next: u16) -> Result<
    (Map<Seq<char>, u16>, u16, Seq<char>),
    AsmError,
> {
    if is_numeric(symbol) {
        match parse_u16(symbol) {
            None => Err(AsmError::ParseAddrFailed),
            Some(value) => if value > ADDR_MAX {
                Err(AsmError::AddrOutOfRange)
            } else {
                Ok((table, next, a_command_code(value)))
            },
        }
    } else if table.contains_key(symbol) {
        Ok((table, next, a_command_code(table[symbol])))
    } else if next >= ADDR_MAX {
        Err(AsmError::AddrOutOfRange)
    } else {
        Ok((table.insert(symbol, next), (next + 1) as u16, a_command_code(next)))
    }
}

/// The code of a C-command; the destination is decoded first, then the
/// computation, then the jump.
pub open spec fn c_command_step(
    dest: Option<Seq<char>>,
    comp: Seq<char>,
    jump: Option<Seq<char>>,
) -> Result<Seq<char>, AsmError> {
    if field_bits(dest, |d| dest_bits(d)) is None {
        Err(AsmError::DecodeDestFailed)
    } else if comp_bits(comp) is None {
        Err(AsmError::DecodeCompFailed)
    } else if field_bits(jump, |j| jump_bits(j)) is None {
        Err(AsmError::DecodeJumpFailed)
    } else {
        Ok(c_command_code(dest, comp, jump))
    }
}

/// The second pass: the code of each instruction in order, the symbol table
/// and the next variable address; or the first error, with the code of the
/// instructions before it.
pub open spec fn code_pass(ls: Seq<LineView>, table: Map<Seq<char>, u16>, next: u16) -> Result<
    (Map<Seq<char>, u16>, u16, Seq<Seq<char>>),
    (AsmError, Seq<Seq<char>>),
>
    decreases ls.len(),
{
    if ls.len() == 0 {
        Ok((table, next, seq![]))
    } else {
        match code_pass(ls.drop_last(), table, next) {
            Err(failure) => Err(failure),
            Ok((t, n, code)) => match ls.last() {
                LineView::ACommand { symbol } => match a_command_step(symbol, t, n) {
                    Err(e) => Err((e, code)),
                    Ok((t2, n2, c)) => Ok((t2, n2, code.push(c))),
                },
                LineView::CCommand { dest, comp, jump } => match c_command_step(dest, comp, jump) {
                    Err(e) => Err((e, code)),
                    Ok(c) => Ok((t, n, code.push(c))),
                },
                _ => Ok((t, n, code)),
            },
        }
    }
}

/// The machine code of an assembly program, one line per instruction; or the
/// error, with the code written before it: none when the first pass fails,
/// which happens before the output is opened.
pub open spec fn assemble_view(source: Seq<Seq<char>>) -> Result<
    Seq<Seq<char>>,
    (AsmError, Option<Seq<Seq<char>>>),
> {
    let ls = source.map_values(|s: Seq<char>| parse_line_view(s));
    if !addresses_fit(ls) {
        Err((AsmError::AddrOutOfRange, None))
    } else {
        match code_pass(ls, label_table(ls, map_of_pairs(predefined_view())), VAR_MEMORY_BASE) {
            Ok((_, _, code)) => Ok(code),
            Err((e, code)) => Err((e, Some(code))),
        }
    }
}

/// Why an assembly program cannot be translated, and the machine code of the
/// instructions before the error, where the second pass had begun.
#[derive(Debug)]
pub struct AssemblyFailure {
    pub error: AsmError,
    pub written: Option<Vec<String>>,
}

/// The plain value of what a failure leaves written.
pub open spec fn written_view(w: Option<Vec<String>>) -> Option<Seq<Seq<char>>> {
    match w {
        None => None,
        Some(v) => Some(strings_view(v@)),
    }
}

/// The plain values of a list of lines.
pub open spec fn lines_view(v: Seq<Line>) -> Seq<LineView> {
    v.map_values(|l: Line| l@)
}

/// Whether a symbol is a number (`^\d+$`).
fn numeric_chars(s: &[char]) -> (r: bool)
    ensures
        r == is_numeric(s@),
{
    assert(s@.skip(0) == s@);
    s.len() > 0 && decimal_digits_from(s, 0)
}

/// The address of a symbol that is a number; `None` for any other symbol.
pub fn try_convert_numeric_addr(symbol: &str) -> (r: Option<Addr>)
    requires
        is_numeric(symbol@) ==> (parse_u16(symbol@) matches Some(v) && v <= ADDR_MAX),
    ensures
        r is Some <==> is_numeric(symbol@),
        r matches Some(a) ==> parse_u16(symbol@) == Some(a@),
{
    let s: Vec<char> = to_chars(symbol);
    if !numeric_chars(&s) {
        return None;
    }
    let v: Option<u16> = parse_u16_chars(&s);
    Some(Addr::new(v.unwrap()))
}

/// Whether a numbered line is not blank.
pub fn line_with_num_not_white_space(line: &LineWithAddr) -> (r: bool)
    ensures
        r == !(line.line@ is WhiteSpace),
{
    if let Line::WhiteSpace = line.line {
        false
    } else {
        true
    }
}

/// Whether a numbered line is not a label.
pub fn line_with_num_not_label(line: &LineWithAddr) -> (r: bool)
    ensures
        r == !(line.line@ is Label),
{
    if let Line::Label { .. } = line.line {
        false
    } else {
        true
    }
}

/// What a numbered line means: its line, and the address of the next
/// instruction unless the line is blank.
pub open spec fn numbered(ls: Seq<LineView>, r: Seq<LineWithAddr>) -> bool {
    &&& r.len() == ls.len()
    &&& forall|i: int|
        0 <= i < ls.len() ==> {
            &&& (#[trigger] r[i]).line@ == ls[i]
            &&& (r[i].addr is None <==> ls[i] is WhiteSpace)
            &&& (r[i].addr matches Some(a) ==> a@ == instruction_count(ls.take(i)))
        }
}

/// Numbers the lines: each line but a blank one gets the address of the next
/// instruction.
pub fn line_with_machine_addr(lines: Vec<Line>) -> (r: Vec<LineWithAddr>)
    requires
        addresses_fit(lines_view(lines@)),
    ensures
        numbered(lines_view(lines@), r@),
{
    let ghost ls: Seq<LineView> = lines_view(lines@);
    let mut r: Vec<LineWithAddr> = Vec::new();
    let mut machine_addr: u16 = 0;
    for line in it: lines.into_iter()
        invariant
            it.seq() == lines@,
            ls == lines_view(lines@),
            addresses_fit(ls),
            r@.len() == it.index(),
            machine_addr == instruction_count(ls.take(it.index() as int)),
            forall|i: int|
                0 <= i < it.index() ==> {
                    &&& (#[trigger] r@[i]).line@ == ls[i]
                    &&& (r@[i].addr is None <==> ls[i] is WhiteSpace)
                    &&& (r@[i].addr matches Some(a) ==> a@ == instruction_count(ls.take(i)))
                },
    {
        let ghost i: int = it.index() as int;
        assert(ls[i] == line@);
        assert(ls.take(i + 1).drop_last() == ls.take(i));
        let current_addr: u16 = machine_addr;
        let addr: Option<Addr> = if let Line::WhiteSpace = line {
            None
        } else {
            assert(instruction_count(ls.take(i)) <= ADDR_MAX);
            Some(Addr::new(current_addr))
        };
        match &line {
            Line::Label { .. } | Line::WhiteSpace => {},
            _ => {
                machine_addr = machine_addr + 1;
            },
        }
        r.push(LineWithAddr { line, addr });
    }
    r
}

/// Whether every line but a blank one gets an address that fits in 15 bits.
fn check_addresses(lines: &Vec<Line>) -> (r: bool)
    ensures
        r == addresses_fit(lines_view(lines@)),
{
    let ghost ls: Seq<LineView> = lines_view(lines@);
    let mut count: u32 = 0;
    let mut i: usize = 0;
    while i < lines.len()
        invariant
            i <= lines.len(),
            ls == lines_view(lines@),
            count == instruction_count(ls.take(i as int)),
            count <= ADDR_MAX + 1,
            forall|j: int|
                0 <= j < i && !(ls[j] is WhiteSpace) ==> instruction_count(#[trigger] ls.take(j))
                    <= ADDR_MAX,
        decreases lines.len() - i,
    {
        assert(ls.take(i + 1).drop_last() == ls.take(i as int));
        match &lines[i] {
            Line::WhiteSpace => {},
            Line::Label { .. } => {
                if count > 32767 {
                    return false;
                }
            },
            _ => {
                if count > 32767 {
                    return false;
                }
                count = count + 1;
            },
        }
        i = i + 1;
    }
    true
}

/// The error of a numeric symbol that `u16::from_str_radix` cannot read
/// (digits outside ASCII, or a value over 16 bits), or whose value does not fit
/// an address.
fn check_numeric_addr(symbol: &str) -> (r: Result<(), AsmError>)
    ensures
        r == (if is_numeric(symbol@) {
            match parse_u16(symbol@) {
                None => Err(AsmError::ParseAddrFailed),
                Some(v) => if v > ADDR_MAX {
                    Err(AsmError::AddrOutOfRange)
                } else {
                    Ok(())
                },
            }
        } else {
            Ok(())
        }),
{
    let s: Vec<char> = to_chars(symbol);
    if !numeric_chars(&s) {
        return Ok(());
    }
    match parse_u16_chars(&s) {
        None => Err(AsmError::ParseAddrFailed),
        Some(v) => if v > ADDR_MAX {
            Err(AsmError::AddrOutOfRange)
        } else {
            Ok(())
        },
    }
}

/// The error of a C-command with an unknown mnemonic.
fn check_c_command(dest: &Option<String>, comp: &String, jump: &Option<String>) -> (r: Result<
    (),
    AsmError,
>)
    ensures
        r == (match c_command_step(opt_view(*dest), comp@, opt_view(*jump)) {
            Ok(_) => Ok(()),
            Err(e) => Err(e),
        }),
{
    if let Some(d) = dest {
        let d_chars: Vec<char> = to_chars(d.as_str());
        if lookup_dest(&d_chars).is_none() {
            return Err(AsmError::DecodeDestFailed);
        }
    }
    let comp_chars: Vec<char> = to_chars(comp.as_str());
    if lookup_comp(&comp_chars).is_none() {
        return Err(AsmError::DecodeCompFailed);
    }
    if let Some(j) = jump {
        let j_chars: Vec<char> = to_chars(j.as_str());
        if lookup_jump(&j_chars).is_none() {
            return Err(AsmError::DecodeJumpFailed);
        }
    }
    Ok(())
}

fn clone_opt(s: &Option<String>) -> (r: Option<String>)
    ensures
        opt_view(r) == opt_view(*s),
{
    match s {
        Some(t) => Some(t.clone()),
        None => None,
    }
}

/// An error in the second pass is the error of the whole pass.
proof fn lemma_code_pass_err(ls: Seq<LineView>, k: int, t: Map<Seq<char>, u16>, n: u16)
    requires
        0 <= k <= ls.len(),
        code_pass(ls.take(k), t, n) is Err,
    ensures
        code_pass(ls, t, n) == code_pass(ls.take(k), t, n),
    decreases ls.len(),
{
    if k == ls.len() {
        assert(ls.take(k) == ls);
    } else {
        assert(ls.drop_last().take(k) == ls.take(k));
        lemma_code_pass_err(ls.drop_last(), k, t, n);
    }
}

/// Translates an assembly program into machine code, one line per
/// instruction, as the two passes of the assembler do.
pub fn assemble(source: &Vec<String>) -> (r: Result<Vec<String>, AssemblyFailure>)
    ensures
        match r {
            Ok(code) => assemble_view(strings_view(source@)) == Ok::<
                Seq<Seq<char>>,
                (AsmError, Option<Seq<Seq<char>>>),
            >(strings_view(code@)),
            Err(f) => assemble_view(strings_view(source@)) == Err::<
                Seq<Seq<char>>,
                (AsmError, Option<Seq<Seq<char>>>),
            >((f.error, written_view(f.written))),
        },
{
    let ghost src: Seq<Seq<char>> = strings_view(source@);
    let mut lines: Vec<Line> = Vec::new();
    let mut i: usize = 0;
    while i < source.len()
        invariant
            i <= source.len(),
            src == strings_view(source@),
            lines@.len() == i,
            forall|j: int| 0 <= j < i ==> (#[trigger] lines@[j])@ == parse_line_view(src[j]),
        decreases source.len() - i,
    {
        lines.push(parse_line(source[i].clone()));
        i = i + 1;
    }
    let ghost ls: Seq<LineView> = lines_view(lines@);
    assert(ls == src.map_values(|s: Seq<char>| parse_line_view(s)));
    if !check_addresses(&lines) {
        return Err(AssemblyFailure { error: AsmError::AddrOutOfRange, written: None });
    }
    let with_addr: Vec<LineWithAddr> = line_with_machine_addr(lines);
    let mut table: SymbolTable = SymbolTable::new(
        predefined_symbols(),
        Addr::new(VAR_MEMORY_BASE),
    );
    let ghost init: Map<Seq<char>, u16> = map_of_pairs(predefined_view());
    // the first pass: labels
    i = 0;
    while i < with_addr.len()
        invariant
            i <= with_addr.len(),
            numbered(ls, with_addr@),
            init == map_of_pairs(predefined_view()),
            table.symbols() == label_table(ls.take(i as int), init),
            table.next_var() == VAR_MEMORY_BASE,
        decreases with_addr.len() - i,
    {
        let item: &LineWithAddr = &with_addr[i];
        assert(ls.take(i + 1).drop_last() == ls.take(i as int));
        assert(ls.take(i + 1).last() == ls[i as int]);
        if line_with_num_not_white_space(item) {
            if let Line::Label { name } = &item.line {
                table.set_label(name.clone(), item.addr.unwrap());
            }
        }
        i = i + 1;
    }
    assert(ls.take(ls.len() as int) == ls);
    let ghost labels: Map<Seq<char>, u16> = table.symbols();
    // the second pass: instructions
    let mut code: Vec<String> = Vec::new();
    i = 0;
    assert(ls.take(0) == Seq::<LineView>::empty());
    assert(strings_view(code@) == Seq::<Seq<char>>::empty());
    while i < with_addr.len()
        invariant
            i <= with_addr.len(),
            numbered(ls, with_addr@),
            addresses_fit(ls),
            src == strings_view(source@),
            ls == src.map_values(|s: Seq<char>| parse_line_view(s)),
            labels == label_table(ls, map_of_pairs(predefined_view())),
            code_pass(ls.take(i as int), labels, VAR_MEMORY_BASE) == Ok::<
                (Map<Seq<char>, u16>, u16, Seq<Seq<char>>),
                (AsmError, Seq<Seq<char>>),
            >((table.symbols(), table.next_var(), strings_view(code@))),
        decreases with_addr.len() - i,
    {
        let item: &LineWithAddr = &with_addr[i];
        let ghost before: Seq<Seq<char>> = strings_view(code@);
        assert(ls.take(i + 1).drop_last() == ls.take(i as int));
        assert(ls.take(i + 1).last() == ls[i as int]);
        if line_with_num_not_white_space(item) && line_with_num_not_label(item) {
            match &item.line {
                Line::ACommand { symbol } => {
                    if let Err(e) = check_numeric_addr(symbol.as_str()) {
                        proof {
                            lemma_code_pass_err(ls, i + 1, labels, VAR_MEMORY_BASE);
                        }
                        return Err(AssemblyFailure { error: e, written: Some(code) });
                    }
                    if try_convert_numeric_addr(symbol.as_str()).is_none() {
                        if table.get_addr(symbol.as_str()).is_none() {
                            if table.next_var_addr().value() >= ADDR_MAX {
                                proof {
                                    lemma_code_pass_err(ls, i + 1, labels, VAR_MEMORY_BASE);
                                }
                                return Err(
                                    AssemblyFailure {
                                        error: AsmError::AddrOutOfRange,
                                        written: Some(code),
                                    },
                                );
                            }
                            table.set_var_memory(symbol.clone());
                        }
                    }
                    let addr: Addr = match try_convert_numeric_addr(symbol.as_str()) {
                        Some(addr) => addr,
                        None => *table.get_addr(symbol.as_str()).unwrap(),
                    };
                    code.push(decode_a_command(addr));
                },
                Line::CCommand { dest, comp, jump } => {
                    if let Err(e) = check_c_command(dest, comp, jump) {
                        proof {
                            lemma_code_pass_err(ls, i + 1, labels, VAR_MEMORY_BASE);
                        }
                        return Err(AssemblyFailure { error: e, written: Some(code) });
                    }
                    code.push(decode_c_command(clone_opt(dest), comp.clone(), clone_opt(jump)));
                },
                _ => {},
            }
        }
        assert(strings_view(code@) == before || strings_view(code@) == before.push(
            code@.last()@,
        ));
        i = i + 1;
    }
    assert(ls.take(ls.len() as int) == ls);
    Ok(code)
}

proof fn lemma_code_pass_shape(ls: Seq<LineView>, table: Map<Seq<char>, u16>, next: u16)
    ensures
        code_pass(ls, table, next) matches Ok((_, _, code)) ==> {
            &&& code.len() == instruction_count(ls)
            &&& forall|i: int| 0 <= i < code.len() ==> (#[trigger] code[i]).len() == 16
        },
    decreases ls.len(),
{
    if ls.len() > 0 {
        lemma_code_pass_shape(ls.drop_last(), table, next);
        if let Ok((t, n, code)) = code_pass(ls.drop_last(), table, next) {
            match ls.last() {
                LineView::ACommand { symbol } => {
                    if let Ok((_, _, c)) = a_command_step(symbol, t, n) {
                        reveal_with_fuel(pow2, 17);
                        if is_numeric(symbol) {
                            lemma_binary_roundtrip(parse_u16(symbol).unwrap() as nat, 16);
                        } else if t.contains_key(symbol) {
                            lemma_binary_roundtrip(t[symbol] as nat, 16);
                        } else {
                            lemma_binary_roundtrip(n as nat, 16);
                        }
                        assert(c.len() == 16);
                        assert forall|i: int| 0 <= i < code.push(c).len() implies (#[trigger] code.push(
                            c,
                        )[i]).len() == 16 by {
                            if i < code.len() {
                                assert(code.push(c)[i] == code[i]);
                            }
                        }
                    }
                },
                LineView::CCommand { dest, comp, jump } => {
                    if let Ok(c) = c_command_step(dest, comp, jump) {
                        lemma_c_command_code(dest, comp, jump);
                        assert forall|i: int| 0 <= i < code.push(c).len() implies (#[trigger] code.push(
                            c,
                        )[i]).len() == 16 by {
                            if i < code.len() {
                                assert(code.push(c)[i] == code[i]);
                            }
                        }
                    }
                },
                _ => {},
            }
        }
    }
}

/// An assembled program holds one line of machine code per instruction of the
/// source, and every line is 16 characters long.
pub proof fn lemma_assemble_shape(source: Seq<Seq<char>>)
    ensures
        assemble_view(source) matches Ok(code) ==> {
            &&& code.len() == instruction_count(
                source.map_values(|s: Seq<char>| parse_line_view(s)),
            )
            &&& forall|i: int| 0 <= i < code.len() ==> (#[trigger] code[i]).len() == 16
        },
{
    let ls = source.map_values(|s: Seq<char>| parse_line_view(s));
    lemma_code_pass_shape(ls, label_table(ls, map_of_pairs(predefined_view())), VAR_MEMORY_BASE);
}

proof fn lemma_label_table_keys(ls: Seq<LineView>, init: Map<Seq<char>, u16>, x: Seq<char>)
    ensures
        label_table(ls, init).contains_key(x) ==> init.contains_key(x) || exists|j: int|
            0 <= j < ls.len() && ls[j] == (LineView::Label { name: x }),
    decreases ls.len(),
{
    if ls.len() > 0 {
        lemma_label_table_keys(ls.drop_last(), init, x);
        if label_table(ls.drop_last(), init).contains_key(x) && !init.contains_key(x) {
            let j = choose|j: int|
                0 <= j < ls.drop_last().len() && ls.drop_last()[j] == (LineView::Label { name: x });
            assert(ls[j] == ls.drop_last()[j]);
        }
    }
}

proof fn lemma_label_table_keeps(ls: Seq<LineView>, init: Map<Seq<char>, u16>, k: int, x: Seq<char>)
    requires
        0 <= k <= ls.len(),
        label_table(ls.take(k), init).contains_key(x),
    ensures
        label_table(ls, init).contains_key(x),
        label_table(ls, init)[x] == label_table(ls.take(k), init)[x],
    decreases ls.len(),
{
    if k == ls.len() {
        assert(ls.take(k) == ls);
    } else {
        assert(ls.drop_last().take(k) == ls.take(k));
        lemma_label_table_keeps(ls.drop_last(), init, k, x);
    }
}

/// A label names the address of the instruction that follows it (the number
/// of instructions before it), unless the symbol is predefined or an earlier
/// label took the name.
pub proof fn lemma_label_address(ls: Seq<LineView>, init: Map<Seq<char>, u16>, i: int, name: Seq<char>)
    requires
        0 <= i < ls.len(),
        ls[i] == (LineView::Label { name }),
        !init.contains_key(name),
        forall|j: int| 0 <= j < i ==> ls[j] != (LineView::Label { name }),
    ensures
        label_table(ls, init).contains_key(name),
        label_table(ls, init)[name] == instruction_count(ls.take(i)) as u16,
{
    let before = ls.take(i);
    lemma_label_table_keys(before, init, name);
    if label_table(before, init).contains_key(name) {
        let j = choose|j: int| 0 <= j < before.len() && before[j] == (LineView::Label { name });
        assert(before[j] == ls[j]);
    }
    assert(ls.take(i + 1).drop_last() == before);
    assert(ls.take(i + 1).last() == ls[i]);
    lemma_label_table_keeps(ls, init, i + 1, name);
}

/// How the second pass extends a table `t0` into `t`: the symbols of `t0` keep
/// their addresses, and every new symbol (a variable) has its own address, from
/// `n0` up to below `n`.
pub open spec fn allocates_variables(
    t0: Map<Seq<char>, u16>,
    t: Map<Seq<char>, u16>,
    n0: u16,
    n: u16,
) -> bool {
    &&& n0 <= n
    &&& forall|x: Seq<char>| #[trigger]
        t0.contains_key(x) ==> t.contains_key(x) && t[x] == t0[x]
    &&& forall|x: Seq<char>|
        #[trigger] t.contains_key(x) && !t0.contains_key(x) ==> n0 <= t[x] < n
    &&& forall|x: Seq<char>, y: Seq<char>|
        #![trigger t[x], t[y]]
        t.contains_key(x) && t.contains_key(y) && !t0.contains_key(x) && !t0.contains_key(y) && x
            != y ==> t[x] != t[y]
}

/// The second pass keeps the addresses of the symbols it starts with and gives
/// each variable an address of its own, counting up from the first variable
/// address.
pub proof fn lemma_code_pass_variables(ls: Seq<LineView>, t0: Map<Seq<char>, u16>, n0: u16)
    ensures
        code_pass(ls, t0, n0) matches Ok((t, n, _)) ==> allocates_variables(t0, t, n0, n),
    decreases ls.len(),
{
    if ls.len() > 0 {
        lemma_code_pass_variables(ls.drop_last(), t0, n0);
        if let Ok((t, n, code)) = code_pass(ls.drop_last(), t0, n0) {
            if let LineView::ACommand { symbol } = ls.last() {
                if !is_numeric(symbol) && !t.contains_key(symbol) && n < ADDR_MAX {
                    let t2 = t.insert(symbol, n);
                    let n2 = (n + 1) as u16;
                    assert(!t0.contains_key(symbol));
                    assert forall|x: Seq<char>| #[trigger]
                        t0.contains_key(x) implies t2.contains_key(x) && t2[x] == t0[x] by {
                        assert(t.contains_key(x));
                    }
                    assert forall|x: Seq<char>| #[trigger]
                        t2.contains_key(x) && !t0.contains_key(x) implies n0 <= t2[x] < n2 by {
                        if x != symbol {
                            assert(t.contains_key(x));
                        }
                    }
                    assert forall|x: Seq<char>, y: Seq<char>|
                        #![trigger t2[x], t2[y]]
                        t2.contains_key(x) && t2.contains_key(y) && !t0.contains_key(x)
                            && !t0.contains_key(y) && x != y implies t2[x] != t2[y] by {
                        if x != symbol && y != symbol {
                            assert(t[x] != t[y]);
                        } else if x == symbol {
                            assert(t.contains_key(y));
                            assert(t[y] < n);
                        } else {
                            assert(t.contains_key(x));
                            assert(t[x] < n);
                        }
                    }
                }
            }
        }
    }
}

} // verus!
