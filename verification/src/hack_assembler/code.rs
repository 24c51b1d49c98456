use crate::hack_assembler::symbol_table::{Addr, ADDR_MAX};
use crate::text::{
    binary, binary_value, chars_eq, lemma_binary_roundtrip, opt_view, pow2, push_binary, push_str,
    to_chars,
};
use vstd::prelude::*;
use vstd::string::*;

verus! {

/// The bits of a destination mnemonic.
pub open spec fn dest_bits(dest: Seq<char>) -> Option<Seq<char>> {
    if dest == "M"@ {
        Some("001"@)
    } else if dest == "D"@ {
        Some("010"@)
    } else if dest == "MD"@ {
        Some("011"@)
    } else if dest == "A"@ {
        Some("100"@)
    } else if dest == "AM"@ {
        Some("101"@)
    } else if dest == "AD"@ {
        Some("110"@)
    } else if dest == "AMD"@ {
        Some("111"@)
    } else {
        None
    }
}

/// The bits of a computation mnemonic: the `a` bit and the six `c` bits.
pub open spec fn comp_bits(comp: Seq<char>) -> Option<Seq<char>> {
    if comp == "0"@ {
        Some("0101010"@)
    } else if comp == "1"@ {
        Some("0111111"@)
    } else if comp == "-1"@ {
        Some("0111010"@)
    } else if comp == "D"@ {
        Some("0001100"@)
    } else if comp == "A"@ {
        Some("0110000"@)
    } else if comp == "M"@ {
        Some("1110000"@)
    } else if comp == "!D"@ {
        Some("0001111"@)
    } else if comp == "!A"@ {
        Some("0110001"@)
    } else if comp == "!M"@ {
        Some("1110001"@)
    } else if comp == "-D"@ {
        Some("1001111"@)
    } else if comp == "-A"@ {
        Some("0110011"@)
    } else if comp == "-M"@ {
        Some("1110011"@)
    } else if comp == "D+1"@ {
        Some("0011111"@)
    } else if comp == "A+1"@ {
        Some("0110111"@)
    } else if comp == "M+1"@ {
        Some("1110111"@)
    } else if comp == "D-1"@ {
        Some("0001110"@)
    } else if comp == "A-1"@ {
        Some("0110010"@)
    } else if comp == "M-1"@ {
        Some("1110010"@)
    } else if comp == "D+A"@ {
        Some("0000010"@)
    } else if comp == "D+M"@ {
        Some("1000010"@)
    } else if comp == "D-A"@ {
        Some("0010011"@)
    } else if comp == "D-M"@ {
        Some("1010011"@)
    } else if comp == "A-D"@ {
        Some("0000111"@)
    } else if comp == "M-D"@ {
        Some("1000111"@)
    } else if comp == "D&A"@ {
        Some("0000000"@)
    } else if comp == "D&M"@ {
        Some("1000000"@)
    } else if comp == "D|A"@ {
        Some("0010101"@)
    } else if comp == "D|M"@ {
        Some("1010101"@)
    } else {
        None
    }
}

/// The bits of a jump mnemonic.
pub open spec fn jump_bits(jump: Seq<char>) -> Option<Seq<char>> {
    if jump == "JGT"@ {
        Some("001"@)
    } else if jump == "JEQ"@ {
        Some("010"@)
    } else if jump == "JGE"@ {
        Some("011"@)
    } else if jump == "JLT"@ {
        Some("100"@)
    } else if jump == "JNE"@ {
        Some("101"@)
    } else if jump == "JLE"@ {
        Some("110"@)
    } else if jump == "JMP"@ {
        Some("111"@)
    } else {
        None
    }
}

/// The bits of an optional field: `000` when it is absent.
pub open spec fn field_bits(
    field: Option<Seq<char>>,
    bits: spec_fn(Seq<char>) -> Option<Seq<char>>,
) -> Option<Seq<char>> {
    match field {
        None => Some("000"@),
        Some(f) => bits(f),
    }
}

/// Whether every mnemonic of a C-command is known.
pub open spec fn c_command_known(
    dest: Option<Seq<char>>,
    comp: Seq<char>,
    jump: Option<Seq<char>>,
) -> bool {
    &&& field_bits(dest, |d| dest_bits(d)) is Some
    &&& comp_bits(comp) is Some
    &&& field_bits(jump, |j| jump_bits(j)) is Some
}

/// The machine code of a C-command: `111`, then the computation, destination
/// and jump bits.
pub open spec fn c_command_code(
    dest: Option<Seq<char>>,
    comp: Seq<char>,
    jump: Option<Seq<char>>,
) -> Seq<char> {
    "111"@ + comp_bits(comp).unwrap() + field_bits(dest, |d| dest_bits(d)).unwrap() + field_bits(
        jump,
        |j| jump_bits(j),
    ).unwrap()
}

/// The machine code of an A-command: the address in 16 binary digits.
pub open spec fn a_command_code(addr: u16) -> Seq<char> {
    binary(addr as nat, 16)
}

pub(crate) fn lookup_dest(dest: &[char]) -> (r: Option<&'static str>)
    ensures
        r matches Some(b) ==> dest_bits(dest@) == Some(b@),
        r is None ==> dest_bits(dest@) is None,
{
    if chars_eq(dest, "M") {
        Some("001")
    } else if chars_eq(dest, "D") {
        Some("010")
    } else if chars_eq(dest, "MD") {
        Some("011")
    } else if chars_eq(dest, "A") {
        Some("100")
    } else if chars_eq(dest, "AM") {
        Some("101")
    } else if chars_eq(dest, "AD") {
        Some("110")
    } else if chars_eq(dest, "AMD") {
        Some("111")
    } else {
        None
    }
}

pub(crate) fn lookup_comp(comp: &[char]) -> (r: Option<&'static str>)
    ensures
        r matches Some(b) ==> comp_bits(comp@) == Some(b@),
        r is None ==> comp_bits(comp@) is None,
{
    if chars_eq(comp, "0") {
        Some("0101010")
    } else if chars_eq(comp, "1") {
        Some("0111111")
    } else if chars_eq(comp, "-1") {
        Some("0111010")
    } else if chars_eq(comp, "D") {
        Some("0001100")
    } else if chars_eq(comp, "A") {
        Some("0110000")
    } else if chars_eq(comp, "M") {
        Some("1110000")
    } else if chars_eq(comp, "!D") {
        Some("0001111")
    } else if chars_eq(comp, "!A") {
        Some("0110001")
    } else if chars_eq(comp, "!M") {
        Some("1110001")
    } else if chars_eq(comp, "-D") {
        Some("1001111")
    } else if chars_eq(comp, "-A") {
        Some("0110011")
    } else if chars_eq(comp, "-M") {
        Some("1110011")
    } else if chars_eq(comp, "D+1") {
        Some("0011111")
    } else if chars_eq(comp, "A+1") {
        Some("0110111")
    } else if chars_eq(comp, "M+1") {
        Some("1110111")
    } else if chars_eq(comp, "D-1") {
        Some("0001110")
    } else if chars_eq(comp, "A-1") {
        Some("0110010")
    } else if chars_eq(comp, "M-1") {
        Some("1110010")
    } else if chars_eq(comp, "D+A") {
        Some("0000010")
    } else if chars_eq(comp, "D+M") {
        Some("1000010")
    } else if chars_eq(comp, "D-A") {
        Some("0010011")
    } else if chars_eq(comp, "D-M") {
        Some("1010011")
    } else if chars_eq(comp, "A-D") {
        Some("0000111")
    } else if chars_eq(comp, "M-D") {
        Some("1000111")
    } else if chars_eq(comp, "D&A") {
        Some("0000000")
    } else if chars_eq(comp, "D&M") {
        Some("1000000")
    } else if chars_eq(comp, "D|A") {
        Some("0010101")
    } else if chars_eq(comp, "D|M") {
        Some("1010101")
    } else {
        None
    }
}

pub(crate) fn lookup_jump(jump: &[char]) -> (r: Option<&'static str>)
    ensures
        r matches Some(b) ==> jump_bits(jump@) == Some(b@),
        r is None ==> jump_bits(jump@) is None,
{
    if chars_eq(jump, "JGT") {
        Some("001")
    } else if chars_eq(jump, "JEQ") {
        Some("010")
    } else if chars_eq(jump, "JGE") {
        Some("011")
    } else if chars_eq(jump, "JLT") {
        Some("100")
    } else if chars_eq(jump, "JNE") {
        Some("101")
    } else if chars_eq(jump, "JLE") {
        Some("110")
    } else if chars_eq(jump, "JMP") {
        Some("111")
    } else {
        None
    }
}

/// The machine code of an A-command that loads `addr`.
pub fn decode_a_command(addr: Addr) -> (r: String)
    ensures
        r@ == a_command_code(addr@),
{
    let mut r: String = String::new();
    push_binary(&mut r, addr.value(), 16);
    r
}

/// The machine code of a C-command.
pub fn decode_c_command(dest: Option<String>, comp: String, jump: Option<String>) -> (r: String)
    requires
        c_command_known(opt_view(dest), comp@, opt_view(jump)),
    ensures
        r@ == c_command_code(opt_view(dest), comp@, opt_view(jump)),
{
    let dest_code: &str = match &dest {
        Some(d) => {
            let d_chars: Vec<char> = to_chars(d.as_str());
            lookup_dest(&d_chars).unwrap()
        },
        None => "000",
    };
    let comp_chars: Vec<char> = to_chars(comp.as_str());
    let comp_code: &str = lookup_comp(&comp_chars).unwrap();
    let jump_code: &str = match &jump {
        Some(j) => {
            let j_chars: Vec<char> = to_chars(j.as_str());
            lookup_jump(&j_chars).unwrap()
        },
        None => "000",
    };
    let mut r: String = String::from_str("111");
    push_str(&mut r, comp_code);
    push_str(&mut r, dest_code);
    push_str(&mut r, jump_code);
    r
}

proof fn lemma_field_bits_len(dest: Option<Seq<char>>, jump: Option<Seq<char>>)
    ensures
        field_bits(dest, |d| dest_bits(d)) matches Some(b) ==> b.len() == 3,
        field_bits(jump, |j| jump_bits(j)) matches Some(b) ==> b.len() == 3,
{
    reveal_strlit("000");
    reveal_strlit("001");
    reveal_strlit("010");
    reveal_strlit("011");
    reveal_strlit("100");
    reveal_strlit("101");
    reveal_strlit("110");
    reveal_strlit("111");
}

proof fn lemma_comp_bits_len(comp: Seq<char>)
    ensures
        comp_bits(comp) matches Some(b) ==> b.len() == 7,
{
    reveal_strlit("0101010");
    reveal_strlit("0111111");
    reveal_strlit("0111010");
    reveal_strlit("0001100");
    reveal_strlit("0110000");
    reveal_strlit("1110000");
    reveal_strlit("0001111");
    reveal_strlit("0110001");
    reveal_strlit("1110001");
    reveal_strlit("1001111");
    reveal_strlit("0110011");
    reveal_strlit("1110011");
    reveal_strlit("0011111");
    reveal_strlit("0110111");
    reveal_strlit("1110111");
    reveal_strlit("0001110");
    reveal_strlit("0110010");
    reveal_strlit("1110010");
    reveal_strlit("0000010");
    reveal_strlit("1000010");
    reveal_strlit("0010011");
    reveal_strlit("1010011");
    reveal_strlit("0000111");
    reveal_strlit("1000111");
    reveal_strlit("0000000");
    reveal_strlit("1000000");
    reveal_strlit("0010101");
    reveal_strlit("1010101");
}

/// The machine code of an A-command is 16 binary digits whose value is the
/// address; the first is 0, which marks an A-instruction.
pub proof fn lemma_a_command_code(addr: u16)
    requires
        addr <= ADDR_MAX,
    ensures
        a_command_code(addr).len() == 16,
        a_command_code(addr)[0] == '0',
        binary_value(a_command_code(addr)) == addr,
{
    reveal_with_fuel(pow2, 17);
    lemma_binary_roundtrip(addr as nat, 16);
}

/// The machine code of a C-command is 16 characters long and begins with
/// `111`, which marks a C-instruction.
pub proof fn lemma_c_command_code(dest: Option<Seq<char>>, comp: Seq<char>, jump: Option<Seq<char>>)
    requires
        c_command_known(dest, comp, jump),
    ensures
        c_command_code(dest, comp, jump).len() == 16,
        c_command_code(dest, comp, jump).take(3) == "111"@,
{
    reveal_strlit("111");
    lemma_field_bits_len(dest, jump);
    lemma_comp_bits_len(comp);
    let code = c_command_code(dest, comp, jump);
    assert(code.take(3) == "111"@);
}

} // verus!
