use crate::hack_assembler::assembler::{a_command_step, is_numeric, AsmError};
use crate::hack_assembler::code::{a_command_code, comp_bits, dest_bits, jump_bits};
use crate::hack_assembler::symbol_table::ADDR_MAX;
use crate::text::{
    at, decimal, find_from, is_decimal_digit, lemma_decimal_roundtrip, lemma_parse_decimal,
    parse_u16, split_once,
};
use crate::vm_translator::code_writer::mem_segment::{
    based_addr_view, base_of, is_based, pointer_name, pop_d_view, pop_view, push_d_view, push_view,
    static_name, temp_addr,
};
use crate::vm_translator::code_writer::{id_label, ARG, LCL, SP, THAT, THIS};
use crate::vm_translator::code_writer::arithmetic::{
    arithmetic_view, binary_view, is_comparison, ord_view, pop_two_view, unary_view,
};
use crate::vm_translator::parser::{Arithmetic, MemorySegment};
use vstd::prelude::*;

verus! {

/// The state of the Hack machine that assembly code changes: the A and D
/// registers and the data memory, with the symbol table that the program was
/// assembled with (predefined symbols, labels and variables).
pub struct Machine {
    pub a: u16,
    pub d: u16,
    pub ram: Map<u16, u16>,
    pub symbols: Map<Seq<char>, u16>,
}

/// The value that the symbol of an A-instruction loads, as the assembler
/// resolves it: a number of 15 bits, or what the symbol table gives it.
pub open spec fn symbol_value(symbols: Map<Seq<char>, u16>, symbol: Seq<char>) -> Option<u16> {
    if is_numeric(symbol) {
        match parse_u16(symbol) {
            Some(v) => if v <= ADDR_MAX {
                Some(v)
            } else {
                None
            },
            None => None,
        }
    } else if symbols.contains_key(symbol) {
        Some(symbols[symbol])
    } else {
        None
    }
}

/// The machine loads what the assembler encodes: where a symbol resolves to
/// a value, the assembler translates `@symbol` into the A-instruction of that
/// value and leaves its table and next variable address as they were.
pub proof fn lemma_symbol_value_assembles(symbols: Map<Seq<char>, u16>, symbol: Seq<char>, next: u16)
    requires
        symbol_value(symbols, symbol) is Some,
    ensures
        a_command_step(symbol, symbols, next) == Ok::<(Map<Seq<char>, u16>, u16, Seq<char>), AsmError>(
            (symbols, next, a_command_code(symbol_value(symbols, symbol)->0)),
        ),
{
}

/// Whether a symbol table gives the five pointers of the VM their predefined
/// addresses 0 to 4.
pub open spec fn holds_pointers(symbols: Map<Seq<char>, u16>) -> bool {
    &&& symbols.contains_key(SP@) && symbols[SP@] == 0
    &&& symbols.contains_key(LCL@) && symbols[LCL@] == 1
    &&& symbols.contains_key(ARG@) && symbols[ARG@] == 2
    &&& symbols.contains_key(THIS@) && symbols[THIS@] == 3
    &&& symbols.contains_key(THAT@) && symbols[THAT@] == 4
}

/// A 16-bit word of an integer.
pub open spec fn word(x: int) -> u16 {
    (x % 0x10000) as u16
}

/// What a computation of a C-instruction yields.
pub open spec fn comp_value(m: Machine, comp: Seq<char>) -> Option<u16> {
    let am = m.ram[m.a];
    if comp == "0"@ {
        Some(0)
    } else if comp == "1"@ {
        Some(1)
    } else if comp == "-1"@ {
        Some(0xffff)
    } else if comp == "D"@ {
        Some(m.d)
    } else if comp == "A"@ {
        Some(m.a)
    } else if comp == "M"@ {
        Some(am)
    } else if comp == "!D"@ {
        Some(!m.d)
    } else if comp == "!A"@ {
        Some(!m.a)
    } else if comp == "!M"@ {
        Some(!am)
    } else if comp == "-D"@ {
        Some(word(-m.d))
    } else if comp == "-A"@ {
        Some(word(-m.a))
    } else if comp == "-M"@ {
        Some(word(-am))
    } else if comp == "D+1"@ {
        Some(word(m.d + 1))
    } else if comp == "A+1"@ {
        Some(word(m.a + 1))
    } else if comp == "M+1"@ {
        Some(word(am + 1))
    } else if comp == "D-1"@ {
        Some(word(m.d - 1))
    } else if comp == "A-1"@ {
        Some(word(m.a - 1))
    } else if comp == "M-1"@ {
        Some(word(am - 1))
    } else if comp == "D+A"@ {
        Some(word(m.d + m.a))
    } else if comp == "D+M"@ {
        Some(word(m.d + am))
    } else if comp == "D-A"@ {
        Some(word(m.d - m.a))
    } else if comp == "D-M"@ {
        Some(word(m.d - am))
    } else if comp == "A-D"@ {
        Some(word(m.a - m.d))
    } else if comp == "M-D"@ {
        Some(word(am - m.d))
    } else if comp == "D&A"@ {
        Some(m.d & m.a)
    } else if comp == "D&M"@ {
        Some(m.d & am)
    } else if comp == "D|A"@ {
        Some(m.d | m.a)
    } else if comp == "D|M"@ {
        Some(m.d | am)
    } else {
        None
    }
}

/// The machine after a value is stored in the destinations of a C-instruction
/// (memory at the old A).
pub open spec fn store(m: Machine, dest: Seq<char>, v: u16) -> Option<Machine> {
    let to_m = Machine { ram: m.ram.insert(m.a, v), ..m };
    if dest == "M"@ {
        Some(to_m)
    } else if dest == "D"@ {
        Some(Machine { d: v, ..m })
    } else if dest == "MD"@ {
        Some(Machine { d: v, ..to_m })
    } else if dest == "A"@ {
        Some(Machine { a: v, ..m })
    } else if dest == "AM"@ {
        Some(Machine { a: v, ..to_m })
    } else if dest == "AD"@ {
        Some(Machine { a: v, d: v, ..m })
    } else if dest == "AMD"@ {
        Some(Machine { a: v, d: v, ..to_m })
    } else {
        None
    }
}

/// One instruction other than a label or a jump: `@symbol` loads A;
/// `dest=comp` computes and stores. A symbol that is neither a number nor in
/// the table stops it (`None`); `exec` adds labels and jumps.
pub open spec fn step(m: Machine, line: Seq<char>) -> Option<Machine> {
    if line.len() > 0 && line[0] == '@' {
        match symbol_value(m.symbols, line.drop_first()) {
            Some(v) => Some(Machine { a: v, ..m }),
            None => None,
        }
    } else {
        match split_once(line, "="@) {
            Some((dest, comp)) => match comp_value(m, comp) {
                Some(v) => store(m, dest, v),
                None => None,
            },
            None => None,
        }
    }
}

/// The machine after running code of steps alone, line by line.
pub open spec fn run(m: Machine, code: Seq<Seq<char>>) -> Option<Machine>
    decreases code.len(),
{
    if code.len() == 0 {
        Some(m)
    } else {
        match run(m, code.drop_last()) {
            Some(m1) => step(m1, code.last()),
            None => None,
        }
    }
}

proof fn lemma_find_first_eq(s: Seq<char>, k: int, i: int)
    requires
        0 <= i <= k < s.len(),
        s[k] == '=',
        forall|j: int| 0 <= j < k ==> s[j] != '=',
    ensures
        find_from(s, "="@, i) == Some(k),
    decreases k - i,
{
    reveal_strlit("=");
    if i < k {
        assert(s.subrange(i, i + 1)[0] == s[i]);
        lemma_find_first_eq(s, k, i + 1);
    } else {
        assert(s.subrange(i, i + 1) == "="@);
    }
}

/// A line `dest=comp` whose destination holds no `=` splits at that `=`.
proof fn lemma_split_c(dest: Seq<char>, comp: Seq<char>)
    requires
        forall|j: int| 0 <= j < dest.len() ==> dest[j] != '=',
    ensures
        split_once(dest + "="@ + comp, "="@) == Some((dest, comp)),
{
    reveal_strlit("=");
    let s = dest + "="@ + comp;
    assert forall|j: int| 0 <= j < dest.len() implies s[j] != '=' by {
        assert(s[j] == dest[j]);
    }
    lemma_find_first_eq(s, dest.len() as int, 0);
    assert(s.take(dest.len() as int) == dest);
    assert(s.skip(dest.len() as int + 1) == comp);
}

/// The values of the pointers in a table that holds them.
proof fn lemma_predefined_values(symbols: Map<Seq<char>, u16>)
    requires
        holds_pointers(symbols),
    ensures
        symbol_value(symbols, SP@) == Some(0u16),
        symbol_value(symbols, LCL@) == Some(1u16),
        symbol_value(symbols, ARG@) == Some(2u16),
        symbol_value(symbols, THIS@) == Some(3u16),
        symbol_value(symbols, THAT@) == Some(4u16),
{
    reveal_strlit("SP");
    reveal_strlit("LCL");
    reveal_strlit("ARG");
    reveal_strlit("THIS");
    reveal_strlit("THAT");
    assert(!is_decimal_digit('S'));
    assert(!is_decimal_digit('L'));
    assert(!is_decimal_digit('A'));
    assert(!is_decimal_digit('T'));
}

/// An A-instruction loads the value of its symbol into A.
proof fn lemma_step_at(m: Machine, x: Seq<char>, v: u16)
    requires
        symbol_value(m.symbols, x) == Some(v),
    ensures
        step(m, at(x)) == Some(Machine { a: v, ..m }),
{
    reveal_strlit("@");
    assert(at(x)[0] == '@');
    assert(at(x).drop_first() == x);
}

/// A C-instruction `dest=comp` stores what `comp` yields in `dest`.
proof fn lemma_step_c(m: Machine, dest: Seq<char>, comp: Seq<char>)
    requires
        dest.len() > 0,
        forall|j: int| 0 <= j < dest.len() ==> dest[j] != '=' && dest[j] != '@',
    ensures
        step(m, dest + "="@ + comp) == match comp_value(m, comp) {
            Some(v) => store(m, dest, v),
            None => None,
        },
{
    lemma_split_c(dest, comp);
    assert((dest + "="@ + comp)[0] == dest[0]);
}

/// `D=A` in the machine.
proof fn lemma_line_d_a(m: Machine)
    ensures
        step(m, "D=A"@) == Some(Machine { d: m.a, ..m }),
{
    reveal_strlit("-1");
    reveal_strlit("0");
    reveal_strlit("1");
    reveal_strlit("=");
    reveal_strlit("A");
    reveal_strlit("D");
    reveal_strlit("D=A");
    reveal_strlit("M");
    assert("D=A"@ == "D"@ + "="@ + "A"@);
    lemma_step_c(m, "D"@, "A"@);
    assert("A"@ != "0"@) by {
        assert("A"@[0] != "0"@[0]);
    }
    assert("A"@ != "1"@) by {
        assert("A"@[0] != "1"@[0]);
    }
    assert("A"@ != "D"@) by {
        assert("A"@[0] != "D"@[0]);
    }
    assert("D"@ != "M"@) by {
        assert("D"@[0] != "M"@[0]);
    }
    assert(comp_value(m, "A"@) == Some(m.a));
}

/// `A=D+M` in the machine.
proof fn lemma_line_a_dplusm(m: Machine)
    ensures
        step(m, "A=D+M"@) == Some(Machine { a: word(m.d + m.ram[m.a]), ..m }),
{
    reveal_strlit("!A");
    reveal_strlit("!D");
    reveal_strlit("!M");
    reveal_strlit("-1");
    reveal_strlit("-A");
    reveal_strlit("-D");
    reveal_strlit("-M");
    reveal_strlit("0");
    reveal_strlit("1");
    reveal_strlit("=");
    reveal_strlit("A");
    reveal_strlit("A+1");
    reveal_strlit("A-1");
    reveal_strlit("A=D+M");
    reveal_strlit("D");
    reveal_strlit("D+1");
    reveal_strlit("D+A");
    reveal_strlit("D+M");
    reveal_strlit("D-1");
    reveal_strlit("M");
    reveal_strlit("M+1");
    reveal_strlit("M-1");
    reveal_strlit("MD");
    assert("A=D+M"@ == "A"@ + "="@ + "D+M"@);
    lemma_step_c(m, "A"@, "D+M"@);
    assert("D+M"@ != "D+1"@) by {
        assert("D+M"@[2] != "D+1"@[2]);
    }
    assert("D+M"@ != "A+1"@) by {
        assert("D+M"@[0] != "A+1"@[0]);
    }
    assert("D+M"@ != "M+1"@) by {
        assert("D+M"@[0] != "M+1"@[0]);
    }
    assert("D+M"@ != "D-1"@) by {
        assert("D+M"@[1] != "D-1"@[1]);
    }
    assert("D+M"@ != "A-1"@) by {
        assert("D+M"@[0] != "A-1"@[0]);
    }
    assert("D+M"@ != "M-1"@) by {
        assert("D+M"@[0] != "M-1"@[0]);
    }
    assert("D+M"@ != "D+A"@) by {
        assert("D+M"@[2] != "D+A"@[2]);
    }
    assert("A"@ != "M"@) by {
        assert("A"@[0] != "M"@[0]);
    }
    assert("A"@ != "D"@) by {
        assert("A"@[0] != "D"@[0]);
    }
    assert(comp_value(m, "D+M"@) == Some(word(m.d + m.ram[m.a])));
}

/// `A=M` in the machine.
proof fn lemma_line_a_m(m: Machine)
    ensures
        step(m, "A=M"@) == Some(Machine { a: m.ram[m.a], ..m }),
{
    reveal_strlit("-1");
    reveal_strlit("0");
    reveal_strlit("1");
    reveal_strlit("=");
    reveal_strlit("A");
    reveal_strlit("A=M");
    reveal_strlit("D");
    reveal_strlit("M");
    reveal_strlit("MD");
    assert("A=M"@ == "A"@ + "="@ + "M"@);
    lemma_step_c(m, "A"@, "M"@);
    assert("M"@ != "0"@) by {
        assert("M"@[0] != "0"@[0]);
    }
    assert("M"@ != "1"@) by {
        assert("M"@[0] != "1"@[0]);
    }
    assert("M"@ != "D"@) by {
        assert("M"@[0] != "D"@[0]);
    }
    assert("M"@ != "A"@) by {
        assert("M"@[0] != "A"@[0]);
    }
    assert("A"@ != "M"@) by {
        assert("A"@[0] != "M"@[0]);
    }
    assert("A"@ != "D"@) by {
        assert("A"@[0] != "D"@[0]);
    }
    assert(comp_value(m, "M"@) == Some(m.ram[m.a]));
}

/// `D=M` in the machine.
proof fn lemma_line_d_m(m: Machine)
    ensures
        step(m, "D=M"@) == Some(Machine { d: m.ram[m.a], ..m }),
{
    reveal_strlit("-1");
    reveal_strlit("0");
    reveal_strlit("1");
    reveal_strlit("=");
    reveal_strlit("A");
    reveal_strlit("D");
    reveal_strlit("D=M");
    reveal_strlit("M");
    assert("D=M"@ == "D"@ + "="@ + "M"@);
    lemma_step_c(m, "D"@, "M"@);
    assert("M"@ != "0"@) by {
        assert("M"@[0] != "0"@[0]);
    }
    assert("M"@ != "1"@) by {
        assert("M"@[0] != "1"@[0]);
    }
    assert("M"@ != "D"@) by {
        assert("M"@[0] != "D"@[0]);
    }
    assert("M"@ != "A"@) by {
        assert("M"@[0] != "A"@[0]);
    }
    assert("D"@ != "M"@) by {
        assert("D"@[0] != "M"@[0]);
    }
    assert(comp_value(m, "M"@) == Some(m.ram[m.a]));
}

/// `M=D` in the machine.
proof fn lemma_line_m_d(m: Machine)
    ensures
        step(m, "M=D"@) == Some(Machine { ram: m.ram.insert(m.a, m.d), ..m }),
{
    reveal_strlit("-1");
    reveal_strlit("0");
    reveal_strlit("1");
    reveal_strlit("=");
    reveal_strlit("D");
    reveal_strlit("M");
    reveal_strlit("M=D");
    assert("M=D"@ == "M"@ + "="@ + "D"@);
    lemma_step_c(m, "M"@, "D"@);
    assert("D"@ != "0"@) by {
        assert("D"@[0] != "0"@[0]);
    }
    assert("D"@ != "1"@) by {
        assert("D"@[0] != "1"@[0]);
    }
    assert(comp_value(m, "D"@) == Some(m.d));
}

/// `M=M+1` in the machine.
proof fn lemma_line_m_mplus1(m: Machine)
    ensures
        step(m, "M=M+1"@) == Some(Machine { ram: m.ram.insert(m.a, word(m.ram[m.a] + 1)), ..m }),
{
    reveal_strlit("!A");
    reveal_strlit("!D");
    reveal_strlit("!M");
    reveal_strlit("-1");
    reveal_strlit("-A");
    reveal_strlit("-D");
    reveal_strlit("-M");
    reveal_strlit("0");
    reveal_strlit("1");
    reveal_strlit("=");
    reveal_strlit("A");
    reveal_strlit("A+1");
    reveal_strlit("D");
    reveal_strlit("D+1");
    reveal_strlit("M");
    reveal_strlit("M+1");
    reveal_strlit("M=M+1");
    assert("M=M+1"@ == "M"@ + "="@ + "M+1"@);
    lemma_step_c(m, "M"@, "M+1"@);
    assert("M+1"@ != "D+1"@) by {
        assert("M+1"@[0] != "D+1"@[0]);
    }
    assert("M+1"@ != "A+1"@) by {
        assert("M+1"@[0] != "A+1"@[0]);
    }
    assert(comp_value(m, "M+1"@) == Some(word(m.ram[m.a] + 1)));
}

/// `D=D+M` in the machine.
proof fn lemma_line_d_dplusm(m: Machine)
    ensures
        step(m, "D=D+M"@) == Some(Machine { d: word(m.d + m.ram[m.a]), ..m }),
{
    reveal_strlit("!A");
    reveal_strlit("!D");
    reveal_strlit("!M");
    reveal_strlit("-1");
    reveal_strlit("-A");
    reveal_strlit("-D");
    reveal_strlit("-M");
    reveal_strlit("0");
    reveal_strlit("1");
    reveal_strlit("=");
    reveal_strlit("A");
    reveal_strlit("A+1");
    reveal_strlit("A-1");
    reveal_strlit("D");
    reveal_strlit("D+1");
    reveal_strlit("D+A");
    reveal_strlit("D+M");
    reveal_strlit("D-1");
    reveal_strlit("D=D+M");
    reveal_strlit("M");
    reveal_strlit("M+1");
    reveal_strlit("M-1");
    assert("D=D+M"@ == "D"@ + "="@ + "D+M"@);
    lemma_step_c(m, "D"@, "D+M"@);
    assert("D+M"@ != "D+1"@) by {
        assert("D+M"@[2] != "D+1"@[2]);
    }
    assert("D+M"@ != "A+1"@) by {
        assert("D+M"@[0] != "A+1"@[0]);
    }
    assert("D+M"@ != "M+1"@) by {
        assert("D+M"@[0] != "M+1"@[0]);
    }
    assert("D+M"@ != "D-1"@) by {
        assert("D+M"@[1] != "D-1"@[1]);
    }
    assert("D+M"@ != "A-1"@) by {
        assert("D+M"@[0] != "A-1"@[0]);
    }
    assert("D+M"@ != "M-1"@) by {
        assert("D+M"@[0] != "M-1"@[0]);
    }
    assert("D+M"@ != "D+A"@) by {
        assert("D+M"@[2] != "D+A"@[2]);
    }
    assert("D"@ != "M"@) by {
        assert("D"@[0] != "M"@[0]);
    }
    assert(comp_value(m, "D+M"@) == Some(word(m.d + m.ram[m.a])));
}

/// `M=M-1` in the machine.
proof fn lemma_line_m_mminus1(m: Machine)
    ensures
        step(m, "M=M-1"@) == Some(Machine { ram: m.ram.insert(m.a, word(m.ram[m.a] - 1)), ..m }),
{
    reveal_strlit("!A");
    reveal_strlit("!D");
    reveal_strlit("!M");
    reveal_strlit("-1");
    reveal_strlit("-A");
    reveal_strlit("-D");
    reveal_strlit("-M");
    reveal_strlit("0");
    reveal_strlit("1");
    reveal_strlit("=");
    reveal_strlit("A");
    reveal_strlit("A+1");
    reveal_strlit("A-1");
    reveal_strlit("D");
    reveal_strlit("D+1");
    reveal_strlit("D-1");
    reveal_strlit("M");
    reveal_strlit("M+1");
    reveal_strlit("M-1");
    reveal_strlit("M=M-1");
    assert("M=M-1"@ == "M"@ + "="@ + "M-1"@);
    lemma_step_c(m, "M"@, "M-1"@);
    assert("M-1"@ != "D+1"@) by {
        assert("M-1"@[0] != "D+1"@[0]);
    }
    assert("M-1"@ != "A+1"@) by {
        assert("M-1"@[0] != "A+1"@[0]);
    }
    assert("M-1"@ != "M+1"@) by {
        assert("M-1"@[1] != "M+1"@[1]);
    }
    assert("M-1"@ != "D-1"@) by {
        assert("M-1"@[0] != "D-1"@[0]);
    }
    assert("M-1"@ != "A-1"@) by {
        assert("M-1"@[0] != "A-1"@[0]);
    }
    assert(comp_value(m, "M-1"@) == Some(word(m.ram[m.a] - 1)));
}

/// `A=M-1` in the machine.
proof fn lemma_line_a_mminus1(m: Machine)
    ensures
        step(m, "A=M-1"@) == Some(Machine { a: word(m.ram[m.a] - 1), ..m }),
{
    reveal_strlit("!A");
    reveal_strlit("!D");
    reveal_strlit("!M");
    reveal_strlit("-1");
    reveal_strlit("-A");
    reveal_strlit("-D");
    reveal_strlit("-M");
    reveal_strlit("0");
    reveal_strlit("1");
    reveal_strlit("=");
    reveal_strlit("A");
    reveal_strlit("A+1");
    reveal_strlit("A-1");
    reveal_strlit("A=M-1");
    reveal_strlit("D");
    reveal_strlit("D+1");
    reveal_strlit("D-1");
    reveal_strlit("M");
    reveal_strlit("M+1");
    reveal_strlit("M-1");
    reveal_strlit("MD");
    assert("A=M-1"@ == "A"@ + "="@ + "M-1"@);
    lemma_step_c(m, "A"@, "M-1"@);
    assert("M-1"@ != "D+1"@) by {
        assert("M-1"@[0] != "D+1"@[0]);
    }
    assert("M-1"@ != "A+1"@) by {
        assert("M-1"@[0] != "A+1"@[0]);
    }
    assert("M-1"@ != "M+1"@) by {
        assert("M-1"@[1] != "M+1"@[1]);
    }
    assert("M-1"@ != "D-1"@) by {
        assert("M-1"@[0] != "D-1"@[0]);
    }
    assert("M-1"@ != "A-1"@) by {
        assert("M-1"@[0] != "A-1"@[0]);
    }
    assert("A"@ != "M"@) by {
        assert("A"@[0] != "M"@[0]);
    }
    assert("A"@ != "D"@) by {
        assert("A"@[0] != "D"@[0]);
    }
    assert(comp_value(m, "M-1"@) == Some(word(m.ram[m.a] - 1)));
}

/// `D=M-D` in the machine.
proof fn lemma_line_d_mminusd(m: Machine)
    ensures
        step(m, "D=M-D"@) == Some(Machine { d: word(m.ram[m.a] - m.d), ..m }),
{
    reveal_strlit("!A");
    reveal_strlit("!D");
    reveal_strlit("!M");
    reveal_strlit("-1");
    reveal_strlit("-A");
    reveal_strlit("-D");
    reveal_strlit("-M");
    reveal_strlit("0");
    reveal_strlit("1");
    reveal_strlit("=");
    reveal_strlit("A");
    reveal_strlit("A+1");
    reveal_strlit("A-1");
    reveal_strlit("A-D");
    reveal_strlit("D");
    reveal_strlit("D+1");
    reveal_strlit("D+A");
    reveal_strlit("D+M");
    reveal_strlit("D-1");
    reveal_strlit("D-A");
    reveal_strlit("D-M");
    reveal_strlit("D=M-D");
    reveal_strlit("M");
    reveal_strlit("M+1");
    reveal_strlit("M-1");
    reveal_strlit("M-D");
    assert("D=M-D"@ == "D"@ + "="@ + "M-D"@);
    lemma_step_c(m, "D"@, "M-D"@);
    assert("M-D"@ != "D+1"@) by {
        assert("M-D"@[0] != "D+1"@[0]);
    }
    assert("M-D"@ != "A+1"@) by {
        assert("M-D"@[0] != "A+1"@[0]);
    }
    assert("M-D"@ != "M+1"@) by {
        assert("M-D"@[1] != "M+1"@[1]);
    }
    assert("M-D"@ != "D-1"@) by {
        assert("M-D"@[0] != "D-1"@[0]);
    }
    assert("M-D"@ != "A-1"@) by {
        assert("M-D"@[0] != "A-1"@[0]);
    }
    assert("M-D"@ != "M-1"@) by {
        assert("M-D"@[2] != "M-1"@[2]);
    }
    assert("M-D"@ != "D+A"@) by {
        assert("M-D"@[0] != "D+A"@[0]);
    }
    assert("M-D"@ != "D+M"@) by {
        assert("M-D"@[0] != "D+M"@[0]);
    }
    assert("M-D"@ != "D-A"@) by {
        assert("M-D"@[0] != "D-A"@[0]);
    }
    assert("M-D"@ != "D-M"@) by {
        assert("M-D"@[0] != "D-M"@[0]);
    }
    assert("M-D"@ != "A-D"@) by {
        assert("M-D"@[0] != "A-D"@[0]);
    }
    assert("D"@ != "M"@) by {
        assert("D"@[0] != "M"@[0]);
    }
    assert(comp_value(m, "M-D"@) == Some(word(m.ram[m.a] - m.d)));
}

/// `D=D&M` in the machine.
proof fn lemma_line_d_dandm(m: Machine)
    ensures
        step(m, "D=D&M"@) == Some(Machine { d: m.d & m.ram[m.a], ..m }),
{
    reveal_strlit("!A");
    reveal_strlit("!D");
    reveal_strlit("!M");
    reveal_strlit("-1");
    reveal_strlit("-A");
    reveal_strlit("-D");
    reveal_strlit("-M");
    reveal_strlit("0");
    reveal_strlit("1");
    reveal_strlit("=");
    reveal_strlit("A");
    reveal_strlit("A+1");
    reveal_strlit("A-1");
    reveal_strlit("A-D");
    reveal_strlit("D");
    reveal_strlit("D&A");
    reveal_strlit("D&M");
    reveal_strlit("D+1");
    reveal_strlit("D+A");
    reveal_strlit("D+M");
    reveal_strlit("D-1");
    reveal_strlit("D-A");
    reveal_strlit("D-M");
    reveal_strlit("D=D&M");
    reveal_strlit("M");
    reveal_strlit("M+1");
    reveal_strlit("M-1");
    reveal_strlit("M-D");
    assert("D=D&M"@ == "D"@ + "="@ + "D&M"@);
    lemma_step_c(m, "D"@, "D&M"@);
    assert("D&M"@ != "D+1"@) by {
        assert("D&M"@[1] != "D+1"@[1]);
    }
    assert("D&M"@ != "A+1"@) by {
        assert("D&M"@[0] != "A+1"@[0]);
    }
    assert("D&M"@ != "M+1"@) by {
        assert("D&M"@[0] != "M+1"@[0]);
    }
    assert("D&M"@ != "D-1"@) by {
        assert("D&M"@[1] != "D-1"@[1]);
    }
    assert("D&M"@ != "A-1"@) by {
        assert("D&M"@[0] != "A-1"@[0]);
    }
    assert("D&M"@ != "M-1"@) by {
        assert("D&M"@[0] != "M-1"@[0]);
    }
    assert("D&M"@ != "D+A"@) by {
        assert("D&M"@[1] != "D+A"@[1]);
    }
    assert("D&M"@ != "D+M"@) by {
        assert("D&M"@[1] != "D+M"@[1]);
    }
    assert("D&M"@ != "D-A"@) by {
        assert("D&M"@[1] != "D-A"@[1]);
    }
    assert("D&M"@ != "D-M"@) by {
        assert("D&M"@[1] != "D-M"@[1]);
    }
    assert("D&M"@ != "A-D"@) by {
        assert("D&M"@[0] != "A-D"@[0]);
    }
    assert("D&M"@ != "M-D"@) by {
        assert("D&M"@[0] != "M-D"@[0]);
    }
    assert("D&M"@ != "D&A"@) by {
        assert("D&M"@[2] != "D&A"@[2]);
    }
    assert("D"@ != "M"@) by {
        assert("D"@[0] != "M"@[0]);
    }
    assert(comp_value(m, "D&M"@) == Some(m.d & m.ram[m.a]));
}

/// `D=D|M` in the machine.
proof fn lemma_line_d_dorm(m: Machine)
    ensures
        step(m, "D=D|M"@) == Some(Machine { d: m.d | m.ram[m.a], ..m }),
{
    reveal_strlit("!A");
    reveal_strlit("!D");
    reveal_strlit("!M");
    reveal_strlit("-1");
    reveal_strlit("-A");
    reveal_strlit("-D");
    reveal_strlit("-M");
    reveal_strlit("0");
    reveal_strlit("1");
    reveal_strlit("=");
    reveal_strlit("A");
    reveal_strlit("A+1");
    reveal_strlit("A-1");
    reveal_strlit("A-D");
    reveal_strlit("D");
    reveal_strlit("D&A");
    reveal_strlit("D&M");
    reveal_strlit("D+1");
    reveal_strlit("D+A");
    reveal_strlit("D+M");
    reveal_strlit("D-1");
    reveal_strlit("D-A");
    reveal_strlit("D-M");
    reveal_strlit("D=D|M");
    reveal_strlit("D|A");
    reveal_strlit("D|M");
    reveal_strlit("M");
    reveal_strlit("M+1");
    reveal_strlit("M-1");
    reveal_strlit("M-D");
    assert("D=D|M"@ == "D"@ + "="@ + "D|M"@);
    lemma_step_c(m, "D"@, "D|M"@);
    assert("D|M"@ != "D+1"@) by {
        assert("D|M"@[1] != "D+1"@[1]);
    }
    assert("D|M"@ != "A+1"@) by {
        assert("D|M"@[0] != "A+1"@[0]);
    }
    assert("D|M"@ != "M+1"@) by {
        assert("D|M"@[0] != "M+1"@[0]);
    }
    assert("D|M"@ != "D-1"@) by {
        assert("D|M"@[1] != "D-1"@[1]);
    }
    assert("D|M"@ != "A-1"@) by {
        assert("D|M"@[0] != "A-1"@[0]);
    }
    assert("D|M"@ != "M-1"@) by {
        assert("D|M"@[0] != "M-1"@[0]);
    }
    assert("D|M"@ != "D+A"@) by {
        assert("D|M"@[1] != "D+A"@[1]);
    }
    assert("D|M"@ != "D+M"@) by {
        assert("D|M"@[1] != "D+M"@[1]);
    }
    assert("D|M"@ != "D-A"@) by {
        assert("D|M"@[1] != "D-A"@[1]);
    }
    assert("D|M"@ != "D-M"@) by {
        assert("D|M"@[1] != "D-M"@[1]);
    }
    assert("D|M"@ != "A-D"@) by {
        assert("D|M"@[0] != "A-D"@[0]);
    }
    assert("D|M"@ != "M-D"@) by {
        assert("D|M"@[0] != "M-D"@[0]);
    }
    assert("D|M"@ != "D&A"@) by {
        assert("D|M"@[1] != "D&A"@[1]);
    }
    assert("D|M"@ != "D&M"@) by {
        assert("D|M"@[1] != "D&M"@[1]);
    }
    assert("D|M"@ != "D|A"@) by {
        assert("D|M"@[2] != "D|A"@[2]);
    }
    assert("D"@ != "M"@) by {
        assert("D"@[0] != "M"@[0]);
    }
    assert(comp_value(m, "D|M"@) == Some(m.d | m.ram[m.a]));
}

/// `M=-M` in the machine.
proof fn lemma_line_m_minusm(m: Machine)
    ensures
        step(m, "M=-M"@) == Some(Machine { ram: m.ram.insert(m.a, word(-m.ram[m.a])), ..m }),
{
    reveal_strlit("!A");
    reveal_strlit("!D");
    reveal_strlit("!M");
    reveal_strlit("-1");
    reveal_strlit("-A");
    reveal_strlit("-D");
    reveal_strlit("-M");
    reveal_strlit("0");
    reveal_strlit("1");
    reveal_strlit("=");
    reveal_strlit("A");
    reveal_strlit("D");
    reveal_strlit("M");
    reveal_strlit("M=-M");
    assert("M=-M"@ == "M"@ + "="@ + "-M"@);
    lemma_step_c(m, "M"@, "-M"@);
    assert("-M"@ != "-1"@) by {
        assert("-M"@[1] != "-1"@[1]);
    }
    assert("-M"@ != "!D"@) by {
        assert("-M"@[0] != "!D"@[0]);
    }
    assert("-M"@ != "!A"@) by {
        assert("-M"@[0] != "!A"@[0]);
    }
    assert("-M"@ != "!M"@) by {
        assert("-M"@[0] != "!M"@[0]);
    }
    assert("-M"@ != "-D"@) by {
        assert("-M"@[1] != "-D"@[1]);
    }
    assert("-M"@ != "-A"@) by {
        assert("-M"@[1] != "-A"@[1]);
    }
    assert(comp_value(m, "-M"@) == Some(word(-m.ram[m.a])));
}

/// `M=!M` in the machine.
proof fn lemma_line_m_notm(m: Machine)
    ensures
        step(m, "M=!M"@) == Some(Machine { ram: m.ram.insert(m.a, !m.ram[m.a]), ..m }),
{
    reveal_strlit("!A");
    reveal_strlit("!D");
    reveal_strlit("!M");
    reveal_strlit("-1");
    reveal_strlit("0");
    reveal_strlit("1");
    reveal_strlit("=");
    reveal_strlit("A");
    reveal_strlit("D");
    reveal_strlit("M");
    reveal_strlit("M=!M");
    assert("M=!M"@ == "M"@ + "="@ + "!M"@);
    lemma_step_c(m, "M"@, "!M"@);
    assert("!M"@ != "-1"@) by {
        assert("!M"@[0] != "-1"@[0]);
    }
    assert("!M"@ != "!D"@) by {
        assert("!M"@[1] != "!D"@[1]);
    }
    assert("!M"@ != "!A"@) by {
        assert("!M"@[1] != "!A"@[1]);
    }
    assert(comp_value(m, "!M"@) == Some(!m.ram[m.a]));
}

proof fn lemma_run_append(m: Machine, c1: Seq<Seq<char>>, c2: Seq<Seq<char>>)
    ensures
        run(m, c1 + c2) == match run(m, c1) {
            Some(m1) => run(m1, c2),
            None => None,
        },
    decreases c2.len(),
{
    if c2.len() == 0 {
        assert(c1 + c2 == c1);
    } else {
        assert((c1 + c2).drop_last() == c1 + c2.drop_last());
        lemma_run_append(m, c1, c2.drop_last());
    }
}

proof fn lemma_run_one(m: Machine, line: Seq<char>)
    ensures
        run(m, seq![line]) == step(m, line),
{
    assert(seq![line].drop_last() =~= Seq::<Seq<char>>::empty());
    assert(run(m, Seq::<Seq<char>>::empty()) == Some(m));
    assert(seq![line].last() == line);
}

/// Runs code line by line: the first line, then the rest.
proof fn lemma_run_first(m: Machine, code: Seq<Seq<char>>)
    requires
        code.len() > 0,
    ensures
        run(m, code) == match step(m, code[0]) {
            Some(m1) => run(m1, code.drop_first()),
            None => None,
        },
{
    assert(code == seq![code[0]] + code.drop_first());
    lemma_run_append(m, seq![code[0]], code.drop_first());
    lemma_run_one(m, code[0]);
}

/// A number of 15 bits in decimal is the symbol of its value.
proof fn lemma_number_symbol(symbols: Map<Seq<char>, u16>, n: u16)
    requires
        n <= ADDR_MAX,
    ensures
        symbol_value(symbols, decimal(n as nat)) == Some(n),
{
    lemma_decimal_roundtrip(n as nat);
    lemma_parse_decimal(n);
    let d = decimal(n as nat);
    assert forall|k: int| 0 <= k < d.len() implies #[trigger] is_decimal_digit(d[k]) by {
        assert(crate::text::is_digit(d[k]));
    }
}

/// Pushing D: the top of the stack gets D and the stack pointer moves up.
proof fn lemma_push_d(m: Machine)
    requires
        holds_pointers(m.symbols),
        0 < m.ram[0] < 0xffff,
    ensures
        run(m, push_d_view()) matches Some(m2) && m2.ram == m.ram.insert(m.ram[0], m.d).insert(
            0,
            (m.ram[0] + 1) as u16,
        ) && m2.symbols == m.symbols,
{
    let sp = m.ram[0];
    lemma_predefined_values(m.symbols);
    let code = push_d_view();
    let m1 = Machine { a: 0, ..m };
    lemma_step_at(m, SP@, 0);
    lemma_run_first(m, code);
    let m2 = Machine { a: sp, ..m1 };
    lemma_line_a_m(m1);
    lemma_run_first(m1, code.drop_first());
    let m3 = Machine { ram: m2.ram.insert(sp, m.d), ..m2 };
    lemma_line_m_d(m2);
    lemma_run_first(m2, code.drop_first().drop_first());
    let m4 = Machine { a: 0, ..m3 };
    lemma_step_at(m3, SP@, 0);
    lemma_run_first(m3, code.drop_first().drop_first().drop_first());
    lemma_line_m_mplus1(m4);
    lemma_run_first(m4, code.drop_first().drop_first().drop_first().drop_first());
    assert(code.drop_first().drop_first().drop_first().drop_first().drop_first().len() == 0);
    assert(m4.ram[0] == sp);
}

/// Popping into D: D gets the top of the stack and the stack pointer moves down.
proof fn lemma_pop_d(m: Machine)
    requires
        holds_pointers(m.symbols),
        1 < m.ram[0],
    ensures
        run(m, pop_d_view()) matches Some(m2) && m2.ram == m.ram.insert(0, (m.ram[0] - 1) as u16)
            && m2.d == m.ram[(m.ram[0] - 1) as u16] && m2.symbols == m.symbols,
{
    let sp = m.ram[0];
    lemma_predefined_values(m.symbols);
    let code = pop_d_view();
    let m1 = Machine { a: 0, ..m };
    lemma_step_at(m, SP@, 0);
    lemma_run_first(m, code);
    let m2 = Machine { ram: m1.ram.insert(0, (sp - 1) as u16), ..m1 };
    lemma_line_m_mminus1(m1);
    lemma_run_first(m1, code.drop_first());
    let m3 = Machine { a: (sp - 1) as u16, ..m2 };
    lemma_line_a_m(m2);
    lemma_run_first(m2, code.drop_first().drop_first());
    lemma_line_d_m(m3);
    lemma_run_first(m3, code.drop_first().drop_first().drop_first());
    assert(code.drop_first().drop_first().drop_first().drop_first().len() == 0);
}

/// Running code made of two parts: the first, then the second.
proof fn lemma_run_then(m: Machine, c1: Seq<Seq<char>>, c2: Seq<Seq<char>>, m1: Machine)
    requires
        run(m, c1) == Some(m1),
    ensures
        run(m, c1 + c2) == run(m1, c2),
{
    lemma_run_append(m, c1, c2);
}

/// Code of two lines that loads a symbol into A and then runs `line`.
proof fn lemma_run_at_line(m: Machine, x: Seq<char>, v: u16, line: Seq<char>)
    requires
        symbol_value(m.symbols, x) == Some(v),
    ensures
        run(m, seq![at(x), line]) == step(Machine { a: v, ..m }, line),
{
    let code = seq![at(x), line];
    lemma_step_at(m, x, v);
    lemma_run_first(m, code);
    lemma_run_first(Machine { a: v, ..m }, code.drop_first());
    assert(code.drop_first().drop_first().len() == 0);
    assert(code.drop_first()[0] == line);
}

/// The address of the pointer of a based segment: `LCL` 1, `ARG` 2, `THIS` 3,
/// `THAT` 4.
pub open spec fn pointer_addr(segment: MemorySegment) -> u16 {
    match segment {
        MemorySegment::Local => 1,
        MemorySegment::Argument => 2,
        MemorySegment::This => 3,
        _ => 4,
    }
}

/// The address of entry `index` of a segment other than `constant`: a based
/// segment starts where its pointer points, `pointer` at THIS (3), `temp` at
/// 5, and a static entry lives where the symbol table puts its variable.
pub open spec fn entry_addr(m: Machine, segment: MemorySegment, index: u16, filename: Seq<char>) -> u16 {
    if is_based(segment) {
        word(m.ram[pointer_addr(segment)] + index)
    } else {
        match segment {
            MemorySegment::Static => m.symbols[static_name(filename, index)],
            MemorySegment::Pointer => (3 + index) as u16,
            MemorySegment::Temp => temp_addr(index) as u16,
            _ => index,
        }
    }
}

/// Whether the code of an entry assembles: a number in it fits in 15 bits,
/// `pointer` has entries 0 and 1, and a static variable is in the table.
pub open spec fn addressable(
    symbols: Map<Seq<char>, u16>,
    segment: MemorySegment,
    index: u16,
    filename: Seq<char>,
) -> bool {
    match segment {
        MemorySegment::Static => symbols.contains_key(static_name(filename, index)),
        MemorySegment::Pointer => index <= 1,
        MemorySegment::Temp => temp_addr(index) <= ADDR_MAX,
        _ => index <= ADDR_MAX,
    }
}

/// The value that `push segment index` puts on the stack.
pub open spec fn pushed_value(m: Machine, segment: MemorySegment, index: u16, filename: Seq<char>) -> u16 {
    if segment == MemorySegment::Constant {
        index
    } else {
        m.ram[entry_addr(m, segment, index, filename)]
    }
}

/// The code of `push` up to the push of D: it loads the pushed value into D.
pub open spec fn push_load_view(segment: MemorySegment, index: u16, filename: Seq<char>) -> Seq<
    Seq<char>,
> {
    if is_based(segment) {
        based_addr_view(base_of(segment), index, "A=D+M"@, "A=M"@) + seq!["D=M"@]
    } else {
        match segment {
            MemorySegment::Constant => seq![at(decimal(index as nat)), "D=A"@],
            MemorySegment::Static => seq![at(static_name(filename, index)), "D=M"@],
            MemorySegment::Pointer => seq![at(pointer_name(index)), "D=M"@],
            _ => seq![at(decimal(temp_addr(index))), "D=M"@],
        }
    }
}

/// The symbol of a based segment's pointer has its address.
proof fn lemma_base_value(symbols: Map<Seq<char>, u16>, segment: MemorySegment)
    requires
        holds_pointers(symbols),
        is_based(segment),
    ensures
        symbol_value(symbols, base_of(segment)) == Some(pointer_addr(segment)),
{
    lemma_predefined_values(symbols);
}

/// A static variable's name, which holds a dot, is no number.
proof fn lemma_static_symbol(symbols: Map<Seq<char>, u16>, filename: Seq<char>, index: u16)
    requires
        symbols.contains_key(static_name(filename, index)),
    ensures
        symbol_value(symbols, static_name(filename, index)) == Some(
            symbols[static_name(filename, index)],
        ),
{
    reveal_strlit(".");
    let x = static_name(filename, index);
    assert(x[filename.len() as int] == '.');
    assert(!is_decimal_digit('.'));
}

/// The address of entry `index > 0` of a based segment: A gets base + index.
proof fn lemma_based_addr_offset(m: Machine, segment: MemorySegment, index: u16)
    requires
        holds_pointers(m.symbols),
        is_based(segment),
        0 < index <= ADDR_MAX,
    ensures
        run(m, based_addr_view(base_of(segment), index, "A=D+M"@, "A=M"@)) == Some(
            Machine { a: word(m.ram[pointer_addr(segment)] + index), d: index, ..m },
        ),
{
    let b = pointer_addr(segment);
    lemma_base_value(m.symbols, segment);
    let code = based_addr_view(base_of(segment), index, "A=D+M"@, "A=M"@);
    assert(code == seq![at(decimal(index as nat)), "D=A"@, at(base_of(segment)), "A=D+M"@]);
    lemma_number_symbol(m.symbols, index);
    let m1 = Machine { a: index, ..m };
    lemma_step_at(m, decimal(index as nat), index);
    lemma_run_first(m, code);
    let m2 = Machine { d: index, ..m1 };
    lemma_line_d_a(m1);
    lemma_run_first(m1, code.drop_first());
    let m3 = Machine { a: b, ..m2 };
    lemma_step_at(m2, base_of(segment), b);
    lemma_run_first(m2, code.drop_first().drop_first());
    lemma_line_a_dplusm(m3);
    lemma_run_first(m3, code.drop_first().drop_first().drop_first());
    assert(code.drop_first().drop_first().drop_first().drop_first().len() == 0);
}

/// The address of entry 0 of a based segment: A gets the base.
proof fn lemma_based_addr_plain(m: Machine, segment: MemorySegment)
    requires
        holds_pointers(m.symbols),
        is_based(segment),
    ensures
        run(m, based_addr_view(base_of(segment), 0, "A=D+M"@, "A=M"@)) == Some(
            Machine { a: word(m.ram[pointer_addr(segment)] + 0), ..m },
        ),
{
    let b = pointer_addr(segment);
    lemma_base_value(m.symbols, segment);
    let code = based_addr_view(base_of(segment), 0, "A=D+M"@, "A=M"@);
    assert(code == seq![at(base_of(segment)), "A=M"@]);
    lemma_run_at_line(m, base_of(segment), b, "A=M"@);
    lemma_line_a_m(Machine { a: b, ..m });
    assert(word(m.ram[b] + 0) == m.ram[b]);
}

/// Loading an entry of a based segment into D.
proof fn lemma_load_based(m: Machine, segment: MemorySegment, index: u16)
    requires
        holds_pointers(m.symbols),
        is_based(segment),
        index <= ADDR_MAX,
    ensures
        run(m, based_addr_view(base_of(segment), index, "A=D+M"@, "A=M"@) + seq!["D=M"@]) matches Some(
            m1,
        ) && m1.ram == m.ram && m1.symbols == m.symbols && m1.d == m.ram[word(
            m.ram[pointer_addr(segment)] + index,
        )],
{
    let code = based_addr_view(base_of(segment), index, "A=D+M"@, "A=M"@);
    let addr = word(m.ram[pointer_addr(segment)] + index);
    let m4 = Machine { a: addr, d: if index > 0 { index } else { m.d }, ..m };
    if index > 0 {
        lemma_based_addr_offset(m, segment, index);
    } else {
        lemma_based_addr_plain(m, segment);
    }
    lemma_run_then(m, code, seq!["D=M"@], m4);
    lemma_line_d_m(m4);
    lemma_run_one(m4, "D=M"@);
}

/// Loading the value that `push` pushes into D, leaving memory as it was.
proof fn lemma_load(m: Machine, segment: MemorySegment, index: u16, filename: Seq<char>)
    requires
        holds_pointers(m.symbols),
        addressable(m.symbols, segment, index, filename),
    ensures
        run(m, push_load_view(segment, index, filename)) matches Some(m1) && m1.ram == m.ram
            && m1.symbols == m.symbols && m1.d == pushed_value(m, segment, index, filename),
{
    lemma_predefined_values(m.symbols);
    if is_based(segment) {
        lemma_load_based(m, segment, index);
    } else {
        match segment {
            MemorySegment::Constant => {
                lemma_number_symbol(m.symbols, index);
                lemma_run_at_line(m, decimal(index as nat), index, "D=A"@);
                lemma_line_d_a(Machine { a: index, ..m });
            },
            MemorySegment::Static => {
                let v = m.symbols[static_name(filename, index)];
                lemma_static_symbol(m.symbols, filename, index);
                lemma_run_at_line(m, static_name(filename, index), v, "D=M"@);
                lemma_line_d_m(Machine { a: v, ..m });
            },
            MemorySegment::Pointer => {
                let v = (3 + index) as u16;
                lemma_run_at_line(m, pointer_name(index), v, "D=M"@);
                lemma_line_d_m(Machine { a: v, ..m });
            },
            _ => {
                let v = temp_addr(index) as u16;
                lemma_number_symbol(m.symbols, v);
                lemma_run_at_line(m, decimal(temp_addr(index)), v, "D=M"@);
                lemma_line_d_m(Machine { a: v, ..m });
            },
        }
    }
}

/// Whether every line of code is plain: no labels and no jumps.
pub open spec fn all_plain(code: Seq<Seq<char>>) -> bool {
    forall|j: int| 0 <= j < code.len() ==> is_plain_line(#[trigger] code[j])
}

/// Plain code followed by plain code is plain.
proof fn lemma_all_plain_concat(c1: Seq<Seq<char>>, c2: Seq<Seq<char>>)
    requires
        all_plain(c1),
        all_plain(c2),
    ensures
        all_plain(c1 + c2),
{
    assert forall|j: int| 0 <= j < (c1 + c2).len() implies is_plain_line(#[trigger] (c1 + c2)[j]) by {
        if j < c1.len() {
            assert((c1 + c2)[j] == c1[j]);
        } else {
            assert((c1 + c2)[j] == c2[j - c1.len()]);
        }
    }
}

/// The lines that the code of `push`, `pop` and the arithmetic and logical
/// commands other than comparisons is made of are plain.
proof fn lemma_plain_lines(x: Seq<char>)
    ensures
        is_plain_line(at(x)),
        is_plain_line("D=A"@),
        is_plain_line("D=M"@),
        is_plain_line("M=D"@),
        is_plain_line("A=M"@),
        is_plain_line("A=D+M"@),
        is_plain_line("D=D+M"@),
        is_plain_line("M=M+1"@),
        is_plain_line("M=M-1"@),
        is_plain_line("A=M-1"@),
        is_plain_line("D=M-D"@),
        is_plain_line("D=D&M"@),
        is_plain_line("D=D|M"@),
        is_plain_line("M=-M"@),
        is_plain_line("M=!M"@),
{
    reveal_strlit("@");
    reveal_strlit("D=A");
    reveal_strlit("D=M");
    reveal_strlit("M=D");
    reveal_strlit("A=M");
    reveal_strlit("A=D+M");
    reveal_strlit("D=D+M");
    reveal_strlit("M=M+1");
    reveal_strlit("M=M-1");
    reveal_strlit("A=M-1");
    reveal_strlit("D=M-D");
    reveal_strlit("D=D&M");
    reveal_strlit("D=D|M");
    reveal_strlit("M=-M");
    reveal_strlit("M=!M");
    assert(at(x)[0] == '@');
}

/// The code of `push`, `pop` and of the arithmetic and logical commands other
/// than comparisons is plain.
proof fn lemma_commands_plain(segment: MemorySegment, index: u16, filename: Seq<char>, op: Seq<char>)
    requires
        is_plain_line(op),
    ensures
        all_plain(push_view(segment, index, filename)),
        all_plain(pop_view(segment, index, filename)),
        all_plain(binary_view(op)),
        all_plain(unary_view(op)),
{
    let t = decimal(temp_addr(0));
    let i = decimal(index as nat);
    let base = base_of(segment);
    lemma_plain_lines(SP@);
    lemma_plain_lines(t);
    lemma_plain_lines(i);
    lemma_plain_lines(base);
    lemma_plain_lines(static_name(filename, index));
    lemma_plain_lines(pointer_name(index));
    lemma_plain_lines(decimal(temp_addr(index)));
    assert(all_plain(push_d_view()));
    assert(all_plain(pop_d_view()));
    assert(all_plain(pop_two_view()));
    assert(all_plain(seq![op, at(SP@), "A=M-1"@, "M=D"@]));
    lemma_all_plain_concat(pop_two_view(), seq![op, at(SP@), "A=M-1"@, "M=D"@]);
    assert(all_plain(unary_view(op)));
    let load = push_load_view(segment, index, filename);
    assert(all_plain(based_addr_view(base, index, "A=D+M"@, "A=M"@)));
    assert(all_plain(based_addr_view(base, index, "D=D+M"@, "D=M"@)));
    lemma_all_plain_concat(based_addr_view(base, index, "A=D+M"@, "A=M"@), seq!["D=M"@]);
    assert(all_plain(load));
    lemma_all_plain_concat(load, push_d_view());
    assert(push_view(segment, index, filename) == load + push_d_view());
    if is_based(segment) {
        let c1 = based_addr_view(base, index, "D=D+M"@, "D=M"@);
        let c2 = seq![at(t), "M=D"@];
        let c4 = seq![at(t), "A=M"@, "M=D"@];
        assert(all_plain(c2));
        assert(all_plain(c4));
        lemma_all_plain_concat(c1, c2);
        lemma_all_plain_concat(c1 + c2, pop_d_view());
        lemma_all_plain_concat(c1 + c2 + pop_d_view(), c4);
    } else {
        let x = match segment {
            MemorySegment::Static => static_name(filename, index),
            MemorySegment::Pointer => pointer_name(index),
            _ => decimal(temp_addr(index)),
        };
        assert(all_plain(seq![at(x), "M=D"@]));
        lemma_all_plain_concat(pop_d_view(), seq![at(x), "M=D"@]);
        assert(pop_view(segment, index, filename) == pop_d_view() + seq![at(x), "M=D"@]);
    }
}

/// `push segment index` puts the entry's value (for `constant`, the index
/// itself) on top of the stack and moves the stack pointer (RAM[0]) up by
/// one; nothing else in memory changes. The stack pointer must lie strictly
/// between 0 and 0xffff, and the code has no labels or jumps, so `exec` runs
/// it as `run` does.
pub proof fn lemma_push_runs(m: Machine, segment: MemorySegment, index: u16, filename: Seq<char>)
    requires
        holds_pointers(m.symbols),
        addressable(m.symbols, segment, index, filename),
        0 < m.ram[0] < 0xffff,
    ensures
        exec(m, push_view(segment, index, filename), 0, push_view(segment, index, filename).len())
            == run(m, push_view(segment, index, filename)),
        run(m, push_view(segment, index, filename)) matches Some(m2) && m2.ram == m.ram.insert(
            m.ram[0],
            pushed_value(m, segment, index, filename),
        ).insert(0, (m.ram[0] + 1) as u16),
{
    let load = push_load_view(segment, index, filename);
    assert(push_view(segment, index, filename) == load + push_d_view());
    lemma_plain_lines(SP@);
    lemma_commands_plain(segment, index, filename, "M=D"@);
    lemma_exec_straight(m, push_view(segment, index, filename));
    lemma_load(m, segment, index, filename);
    let m1 = run(m, load)->0;
    lemma_run_then(m, load, push_d_view(), m1);
    lemma_push_d(m1);
}

/// Memory while `pop` runs, before the stack pointer moves: the code of a
/// based segment keeps the entry's address in temp 0 (RAM[5]).
pub open spec fn pop_scratch(m: Machine, segment: MemorySegment, index: u16, filename: Seq<char>) -> Map<
    u16,
    u16,
> {
    if is_based(segment) {
        m.ram.insert(5, entry_addr(m, segment, index, filename))
    } else {
        m.ram
    }
}

/// The address of an entry of a based segment, computed into D.
proof fn lemma_based_addr_to_d(m: Machine, segment: MemorySegment, index: u16)
    requires
        holds_pointers(m.symbols),
        is_based(segment),
        index <= ADDR_MAX,
    ensures
        run(m, based_addr_view(base_of(segment), index, "D=D+M"@, "D=M"@)) == Some(
            Machine { a: pointer_addr(segment), d: word(m.ram[pointer_addr(segment)] + index), ..m },
        ),
{
    let b = pointer_addr(segment);
    lemma_base_value(m.symbols, segment);
    let code = based_addr_view(base_of(segment), index, "D=D+M"@, "D=M"@);
    if index > 0 {
        assert(code == seq![at(decimal(index as nat)), "D=A"@, at(base_of(segment)), "D=D+M"@]);
        lemma_number_symbol(m.symbols, index);
        let m1 = Machine { a: index, ..m };
        lemma_step_at(m, decimal(index as nat), index);
        lemma_run_first(m, code);
        let m2 = Machine { d: index, ..m1 };
        lemma_line_d_a(m1);
        lemma_run_first(m1, code.drop_first());
        let m3 = Machine { a: b, ..m2 };
        lemma_step_at(m2, base_of(segment), b);
        lemma_run_first(m2, code.drop_first().drop_first());
        lemma_line_d_dplusm(m3);
        lemma_run_first(m3, code.drop_first().drop_first().drop_first());
        assert(code.drop_first().drop_first().drop_first().drop_first().len() == 0);
    } else {
        assert(code == seq![at(base_of(segment)), "D=M"@]);
        lemma_run_at_line(m, base_of(segment), b, "D=M"@);
        lemma_line_d_m(Machine { a: b, ..m });
        assert(word(m.ram[b] + 0) == m.ram[b]);
    }
}

/// `@5`, `A=M`, `M=D`: stores D where temp 0 points.
proof fn lemma_store_through_temp0(m: Machine)
    ensures
        run(m, seq![at(decimal(temp_addr(0))), "A=M"@, "M=D"@]) == Some(
            Machine { a: m.ram[5], ram: m.ram.insert(m.ram[5], m.d), ..m },
        ),
{
    let code = seq![at(decimal(temp_addr(0))), "A=M"@, "M=D"@];
    lemma_number_symbol(m.symbols, 5);
    assert(temp_addr(0) == 5);
    let m1 = Machine { a: 5, ..m };
    lemma_step_at(m, decimal(5), 5);
    lemma_run_first(m, code);
    let m2 = Machine { a: m.ram[5], ..m1 };
    lemma_line_a_m(m1);
    lemma_run_first(m1, code.drop_first());
    lemma_line_m_d(m2);
    lemma_run_first(m2, code.drop_first().drop_first());
    assert(code.drop_first().drop_first().drop_first().len() == 0);
}

/// `pop` into an entry of a based segment.
proof fn lemma_pop_based(m: Machine, segment: MemorySegment, index: u16, filename: Seq<char>)
    requires
        holds_pointers(m.symbols),
        is_based(segment),
        index <= ADDR_MAX,
        1 < m.ram[0],
        m.ram[0] != 6,
    ensures
        run(m, pop_view(segment, index, filename)) matches Some(m2) && m2.ram == pop_scratch(
            m,
            segment,
            index,
            filename,
        ).insert(0, (m.ram[0] - 1) as u16).insert(
            entry_addr(m, segment, index, filename),
            m.ram[(m.ram[0] - 1) as u16],
        ),
{
    let sp = m.ram[0];
    let addr = entry_addr(m, segment, index, filename);
    let c1 = based_addr_view(base_of(segment), index, "D=D+M"@, "D=M"@);
    let c2 = seq![at(decimal(temp_addr(0))), "M=D"@];
    let c4 = seq![at(decimal(temp_addr(0))), "A=M"@, "M=D"@];
    assert(pop_view(segment, index, filename) == c1 + c2 + pop_d_view() + c4);
    lemma_based_addr_to_d(m, segment, index);
    let m1 = Machine { a: pointer_addr(segment), d: addr, ..m };
    lemma_number_symbol(m.symbols, 5);
    assert(temp_addr(0) == 5);
    lemma_run_at_line(m1, decimal(5), 5, "M=D"@);
    lemma_line_m_d(Machine { a: 5, ..m1 });
    let m2 = Machine { a: 5, ram: m.ram.insert(5, addr), ..m1 };
    lemma_run_then(m, c1, c2, m1);
    lemma_pop_d(m2);
    let m3 = run(m2, pop_d_view())->0;
    lemma_run_then(m, c1 + c2, pop_d_view(), m2);
    lemma_store_through_temp0(m3);
    lemma_run_then(m, c1 + c2 + pop_d_view(), c4, m3);
}

/// `pop` into an entry of `static`, `pointer` or `temp`.
proof fn lemma_pop_fixed(m: Machine, segment: MemorySegment, index: u16, filename: Seq<char>)
    requires
        holds_pointers(m.symbols),
        !is_based(segment),
        segment != MemorySegment::Constant,
        addressable(m.symbols, segment, index, filename),
        1 < m.ram[0],
    ensures
        run(m, pop_view(segment, index, filename)) matches Some(m2) && m2.ram == m.ram.insert(
            0,
            (m.ram[0] - 1) as u16,
        ).insert(entry_addr(m, segment, index, filename), m.ram[(m.ram[0] - 1) as u16]),
{
    let addr = entry_addr(m, segment, index, filename);
    lemma_predefined_values(m.symbols);
    lemma_pop_d(m);
    let m1 = run(m, pop_d_view())->0;
    let x = match segment {
        MemorySegment::Static => static_name(filename, index),
        MemorySegment::Pointer => pointer_name(index),
        _ => decimal(temp_addr(index)),
    };
    assert(pop_view(segment, index, filename) == pop_d_view() + seq![at(x), "M=D"@]);
    match segment {
        MemorySegment::Static => {
            lemma_static_symbol(m.symbols, filename, index);
        },
        MemorySegment::Pointer => {},
        _ => {
            lemma_number_symbol(m.symbols, addr);
        },
    }
    assert(symbol_value(m1.symbols, x) == Some(addr));
    lemma_run_at_line(m1, x, addr, "M=D"@);
    lemma_line_m_d(Machine { a: addr, ..m1 });
    lemma_run_then(m, pop_d_view(), seq![at(x), "M=D"@], m1);
}

/// `pop segment index` moves the top of the stack into the entry and the
/// stack pointer (RAM[0]) down by one; the code of a based segment also leaves
/// the entry's address in temp 0 (RAM[5]). The stack must lie above RAM[0]
/// and, for a based segment, its top must not be RAM[5]; `exec` runs the code
/// as `run` does.
pub proof fn lemma_pop_runs(m: Machine, segment: MemorySegment, index: u16, filename: Seq<char>)
    requires
        holds_pointers(m.symbols),
        segment != MemorySegment::Constant,
        addressable(m.symbols, segment, index, filename),
        1 < m.ram[0],
        is_based(segment) ==> m.ram[0] != 6,
    ensures
        exec(m, pop_view(segment, index, filename), 0, pop_view(segment, index, filename).len())
            == run(m, pop_view(segment, index, filename)),
        run(m, pop_view(segment, index, filename)) matches Some(m2) && m2.ram == pop_scratch(
            m,
            segment,
            index,
            filename,
        ).insert(0, (m.ram[0] - 1) as u16).insert(
            entry_addr(m, segment, index, filename),
            m.ram[(m.ram[0] - 1) as u16],
        ),
{
    lemma_plain_lines(SP@);
    lemma_commands_plain(segment, index, filename, "M=D"@);
    lemma_exec_straight(m, pop_view(segment, index, filename));
    if is_based(segment) {
        lemma_pop_based(m, segment, index, filename);
    } else {
        lemma_pop_fixed(m, segment, index, filename);
    }
}

/// What an arithmetic or logical command other than a comparison computes
/// from the two top entries of the stack, `x` below `y` (a unary command
/// reads `y` alone); words wrap around modulo 2^16.
pub open spec fn arithmetic_result(arithmetic: Arithmetic, x: u16, y: u16) -> u16 {
    match arithmetic {
        Arithmetic::Add => word(x + y),
        Arithmetic::Sub => word(x - y),
        Arithmetic::And => x & y,
        Arithmetic::Or => x | y,
        Arithmetic::Neg => word(-y),
        Arithmetic::Not => !y,
        _ => 0,
    }
}

/// Whether a command reads only the top of the stack.
pub open spec fn is_unary(arithmetic: Arithmetic) -> bool {
    arithmetic == Arithmetic::Neg || arithmetic == Arithmetic::Not
}

/// A binary command whose line `op` puts `v` in D, after the operands were
/// popped and A points at the lower one.
proof fn lemma_binary_runs(m: Machine, op: Seq<char>, v: u16)
    requires
        holds_pointers(m.symbols),
        2 < m.ram[0],
        step(
            Machine {
                a: (m.ram[0] - 2) as u16,
                d: m.ram[(m.ram[0] - 1) as u16],
                ram: m.ram.insert(0, (m.ram[0] - 1) as u16),
                ..m
            },
            op,
        ) == Some(
            Machine {
                a: (m.ram[0] - 2) as u16,
                d: v,
                ram: m.ram.insert(0, (m.ram[0] - 1) as u16),
                ..m
            },
        ),
    ensures
        run(m, binary_view(op)) matches Some(m2) && m2.ram == m.ram.insert(
            0,
            (m.ram[0] - 1) as u16,
        ).insert((m.ram[0] - 2) as u16, v),
{
    let sp = m.ram[0];
    lemma_predefined_values(m.symbols);
    lemma_pop_two(m);
    let m2 = Machine { a: (sp - 2) as u16, d: m.ram[(sp - 1) as u16], ram: m.ram.insert(0, (sp - 1) as u16), ..m };
    let rest = seq![op, at(SP@), "A=M-1"@, "M=D"@];
    assert(binary_view(op) == pop_two_view() + rest);
    let m3 = Machine { d: v, ..m2 };
    lemma_run_first(m2, rest);
    let rest2 = seq![at(SP@), "A=M-1"@, "M=D"@];
    assert(rest.drop_first() == rest2);
    let m4 = Machine { a: 0, ..m3 };
    lemma_step_at(m3, SP@, 0);
    lemma_run_first(m3, rest2);
    let m5 = Machine { a: (sp - 2) as u16, ..m4 };
    lemma_line_a_mminus1(m4);
    lemma_run_first(m4, rest2.drop_first());
    lemma_line_m_d(m5);
    lemma_run_first(m5, rest2.drop_first().drop_first());
    assert(rest2.drop_first().drop_first().drop_first().len() == 0);
    lemma_run_then(m, pop_two_view(), rest, m2);
}

/// A unary command whose line `op` replaces M by `v`, A pointing at the top.
proof fn lemma_unary_runs(m: Machine, op: Seq<char>, v: u16)
    requires
        holds_pointers(m.symbols),
        0 < m.ram[0],
        step(Machine { a: (m.ram[0] - 1) as u16, ..m }, op) == Some(
            Machine {
                a: (m.ram[0] - 1) as u16,
                ram: m.ram.insert((m.ram[0] - 1) as u16, v),
                ..m
            },
        ),
    ensures
        run(m, unary_view(op)) matches Some(m2) && m2.ram == m.ram.insert(
            (m.ram[0] - 1) as u16,
            v,
        ),
{
    let sp = m.ram[0];
    lemma_predefined_values(m.symbols);
    let code = unary_view(op);
    let m1 = Machine { a: 0, ..m };
    lemma_step_at(m, SP@, 0);
    lemma_run_first(m, code);
    let m2 = Machine { a: (sp - 1) as u16, ..m1 };
    lemma_line_a_mminus1(m1);
    lemma_run_first(m1, code.drop_first());
    lemma_run_first(m2, code.drop_first().drop_first());
    assert(code.drop_first().drop_first()[0] == op);
    assert(code.drop_first().drop_first().drop_first().len() == 0);
}

/// An arithmetic or logical command other than a comparison replaces its
/// operands on top of the stack by its result: a binary one pops two entries
/// and pushes one (the stack pointer moves down by one), a unary one rewrites
/// the top in place. The stack must lie above RAM[0]; `exec` runs the code as
/// `run` does.
pub proof fn lemma_arithmetic_runs(m: Machine, arithmetic: Arithmetic, filename: Seq<char>, id: u16)
    requires
        holds_pointers(m.symbols),
        !is_comparison(arithmetic),
        is_unary(arithmetic) ==> 0 < m.ram[0],
        !is_unary(arithmetic) ==> 2 < m.ram[0],
    ensures
        exec(m, arithmetic_view(arithmetic, filename, id), 0, arithmetic_view(arithmetic, filename, id).len())
            == run(m, arithmetic_view(arithmetic, filename, id)),
        run(m, arithmetic_view(arithmetic, filename, id)) matches Some(m2) && m2.ram == if is_unary(
            arithmetic,
        ) {
            m.ram.insert(
                (m.ram[0] - 1) as u16,
                arithmetic_result(arithmetic, 0, m.ram[(m.ram[0] - 1) as u16]),
            )
        } else {
            m.ram.insert(0, (m.ram[0] - 1) as u16).insert(
                (m.ram[0] - 2) as u16,
                arithmetic_result(
                    arithmetic,
                    m.ram[(m.ram[0] - 2) as u16],
                    m.ram[(m.ram[0] - 1) as u16],
                ),
            )
        },
{
    let sp = m.ram[0];
    let op = match arithmetic {
        Arithmetic::Add => "D=D+M"@,
        Arithmetic::Sub => "D=M-D"@,
        Arithmetic::And => "D=D&M"@,
        Arithmetic::Or => "D=D|M"@,
        Arithmetic::Neg => "M=-M"@,
        _ => "M=!M"@,
    };
    lemma_plain_lines(SP@);
    lemma_commands_plain(MemorySegment::Constant, 0, filename, op);
    lemma_exec_straight(m, arithmetic_view(arithmetic, filename, id));
    if is_unary(arithmetic) {
        let m1 = Machine { a: (sp - 1) as u16, ..m };
        let y = m.ram[(sp - 1) as u16];
        if arithmetic == Arithmetic::Neg {
            lemma_line_m_minusm(m1);
            lemma_unary_runs(m, "M=-M"@, word(-y));
        } else {
            lemma_line_m_notm(m1);
            lemma_unary_runs(m, "M=!M"@, !y);
        }
    } else {
        let x = m.ram[(sp - 2) as u16];
        let y = m.ram[(sp - 1) as u16];
        let ram1 = m.ram.insert(0, (sp - 1) as u16);
        let m3 = Machine { a: (sp - 2) as u16, d: y, ram: ram1, ..m };
        assert(ram1[(sp - 2) as u16] == x);
        match arithmetic {
            Arithmetic::Add => {
                lemma_line_d_dplusm(m3);
                assert(word(y + x) == word(x + y));
                lemma_binary_runs(m, "D=D+M"@, word(x + y));
            },
            Arithmetic::Sub => {
                lemma_line_d_mminusd(m3);
                lemma_binary_runs(m, "D=M-D"@, word(x - y));
            },
            Arithmetic::And => {
                lemma_line_d_dandm(m3);
                assert(y & x == x & y) by (bit_vector);
                lemma_binary_runs(m, "D=D&M"@, x & y);
            },
            _ => {
                lemma_line_d_dorm(m3);
                assert(y | x == x | y) by (bit_vector);
                lemma_binary_runs(m, "D=D|M"@, x | y);
            },
        }
    }
}

/// Whether a line declares a label: `(X)`.
pub open spec fn is_label_line(line: Seq<char>) -> bool {
    line.len() >= 2 && line[0] == '(' && line.last() == ')'
}

/// The label that a line `(X)` declares.
pub open spec fn label_of(line: Seq<char>) -> Seq<char> {
    line.subrange(1, line.len() - 1)
}

/// Where a jump to address `a` lands in code, searching from line `i`: the
/// first line that declares a label whose address in the table is `a`.
pub open spec fn jump_target(symbols: Map<Seq<char>, u16>, code: Seq<Seq<char>>, a: u16, i: int) -> Option<
    int,
>
    decreases code.len() - i,
{
    if i < 0 || i >= code.len() {
        None
    } else if is_label_line(code[i]) && symbols.contains_key(label_of(code[i])) && symbols[label_of(
        code[i],
    )] == a {
        Some(i)
    } else {
        jump_target(symbols, code, a, i + 1)
    }
}

/// Whether a jump `jump` is taken on a computed word `v`, read as a signed
/// 16-bit number.
pub open spec fn jump_condition(jump: Seq<char>, v: u16) -> Option<bool> {
    if jump == "JGT"@ {
        Some(0 < v < 0x8000)
    } else if jump == "JEQ"@ {
        Some(v == 0)
    } else if jump == "JGE"@ {
        Some(v < 0x8000)
    } else if jump == "JLT"@ {
        Some(v >= 0x8000)
    } else if jump == "JNE"@ {
        Some(v != 0)
    } else if jump == "JLE"@ {
        Some(v == 0 || v >= 0x8000)
    } else if jump == "JMP"@ {
        Some(true)
    } else {
        None
    }
}

/// Runs code from line `pc` for at most `fuel` lines: a label line does
/// nothing, `comp; jump` jumps to the label whose address A holds when the
/// jump is taken, and every other line is a step; running off the end of the
/// code ends it. A jump that leaves the code is outside the model.
pub open spec fn exec(m: Machine, code: Seq<Seq<char>>, pc: int, fuel: nat) -> Option<Machine>
    decreases fuel,
{
    if pc < 0 || pc > code.len() {
        None
    } else if pc == code.len() {
        Some(m)
    } else if fuel == 0 {
        None
    } else {
        let line = code[pc];
        if is_label_line(line) {
            exec(m, code, pc + 1, (fuel - 1) as nat)
        } else if line.len() > 0 && line[0] == '@' {
            match step(m, line) {
                Some(m1) => exec(m1, code, pc + 1, (fuel - 1) as nat),
                None => None,
            }
        } else {
            match split_once(line, "; "@) {
                Some((comp, jump)) => match comp_value(m, comp) {
                    Some(v) => match jump_condition(jump, v) {
                        Some(true) => match jump_target(m.symbols, code, m.a, 0) {
                            Some(t) => exec(m, code, t, (fuel - 1) as nat),
                            None => None,
                        },
                        Some(false) => exec(m, code, pc + 1, (fuel - 1) as nat),
                        None => None,
                    },
                    None => None,
                },
                None => match step(m, line) {
                    Some(m1) => exec(m1, code, pc + 1, (fuel - 1) as nat),
                    None => None,
                },
            }
        }
    }
}

/// `M=0` in the machine.
proof fn lemma_line_m_zero(m: Machine)
    ensures
        step(m, "M=0"@) == Some(Machine { ram: m.ram.insert(m.a, 0), ..m }),
{
    reveal_strlit("0");
    reveal_strlit("=");
    reveal_strlit("M");
    reveal_strlit("M=0");
    assert("M=0"@ == "M"@ + "="@ + "0"@);
    lemma_step_c(m, "M"@, "0"@);
}

/// `M=-1` in the machine.
proof fn lemma_line_m_minus_one(m: Machine)
    ensures
        step(m, "M=-1"@) == Some(Machine { ram: m.ram.insert(m.a, 0xffff), ..m }),
{
    reveal_strlit("-1");
    reveal_strlit("0");
    reveal_strlit("1");
    reveal_strlit("=");
    reveal_strlit("M");
    reveal_strlit("M=-1");
    assert("M=-1"@ == "M"@ + "="@ + "-1"@);
    lemma_step_c(m, "M"@, "-1"@);
}

/// A line that `exec` runs as a step: no label, and an A-instruction or a
/// line without `;`.
pub open spec fn is_plain_line(line: Seq<char>) -> bool {
    &&& !is_label_line(line)
    &&& (line.len() > 0 && line[0] == '@') || (forall|k: int| 0 <= k < line.len() ==> line[k] != ';')
}

/// `exec` runs a plain line as a step.
proof fn lemma_exec_line(m: Machine, code: Seq<Seq<char>>, pc: int, fuel: nat)
    requires
        0 <= pc < code.len(),
        fuel > 0,
        is_plain_line(code[pc]),
    ensures
        exec(m, code, pc, fuel) == match step(m, code[pc]) {
            Some(m1) => exec(m1, code, pc + 1, (fuel - 1) as nat),
            None => None,
        },
{
    reveal_strlit("; ");
    let line = code[pc];
    if !(line.len() > 0 && line[0] == '@') {
        crate::lemma_find_absent(line, "; "@, 0);
    }
}

/// `exec` runs plain lines `pc` to `pc + k` as `run` does.
proof fn lemma_exec_run(m: Machine, code: Seq<Seq<char>>, pc: int, k: nat, fuel: nat)
    requires
        0 <= pc,
        pc + k <= code.len(),
        k <= fuel,
        forall|j: int| pc <= j < pc + k ==> is_plain_line(#[trigger] code[j]),
    ensures
        exec(m, code, pc, fuel) == match run(m, code.subrange(pc, pc + k)) {
            Some(m1) => exec(m1, code, pc + k, (fuel - k) as nat),
            None => None,
        },
    decreases k,
{
    let sub = code.subrange(pc, pc + k);
    if k == 0 {
        assert(sub.len() == 0);
    } else {
        lemma_run_first(m, sub);
        assert(sub[0] == code[pc]);
        assert(sub.drop_first() == code.subrange(pc + 1, pc + k));
        lemma_exec_line(m, code, pc, fuel);
        match step(m, code[pc]) {
            Some(m1) => {
                lemma_exec_run(m1, code, pc + 1, (k - 1) as nat, (fuel - 1) as nat);
            },
            None => {},
        }
    }
}

/// Code without labels and jumps runs under `exec` as under `run`.
pub proof fn lemma_exec_straight(m: Machine, code: Seq<Seq<char>>)
    requires
        all_plain(code),
    ensures
        exec(m, code, 0, code.len()) == run(m, code),
{
    lemma_exec_run(m, code, 0, code.len(), code.len());
    assert(code.subrange(0, code.len() as int) == code);
}

/// The jump search finds line `t` when it declares a label at address `a`
/// and no line before it, from `i`, does.
proof fn lemma_jump_target(symbols: Map<Seq<char>, u16>, code: Seq<Seq<char>>, a: u16, i: int, t: int)
    requires
        0 <= i <= t < code.len(),
        is_label_line(code[t]),
        symbols.contains_key(label_of(code[t])),
        symbols[label_of(code[t])] == a,
        forall|j: int|
            i <= j < t ==> !(is_label_line(#[trigger] code[j]) && symbols.contains_key(
                label_of(code[j]),
            ) && symbols[label_of(code[j])] == a),
    ensures
        jump_target(symbols, code, a, i) == Some(t),
    decreases t - i,
{
    if i < t {
        lemma_jump_target(symbols, code, a, i + 1, t);
    }
}

/// Steps never change the symbol table.
proof fn lemma_run_keeps_symbols(m: Machine, code: Seq<Seq<char>>)
    ensures
        run(m, code) matches Some(m2) ==> m2.symbols == m.symbols,
    decreases code.len(),
{
    if code.len() > 0 {
        lemma_run_keeps_symbols(m, code.drop_last());
    }
}

/// Popping the top into D and pointing A at the entry below it.
proof fn lemma_pop_two(m: Machine)
    requires
        holds_pointers(m.symbols),
        2 < m.ram[0],
    ensures
        run(m, pop_two_view()) == Some(
            Machine {
                a: (m.ram[0] - 2) as u16,
                d: m.ram[(m.ram[0] - 1) as u16],
                ram: m.ram.insert(0, (m.ram[0] - 1) as u16),
                ..m
            },
        ),
{
    lemma_predefined_values(m.symbols);
    let tail = seq![at(SP@), "A=M-1"@];
    assert(pop_two_view() == pop_d_view() + tail);
    lemma_pop_d(m);
    let m1 = run(m, pop_d_view())->0;
    lemma_run_at_line(m1, SP@, 0, "A=M-1"@);
    lemma_line_a_mminus1(Machine { a: 0, ..m1 });
    lemma_run_then(m, pop_d_view(), tail, m1);
}

/// A jump line `c; jump` whose computation `c` is one character.
proof fn lemma_exec_jump(
    m: Machine,
    code: Seq<Seq<char>>,
    pc: int,
    fuel: nat,
    c: Seq<char>,
    jump: Seq<char>,
    v: u16,
)
    requires
        0 <= pc < code.len(),
        fuel > 0,
        code[pc] == c + "; "@ + jump,
        c.len() == 1,
        c[0] != ';' && c[0] != '(' && c[0] != '@',
        comp_value(m, c) == Some(v),
    ensures
        exec(m, code, pc, fuel) == match jump_condition(jump, v) {
            Some(true) => match jump_target(m.symbols, code, m.a, 0) {
                Some(t) => exec(m, code, t, (fuel - 1) as nat),
                None => None,
            },
            Some(false) => exec(m, code, pc + 1, (fuel - 1) as nat),
            None => None,
        },
{
    reveal_strlit("; ");
    let line = code[pc];
    assert(line[0] == c[0]);
    assert(line.subrange(0, 2)[0] != "; "@[0]);
    assert(line.subrange(1, 3) == "; "@);
    assert(find_from(line, "; "@, 1) == Some(1int));
    assert(find_from(line, "; "@, 0) == Some(1int));
    assert(line.take(1) == c);
    assert(line.skip(3) == jump);
}

/// A label made of a file name, `_`, a word and a number is a symbol of the table.
proof fn lemma_label_symbol(symbols: Map<Seq<char>, u16>, filename: Seq<char>, label: Seq<char>, id: u16)
    requires
        symbols.contains_key(id_label(filename, label, id)),
    ensures
        symbol_value(symbols, id_label(filename, label, id)) == Some(
            symbols[id_label(filename, label, id)],
        ),
{
    reveal_strlit("_");
    let x = id_label(filename, label, id);
    assert(x[filename.len() as int] == '_');
    assert(!is_decimal_digit('_'));
}

/// The jump mnemonic of a comparison.
pub open spec fn ord_jump(arithmetic: Arithmetic) -> Seq<char> {
    match arithmetic {
        Arithmetic::Eq => "JEQ"@,
        Arithmetic::Gt => "JGT"@,
        _ => "JLT"@,
    }
}

/// Whether a comparison holds of `x` (below) and `y` (on top): the Hack code
/// compares the 16-bit difference `x - y`, read as a signed number, with 0.
pub open spec fn comparison_holds(arithmetic: Arithmetic, x: u16, y: u16) -> bool {
    let v = word(x - y);
    match arithmetic {
        Arithmetic::Eq => v == 0,
        Arithmetic::Gt => 0 < v < 0x8000,
        _ => v >= 0x8000,
    }
}

/// The jump of a comparison is taken exactly when the comparison holds.
proof fn lemma_ord_jump(arithmetic: Arithmetic, x: u16, y: u16)
    requires
        is_comparison(arithmetic),
    ensures
        jump_condition(ord_jump(arithmetic), word(x - y)) == Some(comparison_holds(arithmetic, x, y)),
        jump_condition("JMP"@, 0) == Some(true),
{
    reveal_strlit("JLE");
    reveal_strlit("JMP");
    reveal_strlit("JEQ");
    reveal_strlit("JNE");
    reveal_strlit("JGT");
    reveal_strlit("JGE");
    reveal_strlit("JLT");
    assert("JEQ"@ != "JMP"@) by {
        assert("JEQ"@[1] != "JMP"@[1]);
    }
    assert("JGT"@ != "JMP"@) by {
        assert("JGT"@[1] != "JMP"@[1]);
    }
    assert("JGT"@ != "JEQ"@) by {
        assert("JGT"@[1] != "JEQ"@[1]);
    }
    assert("JGT"@ != "JNE"@) by {
        assert("JGT"@[1] != "JNE"@[1]);
    }
    assert("JLT"@ != "JMP"@) by {
        assert("JLT"@[1] != "JMP"@[1]);
    }
    assert("JLT"@ != "JEQ"@) by {
        assert("JLT"@[1] != "JEQ"@[1]);
    }
    assert("JLT"@ != "JNE"@) by {
        assert("JLT"@[1] != "JNE"@[1]);
    }
    assert("JLT"@ != "JGT"@) by {
        assert("JLT"@[1] != "JGT"@[1]);
    }
    assert("JLT"@ != "JGE"@) by {
        assert("JLT"@[1] != "JGE"@[1]);
    }
    assert("JEQ"@ != "JGT"@) by {
        assert("JEQ"@[1] != "JGT"@[1]);
    }
    assert("JLT"@ != "JEQ"@) by {
        assert("JLT"@[1] != "JEQ"@[1]);
    }
    assert("JMP"@ != "JGE"@) by {
        assert("JMP"@[1] != "JGE"@[1]);
    }
    assert("JMP"@ != "JNE"@) by {
        assert("JMP"@[1] != "JNE"@[1]);
    }
    assert("JMP"@ != "JLE"@) by {
        assert("JMP"@[1] != "JLE"@[1]);
    }
    assert("JMP"@ != "JLT"@) by {
        assert("JMP"@[1] != "JLT"@[1]);
    }
}

/// The lines of a comparison: where its labels, its jumps and its plain
/// lines stand.
proof fn lemma_ord_lines(ord: Seq<char>, filename: Seq<char>, id: u16)
    ensures
        ({
            let code = ord_view(ord, filename, id);
            let l = id_label(filename, "LOGICAL_ORD"@, id);
            let e = id_label(filename, "LOGICAL_ORD_END"@, id);
            &&& code.len() == 19
            &&& code.subrange(0, 8) == pop_two_view() + seq!["D=M-D"@, at(l)]
            &&& code[8] == "D"@ + "; "@ + ord
            &&& code.subrange(9, 12) == unary_view("M=0"@)
            &&& code[12] == at(e)
            &&& code[13] == "0"@ + "; "@ + "JMP"@
            &&& code[14] == "("@ + l + ")"@
            &&& code.subrange(15, 18) == unary_view("M=-1"@)
            &&& code[18] == "("@ + e + ")"@
            &&& forall|j: int| 0 <= j < 8 || 9 <= j < 13 || 15 <= j < 18 ==> is_plain_line(#[trigger] code[j])
            &&& forall|j: int| 0 <= j < 14 || 15 <= j < 18 ==> !is_label_line(#[trigger] code[j])
        }),
{
    reveal_strlit("@");
    reveal_strlit("(");
    reveal_strlit(")");
    reveal_strlit("; ");
    reveal_strlit("D; ");
    reveal_strlit("0; JMP");
    reveal_strlit("D");
    reveal_strlit("0");
    reveal_strlit("JMP");
    reveal_strlit("M=M-1");
    reveal_strlit("A=M");
    reveal_strlit("D=M");
    reveal_strlit("A=M-1");
    reveal_strlit("D=M-D");
    reveal_strlit("M=0");
    reveal_strlit("M=-1");
    let code = ord_view(ord, filename, id);
    let l = id_label(filename, "LOGICAL_ORD"@, id);
    let e = id_label(filename, "LOGICAL_ORD_END"@, id);
    assert(code.subrange(0, 8) == pop_two_view() + seq!["D=M-D"@, at(l)]);
    assert(code.subrange(9, 12) == unary_view("M=0"@));
    assert(code.subrange(15, 18) == unary_view("M=-1"@));
    assert("D; "@ + ord == "D"@ + "; "@ + ord);
    assert("0; JMP"@ == "0"@ + "; "@ + "JMP"@);
    assert forall|j: int| 0 <= j < 8 || 9 <= j < 13 || 15 <= j < 18 implies is_plain_line(
        #[trigger] code[j],
    ) && !is_label_line(code[j]) by {
        assert(code[j][0] != '(');
    }
    assert(code[8][0] == 'D');
    assert(code[13][0] == '0');
}

/// What the computations `D` and `0` yield.
proof fn lemma_comp_d_zero(m: Machine)
    ensures
        comp_value(m, "D"@) == Some(m.d),
        comp_value(m, "0"@) == Some(0u16),
{
    reveal_strlit("-1");
    reveal_strlit("0");
    reveal_strlit("1");
    reveal_strlit("D");
    assert("D"@ != "0"@) by {
        assert("D"@[0] != "0"@[0]);
    }
    assert("D"@ != "1"@) by {
        assert("D"@[0] != "1"@[0]);
    }
    assert("D"@ != "-1"@) by {
        assert("D"@.len() != "-1"@.len());
    }
    assert(comp_value(m, "D"@) == Some(m.d));
}

/// A line `(X)` declares `X`.
proof fn lemma_label_line(x: Seq<char>)
    ensures
        is_label_line("("@ + x + ")"@),
        label_of("("@ + x + ")"@) == x,
{
    reveal_strlit("(");
    reveal_strlit(")");
    assert(("("@ + x + ")"@).subrange(1, x.len() as int + 1) == x);
}

/// The comparison after its jump, when the jump is taken: -1 replaces the
/// lower operand.
proof fn lemma_comparison_taken(m4: Machine, code: Seq<Seq<char>>, l: Seq<char>, e: Seq<char>)
    requires
        holds_pointers(m4.symbols),
        1 < m4.ram[0],
        code.len() == 19,
        code[14] == "("@ + l + ")"@,
        code.subrange(15, 18) == unary_view("M=-1"@),
        code[18] == "("@ + e + ")"@,
        forall|j: int| 15 <= j < 18 ==> is_plain_line(#[trigger] code[j]),
    ensures
        exec(m4, code, 14, 10) matches Some(m5) && m5.ram == m4.ram.insert(
            (m4.ram[0] - 1) as u16,
            0xffff,
        ),
{
    lemma_label_line(l);
    lemma_label_line(e);
    assert(exec(m4, code, 14, 10) == exec(m4, code, 15, 9));
    lemma_exec_run(m4, code, 15, 3, 9);
    lemma_line_m_minus_one(Machine { a: (m4.ram[0] - 1) as u16, ..m4 });
    lemma_unary_runs(m4, "M=-1"@, 0xffff);
    let m5 = run(m4, unary_view("M=-1"@))->0;
    assert(exec(m5, code, 18, 6) == exec(m5, code, 19, 5));
}

/// The comparison after its jump, when the jump is not taken: 0 replaces the
/// lower operand and the code jumps to its end label.
proof fn lemma_comparison_not_taken(m4: Machine, code: Seq<Seq<char>>, l: Seq<char>, e: Seq<char>)
    requires
        holds_pointers(m4.symbols),
        1 < m4.ram[0],
        code.len() == 19,
        code.subrange(9, 12) == unary_view("M=0"@),
        code[12] == at(e),
        code[13] == "0"@ + "; "@ + "JMP"@,
        code[14] == "("@ + l + ")"@,
        code[18] == "("@ + e + ")"@,
        forall|j: int| 9 <= j < 13 ==> is_plain_line(#[trigger] code[j]),
        forall|j: int| 0 <= j < 14 || 15 <= j < 18 ==> !is_label_line(#[trigger] code[j]),
        m4.symbols.contains_key(l),
        m4.symbols.contains_key(e),
        m4.symbols[l] != m4.symbols[e],
        symbol_value(m4.symbols, e) == Some(m4.symbols[e]),
    ensures
        exec(m4, code, 9, 10) matches Some(m7) && m7.ram == m4.ram.insert(
            (m4.ram[0] - 1) as u16,
            0,
        ),
{
    reveal_strlit("0");
    lemma_label_line(l);
    lemma_label_line(e);
    lemma_exec_run(m4, code, 9, 3, 10);
    lemma_line_m_zero(Machine { a: (m4.ram[0] - 1) as u16, ..m4 });
    lemma_unary_runs(m4, "M=0"@, 0);
    lemma_run_keeps_symbols(m4, unary_view("M=0"@));
    let m6 = run(m4, unary_view("M=0"@))->0;
    let ae = m4.symbols[e];
    lemma_exec_line(m6, code, 12, 7);
    lemma_step_at(m6, e, ae);
    let m7 = Machine { a: ae, ..m6 };
    lemma_comp_d_zero(m7);
    lemma_ord_jump(Arithmetic::Eq, 0, 0);
    lemma_exec_jump(m7, code, 13, 6, "0"@, "JMP"@, 0);
    assert forall|j: int| 0 <= j < 18 implies !(is_label_line(#[trigger] code[j])
        && m7.symbols.contains_key(label_of(code[j])) && m7.symbols[label_of(code[j])] == ae) by {
        if j == 14 {
            assert(label_of(code[j]) == l);
        }
    }
    lemma_jump_target(m7.symbols, code, ae, 0, 18);
    assert(exec(m7, code, 18, 5) == exec(m7, code, 19, 4));
}

/// A comparison up to its jump: the operands are popped, D gets `x - y` and
/// A the address of the true label.
proof fn lemma_comparison_head(m: Machine, ord: Seq<char>, filename: Seq<char>, id: u16)
    requires
        holds_pointers(m.symbols),
        2 < m.ram[0],
        m.symbols.contains_key(id_label(filename, "LOGICAL_ORD"@, id)),
    ensures
        exec(m, ord_view(ord, filename, id), 0, 19) == exec(
            Machine {
                a: m.symbols[id_label(filename, "LOGICAL_ORD"@, id)],
                d: word(m.ram[(m.ram[0] - 2) as u16] - m.ram[(m.ram[0] - 1) as u16]),
                ram: m.ram.insert(0, (m.ram[0] - 1) as u16),
                ..m
            },
            ord_view(ord, filename, id),
            8,
            11,
        ),
{
    let sp = m.ram[0];
    let x = m.ram[(sp - 2) as u16];
    let y = m.ram[(sp - 1) as u16];
    let code = ord_view(ord, filename, id);
    let l = id_label(filename, "LOGICAL_ORD"@, id);
    let al = m.symbols[l];
    lemma_ord_lines(ord, filename, id);
    lemma_pop_two(m);
    let m2 = Machine { a: (sp - 2) as u16, d: y, ram: m.ram.insert(0, (sp - 1) as u16), ..m };
    assert(m2.ram[(sp - 2) as u16] == x);
    lemma_line_d_mminusd(m2);
    let m3 = Machine { d: word(x - y), ..m2 };
    lemma_label_symbol(m.symbols, filename, "LOGICAL_ORD"@, id);
    let s2 = seq!["D=M-D"@, at(l)];
    lemma_run_first(m2, s2);
    assert(s2.drop_first() == seq![at(l)]);
    lemma_run_one(m3, at(l));
    lemma_step_at(m3, l, al);
    lemma_run_then(m, pop_two_view(), s2, m2);
    lemma_exec_run(m, code, 0, 8, 19);
}

/// A comparison (`eq`, `gt`, `lt`) replaces its two operands on top of the
/// stack by -1 (true) or 0 (false) and moves the stack pointer (RAM[0]) down
/// by one, within as many steps as it has lines. Its two labels must be in
/// the symbol table at different addresses, and the stack must lie above RAM[0].
pub proof fn lemma_comparison_runs(m: Machine, arithmetic: Arithmetic, filename: Seq<char>, id: u16)
    requires
        holds_pointers(m.symbols),
        is_comparison(arithmetic),
        2 < m.ram[0],
        m.symbols.contains_key(id_label(filename, "LOGICAL_ORD"@, id)),
        m.symbols.contains_key(id_label(filename, "LOGICAL_ORD_END"@, id)),
        m.symbols[id_label(filename, "LOGICAL_ORD"@, id)] != m.symbols[id_label(
            filename,
            "LOGICAL_ORD_END"@,
            id,
        )],
    ensures
        ({
            let code = arithmetic_view(arithmetic, filename, id);
            let sp = m.ram[0];
            let x = m.ram[(sp - 2) as u16];
            let y = m.ram[(sp - 1) as u16];
            exec(m, code, 0, code.len()) matches Some(m2) && m2.ram == m.ram.insert(
                0,
                (sp - 1) as u16,
            ).insert((sp - 2) as u16, if comparison_holds(arithmetic, x, y) {
                0xffffu16
            } else {
                0u16
            })
        }),
{
    let sp = m.ram[0];
    let x = m.ram[(sp - 2) as u16];
    let y = m.ram[(sp - 1) as u16];
    let v = word(x - y);
    let ord = ord_jump(arithmetic);
    let code = ord_view(ord, filename, id);
    assert(arithmetic_view(arithmetic, filename, id) == code);
    let l = id_label(filename, "LOGICAL_ORD"@, id);
    let e = id_label(filename, "LOGICAL_ORD_END"@, id);
    let al = m.symbols[l];
    lemma_ord_lines(ord, filename, id);
    lemma_ord_jump(arithmetic, x, y);
    lemma_comparison_head(m, ord, filename, id);
    let m4 = Machine { a: al, d: v, ram: m.ram.insert(0, (sp - 1) as u16), ..m };
    lemma_label_symbol(m.symbols, filename, "LOGICAL_ORD_END"@, id);
    lemma_comp_d_zero(m4);
    reveal_strlit("D");
    lemma_exec_jump(m4, code, 8, 11, "D"@, ord, v);
    if comparison_holds(arithmetic, x, y) {
        lemma_label_line(l);
        lemma_jump_target(m4.symbols, code, al, 0, 14);
        lemma_comparison_taken(m4, code, l, e);
    } else {
        lemma_comparison_not_taken(m4, code, l, e);
    }
}

/// Whether the jump bits `j1 j2 j3` of a C-instruction jump on the computed
/// word `v`, read as a signed 16-bit number: `j1` when it is negative, `j2`
/// when it is zero, `j3` when it is positive.
pub open spec fn jump_bits_taken(bits: Seq<char>, v: u16) -> bool {
    ||| bits[0] == '1' && v >= 0x8000
    ||| bits[1] == '1' && v == 0
    ||| bits[2] == '1' && 0 < v < 0x8000
}

/// The assembler encodes each jump mnemonic by bits that jump exactly when the
/// machine's jump condition of that mnemonic holds, on every computed word;
/// it knows exactly the mnemonics that the machine knows.
pub proof fn lemma_jump_bits_decide(jump: Seq<char>, v: u16)
    ensures
        jump_bits(jump) is Some <==> jump_condition(jump, v) is Some,
        jump_bits(jump) matches Some(b) ==> b.len() == 3 && jump_bits_taken(b, v) == jump_condition(
            jump,
            v,
        )->0,
{
    reveal_strlit("001");
    reveal_strlit("010");
    reveal_strlit("011");
    reveal_strlit("100");
    reveal_strlit("101");
    reveal_strlit("110");
    reveal_strlit("111");
}

/// The assembler encodes each destination mnemonic by the bits `d1 d2 d3`
/// of the registers that it names (A, D, M), and the machine stores a
/// computed value in exactly those registers; the two know the same
/// mnemonics.
pub proof fn lemma_dest_bits_store(m: Machine, dest: Seq<char>, v: u16)
    ensures
        dest_bits(dest) is Some <==> store(m, dest, v) is Some,
        dest_bits(dest) matches Some(b) ==> {
            &&& b.len() == 3
            &&& b[0] == '1' <==> dest.contains('A')
            &&& b[1] == '1' <==> dest.contains('D')
            &&& b[2] == '1' <==> dest.contains('M')
            &&& store(m, dest, v) == Some(
                Machine {
                    a: if b[0] == '1' {
                        v
                    } else {
                        m.a
                    },
                    d: if b[1] == '1' {
                        v
                    } else {
                        m.d
                    },
                    ram: if b[2] == '1' {
                        m.ram.insert(m.a, v)
                    } else {
                        m.ram
                    },
                    ..m
                },
            )
        },
{
    reveal_strlit("001");
    reveal_strlit("010");
    reveal_strlit("011");
    reveal_strlit("100");
    reveal_strlit("101");
    reveal_strlit("110");
    reveal_strlit("111");
    reveal_strlit("M");
    reveal_strlit("D");
    reveal_strlit("MD");
    reveal_strlit("A");
    reveal_strlit("AM");
    reveal_strlit("AD");
    reveal_strlit("AMD");
    if dest == "M"@ {
        assert(dest[0] == 'M');
    } else if dest == "D"@ {
        assert(dest[0] == 'D');
    } else if dest == "MD"@ {
        assert(dest[0] == 'M' && dest[1] == 'D');
    } else if dest == "A"@ {
        assert(dest[0] == 'A');
    } else if dest == "AM"@ {
        assert(dest[0] == 'A' && dest[1] == 'M');
    } else if dest == "AD"@ {
        assert(dest[0] == 'A' && dest[1] == 'D');
    } else if dest == "AMD"@ {
        assert(dest[0] == 'A' && dest[1] == 'M' && dest[2] == 'D');
    }
}

/// The Hack ALU on `x` (D) and `y` (A or M): `zx`, `zy` zero an input, `nx`,
/// `ny` negate it bitwise, `f` adds the two (else ands them) and `no` negates
/// the output bitwise.
pub open spec fn alu(zx: bool, nx: bool, zy: bool, ny: bool, f: bool, no: bool, x: u16, y: u16) -> u16 {
    let x1: u16 = if zx {
        0
    } else {
        x
    };
    let x2: u16 = if nx {
        !x1
    } else {
        x1
    };
    let y1: u16 = if zy {
        0
    } else {
        y
    };
    let y2: u16 = if ny {
        !y1
    } else {
        y1
    };
    let out: u16 = if f {
        word(x2 + y2)
    } else {
        x2 & y2
    };
    if no {
        !out
    } else {
        out
    }
}

/// What the bits `a c1 .. c6` of a C-instruction compute in the machine: the
/// ALU, under the control bits `c1 .. c6`, on D and on M (the memory at A)
/// when `a` is set, else on A.
pub open spec fn comp_output(bits: Seq<char>, m: Machine) -> u16 {
    alu(
        bits[1] == '1',
        bits[2] == '1',
        bits[3] == '1',
        bits[4] == '1',
        bits[5] == '1',
        bits[6] == '1',
        m.d,
        if bits[0] == '1' {
            m.ram[m.a]
        } else {
            m.a
        },
    )
}

/// Bitwise negation of a word is its difference from 0xffff.
proof fn lemma_not_word(v: u16)
    by (bit_vector)
    ensures
        !v == 0xffff - v,
{
}

/// Anding with all ones, and negating both inputs and the output of an and.
proof fn lemma_and_or(x: u16, y: u16)
    by (bit_vector)
    ensures
        x & 0xffff == x,
        0xffff & y == y,
        !((!x) & (!y)) == x | y,
{
}

/// The ALU's constants and the computations that pass an input through.
proof fn lemma_alu_plain(x: u16, y: u16)
    ensures
        alu(true, false, true, false, true, false, x, y) == 0,
        alu(true, true, true, true, true, true, x, y) == 1,
        alu(true, true, true, false, true, false, x, y) == 0xffff,
        alu(false, false, true, true, false, false, x, y) == x,
        alu(true, true, false, false, false, false, x, y) == y,
        alu(false, false, true, true, false, true, x, y) == !x,
        alu(true, true, false, false, false, true, x, y) == !y,
        alu(false, false, false, false, false, false, x, y) == x & y,
        alu(false, true, false, true, false, true, x, y) == x | y,
{
    lemma_not_word(0);
    lemma_not_word(0xfffe);
    lemma_and_or(x, y);
    assert(word(0int) == 0);
    assert(word(0x1fffeint) == 0xfffe);
    assert(word(0xffffint) == 0xffff);
}

/// The ALU's negations of an input.
proof fn lemma_alu_neg(x: u16, y: u16)
    ensures
        alu(false, false, true, true, true, true, x, y) == word(-x),
        alu(true, true, false, false, true, true, x, y) == word(-y),
{
    lemma_not_word(0);
    lemma_not_word(word(x + 0xffff));
    lemma_not_word(word(0xffff + y));
}

/// The ALU's increments of an input.
proof fn lemma_alu_inc(x: u16, y: u16)
    ensures
        alu(false, true, true, true, true, true, x, y) == word(x + 1),
        alu(true, true, false, true, true, true, x, y) == word(y + 1),
{
    lemma_not_word(0);
    lemma_not_word(x);
    lemma_not_word(y);
    lemma_not_word(word(!x + 0xffff));
    lemma_not_word(word(0xffff + !y));
}

/// The ALU's decrements of an input.
proof fn lemma_alu_dec(x: u16, y: u16)
    ensures
        alu(false, false, true, true, true, false, x, y) == word(x - 1),
        alu(true, true, false, false, true, false, x, y) == word(y - 1),
{
    lemma_not_word(0);
}

/// The ALU's sum and differences of its inputs.
proof fn lemma_alu_sum(x: u16, y: u16)
    ensures
        alu(false, false, false, false, true, false, x, y) == word(x + y),
        alu(false, true, false, false, true, true, x, y) == word(x - y),
        alu(false, false, false, true, true, true, x, y) == word(y - x),
{
    lemma_not_word(x);
    lemma_not_word(y);
    lemma_not_word(word(!x + y));
    lemma_not_word(word(x + !y));
}

/// The assembler encodes each computation mnemonic by bits `a c1 .. c6` on
/// which the ALU computes exactly the value that the mnemonic names, in every
/// machine state (`D-A` is D minus A, `M+1` is the memory at A plus one, and
/// so on), with one exception: the table's entry for `!D` is `0001111`, the
/// code of `-D`, so `!D` computes minus D. The assembler knows exactly
/// the mnemonics that the machine knows.
pub proof fn lemma_comp_bits_compute(m: Machine, comp: Seq<char>)
    ensures
        comp_bits(comp) is Some <==> comp_value(m, comp) is Some,
        comp_bits(comp) matches Some(b) ==> b.len() == 7 && comp_output(b, m) == if comp == "!D"@ {
            word(-m.d)
        } else {
            comp_value(m, comp)->0
        },
{
    reveal_strlit("!D");
    reveal_strlit("0");
    reveal_strlit("1");
    reveal_strlit("-1");
    reveal_strlit("D");
    reveal_strlit("A");
    reveal_strlit("M");
    assert("0"@ != "!D"@) by {
        assert("0"@.len() != "!D"@.len());
    }
    assert("1"@ != "!D"@) by {
        assert("1"@.len() != "!D"@.len());
    }
    assert("D"@ != "!D"@) by {
        assert("D"@.len() != "!D"@.len());
    }
    assert("A"@ != "!D"@) by {
        assert("A"@.len() != "!D"@.len());
    }
    assert("M"@ != "!D"@) by {
        assert("M"@.len() != "!D"@.len());
    }
    assert("-1"@ != "!D"@) by {
        assert("-1"@[0] != "!D"@[0]);
    }
    if comp == "0"@ {
        reveal_strlit("0101010");
        lemma_alu_plain(m.d, m.a);
    } else if comp == "1"@ {
        reveal_strlit("0111111");
        lemma_alu_plain(m.d, m.a);
    } else if comp == "-1"@ {
        reveal_strlit("0111010");
        lemma_alu_plain(m.d, m.a);
    } else if comp == "D"@ {
        reveal_strlit("0001100");
        lemma_alu_plain(m.d, m.a);
    } else if comp == "A"@ {
        reveal_strlit("0110000");
        lemma_alu_plain(m.d, m.a);
    } else if comp == "M"@ {
        reveal_strlit("1110000");
        lemma_alu_plain(m.d, m.ram[m.a]);
    } else if comp == "!D"@ {
        reveal_strlit("0001111");
        lemma_alu_neg(m.d, m.a);
    } else if comp == "!A"@ {
        reveal_strlit("0110001");
        lemma_alu_plain(m.d, m.a);
    } else if comp == "!M"@ {
        reveal_strlit("1110001");
        lemma_alu_plain(m.d, m.ram[m.a]);
    } else if comp == "-D"@ {
        reveal_strlit("1001111");
        lemma_alu_neg(m.d, m.ram[m.a]);
    } else if comp == "-A"@ {
        reveal_strlit("0110011");
        lemma_alu_neg(m.d, m.a);
    } else if comp == "-M"@ {
        reveal_strlit("1110011");
        lemma_alu_neg(m.d, m.ram[m.a]);
    } else if comp == "D+1"@ {
        reveal_strlit("0011111");
        lemma_alu_inc(m.d, m.a);
    } else if comp == "A+1"@ {
        reveal_strlit("0110111");
        lemma_alu_inc(m.d, m.a);
    } else if comp == "M+1"@ {
        reveal_strlit("1110111");
        lemma_alu_inc(m.d, m.ram[m.a]);
    } else if comp == "D-1"@ {
        reveal_strlit("0001110");
        lemma_alu_dec(m.d, m.a);
    } else if comp == "A-1"@ {
        reveal_strlit("0110010");
        lemma_alu_dec(m.d, m.a);
    } else if comp == "M-1"@ {
        reveal_strlit("1110010");
        lemma_alu_dec(m.d, m.ram[m.a]);
    } else if comp == "D+A"@ {
        reveal_strlit("0000010");
        lemma_alu_sum(m.d, m.a);
    } else if comp == "D+M"@ {
        reveal_strlit("1000010");
        lemma_alu_sum(m.d, m.ram[m.a]);
    } else if comp == "D-A"@ {
        reveal_strlit("0010011");
        lemma_alu_sum(m.d, m.a);
    } else if comp == "D-M"@ {
        reveal_strlit("1010011");
        lemma_alu_sum(m.d, m.ram[m.a]);
    } else if comp == "A-D"@ {
        reveal_strlit("0000111");
        lemma_alu_sum(m.d, m.a);
    } else if comp == "M-D"@ {
        reveal_strlit("1000111");
        lemma_alu_sum(m.d, m.ram[m.a]);
    } else if comp == "D&A"@ {
        reveal_strlit("0000000");
        lemma_alu_plain(m.d, m.a);
    } else if comp == "D&M"@ {
        reveal_strlit("1000000");
        lemma_alu_plain(m.d, m.ram[m.a]);
    } else if comp == "D|A"@ {
        reveal_strlit("0010101");
        lemma_alu_plain(m.d, m.a);
    } else if comp == "D|M"@ {
        reveal_strlit("1010101");
        lemma_alu_plain(m.d, m.ram[m.a]);
    }
}

} // verus!
