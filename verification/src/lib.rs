use crate::hack_assembler::assembler::{a_command_step, is_numeric};
use crate::hack_assembler::code::a_command_code;
use crate::hack_assembler::parser::{
    a_command_symbol, is_white_space_line, parse_line_view, strip_comment, LineView,
};
use crate::hack_assembler::symbol_table::ADDR_MAX;
use crate::text::{
    all_white_space, at, decimal, find_from, is_decimal_digit, is_digit, is_white_space,
    lemma_decimal_roundtrip, lemma_parse_decimal, non_white_space_prefix, split_once, starts_with, trim_start,
};
use vstd::prelude::*;

pub mod hack_assembler;
pub mod hack_machine;
pub mod text;
pub mod vm_translator;

verus! {

proof fn lemma_find_absent(s: Seq<char>, p: Seq<char>, i: int)
    requires
        p.len() > 0,
        forall|k: int| 0 <= k < s.len() ==> s[k] != p[0],
    ensures
        find_from(s, p, i) is None,
    decreases s.len() + 1 - i,
{
    if !(i < 0 || i + p.len() > s.len()) {
        assert(s.subrange(i, i + p.len())[0] == s[i]);
        lemma_find_absent(s, p, i + 1);
    }
}

proof fn lemma_non_white_space_prefix_all(s: Seq<char>)
    requires
        forall|k: int| 0 <= k < s.len() ==> !is_white_space(#[trigger] s[k]),
    ensures
        non_white_space_prefix(s) == s.len(),
    decreases s.len(),
{
    if s.len() > 0 {
        assert forall|k: int| 0 <= k < s.drop_first().len() implies !is_white_space(
            #[trigger] s.drop_first()[k],
        ) by {
            assert(s.drop_first()[k] == s[k + 1]);
        }
        lemma_non_white_space_prefix_all(s.drop_first());
    }
}

/// A line `@n` that the VM translator writes for a number `n` of 15 bits is an
/// A-command for the assembler, whose symbol is the number `n` itself; the
/// assembler translates it into the code that loads `n`, whatever its tables hold.
pub proof fn lemma_at_number_assembles(n: u16, table: Map<Seq<char>, u16>, next: u16)
    requires
        n <= ADDR_MAX,
    ensures
        parse_line_view(at(decimal(n as nat))) == (LineView::ACommand { symbol: decimal(n as nat) }),
        is_numeric(decimal(n as nat)),
        a_command_step(decimal(n as nat), table, next) == Ok::<
            (Map<Seq<char>, u16>, u16, Seq<char>),
            crate::hack_assembler::assembler::AsmError,
        >((table, next, a_command_code(n))),
{
    reveal_strlit("@");
    reveal_strlit("//");
    let d = decimal(n as nat);
    let s = at(d);
    lemma_decimal_roundtrip(n as nat);
    lemma_parse_decimal(n);
    assert(s[0] == '@');
    assert forall|k: int| 0 <= k < d.len() implies !is_white_space(#[trigger] d[k]) by {
        assert(is_digit(d[k]));
    }
    assert forall|k: int| 0 <= k < d.len() implies #[trigger] is_decimal_digit(d[k]) by {
        assert(is_digit(d[k]));
    }
    assert forall|k: int| 0 <= k < s.len() implies s[k] != '/' by {
        if k > 0 {
            assert(s[k] == d[k - 1]);
            assert(is_digit(d[k - 1]));
        }
    }
    assert(!is_white_space(s[0]));
    assert(trim_start(s) == s);
    assert(!all_white_space(s));
    assert(!starts_with(s, "//"@)) by {
        if starts_with(s, "//"@) {
            assert(s.take(2)[0] == s[0]);
        }
    }
    assert(!is_white_space_line(s));
    lemma_find_absent(s, "//"@, 0);
    assert(split_once(s, "//"@) is None);
    assert(strip_comment(s) == s);
    assert(s.drop_first() == d);
    lemma_non_white_space_prefix_all(d);
    assert(d.skip(d.len() as int) == Seq::<char>::empty());
    assert(d.take(d.len() as int) == d);
    assert(a_command_symbol(s) == Some(d));
}

} // verus!
