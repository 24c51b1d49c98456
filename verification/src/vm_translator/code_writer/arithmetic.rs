use crate::text::{at, push_at, push_line, push_lit, push_str, strings_view};
use crate::vm_translator::code_writer::{id_label, lemma_id_labels_distinct, IncreasedIdLabel, SP};
use crate::vm_translator::parser::Arithmetic;
use vstd::prelude::*;
use vstd::string::*;

verus! {

/// Pops the top of the stack into D and points A at the new top, which stays
/// on the stack (`SP` moves once).
pub open spec fn pop_two_view() -> Seq<Seq<char>> {
    seq![at(SP@), "M=M-1"@, "A=M"@, "D=M"@, at(SP@), "A=M-1"@]
}

/// A binary operation: the operands are popped, `op` computes D, and D
/// replaces the top of the stack.
pub open spec fn binary_view(op: Seq<char>) -> Seq<Seq<char>> {
    pop_two_view() + seq![op, at(SP@), "A=M-1"@, "M=D"@]
}

/// A unary operation `op` on the top of the stack, in place.
pub open spec fn unary_view(op: Seq<char>) -> Seq<Seq<char>> {
    seq![at(SP@), "A=M-1"@, op]
}

/// A comparison: -1 (true) replaces the two operands where `x - y` satisfies
/// the jump condition `ord`, else 0 (false); its two labels carry the number `id`.
pub open spec fn ord_view(ord: Seq<char>, filename: Seq<char>, id: u16) -> Seq<Seq<char>> {
    let ord_label = id_label(filename, "LOGICAL_ORD"@, id);
    let ord_end_label = id_label(filename, "LOGICAL_ORD_END"@, id);
    pop_two_view() + seq![
        "D=M-D"@,
        at(ord_label),
        "D; "@ + ord,
        at(SP@),
        "A=M-1"@,
        "M=0"@,
        at(ord_end_label),
        "0; JMP"@,
        "("@ + ord_label + ")"@,
        at(SP@),
        "A=M-1"@,
        "M=-1"@,
        "("@ + ord_end_label + ")"@,
    ]
}

/// Whether a command compares, and so uses up a label number.
pub open spec fn is_comparison(arithmetic: Arithmetic) -> bool {
    arithmetic == Arithmetic::Eq || arithmetic == Arithmetic::Gt || arithmetic == Arithmetic::Lt
}

/// The assembly code of an arithmetic or logical command, whose labels (if
/// any) carry the number `id`.
pub open spec fn arithmetic_view(arithmetic: Arithmetic, filename: Seq<char>, id: u16) -> Seq<
    Seq<char>,
> {
    match arithmetic {
        Arithmetic::Add => binary_view("D=D+M"@),
        Arithmetic::Sub => binary_view("D=M-D"@),
        Arithmetic::Neg => unary_view("M=-M"@),
        Arithmetic::Eq => ord_view("JEQ"@, filename, id),
        Arithmetic::Gt => ord_view("JGT"@, filename, id),
        Arithmetic::Lt => ord_view("JLT"@, filename, id),
        Arithmetic::And => binary_view("D=D&M"@),
        Arithmetic::Or => binary_view("D=D|M"@),
        Arithmetic::Not => unary_view("M=!M"@),
    }
}

fn binary(op: &str) -> (r: Vec<String>)
    ensures
        strings_view(r@) == binary_view(op@),
{
    let mut r: Vec<String> = pop_two_into_mreg_then_dreg();
    push_lit(&mut r, op);
    push_at(&mut r, SP);
    push_lit(&mut r, "A=M-1");
    push_lit(&mut r, "M=D");
    r
}

fn unary(op: &str) -> (r: Vec<String>)
    ensures
        strings_view(r@) == unary_view(op@),
{
    let mut r: Vec<String> = Vec::new();
    push_at(&mut r, SP);
    push_lit(&mut r, "A=M-1");
    push_lit(&mut r, op);
    r
}

/// The assembly code of an arithmetic or logical command.
pub fn code_generator(arithmetic: Arithmetic, increased_id_label: &mut IncreasedIdLabel) -> (r: Vec<
    String,
>)
    requires
        is_comparison(arithmetic) ==> old(increased_id_label).next_id() < u16::MAX,
    ensures
        strings_view(r@) == arithmetic_view(
            arithmetic,
            old(increased_id_label).filename(),
            old(increased_id_label).next_id(),
        ),
        final(increased_id_label).filename() == old(increased_id_label).filename(),
        final(increased_id_label).next_id() == if is_comparison(arithmetic) {
            (old(increased_id_label).next_id() + 1) as u16
        } else {
            old(increased_id_label).next_id()
        },
{
    match arithmetic {
        Arithmetic::Add => binary("D=D+M"),
        Arithmetic::Sub => binary("D=M-D"),
        Arithmetic::Neg => unary("M=-M"),
        Arithmetic::Eq => generate_ord("JEQ", increased_id_label),
        Arithmetic::Gt => generate_ord("JGT", increased_id_label),
        Arithmetic::Lt => generate_ord("JLT", increased_id_label),
        Arithmetic::And => binary("D=D&M"),
        Arithmetic::Or => binary("D=D|M"),
        Arithmetic::Not => unary("M=!M"),
    }
}

/// Pops the top of the stack into D and points A at the new top.
fn pop_two_into_mreg_then_dreg() -> (r: Vec<String>)
    ensures
        strings_view(r@) == pop_two_view(),
{
    let mut r: Vec<String> = Vec::new();
    push_at(&mut r, SP);
    push_lit(&mut r, "M=M-1");
    push_lit(&mut r, "A=M");
    push_lit(&mut r, "D=M");
    push_at(&mut r, SP);
    push_lit(&mut r, "A=M-1");
    r
}

/// A comparison with the jump condition `ord`.
fn generate_ord(ord: &str, increased_id_label: &mut IncreasedIdLabel) -> (r: Vec<String>)
    requires
        old(increased_id_label).next_id() < u16::MAX,
    ensures
        strings_view(r@) == ord_view(
            ord@,
            old(increased_id_label).filename(),
            old(increased_id_label).next_id(),
        ),
        final(increased_id_label).filename() == old(increased_id_label).filename(),
        final(increased_id_label).next_id() == old(increased_id_label).next_id() + 1,
{
    let labels: [String; 2] = increased_id_label.generate_increased_id_labels(
        [String::from_str("LOGICAL_ORD"), String::from_str("LOGICAL_ORD_END")],
    );
    assert(labels@[0]@ == id_label(
        old(increased_id_label).filename(),
        "LOGICAL_ORD"@,
        old(increased_id_label).next_id(),
    ));
    assert(labels@[1]@ == id_label(
        old(increased_id_label).filename(),
        "LOGICAL_ORD_END"@,
        old(increased_id_label).next_id(),
    ));
    let ord_label: &String = &labels[0];
    let ord_end_label: &String = &labels[1];
    let mut r: Vec<String> = pop_two_into_mreg_then_dreg();
    push_lit(&mut r, "D=M-D");
    push_at(&mut r, ord_label.as_str());
    let mut jump: String = String::from_str("D; ");
    push_str(&mut jump, ord);
    push_line(&mut r, jump);
    push_at(&mut r, SP);
    push_lit(&mut r, "A=M-1");
    push_lit(&mut r, "M=0");
    push_at(&mut r, ord_end_label.as_str());
    push_lit(&mut r, "0; JMP");
    let mut ord_line: String = String::from_str("(");
    push_str(&mut ord_line, ord_label.as_str());
    push_str(&mut ord_line, ")");
    push_line(&mut r, ord_line);
    push_at(&mut r, SP);
    push_lit(&mut r, "A=M-1");
    push_lit(&mut r, "M=-1");
    let mut end_line: String = String::from_str("(");
    push_str(&mut end_line, ord_end_label.as_str());
    push_str(&mut end_line, ")");
    push_line(&mut r, end_line);
    r
}

/// Whether a line of code `(label)` declares `label`.
pub open spec fn declares(code: Seq<Seq<char>>, label: Seq<char>) -> bool {
    exists|k: int| 0 <= k < code.len() && code[k] == "("@ + label + ")"@
}

/// The lines of a comparison, other than its two label lines and its lines
/// `@X`, begin with neither `(` nor `@`.
proof fn lemma_ord_view_lines(ord: Seq<char>, filename: Seq<char>, id: u16)
    ensures
        ord_view(ord, filename, id).len() == 19,
        forall|k: int|
            0 <= k < 19 && k != 14 && k != 18 ==> ord_view(ord, filename, id)[k][0] != '(',
        forall|k: int|
            0 <= k < 19 && k != 0 && k != 4 && k != 7 && k != 9 && k != 12 && k != 15 ==> ord_view(
                ord,
                filename,
                id,
            )[k][0] != '@',
{
    reveal_strlit("@");
    reveal_strlit("(");
    reveal_strlit("M=M-1");
    reveal_strlit("A=M");
    reveal_strlit("D=M");
    reveal_strlit("A=M-1");
    reveal_strlit("D=M-D");
    reveal_strlit("D; ");
    reveal_strlit("M=0");
    reveal_strlit("0; JMP");
    reveal_strlit("M=-1");
    let v = ord_view(ord, filename, id);
    let p = pop_two_view();
    assert(v[1] == "M=M-1"@);
    assert(v[2] == "A=M"@);
    assert(v[3] == "D=M"@);
    assert(v[5] == "A=M-1"@);
    assert(v[6] == "D=M-D"@);
    assert(v[8] == "D; "@ + ord);
    assert(v[9] == at(SP@));
    assert(v[10] == "A=M-1"@);
    assert(v[11] == "M=0"@);
    assert(v[13] == "0; JMP"@);
    assert(v[16] == "A=M-1"@);
    assert(v[17] == "M=-1"@);
    assert(v[0] == at(SP@));
    assert(v[4] == at(SP@));
    assert(v[7] == at(id_label(filename, "LOGICAL_ORD"@, id)));
    assert(v[12] == at(id_label(filename, "LOGICAL_ORD_END"@, id)));
    assert(v[15] == at(SP@));
    assert(("D; "@ + ord)[0] == 'D');
    let l = id_label(filename, "LOGICAL_ORD"@, id);
    let e = id_label(filename, "LOGICAL_ORD_END"@, id);
    assert(v[14] == "("@ + l + ")"@);
    assert(v[18] == "("@ + e + ")"@);
    assert(v[14][0] == '(');
    assert(v[18][0] == '(');
}

/// Two comparisons generated one after the other declare different labels:
/// each declares exactly its true label and its end label, which differ, and
/// every line `@X` of a comparison other than `@SP` names one of its own labels.
pub proof fn lemma_comparison_labels(a1: Arithmetic, a2: Arithmetic, filename: Seq<char>, id: u16)
    requires
        is_comparison(a1),
        is_comparison(a2),
        id < u16::MAX,
    ensures
        ({
            let v1 = arithmetic_view(a1, filename, id);
            let v2 = arithmetic_view(a2, filename, (id + 1) as u16);
            &&& forall|x: Seq<char>| declares(v1, x) ==> !declares(v2, x)
            &&& forall|x: Seq<char>|
                declares(v1, x) <==> (x == id_label(filename, "LOGICAL_ORD"@, id) || x == id_label(
                    filename,
                    "LOGICAL_ORD_END"@,
                    id,
                ))
            &&& id_label(filename, "LOGICAL_ORD"@, id) != id_label(
                filename,
                "LOGICAL_ORD_END"@,
                id,
            )
            &&& forall|k: int, x: Seq<char>|
                0 <= k < v2.len() && v2[k] == at(x) && x != SP@ ==> declares(v2, x)
        }),
{
    lemma_comparison_declares(a1, filename, id);
    lemma_comparison_declares(a2, filename, (id + 1) as u16);
    lemma_id_labels_distinct(filename, id, (id + 1) as u16);
    lemma_id_labels_distinct(filename, (id + 1) as u16, id);
    lemma_id_labels_distinct(filename, id, id);
}

/// The labels that one comparison declares, and the labels its lines `@X` name.
proof fn lemma_comparison_declares(a: Arithmetic, filename: Seq<char>, id: u16)
    requires
        is_comparison(a),
    ensures
        ({
            let v = arithmetic_view(a, filename, id);
            &&& forall|x: Seq<char>|
                declares(v, x) <==> (x == id_label(filename, "LOGICAL_ORD"@, id) || x == id_label(
                    filename,
                    "LOGICAL_ORD_END"@,
                    id,
                ))
            &&& forall|k: int, x: Seq<char>|
                0 <= k < v.len() && v[k] == at(x) && x != SP@ ==> declares(v, x)
        }),
{
    reveal_strlit("(");
    reveal_strlit(")");
    reveal_strlit("@");
    let ord = if a == Arithmetic::Eq {
        "JEQ"@
    } else if a == Arithmetic::Gt {
        "JGT"@
    } else {
        "JLT"@
    };
    let v = arithmetic_view(a, filename, id);
    assert(v == ord_view(ord, filename, id));
    lemma_ord_view_lines(ord, filename, id);
    let l = id_label(filename, "LOGICAL_ORD"@, id);
    let e = id_label(filename, "LOGICAL_ORD_END"@, id);
    assert(v[14] == "("@ + l + ")"@);
    assert(v[18] == "("@ + e + ")"@);
    assert forall|x: Seq<char>| declares(v, x) implies (x == l || x == e) by {
        let k = choose|k: int| 0 <= k < v.len() && v[k] == "("@ + x + ")"@;
        assert(v[k][0] == '(');
        assert(("("@ + x + ")"@).subrange(1, x.len() as int + 1) == x);
        assert(("("@ + l + ")"@).subrange(1, l.len() as int + 1) == l);
        assert(("("@ + e + ")"@).subrange(1, e.len() as int + 1) == e);
    }
    assert forall|k: int, x: Seq<char>|
        0 <= k < v.len() && v[k] == at(x) && x != SP@ implies declares(v, x) by {
        assert(at(x)[0] == '@');
        assert(at(x).skip(1) == x);
        assert(at(SP@).skip(1) == SP@);
        assert(at(l).skip(1) == l);
        assert(at(e).skip(1) == e);
        if k == 7 {
            assert(x == l);
            assert(v[14] == "("@ + x + ")"@);
        } else if k == 12 {
            assert(x == e);
            assert(v[18] == "("@ + x + ")"@);
        }
    }
    assert(declares(v, l)) by {
        assert(v[14] == "("@ + l + ")"@);
    }
    assert(declares(v, e)) by {
        assert(v[18] == "("@ + e + ")"@);
    }
}

} // verus!
