use crate::text::{
    all_white_space, is_white_space, lemma_non_white_space_prefix_of, lemma_non_white_space_prefix_split,
    lemma_trim_start_split, no_white_space, from_chars, lemma_find_from, lemma_remove_white_space_empty,
    lemma_remove_white_space_keeps, lemma_trim_start_at, lemma_trim_white_space, find,
    non_white_space_end, non_white_space_prefix, remove_white_space, remove_white_space_chars,
    slice_chars, split_once, split_once_chars, starts_with, to_chars, trim, trim_chars, trim_start,
    trim_start_index, white_space_from,
};
use vstd::prelude::*;

verus! {

/// One line of an assembly program.
#[derive(Debug)]
pub enum Line {
    WhiteSpace,
    ACommand { symbol: String },
    CCommand { dest: Option<String>, comp: String, jump: Option<String> },
    Label { name: String },
}

/// The plain value of a [`Line`].
pub enum LineView {
    WhiteSpace,
    ACommand { symbol: Seq<char> },
    CCommand { dest: Option<Seq<char>>, comp: Seq<char>, jump: Option<Seq<char>> },
    Label { name: Seq<char> },
}

impl View for Line {
    type V = LineView;

    open spec fn view(&self) -> LineView {
        match self {
            Line::WhiteSpace => LineView::WhiteSpace,
            Line::ACommand { symbol } => LineView::ACommand { symbol: symbol@ },
            Line::CCommand { dest, comp, jump } => LineView::CCommand {
                dest: match dest {
                    Some(d) => Some(d@),
                    None => None,
                },
                comp: comp@,
                jump: match jump {
                    Some(j) => Some(j@),
                    None => None,
                },
            },
            Line::Label { name } => LineView::Label { name: name@ },
        }
    }
}

/// A blank line, or one that holds only a comment (`^(\s)*$` or `^(\s)*//`).
pub open spec fn is_white_space_line(s: Seq<char>) -> bool {
    all_white_space(s) || starts_with(trim_start(s), "//"@)
}

/// The symbol of an A-command line `^\s*@(\S*)\s*$`: white space, `@`, the
/// symbol (no white space), then white space.
pub open spec fn a_command_symbol(s: Seq<char>) -> Option<Seq<char>> {
    let t = trim_start(s);
    if t.len() > 0 && t[0] == '@' {
        let rest = t.drop_first();
        let k = non_white_space_prefix(rest);
        if all_white_space(rest.skip(k as int)) {
            Some(rest.take(k as int))
        } else {
            None
        }
    } else {
        None
    }
}

/// The name of a label line `^\s*\((\S*)\)\s*$`: white space, `(`, the name
/// (no white space), `)`, then white space.
pub open spec fn label_name(s: Seq<char>) -> Option<Seq<char>> {
    let t = trim_start(s);
    if t.len() > 0 && t[0] == '(' {
        let rest = t.drop_first();
        let k = non_white_space_prefix(rest);
        if k > 0 && rest[k - 1] == ')' && all_white_space(rest.skip(k as int)) {
            Some(rest.take(k - 1))
        } else {
            None
        }
    } else {
        None
    }
}

/// A C-command `dest=comp;jump`, read once all white space is removed: the
/// jump follows the first `;`, the destination precedes the first `=`.
pub open spec fn c_command_of(s: Seq<char>) -> Option<LineView> {
    let u = remove_white_space(s);
    if u.len() == 0 {
        None
    } else {
        let (dest_comp, jump) = match split_once(u, ";"@) {
            None => (u, None),
            Some((a, b)) => (a, Some(b)),
        };
        let (dest, comp) = match split_once(dest_comp, "="@) {
            None => (None, dest_comp),
            Some((a, b)) => (Some(a), b),
        };
        Some(LineView::CCommand { dest, comp, jump })
    }
}

/// A line without its inline comment: what precedes the first `//`, trimmed.
pub open spec fn strip_comment(s: Seq<char>) -> Seq<char> {
    match split_once(s, "//"@) {
        Some((a, _)) => trim(a),
        None => s,
    }
}

/// What a line of an assembly program is.
pub open spec fn parse_line_view(s: Seq<char>) -> LineView {
    if is_white_space_line(s) {
        LineView::WhiteSpace
    } else {
        let t = strip_comment(s);
        match a_command_symbol(t) {
            Some(symbol) => LineView::ACommand { symbol },
            None => match label_name(t) {
                Some(name) => LineView::Label { name },
                None => c_command_of(t).unwrap(),
            },
        }
    }
}

fn white_space_line(s: &[char]) -> (r: bool)
    ensures
        r == is_white_space_line(s@),
{
    let a: usize = trim_start_index(s);
    if white_space_from(s, 0) {
        assert(s@.skip(0) == s@);
        return true;
    }
    assert(s@.skip(0) == s@);
    let ghost t: Seq<char> = s@.skip(a as int);
    if a + 1 < s.len() && s[a] == '/' && s[a + 1] == '/' {
        assert(t.take(2) == "//"@) by {
            reveal_strlit("//");
        }
        true
    } else {
        proof {
            reveal_strlit("//");
            if starts_with(t, "//"@) {
                assert(t.take(2)[0] == '/');
                assert(t.take(2)[1] == '/');
            }
        }
        false
    }
}

fn a_command_chars(s: &[char]) -> (r: Option<Line>)
    ensures
        r matches Some(l) ==> a_command_symbol(s@) matches Some(x) && l@ == (LineView::ACommand {
            symbol: x,
        }),
        r is None ==> a_command_symbol(s@) is None,
{
    let a: usize = trim_start_index(s);
    if a < s.len() && s[a] == '@' {
        let ghost rest: Seq<char> = s@.skip(a as int).drop_first();
        assert(rest == s@.skip(a + 1));
        let e: usize = non_white_space_end(s, a + 1);
        if white_space_from(s, e) {
            assert(rest.skip(e - (a + 1)) == s@.skip(e as int));
            let symbol: Vec<char> = slice_chars(s, a + 1, e);
            assert(symbol@ == rest.take(e - (a + 1)));
            Some(Line::ACommand { symbol: from_chars(&symbol) })
        } else {
            assert(rest.skip(e - (a + 1)) == s@.skip(e as int));
            None
        }
    } else {
        None
    }
}

fn label_chars(s: &[char]) -> (r: Option<Line>)
    ensures
        r matches Some(l) ==> label_name(s@) matches Some(x) && l@ == (LineView::Label {
            name: x,
        }),
        r is None ==> label_name(s@) is None,
{
    let a: usize = trim_start_index(s);
    if a < s.len() && s[a] == '(' {
        let ghost rest: Seq<char> = s@.skip(a as int).drop_first();
        assert(rest == s@.skip(a + 1));
        let e: usize = non_white_space_end(s, a + 1);
        assert(rest.skip(e - (a + 1)) == s@.skip(e as int));
        if e > a + 1 && s[e - 1] == ')' && white_space_from(s, e) {
            let name: Vec<char> = slice_chars(s, a + 1, e - 1);
            assert(name@ == rest.take(e - (a + 1) - 1));
            Some(Line::Label { name: from_chars(&name) })
        } else {
            assert(e > a + 1 ==> rest[e - (a + 1) - 1] == s@[e - 1]);
            None
        }
    } else {
        None
    }
}

fn c_command_chars(s: &[char]) -> (r: Option<Line>)
    ensures
        r matches Some(l) ==> c_command_of(s@) == Some(l@),
        r is None ==> c_command_of(s@) is None,
{
    let u: Vec<char> = remove_white_space_chars(s);
    if u.len() == 0 {
        return None;
    }
    let (dest_comp, jump): (Vec<char>, Option<String>) = match split_once_chars(&u, ";") {
        None => (u, None),
        Some((a, b)) => (a, Some(from_chars(&b))),
    };
    let (dest, comp): (Option<String>, String) = match split_once_chars(&dest_comp, "=") {
        None => (None, from_chars(&dest_comp)),
        Some((a, b)) => (Some(from_chars(&a)), from_chars(&b)),
    };
    Some(Line::CCommand { dest, comp, jump })
}

/// `Some(Line::WhiteSpace)` for a blank or comment line.
pub fn try_convert_white_space(text: &str) -> (r: Option<Line>)
    ensures
        r is Some <==> is_white_space_line(text@),
        r matches Some(l) ==> l is WhiteSpace,
{
    let s: Vec<char> = to_chars(text);
    if white_space_line(&s) {
        Some(Line::WhiteSpace)
    } else {
        None
    }
}

/// The A-command on a line `@symbol`.
pub fn try_convert_a_command(text: &str) -> (r: Option<Line>)
    ensures
        r matches Some(l) ==> a_command_symbol(text@) matches Some(x) && l@ == (
        LineView::ACommand { symbol: x }),
        r is None ==> a_command_symbol(text@) is None,
{
    let s: Vec<char> = to_chars(text);
    a_command_chars(&s)
}

/// The label on a line `(name)`.
pub fn try_convert_label(text: &str) -> (r: Option<Line>)
    ensures
        r matches Some(l) ==> label_name(text@) matches Some(x) && l@ == (LineView::Label {
            name: x,
        }),
        r is None ==> label_name(text@) is None,
{
    let s: Vec<char> = to_chars(text);
    label_chars(&s)
}

/// The C-command on a line `dest=comp;jump`; `None` for a blank line.
pub fn try_convert_c_command(text: &str) -> (r: Option<Line>)
    ensures
        r matches Some(l) ==> c_command_of(text@) == Some(l@),
        r is None ==> c_command_of(text@) is None,
        r is None <==> all_white_space(text@),
{
    let s: Vec<char> = to_chars(text);
    proof {
        lemma_remove_white_space_empty(s@);
        lemma_remove_white_space_keeps(s@);
    }
    c_command_chars(&s)
}

/// A line that is not blank and holds no comment alone holds a C-command
/// once its comment is stripped.
proof fn lemma_code_line(s: Seq<char>)
    requires
        !is_white_space_line(s),
    ensures
        !all_white_space(strip_comment(s)),
        c_command_of(strip_comment(s)) is Some,
{
    reveal_strlit("//");
    match split_once(s, "//"@) {
        Some((a, _)) => {
            lemma_find_from(s, "//"@, 0);
            let i: int = find(s, "//"@).unwrap();
            assert(a == s.take(i));
            if all_white_space(a) {
                assert(s.subrange(i, i + 2) == "//"@);
                assert(s[i] == '/') by {
                    reveal_strlit("//");
                    assert(s.subrange(i, i + 2)[0] == s[i]);
                }
                lemma_trim_start_at(s, i);
                assert(trim_start(s).take(2) == s.subrange(i, i + 2));
                assert(false);
            }
            lemma_trim_white_space(a);
        },
        None => {},
    }
    lemma_remove_white_space_empty(strip_comment(s));
}

/// What a line of an assembly program is.
pub fn parse_line(line: String) -> (r: Line)
    ensures
        r@ == parse_line_view(line@),
{
    let s: Vec<char> = to_chars(line.as_str());
    if white_space_line(&s) {
        return Line::WhiteSpace;
    }
    proof {
        lemma_code_line(s@);
    }
    let t: Vec<char> = match split_once_chars(&s, "//") {
        Some((a, _)) => trim_chars(&a),
        None => s,
    };
    if let Some(a_command) = a_command_chars(&t) {
        return a_command;
    }
    if let Some(label) = label_chars(&t) {
        return label;
    }
    c_command_chars(&t).unwrap()
}

/// `a_command_symbol` is the pattern `^\s*@(\S*)\s*$`: it gives the symbol `x`
/// exactly when the line is white space, `@`, `x` without white space, and
/// white space.
pub proof fn lemma_a_command_shape(s: Seq<char>, x: Seq<char>)
    ensures
        a_command_symbol(s) == Some(x) <==> exists|w1: Seq<char>, w2: Seq<char>|
            {
                &&& all_white_space(w1)
                &&& no_white_space(x)
                &&& all_white_space(w2)
                &&& s == w1 + "@"@ + x + w2
            },
{
    reveal_strlit("@");
    if a_command_symbol(s) == Some(x) {
        lemma_trim_start_split(s);
        let t = trim_start(s);
        let i: int = s.len() - t.len();
        let rest = t.drop_first();
        lemma_non_white_space_prefix_split(rest);
        let k: int = non_white_space_prefix(rest) as int;
        let w1 = s.take(i);
        let w2 = rest.skip(k);
        assert(s == w1 + "@"@ + x + w2);
    }
    if exists|w1: Seq<char>, w2: Seq<char>|
        {
            &&& all_white_space(w1)
            &&& no_white_space(x)
            &&& all_white_space(w2)
            &&& s == w1 + "@"@ + x + w2
        } {
        let (w1, w2) = choose|w1: Seq<char>, w2: Seq<char>|
            {
                &&& all_white_space(w1)
                &&& no_white_space(x)
                &&& all_white_space(w2)
                &&& s == w1 + "@"@ + x + w2
            };
        let i: int = w1.len() as int;
        assert(s.take(i) == w1);
        assert(s[i] == '@');
        lemma_trim_start_at(s, i);
        let rest = s.skip(i).drop_first();
        assert(rest == x + w2);
        if w2.len() > 0 {
            assert(is_white_space(w2[0]));
        }
        lemma_non_white_space_prefix_of(x, w2);
        assert(rest.take(x.len() as int) == x);
        assert(rest.skip(x.len() as int) == w2);
    }
}

proof fn lemma_label_found(s: Seq<char>, x: Seq<char>)
    requires
        label_name(s) == Some(x),
    ensures
        no_white_space(x),
        exists|w1: Seq<char>, w2: Seq<char>|
            {
                &&& all_white_space(w1)
                &&& all_white_space(w2)
                &&& s == w1 + "("@ + x + ")"@ + w2
            },
{
    reveal_strlit("(");
    reveal_strlit(")");
    lemma_trim_start_split(s);
    let t = trim_start(s);
    let i: int = s.len() - t.len();
    let rest = t.drop_first();
    lemma_non_white_space_prefix_split(rest);
    let k: int = non_white_space_prefix(rest) as int;
    let w1 = s.take(i);
    let w2 = rest.skip(k);
    let y = rest.take(k);
    assert(y == x + ")"@);
    assert forall|j: int| 0 <= j < x.len() implies !#[trigger] is_white_space(x[j]) by {
        assert(x[j] == y[j]);
    }
    assert(s == w1 + t);
    assert(t == "("@ + rest);
    assert(rest == y + w2);
    assert(s == w1 + "("@ + x + ")"@ + w2);
}

proof fn lemma_label_of_shape(s: Seq<char>, w1: Seq<char>, x: Seq<char>, w2: Seq<char>)
    requires
        all_white_space(w1),
        no_white_space(x),
        all_white_space(w2),
        s == w1 + "("@ + x + ")"@ + w2,
    ensures
        label_name(s) == Some(x),
{
    reveal_strlit("(");
    reveal_strlit(")");
    let i: int = w1.len() as int;
    assert(s.take(i) == w1);
    assert(s[i] == '(');
    lemma_trim_start_at(s, i);
    let rest = s.skip(i).drop_first();
    let y = x + ")"@;
    assert(rest == y + w2);
    assert forall|j: int| 0 <= j < y.len() implies !#[trigger] is_white_space(y[j]) by {
        if j < x.len() {
            assert(y[j] == x[j]);
        } else {
            assert(y[j] == ')');
        }
    }
    if w2.len() > 0 {
        assert(is_white_space(w2[0]));
    }
    lemma_non_white_space_prefix_of(y, w2);
    assert(rest.take(y.len() as int) == y);
    assert(rest.skip(y.len() as int) == w2);
    assert(y.take(y.len() - 1) == x);
}

/// `label_name` is the pattern `^\s*\((\S*)\)\s*$`: it gives the name `x`
/// exactly when the line is white space, `(`, `x` without white space, `)`,
/// and white space.
pub proof fn lemma_label_shape(s: Seq<char>, x: Seq<char>)
    ensures
        label_name(s) == Some(x) <==> exists|w1: Seq<char>, w2: Seq<char>|
            {
                &&& all_white_space(w1)
                &&& no_white_space(x)
                &&& all_white_space(w2)
                &&& s == w1 + "("@ + x + ")"@ + w2
            },
{
    if label_name(s) == Some(x) {
        lemma_label_found(s, x);
    }
    if exists|w1: Seq<char>, w2: Seq<char>|
        {
            &&& all_white_space(w1)
            &&& no_white_space(x)
            &&& all_white_space(w2)
            &&& s == w1 + "("@ + x + ")"@ + w2
        } {
        let (w1, w2) = choose|w1: Seq<char>, w2: Seq<char>|
            {
                &&& all_white_space(w1)
                &&& no_white_space(x)
                &&& all_white_space(w2)
                &&& s == w1 + "("@ + x + ")"@ + w2
            };
        lemma_label_of_shape(s, w1, x, w2);
    }
}

} // verus!
