use crate::text::{
    all_decimal_digits, all_white_space, opt_view, all_word, is_decimal_digit, is_white_space, is_word,
    lemma_white_space_prefix_of, lemma_white_space_prefix_split, lemma_word_prefix_of,
    lemma_word_prefix_split, chars_eq, decimal_digits_from, from_chars, parse_u16, parse_u16_chars, slice_chars,
    split_once, split_once_chars, to_chars, trim, trim_chars, white_space_end, white_space_prefix,
    word_end, word_prefix,
};
use vstd::prelude::*;

verus! {

/// The arithmetic and logical commands.
#[derive(Debug, Clone, Copy, PartialEq, Eq, Structural)]
pub enum Arithmetic {
    Add,
    Sub,
    Neg,
    Eq,
    Gt,
    Lt,
    And,
    Or,
    Not,
}

/// The memory segments of the VM.
#[derive(Debug, Clone, Copy, PartialEq, Eq, Structural)]
pub enum MemorySegment {
    Argument,
    Local,
    Static,
    Constant,
    This,
    That,
    Pointer,
    Temp,
}

/// A VM command.
#[derive(Debug, Clone, Copy, PartialEq, Eq, Structural)]
pub enum Command {
    Arithmetic(Arithmetic),
    Push { segment: MemorySegment, index: u16 },
    Pop { segment: MemorySegment, index: u16 },
}

/// A VM command and the line it was read from.
#[derive(Debug)]
pub struct Line {
    pub command: Command,
    pub line: String,
}

/// The words of a command line: the command and up to two arguments.
#[derive(Debug)]
struct CommandString {
    command: String,
    args: ArgsString,
}

#[derive(Debug)]
struct ArgsString {
    arg1: Option<String>,
    arg2: Option<String>,
}

/// A result whose error is a message, with the message as plain text.
pub open spec fn result_view<T>(r: Result<T, &'static str>) -> Result<T, Seq<char>> {
    match r {
        Ok(v) => Ok(v),
        Err(m) => Err(m@),
    }
}

/// A line without its comment: what precedes the first `//`.
pub open spec fn remove_comment_view(s: Seq<char>) -> Seq<char> {
    match split_once(s, "//"@) {
        Some((a, _)) => a,
        None => s,
    }
}

/// Whether a line holds a command: it is not blank once its comment is removed.
pub open spec fn holds_command(s: Seq<char>) -> bool {
    trim(remove_comment_view(s)).len() > 0
}

/// The words of a command `^(\w+)(?:\s+(\w+)(?:\s+(\d+))?)?$`: a word,
/// optionally white space and a second word, and then optionally white space
/// and a number. The classes are Unicode ones: `\w` is `is_word`, `\d` is
/// `is_decimal_digit` and `\s` is `is_white_space`.
pub open spec fn command_words(t: Seq<char>) -> Option<
    (Seq<char>, Option<Seq<char>>, Option<Seq<char>>),
> {
    let k1 = word_prefix(t);
    let r1 = t.skip(k1 as int);
    let s1 = white_space_prefix(r1);
    let r2 = r1.skip(s1 as int);
    let k2 = word_prefix(r2);
    let r3 = r2.skip(k2 as int);
    let s2 = white_space_prefix(r3);
    let r4 = r3.skip(s2 as int);
    if k1 == 0 {
        None
    } else if r1.len() == 0 {
        Some((t.take(k1 as int), None, None))
    } else if s1 == 0 || k2 == 0 {
        None
    } else if r3.len() == 0 {
        Some((t.take(k1 as int), Some(r2.take(k2 as int)), None))
    } else if s2 == 0 || r4.len() == 0 || !all_decimal_digits(r4) {
        None
    } else {
        Some((t.take(k1 as int), Some(r2.take(k2 as int)), Some(r4)))
    }
}

/// The arithmetic command of a name.
pub open spec fn arithmetic_of(name: Seq<char>) -> Option<Arithmetic> {
    if name == "add"@ {
        Some(Arithmetic::Add)
    } else if name == "sub"@ {
        Some(Arithmetic::Sub)
    } else if name == "neg"@ {
        Some(Arithmetic::Neg)
    } else if name == "eq"@ {
        Some(Arithmetic::Eq)
    } else if name == "gt"@ {
        Some(Arithmetic::Gt)
    } else if name == "lt"@ {
        Some(Arithmetic::Lt)
    } else if name == "and"@ {
        Some(Arithmetic::And)
    } else if name == "or"@ {
        Some(Arithmetic::Or)
    } else if name == "not"@ {
        Some(Arithmetic::Not)
    } else {
        None
    }
}

/// The memory segment of a name.
pub open spec fn segment_of(name: Seq<char>) -> Option<MemorySegment> {
    if name == "local"@ {
        Some(MemorySegment::Local)
    } else if name == "argument"@ {
        Some(MemorySegment::Argument)
    } else if name == "this"@ {
        Some(MemorySegment::This)
    } else if name == "that"@ {
        Some(MemorySegment::That)
    } else if name == "constant"@ {
        Some(MemorySegment::Constant)
    } else if name == "static"@ {
        Some(MemorySegment::Static)
    } else if name == "pointer"@ {
        Some(MemorySegment::Pointer)
    } else if name == "temp"@ {
        Some(MemorySegment::Temp)
    } else {
        None
    }
}

/// The segment and index arguments of `push` and `pop`.
pub open spec fn segment_arguments_view(arg1: Option<Seq<char>>, arg2: Option<Seq<char>>) -> Result<
    (MemorySegment, u16),
    Seq<char>,
> {
    match arg1 {
        None => Err("missing memory segment argument"@),
        Some(a1) => match segment_of(a1) {
            None => Err("can not parse memory segment argument"@),
            Some(segment) => match arg2 {
                None => Err("missing segment index argument"@),
                Some(a2) => match parse_u16(a2) {
                    None => Err("can not parse segment index argument"@),
                    Some(index) => Ok((segment, index)),
                },
            },
        },
    }
}

/// The command that a name and its arguments stand for.
pub open spec fn command_view(
    name: Seq<char>,
    arg1: Option<Seq<char>>,
    arg2: Option<Seq<char>>,
) -> Result<Command, Seq<char>> {
    match arithmetic_of(name) {
        Some(a) => if arg1 is None && arg2 is None {
            Ok(Command::Arithmetic(a))
        } else {
            Err("arithmetic command could not have arguments"@)
        },
        None => if name == "push"@ {
            match segment_arguments_view(arg1, arg2) {
                Err(m) => Err(m),
                Ok((segment, index)) => Ok(Command::Push { segment, index }),
            }
        } else if name == "pop"@ {
            match segment_arguments_view(arg1, arg2) {
                Err(m) => Err(m),
                Ok((segment, index)) => if segment == MemorySegment::Constant {
                    Err("constant segment can not be a pop command"@)
                } else {
                    Ok(Command::Pop { segment, index })
                },
            }
        } else {
            Err("unknown command"@)
        },
    }
}

/// The command on a line of a VM program, or why there is none.
pub open spec fn line_command(s: Seq<char>) -> Result<Command, Seq<char>> {
    match command_words(trim(remove_comment_view(s))) {
        None => Err("parse command failed!"@),
        Some((name, arg1, arg2)) => command_view(name, arg1, arg2),
    }
}

impl CommandString {
    /// The words of a trimmed command line.
    fn build(line: &[char]) -> (r: Result<Self, &'static str>)
        ensures
            r matches Err(m) ==> command_words(line@) is None && m@ == "parse command failed!"@,
            r matches Ok(c) ==> command_words(line@) == Some(
                (c.command@, opt_view(c.args.arg1), opt_view(c.args.arg2)),
            ),
    {
        let k1: usize = word_end(line, 0);
        assert(line@.skip(0) == line@);
        let ghost r1: Seq<char> = line@.skip(k1 as int);
        if k1 == 0 {
            return Err("parse command failed!");
        }
        let command: String = from_chars(&slice_chars(line, 0, k1));
        assert(line@.subrange(0, k1 as int) == line@.take(k1 as int));
        if k1 == line.len() {
            return Ok(Self { command, args: ArgsString { arg1: None, arg2: None } });
        }
        let s1: usize = white_space_end(line, k1);
        let ghost r2: Seq<char> = r1.skip(s1 - k1);
        assert(r2 == line@.skip(s1 as int));
        let k2: usize = word_end(line, s1);
        if s1 == k1 || k2 == s1 {
            return Err("parse command failed!");
        }
        let arg1: String = from_chars(&slice_chars(line, s1, k2));
        assert(line@.subrange(s1 as int, k2 as int) == r2.take(k2 - s1));
        let ghost r3: Seq<char> = r2.skip(k2 - s1);
        assert(r3 == line@.skip(k2 as int));
        if k2 == line.len() {
            return Ok(Self { command, args: ArgsString { arg1: Some(arg1), arg2: None } });
        }
        let s2: usize = white_space_end(line, k2);
        assert(r3.skip(s2 - k2) == line@.skip(s2 as int));
        if s2 == k2 || s2 == line.len() || !decimal_digits_from(line, s2) {
            return Err("parse command failed!");
        }
        let arg2: String = from_chars(&slice_chars(line, s2, line.len()));
        assert(line@.subrange(s2 as int, line@.len() as int) == line@.skip(s2 as int));
        Ok(Self { command, args: ArgsString { arg1: Some(arg1), arg2: Some(arg2) } })
    }
}

fn arithmetic_name(name: &[char]) -> (r: Option<Arithmetic>)
    ensures
        r == arithmetic_of(name@),
{
    if chars_eq(name, "add") {
        Some(Arithmetic::Add)
    } else if chars_eq(name, "sub") {
        Some(Arithmetic::Sub)
    } else if chars_eq(name, "neg") {
        Some(Arithmetic::Neg)
    } else if chars_eq(name, "eq") {
        Some(Arithmetic::Eq)
    } else if chars_eq(name, "gt") {
        Some(Arithmetic::Gt)
    } else if chars_eq(name, "lt") {
        Some(Arithmetic::Lt)
    } else if chars_eq(name, "and") {
        Some(Arithmetic::And)
    } else if chars_eq(name, "or") {
        Some(Arithmetic::Or)
    } else if chars_eq(name, "not") {
        Some(Arithmetic::Not)
    } else {
        None
    }
}

/// The command that a name and its arguments stand for.
fn parse_command(command_string: CommandString) -> (r: Result<Command, &'static str>)
    ensures
        result_view(r) == command_view(
            command_string.command@,
            opt_view(command_string.args.arg1),
            opt_view(command_string.args.arg2),
        ),
{
    let name: Vec<char> = to_chars(command_string.command.as_str());
    match arithmetic_name(&name) {
        Some(a) => valid_arithmetic_args(a, &command_string.args),
        None => if chars_eq(&name, "push") {
            parse_push(&command_string.args)
        } else if chars_eq(&name, "pop") {
            parse_pop(&command_string.args)
        } else {
            Err("unknown command")
        },
    }
}

/// An arithmetic command, which takes no argument.
fn valid_arithmetic_args(arithmetic: Arithmetic, args: &ArgsString) -> (r: Result<
    Command,
    &'static str,
>)
    ensures
        result_view(r) == (if args.arg1 is None && args.arg2 is None {
            Ok(Command::Arithmetic(arithmetic))
        } else {
            Err("arithmetic command could not have arguments"@)
        }),
{
    if args.arg1.is_none() && args.arg2.is_none() {
        Ok(Command::Arithmetic(arithmetic))
    } else {
        Err("arithmetic command could not have arguments")
    }
}

/// A `push` command.
fn parse_push(args: &ArgsString) -> (r: Result<Command, &'static str>)
    ensures
        result_view(r) == match segment_arguments_view(opt_view(args.arg1), opt_view(args.arg2)) {
            Err(m) => Err(m),
            Ok((segment, index)) => Ok(Command::Push { segment, index }),
        },
{
    let (segment, index) = parse_segment_arguments(args)?;
    Ok(Command::Push { segment, index })
}

/// A `pop` command; the constant segment cannot be popped.
fn parse_pop(args: &ArgsString) -> (r: Result<Command, &'static str>)
    ensures
        result_view(r) == match segment_arguments_view(opt_view(args.arg1), opt_view(args.arg2)) {
            Err(m) => Err(m),
            Ok((segment, index)) => if segment == MemorySegment::Constant {
                Err("constant segment can not be a pop command"@)
            } else {
                Ok(Command::Pop { segment, index })
            },
        },
{
    let (segment, index) = parse_segment_arguments(args)?;
    if let MemorySegment::Constant = segment {
        return Err("constant segment can not be a pop command");
    }
    Ok(Command::Pop { segment, index })
}

/// The segment and index arguments of `push` and `pop`.
fn parse_segment_arguments(args: &ArgsString) -> (r: Result<(MemorySegment, u16), &'static str>)
    ensures
        result_view(r) == segment_arguments_view(opt_view(args.arg1), opt_view(args.arg2)),
{
    let segment: &String = match &args.arg1 {
        None => {
            return Err("missing memory segment argument");
        },
        Some(s) => s,
    };
    let segment: MemorySegment = parse_segment(segment.as_str())?;
    let index: &String = match &args.arg2 {
        None => {
            return Err("missing segment index argument");
        },
        Some(i) => i,
    };
    let index: u16 = parse_segment_index(index.as_str())?;
    Ok((segment, index))
}

/// The memory segment of a name.
fn parse_segment(segment: &str) -> (r: Result<MemorySegment, &'static str>)
    ensures
        result_view(r) == match segment_of(segment@) {
            Some(s) => Ok(s),
            None => Err("can not parse memory segment argument"@),
        },
{
    let name: Vec<char> = to_chars(segment);
    if chars_eq(&name, "local") {
        Ok(MemorySegment::Local)
    } else if chars_eq(&name, "argument") {
        Ok(MemorySegment::Argument)
    } else if chars_eq(&name, "this") {
        Ok(MemorySegment::This)
    } else if chars_eq(&name, "that") {
        Ok(MemorySegment::That)
    } else if chars_eq(&name, "constant") {
        Ok(MemorySegment::Constant)
    } else if chars_eq(&name, "static") {
        Ok(MemorySegment::Static)
    } else if chars_eq(&name, "pointer") {
        Ok(MemorySegment::Pointer)
    } else if chars_eq(&name, "temp") {
        Ok(MemorySegment::Temp)
    } else {
        Err("can not parse memory segment argument")
    }
}

/// The index of a segment: a decimal number that fits in a `u16`.
fn parse_segment_index(index: &str) -> (r: Result<u16, &'static str>)
    ensures
        result_view(r) == match parse_u16(index@) {
            Some(v) => Ok(v),
            None => Err("can not parse segment index argument"@),
        },
{
    let digits: Vec<char> = to_chars(index);
    match parse_u16_chars(&digits) {
        Some(v) => Ok(v),
        None => Err("can not parse segment index argument"),
    }
}

/// A line without its comment: what precedes the first `//`.
pub fn remove_comment(line: String) -> (r: String)
    ensures
        r@ == remove_comment_view(line@),
{
    let chars: Vec<char> = to_chars(line.as_str());
    match split_once_chars(&chars, "//") {
        Some((before, _)) => from_chars(&before),
        None => line,
    }
}

/// Whether a line holds a command rather than white space and comments.
pub fn is_not_white_space(line: &String) -> (r: bool)
    ensures
        r == holds_command(line@),
{
    let without_comment: String = remove_comment(line.clone());
    let chars: Vec<char> = to_chars(without_comment.as_str());
    trim_chars(&chars).len() > 0
}

/// The command on a line of a VM program, or the message that says why
/// there is none.
pub fn parse_line(line: String) -> (r: Result<Line, &'static str>)
    ensures
        r matches Ok(l) ==> line_command(line@) == Ok::<Command, Seq<char>>(l.command) && l.line@
            == line@,
        r matches Err(m) ==> line_command(line@) == Err::<Command, Seq<char>>(m@),
{
    let without_comment: String = remove_comment(line.clone());
    let chars: Vec<char> = to_chars(without_comment.as_str());
    let trimmed: Vec<char> = trim_chars(&chars);
    let command_string: CommandString = CommandString::build(&trimmed)?;
    let command: Command = parse_command(command_string)?;
    Ok(Line { command, line })
}

/// A run of word characters.
pub open spec fn is_word_run(w: Seq<char>) -> bool {
    w.len() > 0 && all_word(w)
}

/// A run of white space.
pub open spec fn is_space_run(w: Seq<char>) -> bool {
    w.len() > 0 && all_white_space(w)
}

/// A run of decimal digits (`\d`).
pub open spec fn is_digit_run(w: Seq<char>) -> bool {
    w.len() > 0 && all_decimal_digits(w)
}

/// The line `t` is made of the command `name` and the arguments, each argument
/// after a run of white space `s1`, `s2`.
pub open spec fn command_shape(
    t: Seq<char>,
    name: Seq<char>,
    arg1: Option<Seq<char>>,
    arg2: Option<Seq<char>>,
    s1: Seq<char>,
    s2: Seq<char>,
) -> bool {
    &&& is_word_run(name)
    &&& match (arg1, arg2) {
        (None, None) => t == name,
        (Some(a1), None) => is_space_run(s1) && is_word_run(a1) && t == name + s1 + a1,
        (Some(a1), Some(a2)) => is_space_run(s1) && is_word_run(a1) && is_space_run(s2)
            && is_digit_run(a2) && t == name + s1 + a1 + s2 + a2,
        (None, Some(_)) => false,
    }
}

proof fn lemma_word_not_space(c: char)
    ensures
        is_word(c) ==> !is_white_space(c),
        is_decimal_digit(c) ==> is_word(c),
{
}

proof fn lemma_words_found(
    t: Seq<char>,
    name: Seq<char>,
    arg1: Option<Seq<char>>,
    arg2: Option<Seq<char>>,
)
    requires
        command_words(t) == Some((name, arg1, arg2)),
    ensures
        exists|s1: Seq<char>, s2: Seq<char>| command_shape(t, name, arg1, arg2, s1, s2),
{
    let k1 = word_prefix(t) as int;
    let r1 = t.skip(k1);
    let sp1 = white_space_prefix(r1) as int;
    let r2 = r1.skip(sp1);
    let k2 = word_prefix(r2) as int;
    let r3 = r2.skip(k2);
    let sp2 = white_space_prefix(r3) as int;
    let r4 = r3.skip(sp2);
    lemma_word_prefix_split(t);
    lemma_white_space_prefix_split(r1);
    lemma_word_prefix_split(r2);
    lemma_white_space_prefix_split(r3);
    let s1 = r1.take(sp1);
    let s2 = r3.take(sp2);
    assert(t == t.take(k1) + r1);
    assert(r1 == s1 + r2);
    assert(r2 == r2.take(k2) + r3);
    assert(r3 == s2 + r4);
    if r1.len() == 0 {
        assert(t == name);
    } else if r3.len() == 0 {
        assert(t == name + s1 + arg1.unwrap());
    } else {
        assert(t == name + s1 + arg1.unwrap() + s2 + arg2.unwrap());
    }
    assert(command_shape(t, name, arg1, arg2, s1, s2));
}

proof fn lemma_words_of_shape(
    t: Seq<char>,
    name: Seq<char>,
    arg1: Option<Seq<char>>,
    arg2: Option<Seq<char>>,
    s1: Seq<char>,
    s2: Seq<char>,
)
    requires
        command_shape(t, name, arg1, arg2, s1, s2),
    ensures
        command_words(t) == Some((name, arg1, arg2)),
{
    lemma_word_not_space(name[0]);
    match (arg1, arg2) {
        (None, None) => {
            lemma_word_prefix_of(name, Seq::<char>::empty());
            assert(name + Seq::<char>::empty() == t);
            assert(t.take(name.len() as int) == name);
        },
        (Some(a1), None) => {
            lemma_word_not_space(s1[0]);
            lemma_word_not_space(a1[0]);
            let r1 = s1 + a1;
            assert(t == name + r1);
            lemma_word_prefix_of(name, r1);
            assert(t.skip(name.len() as int) == r1);
            assert(t.take(name.len() as int) == name);
            lemma_white_space_prefix_of(s1, a1);
            assert(r1.skip(s1.len() as int) == a1);
            lemma_word_prefix_of(a1, Seq::<char>::empty());
            assert(a1 + Seq::<char>::empty() == a1);
            assert(a1.take(a1.len() as int) == a1);
            assert(a1.skip(a1.len() as int) == Seq::<char>::empty());
        },
        (Some(a1), Some(a2)) => {
            lemma_word_not_space(s1[0]);
            lemma_word_not_space(a1[0]);
            lemma_word_not_space(s2[0]);
            lemma_word_not_space(a2[0]);
            let r3 = s2 + a2;
            let r2 = a1 + r3;
            let r1 = s1 + r2;
            assert(t == name + r1);
            lemma_word_prefix_of(name, r1);
            assert(t.skip(name.len() as int) == r1);
            assert(t.take(name.len() as int) == name);
            lemma_white_space_prefix_of(s1, r2);
            assert(r1.skip(s1.len() as int) == r2);
            lemma_word_prefix_of(a1, r3);
            assert(r2.take(a1.len() as int) == a1);
            assert(r2.skip(a1.len() as int) == r3);
            assert(is_decimal_digit(a2[0]));
            lemma_white_space_prefix_of(s2, a2);
            assert(r3.skip(s2.len() as int) == a2);
        },
        (None, Some(_)) => {},
    }
}

/// `command_words` is the pattern `^(\w+)(?:\s+(\w+)(?:\s+(\d+))?)?$`: it gives a
/// command and its arguments exactly when the line is the command word, then
/// optionally white space and a word, then optionally white space and digits.
pub proof fn lemma_command_words_shape(
    t: Seq<char>,
    name: Seq<char>,
    arg1: Option<Seq<char>>,
    arg2: Option<Seq<char>>,
)
    ensures
        command_words(t) == Some((name, arg1, arg2)) <==> exists|s1: Seq<char>, s2: Seq<char>|
            command_shape(t, name, arg1, arg2, s1, s2),
{
    if command_words(t) == Some((name, arg1, arg2)) {
        lemma_words_found(t, name, arg1, arg2);
    }
    if exists|s1: Seq<char>, s2: Seq<char>| command_shape(t, name, arg1, arg2, s1, s2) {
        let (s1, s2) = choose|s1: Seq<char>, s2: Seq<char>|
            command_shape(t, name, arg1, arg2, s1, s2);
        lemma_words_of_shape(t, name, arg1, arg2, s1, s2);
    }
}

} // verus!
