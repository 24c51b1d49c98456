use crate::text::strings_view;
use crate::vm_translator::code_writer::arithmetic::{arithmetic_view, is_comparison};
use crate::vm_translator::code_writer::mem_segment::{
    pop_view, push_view, segment_entry_exists,
};
use crate::vm_translator::code_writer::CodeWriter;
use crate::vm_translator::parser::{
    holds_command, is_not_white_space, line_command, parse_line, Arithmetic, Command, Line,
    MemorySegment,
};
use vstd::prelude::*;

verus! {

/// Why an entry of a segment cannot be reached.
pub open spec fn entry_error(segment: MemorySegment) -> Seq<char> {
    if segment == MemorySegment::Pointer {
        "index of pointer segment must be 0 or 1"@
    } else {
        "attempt to add with overflow"@
    }
}

/// The code of a command, with the number of the next comparison labels after
/// it; or why it cannot be translated.
pub open spec fn command_code(command: Command, filename: Seq<char>, id: u16) -> Result<
    (u16, Seq<Seq<char>>),
    Seq<char>,
> {
    match command {
        Command::Arithmetic(a) => if is_comparison(a) {
            if id == u16::MAX {
                Err("attempt to add with overflow"@)
            } else {
                Ok(((id + 1) as u16, arithmetic_view(a, filename, id)))
            }
        } else {
            Ok((id, arithmetic_view(a, filename, id)))
        },
        Command::Push { segment, index } => if segment_entry_exists(segment, index) {
            Ok((id, push_view(segment, index, filename)))
        } else {
            Err(entry_error(segment))
        },
        Command::Pop { segment, index } => if segment == MemorySegment::Constant {
            Err("constant segment can not be a pop command"@)
        } else if segment_entry_exists(segment, index) {
            Ok((id, pop_view(segment, index, filename)))
        } else {
            Err(entry_error(segment))
        },
    }
}

/// One line of a VM program: nothing for a blank or comment line; else its
/// command (after the line as a comment, where asked for).
pub open spec fn line_step(
    line: Seq<char>,
    filename: Seq<char>,
    with_comment: bool,
    id: u16,
    out: Seq<Seq<char>>,
) -> Result<(u16, Seq<Seq<char>>), Seq<char>> {
    if !holds_command(line) {
        Ok((id, out))
    } else {
        match line_command(line) {
            Err(m) => Err(m),
            Ok(command) => {
                let commented = if with_comment {
                    out.push("// "@ + line)
                } else {
                    out
                };
                match command_code(command, filename, id) {
                    Err(m) => Err(m),
                    Ok((next, code)) => Ok((next, commented + code)),
                }
            },
        }
    }
}

/// The lines of a VM program, one after the other, from label number 0.
pub open spec fn translate_lines(source: Seq<Seq<char>>, filename: Seq<char>, with_comment: bool) -> Result<
    (u16, Seq<Seq<char>>),
    Seq<char>,
>
    decreases source.len(),
{
    if source.len() == 0 {
        Ok((0, seq![]))
    } else {
        match translate_lines(source.drop_last(), filename, with_comment) {
            Err(m) => Err(m),
            Ok((id, out)) => line_step(source.last(), filename, with_comment, id, out),
        }
    }
}

/// The assembly code of a VM program, or why it cannot be translated.
pub open spec fn translate_view(source: Seq<Seq<char>>, filename: Seq<char>, with_comment: bool) -> Result<
    Seq<Seq<char>>,
    Seq<char>,
> {
    match translate_lines(source, filename, with_comment) {
        Ok((_, out)) => Ok(out),
        Err(m) => Err(m),
    }
}

proof fn lemma_translate_err(source: Seq<Seq<char>>, k: int, filename: Seq<char>, with_comment: bool)
    requires
        0 <= k <= source.len(),
        translate_lines(source.take(k), filename, with_comment) is Err,
    ensures
        translate_lines(source, filename, with_comment) == translate_lines(
            source.take(k),
            filename,
            with_comment,
        ),
    decreases source.len(),
{
    if k == source.len() {
        assert(source.take(k) == source);
    } else {
        assert(source.drop_last().take(k) == source.take(k));
        lemma_translate_err(source.drop_last(), k, filename, with_comment);
    }
}

/// Writes the code of one command.
fn write_command(writer: &mut CodeWriter, command: Command) -> (r: Result<(), &'static str>)
    requires
        old(writer).wf(),
    ensures
        final(writer).wf(),
        final(writer).filename() == old(writer).filename(),
        match command_code(command, old(writer).filename(), old(writer).next_label_id()) {
            Ok((next, code)) => r is Ok && final(writer).written() == old(writer).written() + code
                && final(writer).next_label_id() == next,
            Err(m) => r matches Err(e) && e@ == m && final(writer).written() == old(
                writer,
            ).written(),
        },
{
    match command {
        Command::Arithmetic(arithmetic) => {
            if (arithmetic == Arithmetic::Eq || arithmetic == Arithmetic::Gt || arithmetic
                == Arithmetic::Lt) && writer.next_label_id_value() == u16::MAX {
                return Err("attempt to add with overflow");
            }
            writer.write_arithmetic(arithmetic);
        },
        Command::Push { segment, index } => {
            if let Err(e) = check_entry(segment, index) {
                return Err(e);
            }
            writer.write_push(segment, index);
        },
        Command::Pop { segment, index } => {
            if segment == MemorySegment::Constant {
                return Err("constant segment can not be a pop command");
            }
            if let Err(e) = check_entry(segment, index) {
                return Err(e);
            }
            writer.write_pop(segment, index);
        },
    }
    Ok(())
}

/// Why an entry of a segment cannot be reached, if it cannot.
fn check_entry(segment: MemorySegment, index: u16) -> (r: Result<(), &'static str>)
    ensures
        r is Ok <==> segment_entry_exists(segment, index),
        r matches Err(e) ==> e@ == entry_error(segment),
{
    if segment == MemorySegment::Pointer && index > 1 {
        return Err("index of pointer segment must be 0 or 1");
    }
    if segment == MemorySegment::Temp && index > u16::MAX - 5 {
        return Err("attempt to add with overflow");
    }
    Ok(())
}

/// What one line leaves written when it fails: its line as a comment, where
/// asked for, when the line holds a command that the code writer then refuses.
pub open spec fn written_on_error(
    line: Seq<char>,
    with_comment: bool,
    out: Seq<Seq<char>>,
) -> Seq<Seq<char>> {
    if holds_command(line) && line_command(line) is Ok && with_comment {
        out.push("// "@ + line)
    } else {
        out
    }
}

/// Writes the code of one line of a VM program: nothing for a blank or comment
/// line; else its line as a comment, where asked for, and the code of its command.
pub fn translate_line(writer: &mut CodeWriter, line: &String, with_comment: bool) -> (r: Result<
    (),
    &'static str,
>)
    requires
        old(writer).wf(),
    ensures
        final(writer).wf(),
        final(writer).filename() == old(writer).filename(),
        match line_step(
            line@,
            old(writer).filename(),
            with_comment,
            old(writer).next_label_id(),
            old(writer).written(),
        ) {
            Ok((next, out)) => r is Ok && final(writer).written() == out
                && final(writer).next_label_id() == next,
            Err(m) => r matches Err(e) && e@ == m && final(writer).written() == written_on_error(
                line@,
                with_comment,
                old(writer).written(),
            ),
        },
{
    if !is_not_white_space(line) {
        return Ok(());
    }
    let parsed: Line = parse_line(line.clone())?;
    if with_comment {
        writer.write_comment(parsed.line.as_str());
    }
    write_command(writer, parsed.command)
}

/// Translates the lines of a VM program into assembly code; `filename` names
/// the labels and static variables, and with `with_comment` each command is
/// preceded by its line as a comment.
pub fn translate(source: &Vec<String>, filename: String, with_comment: bool) -> (r: Result<
    Vec<String>,
    &'static str,
>)
    ensures
        match r {
            Ok(code) => translate_view(strings_view(source@), filename@, with_comment) == Ok::<
                Seq<Seq<char>>,
                Seq<char>,
            >(strings_view(code@)),
            Err(m) => translate_view(strings_view(source@), filename@, with_comment) == Err::<
                Seq<Seq<char>>,
                Seq<char>,
            >(m@),
        },
{
    let ghost src: Seq<Seq<char>> = strings_view(source@);
    let ghost f: Seq<char> = filename@;
    let mut writer: CodeWriter = CodeWriter::new(filename);
    let mut i: usize = 0;
    assert(src.take(0) == Seq::<Seq<char>>::empty());
    while i < source.len()
        invariant
            i <= source.len(),
            src == strings_view(source@),
            writer.wf(),
            writer.filename() == f,
            f == filename@,
            translate_lines(src.take(i as int), f, with_comment) == Ok::<
                (u16, Seq<Seq<char>>),
                Seq<char>,
            >((writer.next_label_id(), writer.written())),
        decreases source.len() - i,
    {
        assert(src.take(i + 1).drop_last() == src.take(i as int));
        assert(src.take(i + 1).last() == source@[i as int]@);
        if let Err(m) = translate_line(&mut writer, &source[i], with_comment) {
            proof {
                lemma_translate_err(src, i + 1, f, with_comment);
            }
            return Err(m);
        }
        i = i + 1;
    }
    assert(src.take(src.len() as int) == src);
    Ok(writer.take_lines())
}

} // verus!
