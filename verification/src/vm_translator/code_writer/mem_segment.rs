use crate::text::{at, decimal, push_at, push_at_number, push_decimal, push_lit, push_str, strings_view};
use crate::vm_translator::code_writer::{ARG, LCL, SP, TEMP_START_ADDR, THAT, THIS};
use crate::vm_translator::parser::MemorySegment;
use vstd::prelude::*;
use vstd::string::*;

verus! {

/// Whether a segment lies where a base pointer (`LCL`, `ARG`, `THIS`, `THAT`) points.
pub open spec fn is_based(segment: MemorySegment) -> bool {
    segment == MemorySegment::Local || segment == MemorySegment::Argument || segment
        == MemorySegment::This || segment == MemorySegment::That
}

/// The symbol of the base pointer of a segment.
pub open spec fn base_of(segment: MemorySegment) -> Seq<char> {
    match segment {
        MemorySegment::Local => LCL@,
        MemorySegment::Argument => ARG@,
        MemorySegment::This => THIS@,
        _ => THAT@,
    }
}

/// The variable of a static entry: `file.index`.
pub open spec fn static_name(filename: Seq<char>, index: u16) -> Seq<char> {
    filename + "."@ + decimal(index as nat)
}

/// The symbol that entry 0 or 1 of the pointer segment stands for.
pub open spec fn pointer_name(index: u16) -> Seq<char> {
    if index == 0 {
        THIS@
    } else {
        THAT@
    }
}

/// The address of a temp entry.
pub open spec fn temp_addr(index: u16) -> nat {
    (TEMP_START_ADDR + index) as nat
}

/// Whether an entry of a segment can be read or written: the pointer segment
/// has entries 0 and 1, and a temp address must fit in 16 bits.
pub open spec fn segment_entry_exists(segment: MemorySegment, index: u16) -> bool {
    &&& segment == MemorySegment::Pointer ==> index <= 1
    &&& segment == MemorySegment::Temp ==> TEMP_START_ADDR + index <= u16::MAX
}

/// Pushes D onto the stack.
pub open spec fn push_d_view() -> Seq<Seq<char>> {
    seq![at(SP@), "A=M"@, "M=D"@, at(SP@), "M=M+1"@]
}

/// Pops the top of the stack into D.
pub open spec fn pop_d_view() -> Seq<Seq<char>> {
    seq![at(SP@), "M=M-1"@, "A=M"@, "D=M"@]
}

/// Computes the address of entry `index` of a segment that a base pointer
/// gives: `offset` adds the index to the base, `plain` takes the base itself.
pub open spec fn based_addr_view(base: Seq<char>, index: u16, offset: Seq<char>, plain: Seq<char>) -> Seq<
    Seq<char>,
> {
    if index > 0 {
        seq![at(decimal(index as nat)), "D=A"@, at(base), offset]
    } else {
        seq![at(base), plain]
    }
}

/// The assembly code of `push segment index`.
pub open spec fn push_view(segment: MemorySegment, index: u16, filename: Seq<char>) -> Seq<
    Seq<char>,
> {
    if is_based(segment) {
        based_addr_view(base_of(segment), index, "A=D+M"@, "A=M"@) + seq!["D=M"@] + push_d_view()
    } else {
        match segment {
            MemorySegment::Constant => seq![at(decimal(index as nat)), "D=A"@] + push_d_view(),
            MemorySegment::Static => seq![at(static_name(filename, index)), "D=M"@]
                + push_d_view(),
            MemorySegment::Pointer => seq![at(pointer_name(index)), "D=M"@] + push_d_view(),
            _ => seq![at(decimal(temp_addr(index))), "D=M"@] + push_d_view(),
        }
    }
}

/// The assembly code of `pop segment index`.
pub open spec fn pop_view(segment: MemorySegment, index: u16, filename: Seq<char>) -> Seq<
    Seq<char>,
> {
    if is_based(segment) {
        based_addr_view(base_of(segment), index, "D=D+M"@, "D=M"@) + seq![
            at(decimal(temp_addr(0))),
            "M=D"@,
        ] + pop_d_view() + seq![at(decimal(temp_addr(0))), "A=M"@, "M=D"@]
    } else {
        match segment {
            MemorySegment::Static => pop_d_view() + seq![at(static_name(filename, index)), "M=D"@],
            MemorySegment::Pointer => pop_d_view() + seq![at(pointer_name(index)), "M=D"@],
            _ => pop_d_view() + seq![at(decimal(temp_addr(index))), "M=D"@],
        }
    }
}

/// The code generator of the memory commands of a file.
pub struct MemSegmentCodeGenerator {
    filename: String,
}

fn push_d(r: &mut Vec<String>)
    ensures
        strings_view(final(r)@) == strings_view(old(r)@) + push_d_view(),
{
    push_at(r, SP);
    push_lit(r, "A=M");
    push_lit(r, "M=D");
    push_at(r, SP);
    push_lit(r, "M=M+1");
}

fn pop_d(r: &mut Vec<String>)
    ensures
        strings_view(final(r)@) == strings_view(old(r)@) + pop_d_view(),
{
    push_at(r, SP);
    push_lit(r, "M=M-1");
    push_lit(r, "A=M");
    push_lit(r, "D=M");
}

fn based_addr(r: &mut Vec<String>, base: &str, index: u16, offset: &str, plain: &str)
    ensures
        strings_view(final(r)@) == strings_view(old(r)@) + based_addr_view(
            base@,
            index,
            offset@,
            plain@,
        ),
{
    if index > 0 {
        push_at_number(r, index);
        push_lit(r, "D=A");
        push_at(r, base);
        push_lit(r, offset);
    } else {
        push_at(r, base);
        push_lit(r, plain);
    }
}

fn base_name(segment: MemorySegment) -> (r: &'static str)
    requires
        is_based(segment),
    ensures
        r@ == base_of(segment),
{
    match segment {
        MemorySegment::Local => LCL,
        MemorySegment::Argument => ARG,
        MemorySegment::This => THIS,
        _ => THAT,
    }
}

impl MemSegmentCodeGenerator {
    /// The name of the file whose static variables are named.
    pub closed spec fn filename(&self) -> Seq<char> {
        self.filename@
    }

    /// The code generator for the file `filename`.
    pub fn build(filename: String) -> (r: Self)
        ensures
            r.filename() == filename@,
    {
        Self { filename }
    }

    /// The assembly code of `push segment index`.
    pub fn generate_push_commands(&mut self, segment: MemorySegment, index: u16) -> (r: Vec<String>)
        requires
            segment_entry_exists(segment, index),
        ensures
            strings_view(r@) == push_view(segment, index, old(self).filename()),
            final(self).filename() == old(self).filename(),
    {
        let mut commands: Vec<String> = Vec::new();
        match segment {
            MemorySegment::Local | MemorySegment::Argument | MemorySegment::This
            | MemorySegment::That => {
                based_addr(&mut commands, base_name(segment), index, "A=D+M", "A=M");
                push_lit(&mut commands, "D=M");
            },
            MemorySegment::Constant => {
                push_at_number(&mut commands, index);
                push_lit(&mut commands, "D=A");
            },
            MemorySegment::Static => {
                let static_name: String = self.get_static_name(index);
                push_at(&mut commands, static_name.as_str());
                push_lit(&mut commands, "D=M");
            },
            MemorySegment::Pointer => {
                let pointer_addr: &str = self.get_pointer_addr_name(index);
                push_at(&mut commands, pointer_addr);
                push_lit(&mut commands, "D=M");
            },
            MemorySegment::Temp => {
                let addr: u16 = self.get_tmp_addr(index);
                push_at_number(&mut commands, addr);
                push_lit(&mut commands, "D=M");
            },
        }
        push_d(&mut commands);
        commands
    }

    /// The assembly code of `pop segment index`; the constant segment cannot
    /// be popped.
    pub fn generate_pop_commands(&mut self, segment: MemorySegment, index: u16) -> (r: Vec<String>)
        requires
            segment != MemorySegment::Constant,
            segment_entry_exists(segment, index),
        ensures
            strings_view(r@) == pop_view(segment, index, old(self).filename()),
            final(self).filename() == old(self).filename(),
    {
        let mut commands: Vec<String> = Vec::new();
        match segment {
            MemorySegment::Local | MemorySegment::Argument | MemorySegment::This
            | MemorySegment::That => {
                based_addr(&mut commands, base_name(segment), index, "D=D+M", "D=M");
                push_at_number(&mut commands, self.get_tmp_addr(0));
                push_lit(&mut commands, "M=D");
                pop_d(&mut commands);
                push_at_number(&mut commands, self.get_tmp_addr(0));
                push_lit(&mut commands, "A=M");
                push_lit(&mut commands, "M=D");
            },
            MemorySegment::Static => {
                let static_name: String = self.get_static_name(index);
                pop_d(&mut commands);
                push_at(&mut commands, static_name.as_str());
                push_lit(&mut commands, "M=D");
            },
            MemorySegment::Pointer => {
                let pointer_addr: &str = self.get_pointer_addr_name(index);
                pop_d(&mut commands);
                push_at(&mut commands, pointer_addr);
                push_lit(&mut commands, "M=D");
            },
            _ => {
                let addr: u16 = self.get_tmp_addr(index);
                pop_d(&mut commands);
                push_at_number(&mut commands, addr);
                push_lit(&mut commands, "M=D");
            },
        }
        commands
    }

    /// The variable of static entry `index`.
    fn get_static_name(&self, index: u16) -> (r: String)
        ensures
            r@ == static_name(self.filename(), index),
    {
        let mut name: String = self.filename.clone();
        push_str(&mut name, ".");
        push_decimal(&mut name, index);
        name
    }

    /// The symbol of pointer entry 0 or 1.
    fn get_pointer_addr_name(&self, index: u16) -> (r: &'static str)
        requires
            index <= 1,
        ensures
            r@ == pointer_name(index),
    {
        match index {
            0 => THIS,
            _ => THAT,
        }
    }

    /// The address of temp entry `index`.
    fn get_tmp_addr(&self, index: u16) -> (r: u16)
        requires
            TEMP_START_ADDR + index <= u16::MAX,
        ensures
            r == temp_addr(index),
    {
        TEMP_START_ADDR + index
    }
}

} // verus!
