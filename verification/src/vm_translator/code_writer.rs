use crate::text::{
    decimal, is_digit, lemma_decimal_injective, lemma_decimal_roundtrip, push_decimal, push_line,
    push_lines, push_str, strings_view,
};
use crate::vm_translator::code_writer::arithmetic::{arithmetic_view, code_generator, is_comparison};
use crate::vm_translator::code_writer::mem_segment::{
    pop_view, push_view, segment_entry_exists, MemSegmentCodeGenerator,
};
use crate::vm_translator::parser::{Arithmetic, MemorySegment};
use vstd::array::*;
use vstd::prelude::*;
use vstd::string::*;

pub mod arithmetic;
pub mod mem_segment;

verus! {

/// The stack pointer.
pub const SP: &'static str = "SP";

/// The base of the local segment.
pub const LCL: &'static str = "LCL";

/// The base of the argument segment.
pub const ARG: &'static str = "ARG";

/// The base of the this segment.
pub const THIS: &'static str = "THIS";

/// The base of the that segment.
pub const THAT: &'static str = "THAT";

/// The first address of the temp segment.
pub const TEMP_START_ADDR: u16 = 5;

/// A label made unique by the file name and a number: `file_label_id`.
pub open spec fn id_label(filename: Seq<char>, label: Seq<char>, id: u16) -> Seq<char> {
    filename + "_"@ + label + "_"@ + decimal(id as nat)
}

/// The labels of two comparisons with different numbers differ, and the end
/// label of a comparison differs from the true label of any comparison.
pub proof fn lemma_id_labels_distinct(filename: Seq<char>, i: u16, j: u16)
    ensures
        i != j ==> id_label(filename, "LOGICAL_ORD"@, i) != id_label(filename, "LOGICAL_ORD"@, j),
        i != j ==> id_label(filename, "LOGICAL_ORD_END"@, i) != id_label(
            filename,
            "LOGICAL_ORD_END"@,
            j,
        ),
        id_label(filename, "LOGICAL_ORD"@, i) != id_label(filename, "LOGICAL_ORD_END"@, j),
{
    lemma_decimal_injective(i as nat, j as nat);
    let p1 = filename + "_"@ + "LOGICAL_ORD"@ + "_"@;
    let p2 = filename + "_"@ + "LOGICAL_ORD_END"@ + "_"@;
    assert((p1 + decimal(i as nat)).skip(p1.len() as int) == decimal(i as nat));
    assert((p1 + decimal(j as nat)).skip(p1.len() as int) == decimal(j as nat));
    assert((p2 + decimal(i as nat)).skip(p2.len() as int) == decimal(i as nat));
    assert((p2 + decimal(j as nat)).skip(p2.len() as int) == decimal(j as nat));
    reveal_strlit("_");
    reveal_strlit("LOGICAL_ORD");
    reveal_strlit("LOGICAL_ORD_END");
    lemma_decimal_roundtrip(i as nat);
    let k: int = filename.len() as int + 13;
    let a = p1 + decimal(i as nat);
    let b = p2 + decimal(j as nat);
    assert(a[k] == decimal(i as nat)[0]);
    assert(is_digit(decimal(i as nat)[0]));
    assert(b[k] == 'E');
}

/// The source of the numbers that keep the labels of a file apart.
pub struct IncreasedIdLabel {
    filename: String,
    label_id: u16,
}

impl IncreasedIdLabel {
    /// The name of the file whose labels are made.
    pub closed spec fn filename(&self) -> Seq<char> {
        self.filename@
    }

    /// The number of the next labels.
    pub closed spec fn next_id(&self) -> u16 {
        self.label_id
    }

    /// A source of labels for a file, starting at number 0.
    pub fn build(filename: String) -> (r: Self)
        ensures
            r.filename() == filename@,
            r.next_id() == 0,
    {
        Self { filename, label_id: 0 }
    }

    /// The given labels made unique with the next number, which is then used up.
    pub fn generate_increased_id_labels<const N: usize>(&mut self, labels: [String; N]) -> (r: [String; N])
        requires
            old(self).next_id() < u16::MAX,
        ensures
            final(self).filename() == old(self).filename(),
            final(self).next_id() == old(self).next_id() + 1,
            r@.len() == N,
            forall|i: int|
                0 <= i < N ==> (#[trigger] r@[i])@ == id_label(
                    old(self).filename(),
                    labels@[i]@,
                    old(self).next_id(),
                ),
    {
        let label_id: u16 = self.label_id;
        self.label_id = self.label_id + 1;
        let mut labels = labels;
        let ghost given: Seq<String> = labels@;
        let mut i: usize = 0;
        while i < N
            invariant
                i <= N,
                labels@.len() == N,
                given.len() == N,
                label_id == old(self).next_id(),
                self.filename@ == old(self).filename(),
                forall|j: int|
                    0 <= j < i ==> (#[trigger] labels@[j])@ == id_label(
                        old(self).filename(),
                        given[j]@,
                        label_id,
                    ),
                forall|j: int| i <= j < N ==> (#[trigger] labels@[j]) == given[j],
            decreases N - i,
        {
            let mut label: String = self.filename.clone();
            push_str(&mut label, "_");
            push_str(&mut label, labels[i].as_str());
            push_str(&mut label, "_");
            push_decimal(&mut label, label_id);
            labels[i] = label;
            i = i + 1;
        }
        labels
    }
}

/// Writes the assembly code of the commands of a VM file, line by line; the
/// lines wait in the writer until they are taken.
pub struct CodeWriter {
    lines: Vec<String>,
    increased_id_label: IncreasedIdLabel,
    mem_segment_code_generator: MemSegmentCodeGenerator,
}

impl CodeWriter {
    /// Both generators work for the same file.
    pub closed spec fn wf(&self) -> bool {
        self.increased_id_label.filename() == self.mem_segment_code_generator.filename()
    }

    /// The name of the file that is translated.
    pub closed spec fn filename(&self) -> Seq<char> {
        self.increased_id_label.filename()
    }

    /// The number of the next comparison labels.
    pub closed spec fn next_label_id(&self) -> u16 {
        self.increased_id_label.next_id()
    }

    /// The lines written and not yet taken.
    pub closed spec fn written(&self) -> Seq<Seq<char>> {
        strings_view(self.lines@)
    }

    /// The number of the next comparison labels.
    pub fn next_label_id_value(&self) -> (r: u16)
        ensures
            r == self.next_label_id(),
    {
        self.increased_id_label.label_id
    }

    /// A writer for the file `filename_without_ext`, with nothing written.
    pub fn new(filename_without_ext: String) -> (r: Self)
        ensures
            r.wf(),
            r.filename() == filename_without_ext@,
            r.next_label_id() == 0,
            r.written() == Seq::<Seq<char>>::empty(),
    {
        let increased_id_label: IncreasedIdLabel = IncreasedIdLabel::build(
            filename_without_ext.clone(),
        );
        let mem_segment_code_generator: MemSegmentCodeGenerator = MemSegmentCodeGenerator::build(
            filename_without_ext,
        );
        let lines: Vec<String> = Vec::new();
        assert(strings_view(lines@) == Seq::<Seq<char>>::empty());
        Self { lines, increased_id_label, mem_segment_code_generator }
    }

    /// Writes the code of an arithmetic or logical command.
    pub fn write_arithmetic(&mut self, arithmetic: Arithmetic)
        requires
            old(self).wf(),
            is_comparison(arithmetic) ==> old(self).next_label_id() < u16::MAX,
        ensures
            final(self).wf(),
            final(self).written() == old(self).written() + arithmetic_view(
                arithmetic,
                old(self).filename(),
                old(self).next_label_id(),
            ),
            final(self).filename() == old(self).filename(),
            final(self).next_label_id() == if is_comparison(arithmetic) {
                (old(self).next_label_id() + 1) as u16
            } else {
                old(self).next_label_id()
            },
    {
        let commands: Vec<String> = code_generator(arithmetic, &mut self.increased_id_label);
        push_lines(&mut self.lines, commands);
    }

    /// Writes the code of `push segment index`.
    pub fn write_push(&mut self, segment: MemorySegment, index: u16)
        requires
            old(self).wf(),
            segment_entry_exists(segment, index),
        ensures
            final(self).wf(),
            final(self).written() == old(self).written() + push_view(
                segment,
                index,
                old(self).filename(),
            ),
            final(self).filename() == old(self).filename(),
            final(self).next_label_id() == old(self).next_label_id(),
    {
        let commands: Vec<String> = self.mem_segment_code_generator.generate_push_commands(
            segment,
            index,
        );
        push_lines(&mut self.lines, commands);
    }

    /// Writes the code of `pop segment index`.
    pub fn write_pop(&mut self, segment: MemorySegment, index: u16)
        requires
            old(self).wf(),
            segment != MemorySegment::Constant,
            segment_entry_exists(segment, index),
        ensures
            final(self).wf(),
            final(self).written() == old(self).written() + pop_view(
                segment,
                index,
                old(self).filename(),
            ),
            final(self).filename() == old(self).filename(),
            final(self).next_label_id() == old(self).next_label_id(),
    {
        let commands: Vec<String> = self.mem_segment_code_generator.generate_pop_commands(
            segment,
            index,
        );
        push_lines(&mut self.lines, commands);
    }

    /// Writes a comment line `// comment`.
    pub fn write_comment(&mut self, comment: &str)
        requires
            old(self).wf(),
        ensures
            final(self).wf(),
            final(self).written() == old(self).written().push("// "@ + comment@),
            final(self).filename() == old(self).filename(),
            final(self).next_label_id() == old(self).next_label_id(),
    {
        let mut line: String = String::from_str("// ");
        push_str(&mut line, comment);
        self.write_line(line);
    }

    fn write_line(&mut self, line: String)
        requires
            old(self).wf(),
        ensures
            final(self).wf(),
            final(self).written() == old(self).written().push(line@),
            final(self).filename() == old(self).filename(),
            final(self).next_label_id() == old(self).next_label_id(),
    {
        push_line(&mut self.lines, line);
    }

    /// Takes the lines written so far, in order.
    pub fn take_lines(&mut self) -> (r: Vec<String>)
        requires
            old(self).wf(),
        ensures
            final(self).wf(),
            strings_view(r@) == old(self).written(),
            final(self).written() == Seq::<Seq<char>>::empty(),
            final(self).filename() == old(self).filename(),
            final(self).next_label_id() == old(self).next_label_id(),
    {
        let mut taken: Vec<String> = Vec::new();
        std::mem::swap(&mut taken, &mut self.lines);
        assert(strings_view(self.lines@) == Seq::<Seq<char>>::empty());
        taken
    }
}

} // verus!
