use hack_toolchain::hack_assembler::assembler::assemble;
use hack_toolchain::vm_translator::translator::translate;

/// A Hack CPU that runs machine code from `pc` 0 until it leaves the program.
struct Cpu {
    a: u16,
    d: u16,
    pc: usize,
    ram: Vec<u16>,
}

fn bit(word: &[u8], i: usize) -> bool {
    word[15 - i] == b'1'
}

impl Cpu {
    fn new() -> Cpu {
        Cpu { a: 0, d: 0, pc: 0, ram: vec![0; 0x10000] }
    }

    fn step(&mut self, instruction: &str) {
        let w = instruction.as_bytes();
        assert_eq!(w.len(), 16);
        if !bit(w, 15) {
            self.a = u16::from_str_radix(instruction, 2).unwrap();
            self.pc += 1;
            return;
        }
        let mut x = self.d;
        let mut y = if bit(w, 12) { self.ram[self.a as usize] } else { self.a };
        if bit(w, 11) {
            x = 0;
        }
        if bit(w, 10) {
            x = !x;
        }
        if bit(w, 9) {
            y = 0;
        }
        if bit(w, 8) {
            y = !y;
        }
        let mut out = if bit(w, 7) { x.wrapping_add(y) } else { x & y };
        if bit(w, 6) {
            out = !out;
        }
        let old_a = self.a;
        if bit(w, 3) {
            self.ram[old_a as usize] = out;
        }
        if bit(w, 4) {
            self.d = out;
        }
        if bit(w, 5) {
            self.a = out;
        }
        let negative = (out as i16) < 0;
        let zero = out == 0;
        let jump = (bit(w, 2) && negative) || (bit(w, 1) && zero) || (bit(w, 0) && !zero && !negative);
        if jump {
            self.pc = old_a as usize;
        } else {
            self.pc += 1;
        }
    }

    fn run(&mut self, program: &[String]) {
        let mut steps = 0;
        while self.pc < program.len() {
            self.step(&program[self.pc]);
            steps += 1;
            assert!(steps < 100_000);
        }
    }
}

fn machine_code(vm: &[&str]) -> Vec<String> {
    let source: Vec<String> = vm.iter().map(|s| s.to_string()).collect();
    let assembly = translate(&source, "F".to_string(), false).unwrap();
    assemble(&assembly).unwrap()
}

fn run_vm(vm: &[&str], setup: &[(usize, u16)]) -> Cpu {
    let program = machine_code(vm);
    let mut cpu = Cpu::new();
    cpu.ram[0] = 256;
    for &(addr, value) in setup {
        cpu.ram[addr] = value;
    }
    cpu.run(&program);
    cpu
}

#[test]
fn machine_adds_two_constants() {
    let cpu = run_vm(&["push constant 7", "push constant 8", "add"], &[]);
    assert_eq!(cpu.ram[0], 257);
    assert_eq!(cpu.ram[256], 15);
}

#[test]
fn machine_arithmetic_and_logic() {
    let cpu = run_vm(
        &[
            "push constant 3",
            "push constant 5",
            "sub",
            "push constant 12",
            "push constant 10",
            "and",
            "push constant 12",
            "push constant 3",
            "or",
            "push constant 9",
            "neg",
            "push constant 0",
            "not",
        ],
        &[],
    );
    assert_eq!(cpu.ram[0], 261);
    assert_eq!(cpu.ram[256], 0xfffe);
    assert_eq!(cpu.ram[257], 8);
    assert_eq!(cpu.ram[258], 15);
    assert_eq!(cpu.ram[259], 0xfff7);
    assert_eq!(cpu.ram[260], 0xffff);
}

#[test]
fn machine_comparisons_push_true_or_false() {
    let cpu = run_vm(
        &[
            "push constant 3",
            "push constant 3",
            "eq",
            "push constant 3",
            "push constant 4",
            "eq",
            "push constant 5",
            "push constant 2",
            "gt",
            "push constant 2",
            "push constant 5",
            "gt",
            "push constant 2",
            "push constant 5",
            "lt",
            "push constant 5",
            "push constant 5",
            "lt",
        ],
        &[],
    );
    assert_eq!(cpu.ram[0], 262);
    assert_eq!(&cpu.ram[256..262], &[0xffff, 0, 0xffff, 0, 0xffff, 0]);
}

#[test]
fn machine_pop_and_push_segments() {
    let cpu = run_vm(
        &[
            "push constant 10",
            "pop local 2",
            "push constant 21",
            "pop argument 1",
            "push constant 36",
            "pop this 6",
            "push constant 42",
            "pop that 5",
            "push constant 510",
            "pop temp 6",
            "push local 2",
            "push that 5",
            "add",
            "push argument 1",
            "sub",
            "push this 6",
            "push this 6",
            "add",
            "sub",
            "push temp 6",
            "add",
            "push local 0",
        ],
        &[(1, 300), (2, 400), (3, 3000), (4, 3010)],
    );
    assert_eq!(cpu.ram[302], 10);
    assert_eq!(cpu.ram[401], 21);
    assert_eq!(cpu.ram[3006], 36);
    assert_eq!(cpu.ram[3015], 42);
    assert_eq!(cpu.ram[11], 510);
    assert_eq!(cpu.ram[0], 258);
    assert_eq!(cpu.ram[256], 469);
    assert_eq!(cpu.ram[257], 0);
}

#[test]
fn machine_pointer_and_static_segments() {
    let cpu = run_vm(
        &[
            "push constant 3030",
            "pop pointer 0",
            "push constant 3040",
            "pop pointer 1",
            "push constant 32",
            "pop this 2",
            "push constant 46",
            "pop that 6",
            "push pointer 0",
            "push pointer 1",
            "add",
            "push constant 111",
            "pop static 8",
            "push static 8",
        ],
        &[],
    );
    assert_eq!(cpu.ram[3], 3030);
    assert_eq!(cpu.ram[4], 3040);
    assert_eq!(cpu.ram[3032], 32);
    assert_eq!(cpu.ram[3046], 46);
    assert_eq!(cpu.ram[16], 111);
    assert_eq!(cpu.ram[0], 258);
    assert_eq!(cpu.ram[256], 6070);
    assert_eq!(cpu.ram[257], 111);
}
