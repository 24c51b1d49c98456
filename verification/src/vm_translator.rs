use crate::text::{chars_eq, to_chars};
use vstd::prelude::*;

pub mod code_writer;
pub mod parser;
pub mod translator;

verus! {

/// What the translator is asked to do.
#[derive(Debug)]
pub struct Config {
    pub vm_path: String,
    pub output_with_comment: bool,
}

impl Config {
    /// The configuration from the command line arguments: the program name, the
    /// path of the VM file, and `1` to write each VM line as a comment.
    pub fn build(args: &[String]) -> (r: Result<Self, &'static str>)
        ensures
            r is Err <==> args@.len() < 2,
            r matches Err(m) ==> m@ == "Error: vm file path (arg 1) should be specificed!"@,
            r matches Ok(c) ==> {
                &&& c.vm_path@ == args@[1]@
                &&& c.output_with_comment == (args@.len() >= 3 && args@[2]@ == "1"@)
            },
    {
        if args.len() < 2 {
            return Err("Error: vm file path (arg 1) should be specificed!");
        }
        let vm_path: String = args[1].clone();
        let output_with_comment: bool = if args.len() >= 3 {
            let flag: Vec<char> = to_chars(args[2].as_str());
            chars_eq(&flag, "1")
        } else {
            false
        };
        Ok(Self { vm_path, output_with_comment })
    }
}

} // verus!
