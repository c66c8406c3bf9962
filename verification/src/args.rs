//! Command line options for the interpreter: whether to enter interactive
//! mode, whether to enable the debug sink, whether to skip the bundled
//! standard library, and an optional input file. The host parses the real
//! command line and hands the plain values over.

use vstd::prelude::*;

verus! {

/// The interpreter's command line options, as plain values.
pub struct Args {
    interactive: bool,
    debug: bool,
    no_std_lib: bool,
    input: Option<String>,
}

/// Mathematical model of [`Args`].
#[verifier::ext_equal]
pub struct ArgsV {
    pub interactive: bool,
    pub debug: bool,
    pub no_std_lib: bool,
    pub input: Option<Seq<char>>,
}

impl View for Args {
    type V = ArgsV;

    closed spec fn view(&self) -> ArgsV {
        ArgsV {
            interactive: self.interactive,
            debug: self.debug,
            no_std_lib: self.no_std_lib,
            input: match self.input {
                Some(p) => Some(p@),
                None => None,
            },
        }
    }
}

impl Args {
    /// Assemble the options from plain values.
    pub fn new(interactive: bool, debug: bool, no_std_lib: bool, input: Option<String>) -> (r:
        Args)
        ensures
            r@.interactive == interactive,
            r@.debug == debug,
            r@.no_std_lib == no_std_lib,
            match (r@.input, input) {
                (Some(a), Some(b)) => a == b@,
                (None, None) => true,
                _ => false,
            },
    {
        Args { interactive, debug, no_std_lib, input }
    }

    /// Is the interpreter launched in interactive mode.
    pub fn interactive(&self) -> (r: bool)
        ensures
            r == self@.interactive,
    {
        self.interactive
    }

    /// Is the interpreter launched in debug mode.
    pub fn debug(&self) -> (r: bool)
        ensures
            r == self@.debug,
    {
        self.debug
    }

    /// Should the interpreter refrain from including the standard library.
    pub fn no_std_lib(&self) -> (r: bool)
        ensures
            r == self@.no_std_lib,
    {
        self.no_std_lib
    }

    /// File input given to the interpreter.
    pub fn input(&self) -> (r: Option<&String>)
        ensures
            match (r, self@.input) {
                (Some(p), Some(pv)) => p@ == pv,
                (None, None) => true,
                _ => false,
            },
    {
        self.input.as_ref()
    }
}

} // verus!
