//! The errors that scanning, parsing, interpretation, compilation, decoding
//! and execution report.

use vstd::prelude::*;

verus! {

/// Why the compiler rejected a program.
#[derive(Debug, Clone, Copy, PartialEq, Eq, Structural)]
pub enum TranslateFault {
    /// A variable is read or assigned that no enclosing scope declares.
    UnknownVariable,
    /// A function is called that has not been defined yet.
    UnknownFunction,
    /// A binary operator stands at a precedence level it does not belong
    /// to, or it is `%`, for which there is no instruction.
    OperatorMismatch,
    /// A function is defined inside a function body.
    NestedFunction,
    /// `break` or `continue`, for which there are no instructions.
    UnsupportedJump,
    /// An instruction address does not fit the machine word.
    TooLarge,
}

/// Why the tree-walking interpreter stopped with an error, beyond what the
/// other errors say.
#[derive(Debug, Clone, Copy, PartialEq, Eq, Structural)]
pub enum Trouble {
    /// The divisor of `/` or `%` is zero.
    DivisionByZero,
    /// `getint` is called and the input is used up.
    OutOfInput,
    /// Calls and loops are nested deeper, or a loop runs longer, than the limit allows.
    OutOfFuel,
    /// A name that `val` declared is assigned to.
    Constant,
    /// A function is defined inside a function body.
    NestedFunction,
}

/// Why the virtual machine stopped with an error.
#[derive(Debug, Clone, Copy, PartialEq, Eq, Structural)]
pub enum Fault {
    /// The divisor of `BinOpDiv` is zero.
    DivisionByZero,
    /// A jump or call leads past the end of the instruction list.
    JumpOutOfRange,
    /// An instruction pops more operands than the operand stack holds.
    StackUnderflow,
    /// `Ret` or `LoadPC` with an empty call stack.
    ReturnWithoutCall,
    /// The input offered to `GetInt` is not a decimal 32-bit integer.
    MalformedInput,
    /// A variable reference names a frame or a slot that does not exist, or
    /// a slot beyond which no frame can grow.
    BadReference,
    /// The instruction has no meaning: `MakeClosure`, or an operator that is
    /// not binary where a binary one is asked for.
    IllegalInstruction,
}

/// The error type of input and output in the standard library,
/// `std::io::Error`. It is carried through as it is: nothing is stated of
/// what it holds.
#[verifier::external_type_specification]
#[verifier::external_body]
pub struct ExIoError(std::io::Error);

/// Everything that can go wrong in this library.
#[derive(Debug)]
pub enum Error {
    /// A name is defined twice in one scope.
    DuplicatedDef,
    /// A name is not defined.
    SymbolNotFound,
    /// A function call failed; the payload names the function.
    CallError(String),
    /// An expression yielded no value where one is needed.
    MissingExpression,
    /// The command line is not understood.
    UnExpectArgs,
    /// Reading or writing a file failed.
    IoError(std::io::Error),
    /// No token starts at the character with this index of the source text,
    /// or the number that starts there does not fit 32 bits.
    LexerError(usize),
    /// The token with this index does not fit the grammar.
    ParserError(usize),
    /// The interpreter stopped.
    InterpreterError(Trouble),
    /// The compiler rejected the program.
    TranslateError(TranslateFault),
    /// The word at this index of a serialised program is no known tag, or its
    /// operand words are missing.
    DecodeError(usize),
    /// The text of a serialised program holds, from this index on, something
    /// that is no decimal number fitting the machine word.
    TextError(usize),
    /// The virtual machine failed at the instruction with this address.
    VMError(Fault, usize),
}

impl From<std::io::Error> for Error {
    fn from(err: std::io::Error) -> (e: Error) {
        Error::IoError(err)
    }
}

impl vstd::std_specs::convert::FromSpecImpl<std::io::Error> for Error {
    open spec fn obeys_from_spec() -> bool {
        true
    }

    open spec fn from_spec(err: std::io::Error) -> Error {
        Error::IoError(err)
    }
}

} // verus!
