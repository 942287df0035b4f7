//! A verified interpreter for the eight-command tape language.
//!
//! A program is text. Eight characters are commands: `>` and `<` move a
//! pointer along a tape of cells, `+` and `-` change the cell under the
//! pointer, `.` writes that cell, `,` reads into it, and `[` and `]` enclose a
//! loop that runs while the cell is not zero. All other characters are
//! commentary.
//!
//! [`translate::interpret`] turns text into a tree of [`operator::Operator`]s
//! and refuses text whose loop markers do not pair up. A
//! [`machine::Machine`] runs such a tree one transition at a time and tells
//! its caller when a byte is to be written or read, so the caller decides
//! where bytes come from and go to. [`execute::execute`] and
//! [`execute::run`] run a program against an input and an output held in
//! memory.
//!
//! The choices that the language leaves open are made as follows.
//!
//! * A cell is one byte. Adding one to 255 gives 0 and subtracting one from 0
//!   gives 255.
//! * The tape has a fixed length, chosen when a machine is made, and a new
//!   tape holds zeros. [`machine::Machine::new`] puts the pointer on the
//!   first cell.
//! * Moving the pointer off either end of the tape is a failure,
//!   [`error::Error::TapeBoundsExceeded`]; the pointer never wraps around.
//! * Output and input are raw bytes, one for each instruction, in program
//!   order.
//! * An input instruction that finds no byte left fails with
//!   [`error::Error::InputExhausted`] when the input is held in memory. A
//!   caller that steps a machine decides itself what to do when its source
//!   runs dry.
//! * A program need not end. Runs in memory are therefore bounded by a number
//!   of transitions and can be taken up again; a caller that steps a machine
//!   may go on for ever.
//!
//! What running means is laid down in [`semantics`], over the mathematical
//! model of a program, and every function here is proved to do exactly that.

pub mod error;
pub mod execute;
pub mod machine;
pub mod operator;
pub mod semantics;
pub mod syntax;
pub mod theorems;
pub mod translate;
