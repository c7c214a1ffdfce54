//! A small stack machine: an instruction set, an assembler for its textual
//! source form, a fixed-width bit-string encoding of programs, and an
//! interpreter over a bounded operand stack. A generic linked list and a
//! string view built on it come along as utilities.
pub mod instruction;
pub mod codec;
pub mod assembler;
pub mod vm;
pub mod list;
pub mod string_view;
