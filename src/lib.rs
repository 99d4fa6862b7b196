pub mod ast;
pub mod binary_op;
pub mod buffer;
pub mod conditionals;
pub mod error;
pub mod factor;
pub mod functions;
pub mod laws;
pub mod operand_stack;
pub mod register_file;
pub mod registers;
pub mod text;
