//! A command-chain interpreter for a small image-manipulation pipeline.
//!
//! A flat token stream is split on the `"/"` delimiter into sub-commands,
//! each sub-command is validated and turned into a typed [`ChainCommands`]
//! value, and a planner decides for every step of the chain whether it reads
//! the declared input file, the output written by an earlier step, or nothing
//! at all.  The pixel pattern of the generated colour square is computed here
//! as well.  Decoding, encoding and the pixel-level filters of existing
//! images are the business of an image library and of the binary around this
//! crate; nothing here touches the filesystem.

mod commands;
mod numbers;
mod parser;
mod pipeline;
mod square;

pub use commands::ChainCommands;
pub use commands::Cli;
pub use commands::OpKind;
pub use commands::ParseError;
pub use commands::Rotation;
pub use numbers::parse_i32;
pub use numbers::parse_u32;
pub use numbers::parse_u8;
pub use parser::split_command_vector;
pub use pipeline::plan_chain;
pub use pipeline::plan_step;
pub use pipeline::resolve_source;
pub use pipeline::InputSource;
pub use pipeline::StepAction;
pub use square::render_square;
pub use square::square_pixel;
pub use square::SQUARE_SIZE;
