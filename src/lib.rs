pub mod args;
pub mod laws;
pub mod schema;
pub mod step;
pub mod text;
pub mod typed;

pub use step::{CliDataBuilder, CliStep};
pub use typed::{ArgSettings, ArgType, CliArg, CliArgsParser};
