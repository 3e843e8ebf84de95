//! Lints for git commit messages.
pub mod checks;
pub mod cmd;
pub mod commit;
pub mod model;
pub mod text;

pub use cmd::lint;
pub use commit::CommitMessage;
pub use model::code::Code;
pub use model::lint::{Lint, LintError, CONFIG_KEY_PREFIX};
pub use model::lints::{Lints, LintsError};
pub use model::problem::Problem;
