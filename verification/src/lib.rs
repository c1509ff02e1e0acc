//! Lexes CSS modules and reports their dependencies: urls, imports, local
//! names, compositions and ICSS imports and exports, with warnings for what
//! does not make sense.
pub mod chars;
pub mod text;
pub mod lexer;
pub mod dependencies;
pub mod lists;
pub mod scan;
pub mod lex_dependencies;
pub mod postcss_modules;

pub use dependencies::Dependency;
pub use dependencies::HandleDependency;
pub use dependencies::HandleWarning;
pub use dependencies::Mode;
pub use dependencies::ModeData;
pub use dependencies::Range;
pub use dependencies::UrlRangeKind;
pub use dependencies::Warning;
pub use dependencies::WarningKind;
pub use lex_dependencies::collect_dependencies;
pub use lex_dependencies::lex_dependencies;
pub use lex_dependencies::LexDependencies;
pub use lexer::Lexer;
pub use lexer::Pos;
pub use postcss_modules::LocalByDefault;
