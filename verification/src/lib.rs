//! Core of a parameterized HTTP request tool: workspaces hold named request
//! templates and variable environments; a template is compiled against an
//! environment into literal request text, parsed into a structured request,
//! executed over the network by the surrounding application, and the
//! structured response is serialized back into the same line-oriented text
//! form for display and logging.

pub mod digits;
pub mod environment;
pub mod http;
pub mod runner;
pub mod template;
pub mod text;
pub mod workspace;
