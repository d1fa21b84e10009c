//! A verified library for the display transformations of the
//! classic `cat` utility: a byte-to-display encoder (`^X` / `M-` notation)
//! and the ordered line-transformation stages (squeeze-blank, show-tabs,
//! line numbering, show-ends), each with a contract that pins down its
//! output exactly.

pub mod encode;
pub mod laws;
pub mod lines;
pub mod numfmt;
pub mod pipeline;
pub mod text;

pub use encode::process_byte;
pub use pipeline::number_content_process;
pub use pipeline::render;
pub use pipeline::render_checked;
pub use pipeline::PipelineConfig;
pub use pipeline::show_ends_content_process;
pub use pipeline::show_nonprinting_content_process;
pub use pipeline::show_tabs_content_process;
pub use pipeline::squeeze_blank_content_process;
