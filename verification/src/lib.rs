//! The navigation, text and formatting logic of a browser slide deck about
//! WebAssembly, verified with Verus.

pub mod decimal;
pub mod input;
pub mod navigation;
pub mod text;
pub mod widgets;

pub use decimal::{format_u32, parse_usize};
pub use input::{key_event, slider_event};
pub use navigation::{Deck, NavEvent};
pub use text::text_lines;
pub use widgets::{code_class, fresh_terminal_id, terminal_id};
