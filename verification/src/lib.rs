//! A UI toolkit's verified core: the greetd client's JSON reader and
//! writer, its conversation, the motion clock's arithmetic and the
//! status bar's labels.

pub mod bar;
pub mod glyphs;
pub mod greetd;
pub mod motion;
pub mod text;
