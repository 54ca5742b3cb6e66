//! The constructs of the grammar.

pub mod character_escape;
pub mod character_reference;
pub mod code_fenced;
pub mod code_indented;
pub mod code_text;
pub mod definition;
pub mod flow;
pub mod heading_atx;
pub mod html_flow;
pub mod html_text;
pub mod label_end;
pub mod paragraph;
pub mod partial_destination;
pub mod partial_label;
pub mod partial_non_lazy_continuation;
pub mod partial_space_or_tab;
pub mod partial_title;
pub mod string;
pub mod text;
