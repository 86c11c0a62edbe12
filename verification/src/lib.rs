use vstd::prelude::*;

pub mod big_text;
pub mod blocks;
pub mod box_table;
pub mod config;
pub mod document;
pub mod events;
pub mod fontpicker;
pub mod frier;
pub mod highlight;
pub mod inline;
pub mod jobs;
pub mod keys;
pub mod line_blocks;
pub mod link;
pub mod lines;
pub mod link_tracker;
pub mod mapper;
pub mod markdown;
pub mod model;
pub mod modifier;
pub mod osc8;
pub mod pipeline;
pub mod search;
pub mod section_groups;
pub mod span;
pub mod table;
pub mod style;
pub mod syntax;
pub mod terminal_font;
pub mod text;
pub mod viewer;
pub mod width;
pub mod wrap;

verus! {

} // verus!
