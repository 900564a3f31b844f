//! Rebuilds a paginated, laid-out document from recognized markdown: text
//! with optional bounding boxes, headers, list markers and small HTML
//! tables, between sentinel lines that mark images and page breaks.
//!
//! - [`blocks`] parses the markdown into positioned text blocks.
//! - [`classify`], [`clean`] and [`table`] tell what a block is: list,
//!   header, table or plain text, and take the control tags out.
//! - [`text`] holds the greedy word wrap that every renderer shares.
//! - [`coords`] lays blocks out by their bounding boxes, in the order that
//!   [`order`] gives; [`plain`] and [`flow`] lay a text out in one column.
//! - [`bordered`] and [`ruled`] draw tables; [`document`] holds the pages.
//! - [`service`] and [`api`] prepare what is asked of the recognition
//!   service.
//! - [`pagination`], [`fidelity`], [`idempotence`] and [`blank_space`] hold
//!   what is proved of the whole:
//!   not of one function, but of how several behave together.
//!
//! Lengths are whole micrometres and font sizes whole thousandths of a
//! point ([`geometry`]); texts are modelled as sequences of characters
//! ([`chars`]). Every function states what it returns over these models,
//! and is proved to return that.

use vstd::prelude::*;

pub mod api;
pub mod blank_space;
pub mod blocks;
pub mod bordered;
pub mod chars;
pub mod classify;
pub mod clean;
pub mod coords;
pub mod document;
pub mod fidelity;
pub mod flow;
pub mod geometry;
pub mod idempotence;
pub mod order;
pub mod pagination;
pub mod plain;
pub mod ruled;
pub mod service;
pub mod table;
pub mod text;

verus! {

/// The two ways to lay a text out.
#[derive(Debug, Clone, Copy, PartialEq, Eq)]
pub enum LayoutMode {
    /// By the bounding boxes of the blocks.
    Coordinates,
    /// In one column, in the order of the source.
    Plain,
}

impl LayoutMode {
    /// The mode that a yes or no to coordinates asks for.
    pub fn from_flag(use_coordinates: bool) -> (mode: LayoutMode)
        ensures
            mode == if use_coordinates {
                LayoutMode::Coordinates
            } else {
                LayoutMode::Plain
            },
    {
        if use_coordinates {
            LayoutMode::Coordinates
        } else {
            LayoutMode::Plain
        }
    }
}

/// The pages of a recognized text in the layout asked for.
pub open spec fn layout(markdown: Seq<char>, mode: LayoutMode) -> document::Pages {
    match mode {
        LayoutMode::Coordinates => coords::coordinate_layout(markdown),
        LayoutMode::Plain => plain::plain_pages(markdown),
    }
}

/// Lays a recognized text out in the mode asked for.
pub fn convert_markdown(markdown: &str, mode: LayoutMode) -> (doc: document::Document)
    ensures
        doc.wf(),
        doc@ == layout(markdown@, mode),
{
    match mode {
        LayoutMode::Coordinates => coords::convert_with_coordinates(markdown),
        LayoutMode::Plain => plain::convert_plain_text(markdown),
    }
}

} // verus!
