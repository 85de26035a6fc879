//! Plain data containers for messages and a small markup tree.
//!
//! These are ordinary value types with no construction protocol of
//! their own; they exist so that consumers of the matrix core have a
//! ready-made shape for message payloads and nested markup. No
//! algebraic behaviour is attached to them.
use std::collections::HashMap;

use vstd::prelude::*;

verus! {

/// A message payload: plain text, a markup tree, or a sticker
/// reference.
pub enum Message {
    Plain(String),
    Html(Html),
    Sticker { catagory: String, code: u16 },
}

/// A markup node: a tag, its attributes, and its child nodes.
pub struct Html {
    pub tag: String,
    pub attrs: HashMap<String, String>,
    pub children: Vec<Html>,
}

/// A builder seed for a markup node, holding the tag it will carry.
pub struct HtmlBuilder {
    tag: String,
}

impl HtmlBuilder {
    /// The tag the finished node will carry.
    pub closed spec fn tag_of(&self) -> String {
        self.tag
    }

    /// Starts a builder for a node with the given tag.
    pub fn new(tag: String) -> (b: HtmlBuilder)
        ensures
            b.tag_of() == tag,
    {
        HtmlBuilder { tag }
    }

    /// Finishes the node: no attributes, no children.
    pub fn build(self) -> (h: Html)
        ensures
            h.tag == self.tag_of(),
            h.children@.len() == 0,
    {
        Html { tag: self.tag, attrs: HashMap::new(), children: Vec::new() }
    }
}

} // verus!
