//! The slot-content classifier: decides whether a stored word is a pointer
//! to another region or an immediate value. The embedding virtual machine
//! is meant to supply the real rule; the rule here is its stand-in and
//! classifies every word as a pointer, which is what the collector's mark
//! phase consumes.

use vstd::prelude::*;

verus! {

pub struct SlotContent {
    content: u64,
}

impl SlotContent {
    /// The classified word.
    pub closed spec fn content_word(&self) -> u64 {
        self.content
    }

    pub fn new(slot_content: u64) -> (r: Self)
        ensures
            r.content_word() == slot_content,
    {
        Self { content: slot_content }
    }

    pub fn get_content(&self) -> (r: u64)
        ensures
            r == self.content_word(),
    {
        self.content
    }

    /// Whether the word is an immediate value: never, under the stand-in
    /// rule.
    pub fn is_slot_immediate(&self) -> (r: bool)
        ensures
            r == false,
    {
        false
    }

    /// Whether the word is a pointer to a region: always, under the
    /// stand-in rule.
    pub fn is_slot_oop(&self) -> (r: bool)
        ensures
            r == true,
    {
        true
    }
}

} // verus!
