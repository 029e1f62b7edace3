//! The clipboard capability, modelled as a value the frame driver owns and
//! threads through event dispatch. The driver syncs it with the OS clipboard
//! outside the core.
use vstd::prelude::*;

verus! {

/// Clipboard contents: either nothing, or a sequence of characters.
pub struct Clipboard {
    content: Option<Vec<char>>,
}

impl Clipboard {
    /// What the clipboard holds, if anything.
    pub closed spec fn view(self) -> Option<Seq<char>> {
        match self.content {
            Some(t) => Some(t@),
            None => None,
        }
    }

    /// An empty clipboard.
    pub fn new() -> (c: Clipboard)
        ensures
            c.view() is None,
    {
        Clipboard { content: None }
    }

    /// A clipboard already holding `text`.
    pub fn with_text(text: Vec<char>) -> (c: Clipboard)
        ensures
            c.view() == Some(text@),
    {
        Clipboard { content: Some(text) }
    }

    /// Whether any text is available.
    pub fn has_text(&self) -> (r: bool)
        ensures
            r == (self.view() is Some),
    {
        self.content.is_some()
    }

    /// The current text, if any.
    pub fn get_text(&self) -> (r: Option<&Vec<char>>)
        ensures
            match r {
                Some(t) => self.view() == Some(t@),
                None => self.view() is None,
            },
    {
        self.content.as_ref()
    }

    /// Replace the clipboard contents with `text`.
    pub fn set_text(&mut self, text: Vec<char>)
        ensures
            final(self).view() == Some(text@),
    {
        self.content = Some(text);
    }
}

} // verus!
