//! The one error type of the library: a translation key with substitution
//! arguments, the same shape as the errors a server sends.
use vstd::prelude::*;

verus! {

/// An error with a translation key (or plain text) and its arguments.
#[derive(Debug, Clone)]
pub struct PacketError {
    translate: String,
    with: Vec<String>,
}

impl PacketError {
    /// Creates an error from a key and its arguments.
    pub fn new(translate: String, with: Vec<String>) -> (r: PacketError)
        ensures
            r.translate_view() == translate@,
            r.with_view() == with@.map_values(|a: String| a@),
    {
        PacketError { translate, with }
    }

    /// Creates an error with a text and no arguments.
    pub fn text(text: String) -> (r: PacketError)
        ensures
            r.translate_view() == text@,
            r.with_view() == Seq::<Seq<char>>::empty(),
    {
        let r = PacketError { translate: text, with: Vec::new() };
        assert(r.with_view() =~= Seq::<Seq<char>>::empty());
        r
    }

    /// The key or text of the error.
    pub fn get_text(&self) -> (r: String)
        ensures
            r@ == self.translate_view(),
    {
        self.translate.clone()
    }

    /// The substitution arguments.
    pub fn get_with(&self) -> (r: Vec<String>)
        ensures
            r@.map_values(|a: String| a@) == self.with_view(),
    {
        let r = self.with.clone();
        assert(r@.map_values(|a: String| a@) =~= self.with_view());
        r
    }

    pub closed spec fn translate_view(&self) -> Seq<char> {
        self.translate@
    }

    pub closed spec fn with_view(&self) -> Seq<Seq<char>> {
        self.with@.map_values(|a: String| a@)
    }
}

} // verus!
