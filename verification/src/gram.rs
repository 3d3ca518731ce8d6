//! The executable gram value: a zero-copy reference into an input token,
//! or an owned joined string.

use vstd::prelude::*;
use vstd::string::StringExecFns;
use crate::model::GramModel;

verus! {

/// One generated gram.
///
/// A unigram is handed out as `Borrowed`: a reference into the token it
/// came from, valid for the input's lifetime, with no new allocation. A
/// gram of two or more tokens is `Owned`: a freshly built string with no
/// tie to the input. Callers that must outlive the input convert with
/// [`Gram::to_text`].
pub enum Gram<'a> {
    Borrowed(&'a str),
    Owned(String),
}

impl<'a> View for Gram<'a> {
    type V = GramModel;

    open spec fn view(&self) -> GramModel {
        match self {
            Gram::Borrowed(s) => GramModel { borrowed: true, text: s@ },
            Gram::Owned(s) => GramModel { borrowed: false, text: s@ },
        }
    }
}

/// The views of a sequence of grams.
pub open spec fn grams_view<'a>(grams: Seq<Gram<'a>>) -> Seq<GramModel> {
    grams.map_values(|g: Gram<'a>| g@)
}

impl<'a> Gram<'a> {
    /// The gram's text.
    pub fn as_str(&self) -> (text: &str)
        ensures
            text@ == self@.text,
    {
        match self {
            Gram::Borrowed(s) => s,
            Gram::Owned(s) => s.as_str(),
        }
    }

    /// Whether the gram borrows its text from an input token rather than
    /// owning a fresh allocation.
    pub fn is_borrowed(&self) -> (borrowed: bool)
        ensures
            borrowed == self@.borrowed,
    {
        match self {
            Gram::Borrowed(_) => true,
            Gram::Owned(_) => false,
        }
    }

    /// The gram's text as an independent owned string, with no tie to the
    /// input token sequence.
    pub fn to_text(&self) -> (text: String)
        ensures
            text@ == self@.text,
    {
        match self {
            Gram::Borrowed(s) => (*s).to_owned(),
            Gram::Owned(s) => s.clone(),
        }
    }
}

} // verus!
