//! Package addresses.
use vstd::prelude::*;
use vstd::utf8::encode_utf8;

use crate::text::{bytes_before, bytes_come_before};

verus! {

/// What `url::Url::parse` makes of a text: the serialization of the URL that it
/// denotes, or nothing where it denotes no absolute URL.
pub uninterp spec fn url_serialization(text: Seq<char>) -> Option<Seq<char>>;

/// Calls `url::Url::parse` and takes the serialization of the URL, as `String`
/// has it from the URL. Claimed of the call: its outcome depends on the text
/// alone. Not claimed: which texts are accepted and what a URL's serialization is.
#[verifier::external_body]
fn parse_url(text: &str) -> (serialization: Option<String>)
    ensures
        match serialization {
            Some(s) => url_serialization(text@) == Some(s@),
            None => url_serialization(text@) is None,
        },
{
    match url::Url::parse(text) {
        Ok(parsed) => Some(String::from(parsed)),
        Err(_) => None,
    }
}

/// A URL, held as its serialization. Two URLs are equal exactly if their
/// serializations are, and they are ordered as their serializations.
#[derive(Debug)]
pub struct Url {
    pub serialization: String,
}

impl View for Url {
    type V = Seq<char>;

    open spec fn view(&self) -> Seq<char> {
        self.serialization@
    }
}

/// The order of URLs: that of the bytes of their serializations.
pub open spec fn url_before(a: Seq<char>, b: Seq<char>) -> bool {
    bytes_before(encode_utf8(a), encode_utf8(b))
}

impl Url {
    /// Reads an absolute URL.
    pub fn parse(text: &str) -> (url: Option<Url>)
        ensures
            match url {
                Some(u) => url_serialization(text@) == Some(u@),
                None => url_serialization(text@) is None,
            },
    {
        match parse_url(text) {
            Some(serialization) => Some(Url { serialization }),
            None => None,
        }
    }

    /// A URL of its own with the same serialization.
    pub fn copy(&self) -> (url: Url)
        ensures
            url@ == self@,
    {
        Url { serialization: self.serialization.clone() }
    }

    /// Tells whether two URLs are the same.
    pub fn same(&self, other: &Url) -> (same: bool)
        ensures
            same == (self@ == other@),
    {
        self.serialization == other.serialization
    }

    /// Tells whether this URL comes before `other`.
    pub fn comes_before(&self, other: &Url) -> (before: bool)
        ensures
            before == url_before(self@, other@),
    {
        bytes_come_before(self.serialization.as_str().as_bytes(), other.serialization.as_str().as_bytes())
    }
}

} // verus!
