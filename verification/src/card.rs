//! One tarot card's record: the textual and image metadata read from one JSON
//! file of the data directory.

use vstd::prelude::*;

verus! {

/// One card's metadata. Every field is optional in the file; an absent field
/// stays `None`.
pub struct CardRecord {
    pub title: Option<String>,
    pub short_description: Option<String>,
    pub source_url: Option<String>,
    pub upright_path: Option<String>,
    pub reversed_path: Option<String>,
}

/// The mathematical content of a card record.
pub ghost struct CardView {
    pub title: Option<Seq<char>>,
    pub short_description: Option<Seq<char>>,
    pub source_url: Option<Seq<char>>,
    pub upright_path: Option<Seq<char>>,
    pub reversed_path: Option<Seq<char>>,
}

/// The view of an optional owned string.
pub open spec fn opt_str_view(o: Option<String>) -> Option<Seq<char>> {
    match o {
        Some(s) => Some(s@),
        None => None,
    }
}

impl View for CardRecord {
    type V = CardView;

    open spec fn view(&self) -> CardView {
        CardView {
            title: opt_str_view(self.title),
            short_description: opt_str_view(self.short_description),
            source_url: opt_str_view(self.source_url),
            upright_path: opt_str_view(self.upright_path),
            reversed_path: opt_str_view(self.reversed_path),
        }
    }
}

/// The card record that a JSON text decodes to, or `None` where the text is
/// not JSON. A field that is absent, or not a string, reads as `None`.
pub uninterp spec fn parsed_card(s: Seq<char>) -> Option<CardView>;

/// Relies on `serde_json::from_str` and `serde_json::Value`'s `get` and
/// `as_str` accessors: which record a JSON text decodes to depends on the
/// text alone, and text that is not JSON decodes to nothing.
#[verifier::external_body]
pub(crate) fn parse_card_json(content: &str) -> (r: Option<CardRecord>)
    ensures
        match r {
            Some(c) => parsed_card(content@) == Some(c@),
            None => parsed_card(content@) is None,
        },
{
    let v: serde_json::Value = match serde_json::from_str(content) {
        Ok(v) => v,
        Err(_) => return None,
    };
    Some(CardRecord {
        title: v.get("title").and_then(|x| x.as_str()).map(|s| s.to_string()),
        short_description: v.get("short_description").and_then(|x| x.as_str()).map(|s| s.to_string()),
        source_url: v.get("source_url").and_then(|x| x.as_str()).map(|s| s.to_string()),
        upright_path: v.get("upright_path").and_then(|x| x.as_str()).map(|s| s.to_string()),
        reversed_path: v.get("reversed_path").and_then(|x| x.as_str()).map(|s| s.to_string()),
    })
}

} // verus!
