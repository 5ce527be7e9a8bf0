//! ICE candidates exchanged while a link is negotiated.

use vstd::prelude::*;
use vstd::string::*;
use crate::text::{decimal, push_decimal, str_debug, debug_quoted};

verus! {

/// An ICE candidate: the media stream it belongs to, its index and its SDP
/// line.
#[derive(Debug, PartialEq, Eq)]
pub struct ICE {
    pub media: String,
    pub index: i64,
    pub name: String,
}

/// The mathematical value of an ICE candidate.
pub struct IceView {
    pub media: Seq<char>,
    pub index: i64,
    pub name: Seq<char>,
}

impl View for ICE {
    type V = IceView;

    open spec fn view(&self) -> IceView {
        IceView { media: self.media@, index: self.index, name: self.name@ }
    }
}

impl DeepView for ICE {
    type V = IceView;

    open spec fn deep_view(&self) -> IceView {
        self@
    }
}

impl Clone for ICE {
    fn clone(&self) -> (copy: ICE)
        ensures
            copy@ == self@,
    {
        ICE { media: self.media.clone(), index: self.index, name: self.name.clone() }
    }
}

/// How the derived `Debug` writes a candidate:
/// `ICE { media: "..", index: .., name: ".." }`.
pub open spec fn ice_debug(ice: IceView) -> Seq<char> {
    "ICE { media: "@ + str_debug(ice.media) + ", index: "@ + decimal(ice.index as int) + ", name: "@
        + str_debug(ice.name) + " }"@
}

impl ICE {
    pub fn new(media: String, index: i64, name: String) -> (ice: Self)
        ensures
            ice.media == media,
            ice.index == index,
            ice.name == name,
    {
        Self { media, index, name }
    }

    /// The candidate as the derived `Debug` writes it.
    pub fn debug_text(&self) -> (text: String)
        ensures
            text@ == ice_debug(self@),
    {
        let mut text = String::new();
        text.append("ICE { media: ");
        let media = debug_quoted(self.media.as_str());
        text.append(media.as_str());
        text.append(", index: ");
        push_decimal(&mut text, self.index);
        text.append(", name: ");
        let name = debug_quoted(self.name.as_str());
        text.append(name.as_str());
        text.append(" }");
        text
    }
}

} // verus!
