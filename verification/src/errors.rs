//! Errors reported when the textual options of a watermark do not parse.
use vstd::prelude::*;
use vstd::string::*;

verus! {

/// The given text names none of the nine watermark positions. Holds the
/// text as it was given.
#[derive(Debug)]
pub struct ParseWatermarkPositionError(pub String);

/// The given text is no colour in `RRGGBB` or `RRGGBBAA` form. Holds the
/// text without a leading `#`.
#[derive(Debug)]
pub struct ParseColorError(pub String);

impl ParseWatermarkPositionError {
    /// What `to_string` puts before the rejected text.
    pub open spec fn prefix() -> Seq<char> {
        "Invalid watermark position: '"@
    }

    /// What `to_string` puts after the rejected text.
    pub open spec fn suffix() -> Seq<char> {
        "'. Valid options are: nw, north, ne, west, center, east, sw, south, se"@
    }

    /// The message shown to the user: the rejected text between a fixed
    /// opening and the list of valid names.
    pub fn to_string(&self) -> (msg: String)
        ensures
            msg@ == Self::prefix() + self.0@ + Self::suffix(),
    {
        let mut msg = String::from_str("Invalid watermark position: '");
        msg.append(self.0.as_str());
        msg.append("'. Valid options are: nw, north, ne, west, center, east, sw, south, se");
        msg
    }
}

impl ParseColorError {
    /// What `to_string` puts before the rejected text.
    pub open spec fn prefix() -> Seq<char> {
        "Invalid hex color code: '"@
    }

    /// What `to_string` puts after the rejected text.
    pub open spec fn suffix() -> Seq<char> {
        "'. Must be in RRGGBB or RRGGBBAA format."@
    }

    /// The message shown to the user: the rejected text between a fixed
    /// opening and a reminder of the two accepted forms.
    pub fn to_string(&self) -> (msg: String)
        ensures
            msg@ == Self::prefix() + self.0@ + Self::suffix(),
    {
        let mut msg = String::from_str("Invalid hex color code: '");
        msg.append(self.0.as_str());
        msg.append("'. Must be in RRGGBB or RRGGBBAA format.");
        msg
    }
}

} // verus!
