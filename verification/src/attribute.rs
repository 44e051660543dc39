//! Channel directives.
//!
//! A directive token on a channel controls whether and how the channel takes
//! part in graph generation.  Unknown tokens are dropped with a warning by
//! the caller; a join directive with an empty target is a fatal
//! configuration error, not a recoverable parse failure.

use vstd::prelude::*;
use vstd::string::*;

use crate::util::str_eq_str;

verus! {

/// A parsed channel directive.
#[derive(Debug, Clone, PartialEq, Eq)]
pub enum Attribute {
    /// Emit no direct graph for this channel.
    Hide,
    /// Style the direct graph as an area chart.
    Area,
    /// Use this channel's samples as the shared x-axis.
    Xaxis,
    /// Also emit the finite-difference derivative graph.
    Differentiate,
    /// Also emit the successive-difference graph.
    Delta,
    /// Also emit the cumulative trapezoid-integral graph.
    Integrate,
    /// Force the y-axis to include zero.
    Zero,
    /// The channel is a text log, not a numeric series.
    Log,
    /// Add this channel as a series of the named combined graph.
    Join(String),
}

/// The mathematical image of an `Attribute`.
pub enum AttrV {
    Hide,
    Area,
    Xaxis,
    Differentiate,
    Delta,
    Integrate,
    Zero,
    Log,
    Join(Seq<char>),
}

impl View for Attribute {
    type V = AttrV;

    open spec fn view(&self) -> AttrV {
        match self {
            Attribute::Hide => AttrV::Hide,
            Attribute::Area => AttrV::Area,
            Attribute::Xaxis => AttrV::Xaxis,
            Attribute::Differentiate => AttrV::Differentiate,
            Attribute::Delta => AttrV::Delta,
            Attribute::Integrate => AttrV::Integrate,
            Attribute::Zero => AttrV::Zero,
            Attribute::Log => AttrV::Log,
            Attribute::Join(name) => AttrV::Join(name@),
        }
    }
}

/// Why a directive token yielded no attribute.
#[derive(Debug, Clone, Copy, PartialEq, Eq)]
pub enum AttributeError {
    /// No directive matches the token; the caller drops it with a warning.
    Unrecognized,
    /// A join directive with nothing after the colon; fatal.
    EmptyJoinTarget,
}

/// The images of a sequence of attributes.
pub open spec fn attr_views(s: Seq<Attribute>) -> Seq<AttrV> {
    s.map_values(|a: Attribute| a@)
}

/// What `Attribute::from` yields on a token.
pub open spec fn parse_attr(t: Seq<char>) -> Result<AttrV, AttributeError> {
    if t == "hide"@ {
        Ok(AttrV::Hide)
    } else if t == "area"@ {
        Ok(AttrV::Area)
    } else if t == "xaxis"@ {
        Ok(AttrV::Xaxis)
    } else if t == "differentiate"@ {
        Ok(AttrV::Differentiate)
    } else if t == "zero"@ {
        Ok(AttrV::Zero)
    } else if t == "log"@ {
        Ok(AttrV::Log)
    } else if t.len() >= 5 && t.subrange(0, 5) == "join:"@ {
        if t.len() == 5 {
            Err(AttributeError::EmptyJoinTarget)
        } else {
            Ok(AttrV::Join(t.subrange(5, t.len() as int)))
        }
    } else {
        Err(AttributeError::Unrecognized)
    }
}

impl Attribute {
    /// Parses one directive token.
    pub fn from(attribute_text: &str) -> (r: Result<Attribute, AttributeError>)
        ensures
            parse_attr(attribute_text@) == match r {
                Ok(a) => Ok::<AttrV, AttributeError>(a@),
                Err(e) => Err::<AttrV, AttributeError>(e),
            },
    {
        if str_eq_str(attribute_text, "hide") {
            return Ok(Attribute::Hide);
        }
        if str_eq_str(attribute_text, "area") {
            return Ok(Attribute::Area);
        }
        if str_eq_str(attribute_text, "xaxis") {
            return Ok(Attribute::Xaxis);
        }
        if str_eq_str(attribute_text, "differentiate") {
            return Ok(Attribute::Differentiate);
        }
        if str_eq_str(attribute_text, "zero") {
            return Ok(Attribute::Zero);
        }
        if str_eq_str(attribute_text, "log") {
            return Ok(Attribute::Log);
        }
        let n = attribute_text.unicode_len();
        if n >= 5 && str_eq_str(attribute_text.substring_char(0, 5), "join:") {
            if n == 5 {
                return Err(AttributeError::EmptyJoinTarget);
            }
            let right = attribute_text.substring_char(5, n).to_owned();
            return Ok(Attribute::Join(right));
        }
        proof {
            reveal_strlit("hide");
            reveal_strlit("area");
            reveal_strlit("xaxis");
            reveal_strlit("differentiate");
            reveal_strlit("zero");
            reveal_strlit("log");
            reveal_strlit("join:");
        }
        Err(AttributeError::Unrecognized)
    }

    /// Whether two attributes are one directive.
    pub fn matches(&self, other: &Attribute) -> (r: bool)
        ensures
            r == (self@ == other@),
    {
        match (self, other) {
            (Attribute::Hide, Attribute::Hide) => true,
            (Attribute::Area, Attribute::Area) => true,
            (Attribute::Xaxis, Attribute::Xaxis) => true,
            (Attribute::Differentiate, Attribute::Differentiate) => true,
            (Attribute::Delta, Attribute::Delta) => true,
            (Attribute::Integrate, Attribute::Integrate) => true,
            (Attribute::Zero, Attribute::Zero) => true,
            (Attribute::Log, Attribute::Log) => true,
            (Attribute::Join(a), Attribute::Join(b)) => str_eq_str(a.as_str(), b.as_str()),
            _ => false,
        }
    }
}

/// Whether the image sequence `s` holds the image of `a`.
pub open spec fn attrs_contain(s: Seq<Attribute>, a: AttrV) -> bool {
    attr_views(s).contains(a)
}

/// Whether a channel's attribute list holds the given directive.
pub fn contains_attr(attrs: &Vec<Attribute>, a: &Attribute) -> (r: bool)
    ensures
        r == attrs_contain(attrs@, a@),
{
    let mut i: usize = 0;
    while i < attrs.len()
        invariant
            i <= attrs@.len(),
            forall|k: int| 0 <= k < i ==> attr_views(attrs@)[k] != a@,
        decreases attrs@.len() - i,
    {
        if attrs[i].matches(a) {
            proof {
                assert(attr_views(attrs@)[i as int] == a@);
            }
            return true;
        }
        i = i + 1;
    }
    false
}

} // verus!
