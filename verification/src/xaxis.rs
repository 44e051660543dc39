//! Selection of the shared x-axis.
//!
//! At most one channel may carry the x-axis directive.  With exactly one,
//! the axis takes that channel's samples and unit; with none, every series
//! is bound to a synthetic row-index axis.  More than one is a fatal error,
//! never silently resolved.

use vstd::prelude::*;
use vstd::string::*;

use crate::attribute::{contains_attr, Attribute, AttrV};
use crate::diag::{ErrV, Error};
use crate::input::{Topic, TopicV};
use crate::util::copy_data;

verus! {

/// The resolved shared x-axis for a run.
#[derive(Debug)]
pub struct XAxis {
    /// Display unit of the axis.
    pub unit: String,
    /// Display label of the axis.
    pub name: String,
    /// Explicit axis samples, or `None` for the synthetic index axis.
    pub data: Option<Vec<i64>>,
}

/// The mathematical image of an `XAxis`.
pub struct XAxisV {
    pub unit: Seq<char>,
    pub name: Seq<char>,
    pub data: Option<Seq<i64>>,
}

impl View for XAxis {
    type V = XAxisV;

    open spec fn view(&self) -> XAxisV {
        XAxisV {
            unit: self.unit@,
            name: self.name@,
            data: match &self.data {
                Some(d) => Some(d@),
                None => None,
            },
        }
    }
}

/// Whether a channel image carries the x-axis directive.
pub open spec fn is_axis_topic(t: TopicV) -> bool {
    t.attrs.contains(AttrV::Xaxis)
}

/// The index of the first axis channel among the first `i`, or `-1`.
pub open spec fn first_xaxis_to(ts: Seq<TopicV>, i: int) -> int
    decreases i,
{
    if i <= 0 {
        -1
    } else if first_xaxis_to(ts, i - 1) >= 0 {
        first_xaxis_to(ts, i - 1)
    } else if is_axis_topic(ts[i - 1]) {
        i - 1
    } else {
        -1
    }
}

/// The index of the first channel carrying the x-axis directive, or `-1`.
pub open spec fn first_xaxis(ts: Seq<TopicV>) -> int {
    first_xaxis_to(ts, ts.len() as int)
}

/// Whether two distinct channels both carry the x-axis directive.
pub open spec fn two_xaxis(ts: Seq<TopicV>) -> bool {
    exists|i: int, j: int|
        0 <= i < j < ts.len() && is_axis_topic(ts[i]) && is_axis_topic(ts[j])
}

/// What x-axis the channel list resolves to.
pub open spec fn sel_xaxis(ts: Seq<TopicV>) -> Result<XAxisV, ErrV> {
    if two_xaxis(ts) {
        Err(ErrV::MultipleXaxis)
    } else if first_xaxis(ts) >= 0 {
        let t = ts[first_xaxis(ts)];
        Ok(XAxisV { name: t.name_base + " ("@ + t.unit + ")"@, unit: t.unit, data: Some(t.data) })
    } else {
        Ok(XAxisV { name: "Index"@, unit: "ul"@, data: None })
    }
}

/// The first axis index of a prefix is an axis channel preceded by none.
proof fn lemma_first_xaxis_char(ts: Seq<TopicV>, i: int)
    requires
        0 <= i <= ts.len(),
    ensures
        first_xaxis_to(ts, i) == -1 ==> forall|k: int| 0 <= k < i ==> !is_axis_topic(ts[k]),
        first_xaxis_to(ts, i) >= 0 ==> {
            let f = first_xaxis_to(ts, i);
            &&& 0 <= f < i
            &&& is_axis_topic(ts[f])
            &&& forall|k: int| 0 <= k < f ==> !is_axis_topic(ts[k])
        },
    decreases i,
{
    if i > 0 {
        lemma_first_xaxis_char(ts, i - 1);
    }
}

impl XAxis {
    /// Resolves the shared x-axis from the channel list.
    pub fn from_topics(topics: &Vec<Topic>) -> (r: Result<XAxis, Error>)
        ensures
            match r {
                Ok(axis) => sel_xaxis(crate::input::topic_views(topics@)) == Ok::<XAxisV, ErrV>(
                    axis@,
                ),
                Err(e) => sel_xaxis(crate::input::topic_views(topics@)) == Err::<XAxisV, ErrV>(e@),
            },
    {
        let ghost ts = crate::input::topic_views(topics@);
        let mut out: Option<usize> = None;
        let mut i: usize = 0;
        while i < topics.len()
            invariant
                i <= topics@.len(),
                ts == crate::input::topic_views(topics@),
                ts.len() == topics@.len(),
                match out {
                    None => first_xaxis_to(ts, i as int) == -1,
                    Some(j) => j < i && first_xaxis_to(ts, i as int) == j && forall|k: int|
                        j < k < i ==> !is_axis_topic(ts[k]),
                },
            decreases topics@.len() - i,
        {
            proof {
                assert(ts[i as int] == topics@[i as int]@);
            }
            if contains_attr(&topics[i].attrs, &Attribute::Xaxis) {
                proof {
                    assert(is_axis_topic(ts[i as int]));
                }
                if out.is_some() {
                    proof {
                        let j = out->0 as int;
                        lemma_first_xaxis_char(ts, i as int);
                        assert(is_axis_topic(ts[j]) && is_axis_topic(ts[i as int]));
                        assert(two_xaxis(ts));
                    }
                    return Err(Error::MultipleXaxis);
                } else {
                    out = Some(i);
                }
            }
            i = i + 1;
        }
        let ghost f = first_xaxis(ts);
        proof {
            lemma_first_xaxis_char(ts, ts.len() as int);
            assert(!two_xaxis(ts)) by {
                if two_xaxis(ts) {
                    let (a, b) = choose|a: int, b: int|
                        #![trigger is_axis_topic(ts[a]), is_axis_topic(ts[b])]
                        0 <= a < b < ts.len() && is_axis_topic(ts[a]) && is_axis_topic(ts[b]);
                    match out {
                        None => {
                            assert(!is_axis_topic(ts[a]));
                        },
                        Some(j) => {
                            assert(a == j && b == j);
                        },
                    }
                }
            }
        }
        match out {
            Some(index) => {
                proof {
                    assert(f == index);
                    assert(ts[f] == topics@[index as int]@);
                }
                let t = &topics[index];
                let mut label = String::new();
                label.append(t.name_base.as_str());
                label.append(" (");
                label.append(t.unit.as_str());
                label.append(")");
                Ok(XAxis { name: label, unit: t.unit.clone(), data: Some(copy_data(&t.data)) })
            },
            None => {
                let mut label = String::new();
                label.append("Index");
                let mut unit = String::new();
                unit.append("ul");
                proof {
                    reveal_strlit("Index");
                    reveal_strlit("ul");
                    assert(label@ =~= "Index"@);
                    assert(unit@ =~= "ul"@);
                }
                Ok(XAxis { name: label, unit, data: None })
            },
        }
    }
}

} // verus!
