//! The channel derivation engine.
//!
//! Pass 1 walks the channels in input order and emits, per channel, a direct
//! graph (unless hidden) and one derived graph per transform directive.
//! Pass 2 then resolves join directives: each adds its channel as a series
//! of a named combined graph, creating that graph on first use.  Joining
//! into any graph that was not created as a join target is fatal.

use vstd::prelude::*;
use vstd::string::*;

use crate::attribute::{contains_attr, AttrV, Attribute};
use crate::diag::{warn_views, ErrV, Error, WarnV, Warning};
use crate::input::{topic_views, Topic, TopicV};
use crate::util::{base_of, bound_pts, delta_pts, diff_pts, fake_pts, folder_of,
    integ_pts, integ_total, str_eq_str, split_name};
use crate::xaxis::{sel_xaxis, XAxis, XAxisV};

verus! {

/// One named sequence of chart points, owned by its graph.
#[derive(Debug)]
pub struct Series {
    /// Display label; a channel's base name, or empty for the lone series
    /// of a direct graph.
    pub name: String,
    /// The (x, y) points.
    pub data: Vec<(i64, i64)>,
}

/// The mathematical image of a `Series`.
pub struct SeriesV {
    pub name: Seq<char>,
    pub data: Seq<(i64, i64)>,
}

impl View for Series {
    type V = SeriesV;

    open spec fn view(&self) -> SeriesV {
        SeriesV { name: self.name@, data: self.data@ }
    }
}

/// The images of a series list.
pub open spec fn series_views(s: Seq<Series>) -> Seq<SeriesV> {
    s.map_values(|x: Series| x@)
}

/// One renderable chart.
#[derive(Debug)]
pub struct Graph {
    /// Full hierarchical name, possibly synthesized.
    pub name: String,
    /// Everything after the last path separator.
    pub name_base: String,
    /// Everything before the last path separator; empty without one.
    pub name_folder: String,
    /// Display unit of the y values.
    pub unit: String,
    /// Display label of the shared x-axis.
    pub x_unit: String,
    /// The plotted series; more than one only for joined graphs.
    pub series: Vec<Series>,
    /// Whether the graph was synthesized rather than taken directly.
    pub virt: bool,
    /// Whether later join directives may append series to it.
    pub joinable: bool,
    /// Whether the chart is drawn as an area.
    pub area: bool,
    /// Whether the y-axis must include zero.
    pub zero: bool,
}

/// The mathematical image of a `Graph`.
pub struct GraphV {
    pub name: Seq<char>,
    pub name_base: Seq<char>,
    pub name_folder: Seq<char>,
    pub unit: Seq<char>,
    pub x_unit: Seq<char>,
    pub series: Seq<SeriesV>,
    pub virt: bool,
    pub joinable: bool,
    pub area: bool,
    pub zero: bool,
}

impl View for Graph {
    type V = GraphV;

    open spec fn view(&self) -> GraphV {
        GraphV {
            name: self.name@,
            name_base: self.name_base@,
            name_folder: self.name_folder@,
            unit: self.unit@,
            x_unit: self.x_unit@,
            series: series_views(self.series@),
            virt: self.virt,
            joinable: self.joinable,
            area: self.area,
            zero: self.zero,
        }
    }
}

/// The images of a graph list.
pub open spec fn graph_views(s: Seq<Graph>) -> Seq<GraphV> {
    s.map_values(|g: Graph| g@)
}

/// A fresh graph: the name split, style flags off, not joinable.
pub open spec fn graph_of(
    name: Seq<char>,
    unit: Seq<char>,
    x_unit: Seq<char>,
    series: Seq<SeriesV>,
    virt: bool,
) -> GraphV {
    GraphV {
        name,
        name_base: base_of(name),
        name_folder: folder_of(name),
        unit,
        x_unit,
        series,
        virt,
        joinable: false,
        area: false,
        zero: false,
    }
}

/// A channel's samples bound to the resolved axis: paired with the axis
/// samples, or with the row index for the synthetic axis.  An explicit axis
/// of a different length is fatal.
pub open spec fn bind_res(xa: XAxisV, data: Seq<i64>, name: Seq<char>) -> Result<SeriesV, ErrV> {
    match xa.data {
        Some(xd) => if xd.len() == data.len() {
            Ok(SeriesV { name, data: bound_pts(xd, data) })
        } else {
            Err(ErrV::LengthMismatch { axis_len: xd.len(), data_len: data.len() })
        },
        None => Ok(SeriesV { name, data: fake_pts(data) }),
    }
}

/// The direct graph of an unhidden channel.
pub open spec fn direct_graph(t: TopicV, xa: XAxisV) -> Result<GraphV, ErrV> {
    match bind_res(xa, t.data, t.name_base) {
        Err(e) => Err(e),
        Ok(s) => Ok(
            GraphV {
                area: t.attrs.contains(AttrV::Area),
                zero: t.attrs.contains(AttrV::Zero),
                ..graph_of(t.name, t.unit, xa.name, seq![s], false)
            },
        ),
    }
}

/// The successive-difference graph of a channel.
pub open spec fn delta_graph(t: TopicV, xa: XAxisV) -> Result<GraphV, ErrV> {
    let name = t.name + " Delta"@;
    match bind_res(xa, t.data, base_of(name)) {
        Err(e) => Err(e),
        Ok(s) => Ok(
            graph_of(
                name,
                t.unit,
                xa.name,
                seq![SeriesV { name: s.name, data: delta_pts(s.data) }],
                true,
            ),
        ),
    }
}

/// The derivative graph of a channel; its unit is the quotient of the
/// channel unit by the axis unit.
pub open spec fn deriv_graph(t: TopicV, xa: XAxisV) -> Result<GraphV, ErrV> {
    let name = t.name + " Derivative"@;
    match bind_res(xa, t.data, base_of(name)) {
        Err(e) => Err(e),
        Ok(s) => Ok(
            graph_of(
                name,
                t.unit + "/"@ + xa.unit,
                xa.name,
                seq![SeriesV { name: s.name, data: diff_pts(s.data) }],
                true,
            ),
        ),
    }
}

/// The cumulative-integral graph of a channel; its unit is the product of
/// the channel unit and the axis unit.
pub open spec fn integ_graph(t: TopicV, xa: XAxisV) -> Result<GraphV, ErrV> {
    let name = t.name + " Integral"@;
    match bind_res(xa, t.data, base_of(name)) {
        Err(e) => Err(e),
        Ok(s) => Ok(
            graph_of(
                name,
                t.unit + "*"@ + xa.unit,
                xa.name,
                seq![SeriesV { name: s.name, data: integ_pts(s.data) }],
                true,
            ),
        ),
    }
}

/// Appends one candidate graph to an accumulated list, propagating errors.
pub open spec fn push_graph(acc: Result<Seq<GraphV>, ErrV>, g: Result<GraphV, ErrV>) -> Result<
    Seq<GraphV>,
    ErrV,
> {
    match acc {
        Err(e) => Err(e),
        Ok(gs) => match g {
            Err(e) => Err(e),
            Ok(gg) => Ok(gs.push(gg)),
        },
    }
}

/// The direct stage of pass 1 for one channel: its graph unless hidden.
pub open spec fn stage_direct(t: TopicV, xa: XAxisV) -> Result<Seq<GraphV>, ErrV> {
    if t.attrs.contains(AttrV::Hide) {
        Ok(Seq::empty())
    } else {
        push_graph(Ok(Seq::empty()), direct_graph(t, xa))
    }
}

/// The direct stage followed by the successive-difference stage.
pub open spec fn stage_delta(t: TopicV, xa: XAxisV) -> Result<Seq<GraphV>, ErrV> {
    if t.attrs.contains(AttrV::Delta) {
        push_graph(stage_direct(t, xa), delta_graph(t, xa))
    } else {
        stage_direct(t, xa)
    }
}

/// The first two stages followed by the derivative stage.
pub open spec fn stage_deriv(t: TopicV, xa: XAxisV) -> Result<Seq<GraphV>, ErrV> {
    if t.attrs.contains(AttrV::Differentiate) {
        push_graph(stage_delta(t, xa), deriv_graph(t, xa))
    } else {
        stage_delta(t, xa)
    }
}

/// The graphs one channel emits in pass 1: the direct graph unless hidden,
/// then one derived graph per transform directive.  The four outcomes are
/// independent: a hidden channel still emits its derived graphs.
pub open spec fn topic_graphs(t: TopicV, xa: XAxisV) -> Result<Seq<GraphV>, ErrV> {
    if t.attrs.contains(AttrV::Integrate) {
        push_graph(stage_deriv(t, xa), integ_graph(t, xa))
    } else {
        stage_deriv(t, xa)
    }
}

/// Which channel lists the engine accepts: sample counts that the machine
/// can index, and at least one sample wherever a transform directive asks
/// for adjacent-pair arithmetic.
pub open spec fn derivable(ts: Seq<TopicV>) -> bool {
    &&& forall|k: int| 0 <= k < ts.len() ==> (#[trigger] ts[k]).data.len() <= i64::MAX
    &&& forall|k: int|
        #![trigger ts[k].attrs]
        0 <= k < ts.len() && (ts[k].attrs.contains(AttrV::Delta) || ts[k].attrs.contains(
            AttrV::Differentiate,
        ) || ts[k].attrs.contains(AttrV::Integrate)) ==> ts[k].data.len() >= 1
}

/// The graphs the first `i` channels emit in pass 1, in channel order.
pub open spec fn pass1_to(ts: Seq<TopicV>, xa: XAxisV, i: int) -> Result<Seq<GraphV>, ErrV>
    decreases i,
{
    if i <= 0 {
        Ok(Seq::empty())
    } else {
        match pass1_to(ts, xa, i - 1) {
            Err(e) => Err(e),
            Ok(gs) => match topic_graphs(ts[i - 1], xa) {
                Err(e) => Err(e),
                Ok(n) => Ok(gs + n),
            },
        }
    }
}

/// The index of the last graph named `name`, or `-1`.
pub open spec fn last_graph_named(gs: Seq<GraphV>, name: Seq<char>) -> int
    decreases gs.len(),
{
    if gs.len() == 0 {
        -1
    } else if gs.last().name == name {
        gs.len() - 1
    } else {
        last_graph_named(gs.drop_last(), name)
    }
}

/// Whether a graph already shows a series under `name`.
pub open spec fn series_named(series: Seq<SeriesV>, name: Seq<char>) -> bool {
    exists|k: int| 0 <= k < series.len() && series[k].name == name
}

/// One join directive applied to the accumulated graphs.  An existing
/// target must be joinable; a label collision or a unit mismatch is only
/// warned about.  Without a target, a fresh joinable graph is created.
/// Directives other than joins do nothing in pass 2.
pub open spec fn join_step(
    gs: Seq<GraphV>,
    ws: Seq<WarnV>,
    t: TopicV,
    a: AttrV,
    xa: XAxisV,
) -> Result<(Seq<GraphV>, Seq<WarnV>), ErrV> {
    match a {
        AttrV::Join(target) => {
            let j = last_graph_named(gs, target);
            if j >= 0 {
                if !gs[j].joinable {
                    Err(ErrV::JoinToNonJoinable { name: gs[j].name })
                } else {
                    match bind_res(xa, t.data, t.name_base) {
                        Err(e) => Err(e),
                        Ok(s) => {
                            let ws1 = if series_named(gs[j].series, t.name_base) {
                                ws.push(WarnV::JoinDuplicateSeries { name: t.name_base })
                            } else {
                                ws
                            };
                            let ws2 = if gs[j].unit != t.unit {
                                ws1.push(
                                    WarnV::JoinUnitMismatch {
                                        graph: gs[j].name,
                                        graph_unit: gs[j].unit,
                                        topic: t.name,
                                        topic_unit: t.unit,
                                    },
                                )
                            } else {
                                ws1
                            };
                            Ok(
                                (
                                    gs.update(
                                        j,
                                        GraphV { series: gs[j].series.push(s), ..gs[j] },
                                    ),
                                    ws2,
                                ),
                            )
                        },
                    }
                }
            } else {
                match bind_res(xa, t.data, t.name_base) {
                    Err(e) => Err(e),
                    Ok(s) => Ok(
                        (
                            gs.push(
                                GraphV {
                                    joinable: true,
                                    ..graph_of(target, t.unit, xa.name, seq![s], true)
                                },
                            ),
                            ws,
                        ),
                    ),
                }
            }
        },
        _ => Ok((gs, ws)),
    }
}

/// The first `j` directives of one channel applied to an accumulated state.
pub open spec fn join_topic(
    acc: Result<(Seq<GraphV>, Seq<WarnV>), ErrV>,
    t: TopicV,
    xa: XAxisV,
    j: int,
) -> Result<(Seq<GraphV>, Seq<WarnV>), ErrV>
    decreases j,
{
    if j <= 0 {
        acc
    } else {
        match join_topic(acc, t, xa, j - 1) {
            Err(e) => Err(e),
            Ok(p) => join_step(p.0, p.1, t, t.attrs[j - 1], xa),
        }
    }
}

/// Pass 2 over the first `i` channels, starting from the pass-1 graphs.
pub open spec fn pass2_to(ts: Seq<TopicV>, xa: XAxisV, init: Seq<GraphV>, i: int) -> Result<
    (Seq<GraphV>, Seq<WarnV>),
    ErrV,
>
    decreases i,
{
    if i <= 0 {
        Ok((init, Seq::empty()))
    } else {
        join_topic(pass2_to(ts, xa, init, i - 1), ts[i - 1], xa, ts[i - 1].attrs.len() as int)
    }
}

/// What the whole derivation yields on a channel list: the resolved axis,
/// the graphs of both passes, and the collected warnings — or the first
/// fatal error.
pub open spec fn derive(ts: Seq<TopicV>) -> Result<(Seq<GraphV>, XAxisV, Seq<WarnV>), ErrV> {
    match sel_xaxis(ts) {
        Err(e) => Err(e),
        Ok(xa) => match pass1_to(ts, xa, ts.len() as int) {
            Err(e) => Err(e),
            Ok(gs) => match pass2_to(ts, xa, gs, ts.len() as int) {
                Err(e) => Err(e),
                Ok(p) => Ok((p.0, xa, p.1)),
            },
        },
    }
}

impl Series {
    /// The successive-difference series: midpoint x, raw rise.
    pub fn delta(&self) -> (r: Series)
        requires
            self@.data.len() >= 1,
        ensures
            r@ == (SeriesV { name: self@.name, data: delta_pts(self@.data) }),
    {
        Series { name: self.name.clone(), data: crate::util::delta(&self.data) }
    }

    /// The finite-difference derivative series: midpoint x, slope.
    pub fn differentiate(&self) -> (r: Series)
        requires
            self@.data.len() >= 1,
        ensures
            r@ == (SeriesV { name: self@.name, data: diff_pts(self@.data) }),
    {
        Series { name: self.name.clone(), data: crate::util::differention(&self.data) }
    }

    /// The cumulative trapezoid-integral series, with the total area.
    pub fn integrate(&self) -> (r: (Series, i64))
        requires
            self@.data.len() >= 1,
        ensures
            r.0@ == (SeriesV { name: self@.name, data: integ_pts(self@.data) }),
            r.1 as int == integ_total(self@.data, self@.data.len() - 1),
    {
        let (data, total_area) = crate::util::integration(&self.data);
        (Series { name: self.name.clone(), data }, total_area)
    }
}

impl Graph {
    /// Derives the renderable graphs from the channel list: resolves the
    /// shared x-axis, emits direct and derived graphs per channel in input
    /// order, then resolves join directives in a second pass.  Returns the
    /// graphs, the axis and the collected warnings, or the first fatal
    /// error.
    pub fn gen_graphs(topics: &Vec<Topic>) -> (r: Result<(Vec<Graph>, XAxis, Vec<Warning>), Error>)
        requires
            derivable(topic_views(topics@)),
        ensures
            match r {
                Ok(p) => derive(topic_views(topics@)) == Ok::<
                    (Seq<GraphV>, XAxisV, Seq<WarnV>),
                    ErrV,
                >((graph_views(p.0@), p.1@, warn_views(p.2@))),
                Err(e) => derive(topic_views(topics@)) == Err::<
                    (Seq<GraphV>, XAxisV, Seq<WarnV>),
                    ErrV,
                >(e@),
            },
    {
        let ghost ts = topic_views(topics@);
        let xaxis = match XAxis::from_topics(topics) {
            Ok(x) => x,
            Err(e) => {
                return Err(e);
            },
        };
        let ghost xa = xaxis@;
        let mut graphs: Vec<Graph> = Vec::new();
        proof {
            assert(graph_views(graphs@) =~= Seq::<GraphV>::empty());
        }
        let mut i: usize = 0;
        while i < topics.len()
            invariant
                i <= topics@.len(),
                ts == topic_views(topics@),
                ts.len() == topics@.len(),
                derivable(ts),
                sel_xaxis(ts) == Ok::<XAxisV, ErrV>(xa),
                xaxis@ == xa,
                pass1_to(ts, xa, i as int) == Ok::<Seq<GraphV>, ErrV>(graph_views(graphs@)),
            decreases topics@.len() - i,
        {
            let t = &topics[i];
            let ghost g0 = graph_views(graphs@);
            let ghost mut contributed: Seq<GraphV> = Seq::empty();
            proof {
                assert(ts[i as int] == topics@[i as int]@);
                assert(ts[i as int].data.len() <= i64::MAX);
            }
            if !contains_attr(&t.attrs, &Attribute::Hide) {
                let series = match gen_series(&t.data, t.name_base.clone(), &xaxis) {
                    Ok(s) => s,
                    Err(e) => {
                        proof {
                            assert(topic_graphs(ts[i as int], xa) == Err::<Seq<GraphV>, ErrV>(e@));
                            assert(pass1_to(ts, xa, i + 1) == Err::<Seq<GraphV>, ErrV>(e@));
                            lemma_pass1_err(ts, xa, i + 1, ts.len() as int);
                        }
                        return Err(e);
                    },
                };
                let ghost sv = series@;
                let mut graph = Graph::from_default(
                    t.name.clone(),
                    t.unit.clone(),
                    xaxis.name.clone(),
                    vec![series],
                    false,
                );
                graph.area = contains_attr(&t.attrs, &Attribute::Area);
                graph.zero = contains_attr(&t.attrs, &Attribute::Zero);
                proof {
                    assert(graph@.series =~= seq![sv]);
                    assert(graph@ == direct_graph(ts[i as int], xa)->Ok_0);
                }
                graphs.push(graph);
                proof {
                    contributed = contributed.push(direct_graph(ts[i as int], xa)->Ok_0);
                    assert(Seq::<GraphV>::empty().push(direct_graph(ts[i as int], xa)->Ok_0)
                        =~= contributed);
                    assert(stage_direct(ts[i as int], xa) == Ok::<Seq<GraphV>, ErrV>(contributed));
                    assert(graph_views(graphs@) =~= g0 + contributed);
                }
            } else {
                proof {
                    assert(stage_direct(ts[i as int], xa) == Ok::<Seq<GraphV>, ErrV>(contributed));
                    assert(graph_views(graphs@) =~= g0 + contributed);
                }
            }
            if contains_attr(&t.attrs, &Attribute::Delta) {
                let mut name = t.name.clone();
                name.append(" Delta");
                let (_ignored, name_base) = split_name(name.as_str());
                let s0 = match gen_series(&t.data, name_base, &xaxis) {
                    Ok(s) => s,
                    Err(e) => {
                        proof {
                            assert(topic_graphs(ts[i as int], xa) == Err::<Seq<GraphV>, ErrV>(e@));
                            assert(pass1_to(ts, xa, i + 1) == Err::<Seq<GraphV>, ErrV>(e@));
                            lemma_pass1_err(ts, xa, i + 1, ts.len() as int);
                        }
                        return Err(e);
                    },
                };
                proof {
                    assert(ts[i as int].data.len() >= 1);
                }
                let series = s0.delta();
                let ghost sv = series@;
                let graph = Graph::from_default(
                    name,
                    t.unit.clone(),
                    xaxis.name.clone(),
                    vec![series],
                    true,
                );
                proof {
                    assert(graph@.series =~= seq![sv]);
                    assert(graph@ == delta_graph(ts[i as int], xa)->Ok_0);
                }
                graphs.push(graph);
                proof {
                    contributed = contributed.push(delta_graph(ts[i as int], xa)->Ok_0);
                    assert(stage_delta(ts[i as int], xa) == Ok::<Seq<GraphV>, ErrV>(contributed));
                    assert(graph_views(graphs@) =~= g0 + contributed);
                }
            }
            if contains_attr(&t.attrs, &Attribute::Differentiate) {
                let mut name = t.name.clone();
                name.append(" Derivative");
                let (_ignored, name_base) = split_name(name.as_str());
                let mut unit = t.unit.clone();
                unit.append("/");
                unit.append(xaxis.unit.as_str());
                let s0 = match gen_series(&t.data, name_base, &xaxis) {
                    Ok(s) => s,
                    Err(e) => {
                        proof {
                            assert(topic_graphs(ts[i as int], xa) == Err::<Seq<GraphV>, ErrV>(e@));
                            assert(pass1_to(ts, xa, i + 1) == Err::<Seq<GraphV>, ErrV>(e@));
                            lemma_pass1_err(ts, xa, i + 1, ts.len() as int);
                        }
                        return Err(e);
                    },
                };
                proof {
                    assert(ts[i as int].data.len() >= 1);
                }
                let series = s0.differentiate();
                let ghost sv = series@;
                let graph = Graph::from_default(name, unit, xaxis.name.clone(), vec![series], true);
                proof {
                    assert(graph@.series =~= seq![sv]);
                    assert(graph@ == deriv_graph(ts[i as int], xa)->Ok_0);
                }
                graphs.push(graph);
                proof {
                    contributed = contributed.push(deriv_graph(ts[i as int], xa)->Ok_0);
                    assert(stage_deriv(ts[i as int], xa) == Ok::<Seq<GraphV>, ErrV>(contributed));
                    assert(graph_views(graphs@) =~= g0 + contributed);
                }
            }
            if contains_attr(&t.attrs, &Attribute::Integrate) {
                let mut name = t.name.clone();
                name.append(" Integral");
                let (_ignored, name_base) = split_name(name.as_str());
                let mut unit = t.unit.clone();
                unit.append("*");
                unit.append(xaxis.unit.as_str());
                let s0 = match gen_series(&t.data, name_base, &xaxis) {
                    Ok(s) => s,
                    Err(e) => {
                        proof {
                            assert(topic_graphs(ts[i as int], xa) == Err::<Seq<GraphV>, ErrV>(e@));
                            assert(pass1_to(ts, xa, i + 1) == Err::<Seq<GraphV>, ErrV>(e@));
                            lemma_pass1_err(ts, xa, i + 1, ts.len() as int);
                        }
                        return Err(e);
                    },
                };
                proof {
                    assert(ts[i as int].data.len() >= 1);
                }
                let (series, _total_sum) = s0.integrate();
                let ghost sv = series@;
                let graph = Graph::from_default(name, unit, xaxis.name.clone(), vec![series], true);
                proof {
                    assert(graph@.series =~= seq![sv]);
                    assert(graph@ == integ_graph(ts[i as int], xa)->Ok_0);
                }
                graphs.push(graph);
                proof {
                    contributed = contributed.push(integ_graph(ts[i as int], xa)->Ok_0);
                    assert(topic_graphs(ts[i as int], xa) == Ok::<Seq<GraphV>, ErrV>(contributed));
                    assert(graph_views(graphs@) =~= g0 + contributed);
                }
            }
            proof {
                assert(topic_graphs(ts[i as int], xa) == Ok::<Seq<GraphV>, ErrV>(contributed));
                assert(pass1_to(ts, xa, i + 1) == Ok::<Seq<GraphV>, ErrV>(graph_views(graphs@)));
            }
            i = i + 1;
        }
        let ghost init = graph_views(graphs@);
        proof {
            assert(pass1_to(ts, xa, ts.len() as int) == Ok::<Seq<GraphV>, ErrV>(init));
        }
        let mut warns: Vec<Warning> = Vec::new();
        proof {
            assert(warn_views(warns@) =~= Seq::<WarnV>::empty());
        }
        let mut i: usize = 0;
        while i < topics.len()
            invariant
                i <= topics@.len(),
                ts == topic_views(topics@),
                ts.len() == topics@.len(),
                derivable(ts),
                sel_xaxis(ts) == Ok::<XAxisV, ErrV>(xa),
                xaxis@ == xa,
                pass1_to(ts, xa, ts.len() as int) == Ok::<Seq<GraphV>, ErrV>(init),
                pass2_to(ts, xa, init, i as int) == Ok::<(Seq<GraphV>, Seq<WarnV>), ErrV>(
                    (graph_views(graphs@), warn_views(warns@)),
                ),
            decreases topics@.len() - i,
        {
            let t = &topics[i];
            let ghost gs_i = graph_views(graphs@);
            let ghost ws_i = warn_views(warns@);
            proof {
                assert(ts[i as int] == topics@[i as int]@);
                assert(ts[i as int].data.len() <= i64::MAX);
                assert(ts[i as int].attrs.len() == t.attrs@.len());
            }
            let mut j: usize = 0;
            while j < t.attrs.len()
                invariant
                    j <= t.attrs@.len(),
                    ts == topic_views(topics@),
                    ts.len() == topics@.len(),
                    derivable(ts),
                    sel_xaxis(ts) == Ok::<XAxisV, ErrV>(xa),
                    xaxis@ == xa,
                    i < topics@.len(),
                    t == topics@[i as int],
                    ts[i as int] == topics@[i as int]@,
                    ts[i as int].attrs.len() == t.attrs@.len(),
                    pass1_to(ts, xa, ts.len() as int) == Ok::<Seq<GraphV>, ErrV>(init),
                    pass2_to(ts, xa, init, i as int) == Ok::<(Seq<GraphV>, Seq<WarnV>), ErrV>(
                        (gs_i, ws_i),
                    ),
                    join_topic(
                        Ok::<(Seq<GraphV>, Seq<WarnV>), ErrV>((gs_i, ws_i)),
                        ts[i as int],
                        xa,
                        j as int,
                    ) == Ok::<(Seq<GraphV>, Seq<WarnV>), ErrV>(
                        (graph_views(graphs@), warn_views(warns@)),
                    ),
                decreases t.attrs@.len() - j,
            {
                let ghost gs_cur = graph_views(graphs@);
                let ghost ws_cur = warn_views(warns@);
                proof {
                    assert(ts[i as int].attrs[j as int] == t.attrs@[j as int]@);
                }
                match &t.attrs[j] {
                    Attribute::Join(join_graph_name) => {
                        let ghost target = join_graph_name@;
                        proof {
                            assert(ts[i as int].attrs[j as int] == AttrV::Join(target));
                        }
                        match last_graph_index(&graphs, join_graph_name.as_str()) {
                            Some(jj) => {
                                let ghost jjg = gs_cur[jj as int];
                                proof {
                                    assert(graphs@[jj as int]@ == gs_cur[jj as int]);
                                }
                                if !graphs[jj].joinable {
                                    proof {
                                        let e = ErrV::JoinToNonJoinable { name: jjg.name };
                                        assert(join_topic(
                                            Ok::<(Seq<GraphV>, Seq<WarnV>), ErrV>((gs_i, ws_i)),
                                            ts[i as int],
                                            xa,
                                            j + 1,
                                        ) == Err::<(Seq<GraphV>, Seq<WarnV>), ErrV>(e));
                                        lemma_join_topic_err(
                                            Ok::<(Seq<GraphV>, Seq<WarnV>), ErrV>((gs_i, ws_i)),
                                            ts[i as int],
                                            xa,
                                            j + 1,
                                            ts[i as int].attrs.len() as int,
                                        );
                                        assert(pass2_to(ts, xa, init, i + 1) == Err::<
                                            (Seq<GraphV>, Seq<WarnV>),
                                            ErrV,
                                        >(e));
                                        lemma_pass2_err(ts, xa, init, i + 1, ts.len() as int);
                                    }
                                    return Err(
                                        Error::JoinToNonJoinable { name: graphs[jj].name.clone() },
                                    );
                                }
                                let series = match gen_series(
                                    &t.data,
                                    t.name_base.clone(),
                                    &xaxis,
                                ) {
                                    Ok(s) => s,
                                    Err(e) => {
                                        proof {
                                            assert(join_topic(
                                                Ok::<(Seq<GraphV>, Seq<WarnV>), ErrV>(
                                                    (gs_i, ws_i),
                                                ),
                                                ts[i as int],
                                                xa,
                                                j + 1,
                                            ) == Err::<(Seq<GraphV>, Seq<WarnV>), ErrV>(e@));
                                            lemma_join_topic_err(
                                                Ok::<(Seq<GraphV>, Seq<WarnV>), ErrV>(
                                                    (gs_i, ws_i),
                                                ),
                                                ts[i as int],
                                                xa,
                                                j + 1,
                                                ts[i as int].attrs.len() as int,
                                            );
                                            assert(pass2_to(ts, xa, init, i + 1) == Err::<
                                                (Seq<GraphV>, Seq<WarnV>),
                                                ErrV,
                                            >(e@));
                                            lemma_pass2_err(ts, xa, init, i + 1, ts.len() as int);
                                        }
                                        return Err(e);
                                    },
                                };
                                if series_has_name(&graphs[jj].series, t.name_base.as_str()) {
                                    warns.push(
                                        Warning::JoinDuplicateSeries { name: t.name_base.clone() },
                                    );
                                    proof {
                                        assert(warn_views(warns@) =~= ws_cur.push(
                                            WarnV::JoinDuplicateSeries { name: ts[i as int].name_base },
                                        ));
                                    }
                                }
                                let ghost ws_mid = warn_views(warns@);
                                if !str_eq_str(graphs[jj].unit.as_str(), t.unit.as_str()) {
                                    warns.push(
                                        Warning::JoinUnitMismatch {
                                            graph: graphs[jj].name.clone(),
                                            graph_unit: graphs[jj].unit.clone(),
                                            topic: t.name.clone(),
                                            topic_unit: t.unit.clone(),
                                        },
                                    );
                                    proof {
                                        assert(warn_views(warns@) =~= ws_mid.push(
                                            WarnV::JoinUnitMismatch {
                                                graph: jjg.name,
                                                graph_unit: jjg.unit,
                                                topic: ts[i as int].name,
                                                topic_unit: ts[i as int].unit,
                                            },
                                        ));
                                    }
                                }
                                let mut g = graphs.remove(jj);
                                let ghost gview = g@;
                                g.series.push(series);
                                proof {
                                    assert(g@.series =~= gview.series.push(series@));
                                }
                                graphs.insert(jj, g);
                                proof {
                                    assert(graphs@ =~= graphs@.subrange(0, jj as int) + seq![
                                        graphs@[jj as int],
                                    ] + graphs@.subrange(jj + 1, graphs@.len() as int));
                                    assert(graph_views(graphs@) =~= gs_cur.update(
                                        jj as int,
                                        GraphV {
                                            series: jjg.series.push(series@),
                                            ..jjg
                                        },
                                    ));
                                    assert(join_topic(
                                        Ok::<(Seq<GraphV>, Seq<WarnV>), ErrV>((gs_i, ws_i)),
                                        ts[i as int],
                                        xa,
                                        j + 1,
                                    ) == Ok::<(Seq<GraphV>, Seq<WarnV>), ErrV>(
                                        (graph_views(graphs@), warn_views(warns@)),
                                    ));
                                }
                            },
                            None => {
                                let series = match gen_series(
                                    &t.data,
                                    t.name_base.clone(),
                                    &xaxis,
                                ) {
                                    Ok(s) => s,
                                    Err(e) => {
                                        proof {
                                            assert(join_topic(
                                                Ok::<(Seq<GraphV>, Seq<WarnV>), ErrV>(
                                                    (gs_i, ws_i),
                                                ),
                                                ts[i as int],
                                                xa,
                                                j + 1,
                                            ) == Err::<(Seq<GraphV>, Seq<WarnV>), ErrV>(e@));
                                            lemma_join_topic_err(
                                                Ok::<(Seq<GraphV>, Seq<WarnV>), ErrV>(
                                                    (gs_i, ws_i),
                                                ),
                                                ts[i as int],
                                                xa,
                                                j + 1,
                                                ts[i as int].attrs.len() as int,
                                            );
                                            assert(pass2_to(ts, xa, init, i + 1) == Err::<
                                                (Seq<GraphV>, Seq<WarnV>),
                                                ErrV,
                                            >(e@));
                                            lemma_pass2_err(ts, xa, init, i + 1, ts.len() as int);
                                        }
                                        return Err(e);
                                    },
                                };
                                let ghost sv = series@;
                                let mut g = Graph::from_default(
                                    join_graph_name.clone(),
                                    t.unit.clone(),
                                    xaxis.name.clone(),
                                    vec![series],
                                    true,
                                );
                                g.joinable = true;
                                proof {
                                    assert(g@.series =~= seq![sv]);
                                }
                                graphs.push(g);
                                proof {
                                    assert(graph_views(graphs@) =~= gs_cur.push(
                                        graphs@.last()@,
                                    ));
                                    assert(join_topic(
                                        Ok::<(Seq<GraphV>, Seq<WarnV>), ErrV>((gs_i, ws_i)),
                                        ts[i as int],
                                        xa,
                                        j + 1,
                                    ) == Ok::<(Seq<GraphV>, Seq<WarnV>), ErrV>(
                                        (graph_views(graphs@), warn_views(warns@)),
                                    ));
                                }
                            },
                        }
                    },
                    _ => {
                        proof {
                            assert(!(ts[i as int].attrs[j as int] is Join));
                            assert(join_topic(
                                Ok::<(Seq<GraphV>, Seq<WarnV>), ErrV>((gs_i, ws_i)),
                                ts[i as int],
                                xa,
                                j + 1,
                            ) == Ok::<(Seq<GraphV>, Seq<WarnV>), ErrV>(
                                (graph_views(graphs@), warn_views(warns@)),
                            ));
                        }
                    },
                }
                j = j + 1;
            }
            proof {
                assert(pass2_to(ts, xa, init, i + 1) == Ok::<(Seq<GraphV>, Seq<WarnV>), ErrV>(
                    (graph_views(graphs@), warn_views(warns@)),
                ));
            }
            i = i + 1;
        }
        Ok((graphs, xaxis, warns))
    }

    /// A fresh graph under the given name: the name split into folder and
    /// base, style flags off, not joinable.
    pub fn from_default(
        name: String,
        unit: String,
        x_unit: String,
        series: Vec<Series>,
        virt: bool,
    ) -> (g: Graph)
        ensures
            g@ == graph_of(name@, unit@, x_unit@, series_views(series@), virt),
    {
        let (name_folder, name_base) = split_name(name.as_str());
        Graph {
            name,
            name_base,
            name_folder,
            unit,
            x_unit,
            series,
            area: false,
            virt,
            zero: false,
            joinable: false,
        }
    }
}

/// A channel's direct graph shows one point per sample: whenever it
/// exists, its lone series is exactly as long as the channel's data — and
/// it fails to exist precisely when an explicit axis disagrees with the
/// channel on sample count.
pub proof fn lemma_direct_series_len(t: TopicV, xa: XAxisV)
    ensures
        direct_graph(t, xa) is Ok <==> (xa.data is None || xa.data->0.len() == t.data.len()),
        direct_graph(t, xa) is Ok ==> {
            let g = direct_graph(t, xa)->Ok_0;
            &&& g.series.len() == 1
            &&& g.series[0].data.len() == t.data.len()
        },
{
}

/// Once pass 1 fails, longer prefixes fail the same way.
proof fn lemma_pass1_err(ts: Seq<TopicV>, xa: XAxisV, i: int, j: int)
    requires
        0 <= i <= j,
        pass1_to(ts, xa, i) is Err,
    ensures
        pass1_to(ts, xa, j) == pass1_to(ts, xa, i),
    decreases j - i,
{
    if j > i {
        lemma_pass1_err(ts, xa, i, j - 1);
    }
}

/// Joining starting from a failed state stays in that state.
proof fn lemma_join_topic_of_err(
    acc: Result<(Seq<GraphV>, Seq<WarnV>), ErrV>,
    t: TopicV,
    xa: XAxisV,
    j: int,
)
    requires
        acc is Err,
    ensures
        join_topic(acc, t, xa, j) == acc,
    decreases j,
{
    if j > 0 {
        lemma_join_topic_of_err(acc, t, xa, j - 1);
    }
}

/// Once a channel's join directives fail, the rest change nothing.
proof fn lemma_join_topic_err(
    acc: Result<(Seq<GraphV>, Seq<WarnV>), ErrV>,
    t: TopicV,
    xa: XAxisV,
    j: int,
    j2: int,
)
    requires
        0 <= j <= j2,
        join_topic(acc, t, xa, j) is Err,
    ensures
        join_topic(acc, t, xa, j2) == join_topic(acc, t, xa, j),
    decreases j2 - j,
{
    if j2 > j {
        lemma_join_topic_err(acc, t, xa, j, j2 - 1);
    }
}

/// Once pass 2 fails, longer prefixes fail the same way.
proof fn lemma_pass2_err(ts: Seq<TopicV>, xa: XAxisV, init: Seq<GraphV>, i: int, j: int)
    requires
        0 <= i <= j,
        pass2_to(ts, xa, init, i) is Err,
    ensures
        pass2_to(ts, xa, init, j) == pass2_to(ts, xa, init, i),
    decreases j - i,
{
    if j > i {
        lemma_pass2_err(ts, xa, init, i, j - 1);
        lemma_join_topic_of_err(
            pass2_to(ts, xa, init, j - 1),
            ts[j - 1],
            xa,
            ts[j - 1].attrs.len() as int,
        );
    }
}

/// Binds a channel's samples to the resolved axis.
fn gen_series(data: &Vec<i64>, name: String, xaxis: &XAxis) -> (r: Result<Series, Error>)
    requires
        data@.len() <= i64::MAX,
    ensures
        match r {
            Ok(s) => bind_res(xaxis@, data@, name@) == Ok::<SeriesV, ErrV>(s@),
            Err(e) => bind_res(xaxis@, data@, name@) == Err::<SeriesV, ErrV>(e@),
        },
{
    match &xaxis.data {
        Some(xd) => match crate::util::bind_axis(xd, data) {
            Ok(points) => Ok(Series { name, data: points }),
            Err(e) => Err(e),
        },
        None => Ok(Series { name, data: crate::util::fake_x_axis(data) }),
    }
}

/// Scans the accumulated graphs for the last one named `name`.
fn last_graph_index(graphs: &Vec<Graph>, name: &str) -> (r: Option<usize>)
    ensures
        match r {
            Some(j) => j < graphs@.len() && last_graph_named(graph_views(graphs@), name@)
                == j as int,
            None => last_graph_named(graph_views(graphs@), name@) == -1,
        },
{
    let ghost gv = graph_views(graphs@);
    let mut k: usize = graphs.len();
    proof {
        assert(gv.take(graphs@.len() as int) =~= gv);
    }
    while k > 0
        invariant
            k <= graphs@.len(),
            gv == graph_views(graphs@),
            gv.len() == graphs@.len(),
            last_graph_named(gv, name@) == last_graph_named(gv.take(k as int), name@),
        decreases k,
    {
        proof {
            assert(gv[k - 1] == graphs@[k - 1]@);
            assert(gv.take(k as int).last() == gv[k - 1]);
            assert(gv.take(k as int).drop_last() =~= gv.take(k - 1));
        }
        if str_eq_str(graphs[k - 1].name.as_str(), name) {
            return Some(k - 1);
        }
        k = k - 1;
    }
    proof {
        assert(gv.take(0) =~= Seq::<GraphV>::empty());
    }
    None
}

/// Whether the accumulated series of a graph already use `name`.
fn series_has_name(series: &Vec<Series>, name: &str) -> (r: bool)
    ensures
        r == series_named(series_views(series@), name@),
{
    let ghost sv = series_views(series@);
    let mut k: usize = 0;
    while k < series.len()
        invariant
            k <= series@.len(),
            sv == series_views(series@),
            sv.len() == series@.len(),
            forall|m: int| 0 <= m < k ==> sv[m].name != name@,
        decreases series@.len() - k,
    {
        proof {
            assert(sv[k as int] == series@[k as int]@);
        }
        if str_eq_str(series[k].name.as_str(), name) {
            return true;
        }
        k = k + 1;
    }
    false
}

} // verus!
