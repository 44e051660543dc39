//! The channel model: numeric channels, text logs and free-standing values,
//! together with the construction of their shells from a decoded header.
//!
//! Channel names are hierarchical; each is split once at its last path
//! separator into a folder prefix and a base name.  An absent unit is
//! normalized to the unitless sentinel.

use vstd::prelude::*;
use vstd::string::*;

use crate::attribute::{attr_views, contains_attr, parse_attr, AttrV, Attribute,
    AttributeError};
use crate::diag::{warn_views, ErrV, Error, WarnV, Warning};
use crate::util::{base_of, dec_str, fmt_i64, fmt_u64, folder_of, int_str, str_eq_str, str_views,
    split_name};
use crate::xaxis::{XAxis, XAxisV};

verus! {

/// A named numeric channel: one column of samples plus its directives.
#[derive(Debug)]
pub struct Topic {
    /// Full hierarchical name, unique across all channels.
    pub name: String,
    /// Everything after the last path separator.
    pub name_base: String,
    /// Everything before the last path separator; empty without one.
    pub name_folder: String,
    /// Display unit; the unitless sentinel when absent.
    pub unit: String,
    /// Parsed directives, duplicates suppressed.
    pub attrs: Vec<Attribute>,
    /// Samples in row order.
    pub data: Vec<i64>,
}

/// The mathematical image of a `Topic`.
pub struct TopicV {
    pub name: Seq<char>,
    pub name_base: Seq<char>,
    pub name_folder: Seq<char>,
    pub unit: Seq<char>,
    pub attrs: Seq<AttrV>,
    pub data: Seq<i64>,
}

impl View for Topic {
    type V = TopicV;

    open spec fn view(&self) -> TopicV {
        TopicV {
            name: self.name@,
            name_base: self.name_base@,
            name_folder: self.name_folder@,
            unit: self.unit@,
            attrs: attr_views(self.attrs@),
            data: self.data@,
        }
    }
}

/// The images of a channel list.
pub open spec fn topic_views(s: Seq<Topic>) -> Seq<TopicV> {
    s.map_values(|t: Topic| t@)
}

/// A text log channel: rows that failed numeric parsing, kept as text.
#[derive(Debug)]
pub struct Log {
    /// Full hierarchical name.
    pub name: String,
    /// Everything after the last path separator.
    pub name_base: String,
    /// Everything before the last path separator; empty without one.
    pub name_folder: String,
    /// Display unit; the unitless sentinel when absent.
    pub unit: String,
    /// Directives; only the log marker is allowed.
    pub attrs: Vec<Attribute>,
    /// Retained rows as (row index, raw text).
    pub data: Vec<(u64, String)>,
    /// Display lines, populated once the x-axis is known.
    pub lines: Option<Vec<String>>,
}

/// The mathematical image of a `Log`.
pub struct LogV {
    pub name: Seq<char>,
    pub name_base: Seq<char>,
    pub name_folder: Seq<char>,
    pub unit: Seq<char>,
    pub attrs: Seq<AttrV>,
    pub data: Seq<(u64, Seq<char>)>,
    pub lines: Option<Seq<Seq<char>>>,
}

impl View for Log {
    type V = LogV;

    open spec fn view(&self) -> LogV {
        LogV {
            name: self.name@,
            name_base: self.name_base@,
            name_folder: self.name_folder@,
            unit: self.unit@,
            attrs: attr_views(self.attrs@),
            data: self.data@.map_values(|p: (u64, String)| (p.0, p.1@)),
            lines: match &self.lines {
                Some(v) => Some(str_views(v@)),
                None => None,
            },
        }
    }
}

/// The images of a log list.
pub open spec fn log_views(s: Seq<Log>) -> Seq<LogV> {
    s.map_values(|l: Log| l@)
}

/// A free-standing name/value pair, not a time series.
#[derive(Debug)]
pub struct Value {
    /// Full hierarchical name.
    pub name: String,
    /// Everything after the last path separator.
    pub name_base: String,
    /// Everything before the last path separator; empty without one.
    pub name_folder: String,
    /// The displayed value text.
    pub value: String,
}

/// The mathematical image of a `Value`.
pub struct ValueV {
    pub name: Seq<char>,
    pub name_base: Seq<char>,
    pub name_folder: Seq<char>,
    pub value: Seq<char>,
}

impl View for Value {
    type V = ValueV;

    open spec fn view(&self) -> ValueV {
        ValueV {
            name: self.name@,
            name_base: self.name_base@,
            name_folder: self.name_folder@,
            value: self.value@,
        }
    }
}

/// The images of a value list.
pub open spec fn value_views(s: Seq<Value>) -> Seq<ValueV> {
    s.map_values(|v: Value| v@)
}

/// One channel record of a decoded header: raw directive tokens, unparsed.
#[derive(Debug, Clone)]
pub struct JSONTopic {
    pub name: String,
    pub unit: String,
    pub attrs: Vec<String>,
}

/// The mathematical image of a `JSONTopic`.
pub struct JTopicV {
    pub name: Seq<char>,
    pub unit: Seq<char>,
    pub attrs: Seq<Seq<char>>,
}

impl View for JSONTopic {
    type V = JTopicV;

    open spec fn view(&self) -> JTopicV {
        JTopicV { name: self.name@, unit: self.unit@, attrs: str_views(self.attrs@) }
    }
}

/// One value record of a decoded header.
#[derive(Debug, Clone)]
pub struct JSONValue {
    pub name: String,
    pub value: String,
}

/// The mathematical image of a `JSONValue`.
pub struct JValueV {
    pub name: Seq<char>,
    pub value: Seq<char>,
}

impl View for JSONValue {
    type V = JValueV;

    open spec fn view(&self) -> JValueV {
        JValueV { name: self.name@, value: self.value@ }
    }
}

/// A decoded header: the channel records and the value records.
#[derive(Debug, Clone)]
pub struct JSONHeader {
    pub topics: Vec<JSONTopic>,
    pub values: Vec<JSONValue>,
}

/// How an input file is read: with a leading header, or as bare columns.
#[derive(Debug)]
pub enum ParseMode {
    /// A header line precedes the value matrix.
    Bag(JSONHeader),
    /// Bare columns: every channel gets an empty attribute set.
    Csv,
}

impl ParseMode {
    /// The decoded header, if this mode carries one.
    pub fn get_header(&self) -> (r: Option<&JSONHeader>)
        ensures
            match self {
                ParseMode::Bag(h) => r matches Some(x) && x == h,
                ParseMode::Csv => r is None,
            },
    {
        match self {
            ParseMode::Bag(header) => Some(header),
            ParseMode::Csv => None,
        }
    }
}

/// An absent unit is normalized to the unitless sentinel.
pub open spec fn topic_unit(u: Seq<char>) -> Seq<char> {
    if u.len() == 0 {
        "ul"@
    } else {
        u
    }
}

/// The channel shell a header record yields, before samples are appended.
pub open spec fn topic_of_json(j: JTopicV, attrs: Seq<AttrV>) -> TopicV {
    TopicV {
        name: j.name,
        name_base: base_of(j.name),
        name_folder: folder_of(j.name),
        unit: topic_unit(j.unit),
        attrs,
        data: Seq::empty(),
    }
}

/// The attribute set and warnings collected from the first `i` directive
/// tokens.  An unrecognized token is dropped with a warning; a repeated
/// directive is dropped with a warning, the first occurrence winning; an
/// empty join target is fatal.
pub open spec fn collect_attrs_to(tokens: Seq<Seq<char>>, topic: Seq<char>, i: int) -> Result<
    (Seq<AttrV>, Seq<WarnV>),
    ErrV,
>
    decreases i,
{
    if i <= 0 {
        Ok((Seq::empty(), Seq::empty()))
    } else {
        match collect_attrs_to(tokens, topic, i - 1) {
            Err(e) => Err(e),
            Ok(acc) => {
                let t = tokens[i - 1];
                match parse_attr(t) {
                    Err(AttributeError::Unrecognized) => Ok(
                        (acc.0, acc.1.push(WarnV::UnrecognizedAttribute { token: t })),
                    ),
                    Err(AttributeError::EmptyJoinTarget) => Err(ErrV::EmptyJoinTarget { token: t }),
                    Ok(a) => if acc.0.contains(a) {
                        Ok((acc.0, acc.1.push(WarnV::DuplicateAttribute { token: t, topic })))
                    } else {
                        Ok((acc.0.push(a), acc.1))
                    },
                }
            },
        }
    }
}

/// The attribute set and warnings collected from all directive tokens.
pub open spec fn collect_attrs(tokens: Seq<Seq<char>>, topic: Seq<char>) -> Result<
    (Seq<AttrV>, Seq<WarnV>),
    ErrV,
> {
    collect_attrs_to(tokens, topic, tokens.len() as int)
}

/// Once the collection fails, later prefixes fail the same way.
proof fn lemma_collect_attrs_err(tokens: Seq<Seq<char>>, topic: Seq<char>, i: int, j: int)
    requires
        0 <= i <= j,
        collect_attrs_to(tokens, topic, i) is Err,
    ensures
        collect_attrs_to(tokens, topic, j) == collect_attrs_to(tokens, topic, i),
    decreases j - i,
{
    if j > i {
        lemma_collect_attrs_err(tokens, topic, i, j - 1);
    }
}

impl JSONTopic {
    /// Parses this record's directive tokens into an attribute set,
    /// dropping unknown tokens and duplicates with a warning each.
    pub fn get_attrs(&self) -> (r: Result<(Vec<Attribute>, Vec<Warning>), Error>)
        ensures
            match r {
                Ok(p) => collect_attrs(str_views(self.attrs@), self.name@) == Ok::<
                    (Seq<AttrV>, Seq<WarnV>),
                    ErrV,
                >((attr_views(p.0@), warn_views(p.1@))),
                Err(e) => collect_attrs(str_views(self.attrs@), self.name@) == Err::<
                    (Seq<AttrV>, Seq<WarnV>),
                    ErrV,
                >(e@),
            },
    {
        let ghost toks = str_views(self.attrs@);
        let mut attrs: Vec<Attribute> = Vec::new();
        let mut warns: Vec<Warning> = Vec::new();
        proof {
            assert(attr_views(attrs@) =~= Seq::<AttrV>::empty());
            assert(warn_views(warns@) =~= Seq::<WarnV>::empty());
        }
        let mut i: usize = 0;
        while i < self.attrs.len()
            invariant
                i <= self.attrs@.len(),
                toks == str_views(self.attrs@),
                toks.len() == self.attrs@.len(),
                collect_attrs_to(toks, self.name@, i as int) == Ok::<
                    (Seq<AttrV>, Seq<WarnV>),
                    ErrV,
                >((attr_views(attrs@), warn_views(warns@))),
            decreases self.attrs@.len() - i,
        {
            let token = &self.attrs[i];
            let ghost attrs_old = attrs@;
            let ghost warns_old = warns@;
            proof {
                assert(toks[i as int] == self.attrs@[i as int]@);
            }
            match Attribute::from(token.as_str()) {
                Err(AttributeError::Unrecognized) => {
                    warns.push(Warning::UnrecognizedAttribute { token: token.clone() });
                    proof {
                        assert(warn_views(warns@) =~= warn_views(warns_old).push(
                            WarnV::UnrecognizedAttribute { token: toks[i as int] },
                        ));
                    }
                },
                Err(AttributeError::EmptyJoinTarget) => {
                    proof {
                        assert(collect_attrs_to(toks, self.name@, i + 1) == Err::<
                            (Seq<AttrV>, Seq<WarnV>),
                            ErrV,
                        >(ErrV::EmptyJoinTarget { token: toks[i as int] }));
                        lemma_collect_attrs_err(toks, self.name@, i + 1, toks.len() as int);
                    }
                    return Err(Error::EmptyJoinTarget { token: token.clone() });
                },
                Ok(a) => {
                    if contains_attr(&attrs, &a) {
                        let w = Warning::DuplicateAttribute {
                            token: token.clone(),
                            topic: self.name.clone(),
                        };
                        warns.push(w);
                        proof {
                            assert(warn_views(warns@) =~= warn_views(warns_old).push(
                                WarnV::DuplicateAttribute {
                                    token: toks[i as int],
                                    topic: self.name@,
                                },
                            ));
                        }
                    } else {
                        attrs.push(a);
                        proof {
                            assert(attr_views(attrs@) =~= attr_views(attrs_old).push(a@));
                        }
                    }
                },
            }
            proof {
                assert(collect_attrs_to(toks, self.name@, i + 1) == Ok::<
                    (Seq<AttrV>, Seq<WarnV>),
                    ErrV,
                >((attr_views(attrs@), warn_views(warns@))));
            }
            i = i + 1;
        }
        Ok((attrs, warns))
    }
}

impl Value {
    /// Builds a value record, splitting its name into folder and base.
    pub fn from_json(value: &JSONValue) -> (r: Value)
        ensures
            r@ == (ValueV {
                name: value.name@,
                name_base: base_of(value.name@),
                name_folder: folder_of(value.name@),
                value: value.value@,
            }),
    {
        let (folder, base) = split_name(value.name.as_str());
        Value {
            name: value.name.clone(),
            name_base: base,
            name_folder: folder,
            value: value.value.clone(),
        }
    }
}

impl Topic {
    /// Builds a channel shell from a header record: the name split, the
    /// unit normalized, the directive tokens parsed, no samples yet.
    pub fn from_json(topic: &JSONTopic) -> (r: Result<(Topic, Vec<Warning>), Error>)
        ensures
            match r {
                Ok(p) => {
                    &&& collect_attrs(str_views(topic.attrs@), topic.name@) == Ok::<
                        (Seq<AttrV>, Seq<WarnV>),
                        ErrV,
                    >((attr_views(p.0.attrs@), warn_views(p.1@)))
                    &&& p.0@ == topic_of_json(topic@, attr_views(p.0.attrs@))
                },
                Err(e) => collect_attrs(str_views(topic.attrs@), topic.name@) == Err::<
                    (Seq<AttrV>, Seq<WarnV>),
                    ErrV,
                >(e@),
            },
    {
        let (folder, base) = split_name(topic.name.as_str());
        let unit = if topic.unit.unicode_len() == 0 {
            let mut u = String::new();
            proof {
                reveal_strlit("ul");
            }
            u.append("ul");
            proof {
                assert(u@ =~= "ul"@);
            }
            u
        } else {
            topic.unit.clone()
        };
        let (attrs, warns) = match topic.get_attrs() {
            Ok(p) => p,
            Err(e) => {
                return Err(e);
            },
        };
        Ok(
            (
                Topic {
                    name: topic.name.clone(),
                    name_base: base,
                    name_folder: folder,
                    unit,
                    attrs,
                    data: Vec::new(),
                },
                warns,
            ),
        )
    }

    /// Whether sample filling is skipped entirely: the channel's only
    /// directive hides it, so its cells are never even parsed.
    pub fn skips_fill(&self) -> (b: bool)
        ensures
            b == (self@.attrs.len() == 1 && self@.attrs[0] is Hide),
    {
        self.attrs.len() == 1 && self.attrs[0].matches(&Attribute::Hide)
    }

    /// Appends a run of samples, unless the channel is hidden-only.
    pub fn fill(&mut self, data: &Vec<i64>)
        ensures
            final(self)@ == (TopicV {
                data: if old(self)@.attrs.len() == 1 && old(self)@.attrs[0] is Hide {
                    old(self)@.data
                } else {
                    old(self)@.data + data@
                },
                ..old(self)@
            }),
    {
        if self.skips_fill() {
            return ;
        }
        let mut i: usize = 0;
        while i < data.len()
            invariant
                i <= data@.len(),
                self@ == (TopicV { data: old(self)@.data + data@.take(i as int), ..old(self)@ }),
            decreases data@.len() - i,
        {
            self.data.push(data[i]);
            proof {
                assert(old(self)@.data + data@.take(i + 1) =~= (old(self)@.data + data@.take(
                    i as int,
                )).push(data@[i as int]));
            }
            i = i + 1;
        }
        proof {
            assert(data@.take(data@.len() as int) =~= data@);
        }
    }
}

impl Log {
    /// Rewraps a channel shell as a log shell.
    pub fn from_topic(topic: Topic) -> (r: Log)
        ensures
            r@ == (LogV {
                name: topic@.name,
                name_base: base_of(topic@.name),
                name_folder: folder_of(topic@.name),
                unit: topic_unit(topic@.unit),
                attrs: topic@.attrs,
                data: Seq::empty(),
                lines: None,
            }),
    {
        let (folder, base) = split_name(topic.name.as_str());
        let unit = if topic.unit.unicode_len() == 0 {
            let mut u = String::new();
            proof {
                reveal_strlit("ul");
            }
            u.append("ul");
            proof {
                assert(u@ =~= "ul"@);
            }
            u
        } else {
            topic.unit.clone()
        };
        let log = Log {
            name: topic.name.clone(),
            name_base: base,
            name_folder: folder,
            unit,
            attrs: topic.attrs,
            data: Vec::new(),
            lines: None,
        };
        proof {
            assert(log@.data =~= Seq::<(u64, Seq<char>)>::empty());
        }
        log
    }
}

/// The rows of a filled log: each non-numeric cell kept with its row index.
pub open spec fn log_rows_to(d: Seq<Seq<char>>, m: Seq<bool>, i: int) -> Seq<(u64, Seq<char>)>
    decreases i,
{
    if i <= 0 {
        Seq::empty()
    } else if !m[i - 1] {
        log_rows_to(d, m, i - 1).push(((i - 1) as u64, d[i - 1]))
    } else {
        log_rows_to(d, m, i - 1)
    }
}

/// The display line of one retained log row under the resolved axis.
pub open spec fn line_of(row: (u64, Seq<char>), xa: XAxisV) -> Seq<char> {
    match xa.data {
        Some(d) => "["@ + int_str(d[row.0 as int] as int) + " "@ + xa.unit + "] "@ + row.1,
        None => "["@ + dec_str(row.0 as nat) + "] "@ + row.1,
    }
}

/// The display lines of the first `i` retained rows; empty texts dropped.
pub open spec fn log_lines_to(rows: Seq<(u64, Seq<char>)>, xa: XAxisV, i: int) -> Seq<Seq<char>>
    decreases i,
{
    if i <= 0 {
        Seq::empty()
    } else if rows[i - 1].1.len() == 0 {
        log_lines_to(rows, xa, i - 1)
    } else {
        log_lines_to(rows, xa, i - 1).push(line_of(rows[i - 1], xa))
    }
}

impl Log {
    /// Retains the rows whose cells failed numeric parsing, each with its
    /// row index; `numeric` holds the parse outcome per cell.
    pub fn fill(&mut self, data: &Vec<String>, numeric: &Vec<bool>)
        requires
            data@.len() == numeric@.len(),
        ensures
            final(self)@ == (LogV {
                data: old(self)@.data + log_rows_to(
                    str_views(data@),
                    numeric@,
                    data@.len() as int,
                ),
                ..old(self)@
            }),
    {
        let ghost d = str_views(data@);
        let mut i: usize = 0;
        while i < data.len()
            invariant
                i <= data@.len(),
                data@.len() == numeric@.len(),
                d == str_views(data@),
                d.len() == data@.len(),
                self@ == (LogV {
                    data: old(self)@.data + log_rows_to(d, numeric@, i as int),
                    ..old(self)@
                }),
            decreases data@.len() - i,
        {
            let ghost rows_old = self@.data;
            if !numeric[i] {
                self.data.push((i as u64, data[i].clone()));
                proof {
                    assert(self@.data =~= rows_old.push((i as u64, data@[i as int]@)));
                    assert(old(self)@.data + log_rows_to(d, numeric@, i + 1) =~= rows_old.push(
                        ((i as u64), d[i as int]),
                    ));
                }
            }
            i = i + 1;
        }
    }

    /// Converts the retained rows into display lines annotated with the
    /// resolved x-value (or the bare row index for the synthetic axis).
    /// Rows with empty text carry no information and are dropped.
    pub fn apply_xaxis(&mut self, xaxis: &XAxis)
        requires
            match old(self).lines {
                Some(_) => false,
                None => true,
            },
            match xaxis@.data {
                Some(d) => forall|k: int|
                    0 <= k < old(self)@.data.len() ==> (old(self)@.data[k].0 as int) < d.len(),
                None => true,
            },
        ensures
            final(self)@ == (LogV {
                lines: Some(
                    log_lines_to(old(self)@.data, xaxis@, old(self)@.data.len() as int),
                ),
                ..old(self)@
            }),
    {
        let ghost rows = self@.data;
        let mut lines: Vec<String> = Vec::new();
        let n = self.data.len();
        let mut i: usize = 0;
        while i < n
            invariant
                i <= n,
                self == old(self),
                n == self.data@.len(),
                rows == self@.data,
                rows.len() == n,
                match xaxis@.data {
                    Some(d) => forall|k: int| 0 <= k < rows.len() ==> (rows[k].0 as int) < d.len(),
                    None => true,
                },
                str_views(lines@) == log_lines_to(rows, xaxis@, i as int),
            decreases n - i,
        {
            let ghost lines_old = lines@;
            let row_index: u64 = self.data[i].0;
            proof {
                assert(rows[i as int] == (self.data@[i as int].0, self.data@[i as int].1@));
            }
            if self.data[i].1.unicode_len() != 0 {
                let mut s = String::new();
                s.append("[");
                match &xaxis.data {
                    Some(d) => {
                        let dlen = d.len();
                        proof {
                            assert((rows[i as int].0 as int) < d@.len());
                            assert((row_index as int) < (dlen as int));
                        }
                        s.append(fmt_i64(d[row_index as usize]).as_str());
                        s.append(" ");
                        s.append(xaxis.unit.as_str());
                    },
                    None => {
                        s.append(fmt_u64(row_index).as_str());
                    },
                }
                s.append("] ");
                s.append(self.data[i].1.as_str());
                proof {
                    assert(rows[i as int].0 == row_index);
                    assert(rows[i as int].1 == self.data@[i as int].1@);
                    match xaxis@.data {
                        Some(dd) => {
                            assert(s@ =~= "["@ + int_str(dd[row_index as int] as int) + " "@
                                + xaxis@.unit + "] "@ + self.data@[i as int].1@);
                        },
                        None => {
                            assert(s@ =~= "["@ + dec_str(row_index as nat) + "] "@
                                + self.data@[i as int].1@);
                        },
                    }
                    assert(s@ =~= line_of(rows[i as int], xaxis@));
                }
                lines.push(s);
                proof {
                    assert(str_views(lines@) =~= str_views(lines_old).push(
                        line_of(rows[i as int], xaxis@),
                    ));
                }
            }
            i = i + 1;
        }
        self.lines = Some(lines);
    }
}

/// The index of the first of `i` accumulated values named `name`, or `-1`.
pub open spec fn find_val_to(acc: Seq<ValueV>, name: Seq<char>, i: int) -> int
    decreases i,
{
    if i <= 0 {
        -1
    } else if find_val_to(acc, name, i - 1) >= 0 {
        find_val_to(acc, name, i - 1)
    } else if acc[i - 1].name == name {
        i - 1
    } else {
        -1
    }
}

/// The index of the first accumulated value named `name`, or `-1`.
pub open spec fn find_val(acc: Seq<ValueV>, name: Seq<char>) -> int {
    find_val_to(acc, name, acc.len() as int)
}

/// A found index stays found as the scan extends.
proof fn lemma_find_val_stable(acc: Seq<ValueV>, name: Seq<char>, i: int, j: int)
    requires
        0 <= i <= j,
        find_val_to(acc, name, i) >= 0,
    ensures
        find_val_to(acc, name, j) == find_val_to(acc, name, i),
    decreases j - i,
{
    if j > i {
        lemma_find_val_stable(acc, name, i, j - 1);
    }
}

/// The value list and warnings collected from the first `i` records.  A
/// name repeated with an identical value is dropped with a warning; with a
/// differing value it is fatal.
pub open spec fn collect_values_to(vals: Seq<JValueV>, i: int) -> Result<
    (Seq<ValueV>, Seq<WarnV>),
    ErrV,
>
    decreases i,
{
    if i <= 0 {
        Ok((Seq::empty(), Seq::empty()))
    } else {
        match collect_values_to(vals, i - 1) {
            Err(e) => Err(e),
            Ok(acc) => {
                let v = vals[i - 1];
                let j = find_val(acc.0, v.name);
                if j >= 0 {
                    if acc.0[j].value == v.value {
                        Ok((acc.0, acc.1.push(WarnV::DuplicateValueIgnored { name: v.name })))
                    } else {
                        Err(ErrV::DuplicateValue { name: v.name })
                    }
                } else {
                    Ok(
                        (
                            acc.0.push(
                                ValueV {
                                    name: v.name,
                                    name_base: base_of(v.name),
                                    name_folder: folder_of(v.name),
                                    value: v.value,
                                },
                            ),
                            acc.1,
                        ),
                    )
                }
            },
        }
    }
}

/// The images of the value records.
pub open spec fn jvalue_views(s: Seq<JSONValue>) -> Seq<JValueV> {
    s.map_values(|v: JSONValue| v@)
}

/// The images of the channel records.
pub open spec fn jtopic_views(s: Seq<JSONTopic>) -> Seq<JTopicV> {
    s.map_values(|t: JSONTopic| t@)
}

/// Once the value collection fails, later prefixes fail the same way.
proof fn lemma_collect_values_err(vals: Seq<JValueV>, i: int, j: int)
    requires
        0 <= i <= j,
        collect_values_to(vals, i) is Err,
    ensures
        collect_values_to(vals, j) == collect_values_to(vals, i),
    decreases j - i,
{
    if j > i {
        lemma_collect_values_err(vals, i, j - 1);
    }
}

/// Scans the accumulated values for one with the given name.
fn find_value_index(values: &Vec<Value>, name: &str) -> (r: Option<usize>)
    ensures
        match r {
            Some(j) => j < values@.len() && find_val(value_views(values@), name@) == j,
            None => find_val(value_views(values@), name@) == -1,
        },
{
    let ghost vacc = value_views(values@);
    let mut t: usize = 0;
    while t < values.len()
        invariant
            t <= values@.len(),
            vacc == value_views(values@),
            vacc.len() == values@.len(),
            find_val_to(vacc, name@, t as int) == -1,
        decreases values@.len() - t,
    {
        proof {
            assert(vacc[t as int] == values@[t as int]@);
        }
        if str_eq_str(values[t].name.as_str(), name) {
            proof {
                assert(find_val_to(vacc, name@, t + 1) == t);
                lemma_find_val_stable(vacc, name@, t + 1, vacc.len() as int);
            }
            return Some(t);
        }
        t = t + 1;
    }
    None
}

impl JSONHeader {
    /// Collects the value records, deduplicating repeated names with
    /// identical values and failing on repeated names with differing ones.
    pub fn get_values(&self) -> (r: Result<(Vec<Value>, Vec<Warning>), Error>)
        ensures
            match r {
                Ok(p) => collect_values_to(jvalue_views(self.values@), self.values@.len() as int)
                    == Ok::<(Seq<ValueV>, Seq<WarnV>), ErrV>(
                    (value_views(p.0@), warn_views(p.1@)),
                ),
                Err(e) => collect_values_to(jvalue_views(self.values@), self.values@.len() as int)
                    == Err::<(Seq<ValueV>, Seq<WarnV>), ErrV>(e@),
            },
    {
        let ghost jvals = jvalue_views(self.values@);
        let mut values: Vec<Value> = Vec::new();
        let mut warns: Vec<Warning> = Vec::new();
        proof {
            assert(value_views(values@) =~= Seq::<ValueV>::empty());
            assert(warn_views(warns@) =~= Seq::<WarnV>::empty());
        }
        let mut i: usize = 0;
        while i < self.values.len()
            invariant
                i <= self.values@.len(),
                jvals == jvalue_views(self.values@),
                jvals.len() == self.values@.len(),
                collect_values_to(jvals, i as int) == Ok::<(Seq<ValueV>, Seq<WarnV>), ErrV>(
                    (value_views(values@), warn_views(warns@)),
                ),
            decreases self.values@.len() - i,
        {
            let value = &self.values[i];
            let ghost vacc = value_views(values@);
            let ghost wacc = warn_views(warns@);
            proof {
                assert(jvals[i as int] == self.values@[i as int]@);
            }
            let found = find_value_index(&values, value.name.as_str());
            match found {
                Some(j) => {
                    if str_eq_str(values[j].value.as_str(), value.value.as_str()) {
                        warns.push(Warning::DuplicateValueIgnored { name: value.name.clone() });
                        proof {
                            assert(values@[j as int]@ == vacc[j as int]);
                            assert(warn_views(warns@) =~= wacc.push(
                                WarnV::DuplicateValueIgnored { name: value@.name },
                            ));
                        }
                    } else {
                        proof {
                            assert(values@[j as int]@ == vacc[j as int]);
                            assert(collect_values_to(jvals, i + 1) == Err::<
                                (Seq<ValueV>, Seq<WarnV>),
                                ErrV,
                            >(ErrV::DuplicateValue { name: value@.name }));
                            lemma_collect_values_err(jvals, i + 1, jvals.len() as int);
                        }
                        return Err(Error::DuplicateValue { name: value.name.clone() });
                    }
                },
                None => {
                    values.push(Value::from_json(value));
                    proof {
                        assert(value_views(values@) =~= vacc.push(values@.last()@));
                    }
                },
            }
            proof {
                assert(collect_values_to(jvals, i + 1) == Ok::<(Seq<ValueV>, Seq<WarnV>), ErrV>(
                    (value_views(values@), warn_views(warns@)),
                ));
            }
            i = i + 1;
        }
        Ok((values, warns))
    }
}

/// Whether one of the accumulated channels already bears `name`.
pub open spec fn topics_have_name(acc: Seq<TopicV>, name: Seq<char>) -> bool {
    exists|k: int| 0 <= k < acc.len() && acc[k].name == name
}

/// The log shell a channel shell turns into.
pub open spec fn log_of_topic(t: TopicV) -> LogV {
    LogV {
        name: t.name,
        name_base: base_of(t.name),
        name_folder: folder_of(t.name),
        unit: topic_unit(t.unit),
        attrs: t.attrs,
        data: Seq::empty(),
        lines: None,
    }
}

/// The channel and log shells built from the first `i` header records.
/// A repeated channel name is fatal; a log channel with any directive
/// beside the log marker is fatal.
pub open spec fn shells_to(jts: Seq<JTopicV>, i: int) -> Result<
    (Seq<TopicV>, Seq<LogV>, Seq<WarnV>),
    ErrV,
>
    decreases i,
{
    if i <= 0 {
        Ok((Seq::empty(), Seq::empty(), Seq::empty()))
    } else {
        match shells_to(jts, i - 1) {
            Err(e) => Err(e),
            Ok(acc) => {
                let jt = jts[i - 1];
                if topics_have_name(acc.0, jt.name) {
                    Err(ErrV::DuplicateTopic { name: jt.name })
                } else {
                    match collect_attrs(jt.attrs, jt.name) {
                        Err(e) => Err(e),
                        Ok(aw) => {
                            let t = topic_of_json(jt, aw.0);
                            if aw.0.contains(AttrV::Log) {
                                if aw.0.len() > 1 {
                                    Err(ErrV::LogExtraAttributes { name: jt.name })
                                } else {
                                    Ok((acc.0, acc.1.push(log_of_topic(t)), acc.2 + aw.1))
                                }
                            } else {
                                Ok((acc.0.push(t), acc.1, acc.2 + aw.1))
                            }
                        },
                    }
                }
            },
        }
    }
}

/// Once shell building fails, later prefixes fail the same way.
proof fn lemma_shells_err(jts: Seq<JTopicV>, i: int, j: int)
    requires
        0 <= i <= j,
        shells_to(jts, i) is Err,
    ensures
        shells_to(jts, j) == shells_to(jts, i),
    decreases j - i,
{
    if j > i {
        lemma_shells_err(jts, i, j - 1);
    }
}

/// Scans the accumulated channels for one named `name`.
fn topics_name_taken(topics: &Vec<Topic>, name: &str) -> (r: bool)
    ensures
        r == topics_have_name(topic_views(topics@), name@),
{
    let ghost acc = topic_views(topics@);
    let mut k: usize = 0;
    while k < topics.len()
        invariant
            k <= topics@.len(),
            acc == topic_views(topics@),
            acc.len() == topics@.len(),
            forall|m: int| 0 <= m < k ==> acc[m].name != name@,
        decreases topics@.len() - k,
    {
        proof {
            assert(acc[k as int] == topics@[k as int]@);
        }
        if str_eq_str(topics[k].name.as_str(), name) {
            return true;
        }
        k = k + 1;
    }
    false
}

impl JSONHeader {
    /// Builds the channel and log shells from the header records,
    /// splitting off log channels and rejecting duplicates.
    pub fn get_stream_shells(&self) -> (r: Result<(Vec<Topic>, Vec<Log>, Vec<Warning>), Error>)
        ensures
            match r {
                Ok(p) => shells_to(jtopic_views(self.topics@), self.topics@.len() as int) == Ok::<
                    (Seq<TopicV>, Seq<LogV>, Seq<WarnV>),
                    ErrV,
                >((topic_views(p.0@), log_views(p.1@), warn_views(p.2@))),
                Err(e) => shells_to(jtopic_views(self.topics@), self.topics@.len() as int)
                    == Err::<(Seq<TopicV>, Seq<LogV>, Seq<WarnV>), ErrV>(e@),
            },
    {
        let ghost jts = jtopic_views(self.topics@);
        let mut topics: Vec<Topic> = Vec::new();
        let mut logs: Vec<Log> = Vec::new();
        let mut warns: Vec<Warning> = Vec::new();
        proof {
            assert(topic_views(topics@) =~= Seq::<TopicV>::empty());
            assert(log_views(logs@) =~= Seq::<LogV>::empty());
            assert(warn_views(warns@) =~= Seq::<WarnV>::empty());
        }
        let mut i: usize = 0;
        while i < self.topics.len()
            invariant
                i <= self.topics@.len(),
                jts == jtopic_views(self.topics@),
                jts.len() == self.topics@.len(),
                shells_to(jts, i as int) == Ok::<(Seq<TopicV>, Seq<LogV>, Seq<WarnV>), ErrV>(
                    (topic_views(topics@), log_views(logs@), warn_views(warns@)),
                ),
            decreases self.topics@.len() - i,
        {
            let jt = &self.topics[i];
            let ghost tacc = topic_views(topics@);
            let ghost lacc = log_views(logs@);
            let ghost wacc = warn_views(warns@);
            proof {
                assert(jts[i as int] == self.topics@[i as int]@);
            }
            if topics_name_taken(&topics, jt.name.as_str()) {
                proof {
                    assert(shells_to(jts, i + 1) == Err::<
                        (Seq<TopicV>, Seq<LogV>, Seq<WarnV>),
                        ErrV,
                    >(ErrV::DuplicateTopic { name: jt@.name }));
                    lemma_shells_err(jts, i + 1, jts.len() as int);
                }
                return Err(Error::DuplicateTopic { name: jt.name.clone() });
            }
            let (topic, mut ws) = match Topic::from_json(jt) {
                Ok(p) => p,
                Err(e) => {
                    proof {
                        assert(shells_to(jts, i + 1) == Err::<
                            (Seq<TopicV>, Seq<LogV>, Seq<WarnV>),
                            ErrV,
                        >(e@));
                        lemma_shells_err(jts, i + 1, jts.len() as int);
                    }
                    return Err(e);
                },
            };
            let ghost wsv = warn_views(ws@);
            if contains_attr(&topic.attrs, &Attribute::Log) {
                if topic.attrs.len() > 1 {
                    proof {
                        assert(attr_views(topic.attrs@).len() == topic.attrs@.len());
                        assert(shells_to(jts, i + 1) == Err::<
                            (Seq<TopicV>, Seq<LogV>, Seq<WarnV>),
                            ErrV,
                        >(ErrV::LogExtraAttributes { name: jt@.name }));
                        lemma_shells_err(jts, i + 1, jts.len() as int);
                    }
                    return Err(Error::LogExtraAttributes { name: topic.name.clone() });
                }
                logs.push(Log::from_topic(topic));
                warns.append(&mut ws);
                proof {
                    reveal_strlit("ul");
                    assert(log_views(logs@) =~= lacc.push(logs@.last()@));
                    assert(warn_views(warns@) =~= wacc + wsv);
                }
            } else {
                topics.push(topic);
                warns.append(&mut ws);
                proof {
                    assert(topic_views(topics@) =~= tacc.push(topics@.last()@));
                    assert(warn_views(warns@) =~= wacc + wsv);
                }
            }
            proof {
                assert(shells_to(jts, i + 1) == Ok::<(Seq<TopicV>, Seq<LogV>, Seq<WarnV>), ErrV>(
                    (topic_views(topics@), log_views(logs@), warn_views(warns@)),
                ));
            }
            i = i + 1;
        }
        Ok((topics, logs, warns))
    }
}

/// The images of the rows of a value matrix.
pub open spec fn row_views(rs: Seq<Vec<String>>) -> Seq<Seq<Seq<char>>> {
    rs.map_values(|r: Vec<String>| str_views(r@))
}

/// The images of a column list.
pub open spec fn col_views(cs: Seq<(String, Vec<String>)>) -> Seq<(Seq<char>, Seq<Seq<char>>)> {
    cs.map_values(|c: (String, Vec<String>)| (c.0@, str_views(c.1@)))
}

/// The index of the first of `i` rows whose width differs from `w`, or `-1`.
pub open spec fn first_bad_row_to(rs: Seq<Seq<Seq<char>>>, w: int, i: int) -> int
    decreases i,
{
    if i <= 0 {
        -1
    } else if first_bad_row_to(rs, w, i - 1) >= 0 {
        first_bad_row_to(rs, w, i - 1)
    } else if rs[i - 1].len() != w {
        i - 1
    } else {
        -1
    }
}

/// Column `j` of a row-major matrix.
pub open spec fn column_of(rs: Seq<Seq<Seq<char>>>, j: int) -> Seq<Seq<char>> {
    Seq::new(rs.len(), |k: int| rs[k][j])
}

/// The columns of a value matrix, each under its header cell.
pub open spec fn transpose(header: Seq<Seq<char>>, rs: Seq<Seq<Seq<char>>>) -> Seq<
    (Seq<char>, Seq<Seq<char>>),
> {
    Seq::new(header.len(), |j: int| (header[j], column_of(rs, j)))
}

/// A found bad row stays found as the scan extends.
proof fn lemma_first_bad_row_stable(rs: Seq<Seq<Seq<char>>>, w: int, i: int, j: int)
    requires
        0 <= i <= j,
        first_bad_row_to(rs, w, i) >= 0,
    ensures
        first_bad_row_to(rs, w, j) == first_bad_row_to(rs, w, i),
    decreases j - i,
{
    if j > i {
        lemma_first_bad_row_stable(rs, w, i, j - 1);
    }
}

/// With no bad row among the first `i`, every one of them has width `w`.
proof fn lemma_no_bad_row(rs: Seq<Seq<Seq<char>>>, w: int, i: int)
    requires
        first_bad_row_to(rs, w, i) == -1,
    ensures
        forall|k: int| 0 <= k < i ==> rs[k].len() == w,
    decreases i,
{
    if i > 0 {
        lemma_no_bad_row(rs, w, i - 1);
    }
}

/// Splits a row-major value matrix into its columns, each under its header
/// cell.  A row whose width differs from the header's is fatal; the first
/// such row is reported.
pub fn column_wise_csv_parse(header: Vec<String>, rows: Vec<Vec<String>>) -> (r: Result<
    Vec<(String, Vec<String>)>,
    Error,
>)
    ensures
        match r {
            Ok(cols) => first_bad_row_to(row_views(rows@), header@.len() as int, rows@.len() as int)
                == -1 && col_views(cols@) == transpose(str_views(header@), row_views(rows@)),
            Err(e) => {
                let bad = first_bad_row_to(
                    row_views(rows@),
                    header@.len() as int,
                    rows@.len() as int,
                );
                &&& bad >= 0
                &&& e@ == (ErrV::RowLengthMismatch {
                    found: row_views(rows@)[bad].len(),
                    expected: header@.len(),
                })
            },
        },
{
    let ghost rv = row_views(rows@);
    let ghost w = header@.len() as int;
    let mut k: usize = 0;
    while k < rows.len()
        invariant
            k <= rows@.len(),
            rv == row_views(rows@),
            rv.len() == rows@.len(),
            w == header@.len(),
            first_bad_row_to(rv, w, k as int) == -1,
        decreases rows@.len() - k,
    {
        proof {
            assert(rv[k as int] == str_views(rows@[k as int]@));
        }
        if rows[k].len() != header.len() {
            proof {
                assert(first_bad_row_to(rv, w, k + 1) == k);
                lemma_first_bad_row_stable(rv, w, k + 1, rv.len() as int);
            }
            return Err(Error::RowLengthMismatch { found: rows[k].len(), expected: header.len() });
        }
        k = k + 1;
    }
    proof {
        lemma_no_bad_row(rv, w, rv.len() as int);
    }
    let mut output: Vec<(String, Vec<String>)> = Vec::new();
    proof {
        assert(col_views(output@) =~= Seq::<(Seq<char>, Seq<Seq<char>>)>::empty());
    }
    let mut j: usize = 0;
    while j < header.len()
        invariant
            j <= header@.len(),
            rv == row_views(rows@),
            rv.len() == rows@.len(),
            w == header@.len(),
            forall|m: int| 0 <= m < rv.len() ==> rv[m].len() == w,
            col_views(output@) == transpose(str_views(header@), rv).take(j as int),
        decreases header@.len() - j,
    {
        let ghost cols_old = col_views(output@);
        let mut col: Vec<String> = Vec::new();
        let mut k: usize = 0;
        while k < rows.len()
            invariant
                k <= rows@.len(),
                j < header@.len(),
                rv == row_views(rows@),
                rv.len() == rows@.len(),
                w == header@.len(),
                forall|m: int| 0 <= m < rv.len() ==> rv[m].len() == w,
                str_views(col@) == column_of(rv, j as int).take(k as int),
            decreases rows@.len() - k,
        {
            proof {
                assert(rv[k as int] == str_views(rows@[k as int]@));
                assert(rv[k as int][j as int] == rows@[k as int]@[j as int]@);
            }
            col.push(rows[k][j].clone());
            proof {
                assert(str_views(col@) =~= column_of(rv, j as int).take(k as int).push(
                    rv[k as int][j as int],
                ));
                assert(column_of(rv, j as int).take(k + 1) =~= column_of(rv, j as int).take(
                    k as int,
                ).push(rv[k as int][j as int]));
            }
            k = k + 1;
        }
        proof {
            assert(column_of(rv, j as int).take(rv.len() as int) =~= column_of(rv, j as int));
        }
        output.push((header[j].clone(), col));
        proof {
            assert(col_views(output@) =~= cols_old.push(
                (str_views(header@)[j as int], column_of(rv, j as int)),
            ));
            assert(transpose(str_views(header@), rv).take(j + 1) =~= transpose(
                str_views(header@),
                rv,
            ).take(j as int).push((str_views(header@)[j as int], column_of(rv, j as int))));
        }
        j = j + 1;
    }
    proof {
        assert(transpose(str_views(header@), rv).take(header@.len() as int) =~= transpose(
            str_views(header@),
            rv,
        ));
    }
    Ok(output)
}

/// How many of the first `i` columns bear `name`.
pub open spec fn count_cols_to(cols: Seq<(Seq<char>, Seq<Seq<char>>)>, name: Seq<char>, i: int) -> int
    decreases i,
{
    if i <= 0 {
        0
    } else {
        count_cols_to(cols, name, i - 1) + if cols[i - 1].0 == name {
            1int
        } else {
            0int
        }
    }
}

/// The index of the last of the first `i` columns bearing `name`, or `-1`.
pub open spec fn last_col_to(cols: Seq<(Seq<char>, Seq<Seq<char>>)>, name: Seq<char>, i: int) -> int
    decreases i,
{
    if i <= 0 {
        -1
    } else if cols[i - 1].0 == name {
        i - 1
    } else {
        last_col_to(cols, name, i - 1)
    }
}

/// Finds the one column that bears a channel's name.  A channel with no
/// matching column, or with several, is fatal.
pub fn find_column(body: &Vec<(String, Vec<String>)>, name: &str) -> (r: Result<usize, Error>)
    ensures
        ({
            let cols = col_views(body@);
            let n = count_cols_to(cols, name@, cols.len() as int);
            match r {
                Ok(j) => n == 1 && j == last_col_to(cols, name@, cols.len() as int)
                    && cols[j as int].0 == name@,
                Err(e) => match e@ {
                    ErrV::MissingColumn { name: en } => n == 0 && en == name@,
                    ErrV::DuplicateColumn { name: en } => n >= 2 && en == name@,
                    _ => false,
                },
            }
        }),
{
    let ghost cols = col_views(body@);
    let mut count: usize = 0;
    let mut found: usize = 0;
    let mut k: usize = 0;
    while k < body.len()
        invariant
            k <= body@.len(),
            cols == col_views(body@),
            cols.len() == body@.len(),
            count as int == count_cols_to(cols, name@, k as int),
            count as int <= k as int,
            count > 0 ==> found < k && found as int == last_col_to(cols, name@, k as int)
                && cols[found as int].0 == name@,
            count == 0 ==> last_col_to(cols, name@, k as int) == -1,
        decreases body@.len() - k,
    {
        proof {
            assert(cols[k as int] == (body@[k as int].0@, str_views(body@[k as int].1@)));
        }
        if str_eq_str(body[k].0.as_str(), name) {
            count = count + 1;
            found = k;
        }
        k = k + 1;
    }
    if count == 0 {
        Err(Error::MissingColumn { name: name.to_owned() })
    } else if count > 1 {
        Err(Error::DuplicateColumn { name: name.to_owned() })
    } else {
        Ok(found)
    }
}

/// Everything read from one input file, ready for derivation.
#[derive(Debug)]
pub struct Input {
    /// The numeric channels, in header order.
    pub topics: Vec<Topic>,
    /// The log channels, in header order.
    pub logs: Vec<Log>,
    /// The free-standing values, deduplicated.
    pub values: Vec<Value>,
    /// The raw header line, kept for display.
    pub json_header_text: Option<String>,
    /// The raw value matrix text, kept for embedding.
    pub csv_text: String,
}

} // verus!
