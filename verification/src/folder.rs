//! The grouping stage: graphs, values and logs are partitioned into named
//! folders by the hierarchical prefix of their names, and the folder list
//! is sorted case-insensitively.
//!
//! A folder is created the first time its name occurs, and every item lands
//! in the folder whose name equals the item's folder prefix, in input
//! order.  The final folder order depends only on the folder names, not on
//! the order in which they were created.

use vstd::multiset::Multiset;
use vstd::prelude::*;
use vstd::seq_lib::*;
use vstd::string::*;

use crate::graph::{graph_views, Graph, GraphV};
use crate::input::{log_views, value_views, Log, LogV, Value, ValueV};
use crate::util::str_eq_str;

verus! {

/// A display bucket: the values, logs and graphs sharing one name prefix.
#[derive(Debug)]
pub struct Folder {
    /// The shared hierarchical prefix; empty for the ungrouped bucket.
    pub name: String,
    /// The free-standing values of this folder.
    pub table: Vec<Value>,
    /// The text logs of this folder.
    pub logs: Vec<Log>,
    /// The graphs of this folder.
    pub graphs: Vec<Graph>,
}

/// The mathematical image of a `Folder`.
pub struct FolderV {
    pub name: Seq<char>,
    pub table: Seq<ValueV>,
    pub logs: Seq<LogV>,
    pub graphs: Seq<GraphV>,
}

impl View for Folder {
    type V = FolderV;

    open spec fn view(&self) -> FolderV {
        FolderV {
            name: self.name@,
            table: value_views(self.table@),
            logs: log_views(self.logs@),
            graphs: graph_views(self.graphs@),
        }
    }
}

/// The images of a folder list.
pub open spec fn folder_views(s: Seq<Folder>) -> Seq<FolderV> {
    s.map_values(|f: Folder| f@)
}

/// An upper-case ASCII letter mapped to its lower-case form; all other
/// characters unchanged.
pub open spec fn lower_char(c: char) -> char {
    if 65 <= (c as u32) && (c as u32) <= 90 {
        (((c as u32) + 32) as u8) as char
    } else {
        c
    }
}

/// A character sequence lowered character by character.
pub open spec fn lower_seq(s: Seq<char>) -> Seq<char> {
    s.map_values(|c: char| lower_char(c))
}

/// Lexicographic order on character sequences, by code point.
pub open spec fn lex_le(a: Seq<char>, b: Seq<char>) -> bool
    decreases a.len(),
{
    if a.len() == 0 {
        true
    } else if b.len() == 0 {
        false
    } else if a[0] == b[0] {
        lex_le(a.drop_first(), b.drop_first())
    } else {
        (a[0] as u32) < (b[0] as u32)
    }
}

/// Case-insensitive lexicographic order on names.
pub open spec fn ci_le(a: Seq<char>, b: Seq<char>) -> bool {
    lex_le(lower_seq(a), lower_seq(b))
}

/// Lexicographic order is total.
pub proof fn lemma_lex_total(a: Seq<char>, b: Seq<char>)
    ensures
        lex_le(a, b) || lex_le(b, a),
    decreases a.len(),
{
    if a.len() > 0 && b.len() > 0 {
        if a[0] == b[0] {
            lemma_lex_total(a.drop_first(), b.drop_first());
        } else {
            vstd::utf8::char_u32_cast(a[0], a[0] as u32);
            vstd::utf8::char_u32_cast(b[0], b[0] as u32);
            assert((a[0] as u32) != (b[0] as u32));
        }
    }
}

/// Lexicographic order is antisymmetric.
pub proof fn lemma_lex_antisym(a: Seq<char>, b: Seq<char>)
    requires
        lex_le(a, b),
        lex_le(b, a),
    ensures
        a == b,
    decreases a.len(),
{
    if a.len() == 0 {
        assert(b.len() == 0);
        assert(a =~= b);
    } else {
        assert(b.len() > 0);
        assert(a[0] == b[0]) by {
            if a[0] != b[0] {
                assert((a[0] as u32) < (b[0] as u32) && (b[0] as u32) < (a[0] as u32));
            }
        }
        lemma_lex_antisym(a.drop_first(), b.drop_first());
        assert(a =~= seq![a[0]] + a.drop_first());
        assert(b =~= seq![b[0]] + b.drop_first());
    }
}

/// Lexicographic order is transitive.
pub proof fn lemma_lex_trans(a: Seq<char>, b: Seq<char>, c: Seq<char>)
    requires
        lex_le(a, b),
        lex_le(b, c),
    ensures
        lex_le(a, c),
    decreases a.len(),
{
    if a.len() > 0 {
        assert(b.len() > 0);
        assert(c.len() > 0);
        if a[0] == b[0] && b[0] == c[0] {
            lemma_lex_trans(a.drop_first(), b.drop_first(), c.drop_first());
        }
    }
}

/// Equal prefixes do not decide the order: it is decided past them.
proof fn lemma_lex_skip(a: Seq<char>, b: Seq<char>, i: int)
    requires
        0 <= i <= a.len(),
        i <= b.len(),
        forall|k: int| 0 <= k < i ==> a[k] == b[k],
    ensures
        lex_le(a, b) == lex_le(a.skip(i), b.skip(i)),
    decreases i,
{
    if i > 0 {
        assert(a.len() > 0 && b.len() > 0);
        assert(a[0] == b[0]);
        assert(a.drop_first().skip(i - 1) =~= a.skip(i));
        assert(b.drop_first().skip(i - 1) =~= b.skip(i));
        assert(forall|k: int| 0 <= k < i - 1 ==> a.drop_first()[k] == b.drop_first()[k]);
        lemma_lex_skip(a.drop_first(), b.drop_first(), i - 1);
    } else {
        assert(a.skip(0) =~= a);
        assert(b.skip(0) =~= b);
    }
}

/// Lowers one character.
fn lower_char_exec(c: char) -> (r: char)
    ensures
        r == lower_char(c),
{
    let u = c as u32;
    if 65 <= u && u <= 90 {
        ((u + 32) as u8) as char
    } else {
        c
    }
}

/// Compares two names case-insensitively, by code point.
fn ci_le_exec(a: &str, b: &str) -> (r: bool)
    ensures
        r == ci_le(a@, b@),
{
    let na = a.unicode_len();
    let nb = b.unicode_len();
    let n = if na < nb {
        na
    } else {
        nb
    };
    let ghost la = lower_seq(a@);
    let ghost lb = lower_seq(b@);
    let mut i: usize = 0;
    while i < n
        invariant
            i <= n,
            na == a@.len(),
            nb == b@.len(),
            n == if na < nb {
                na
            } else {
                nb
            },
            la == lower_seq(a@),
            lb == lower_seq(b@),
            la.len() == na,
            lb.len() == nb,
            forall|k: int| 0 <= k < i ==> la[k] == lb[k],
        decreases n - i,
    {
        let ca = lower_char_exec(a.get_char(i));
        let cb = lower_char_exec(b.get_char(i));
        proof {
            assert(la[i as int] == lower_char(a@[i as int]));
            assert(lb[i as int] == lower_char(b@[i as int]));
        }
        if ca as u32 != cb as u32 {
            proof {
                assert(ca != cb) by {
                    if ca == cb {
                    }
                }
                lemma_lex_skip(la, lb, i as int);
                assert(la.skip(i as int)[0] == la[i as int]);
                assert(lb.skip(i as int)[0] == lb[i as int]);
            }
            return (ca as u32) < (cb as u32);
        }
        proof {
            assert(ca == cb) by {
                if ca != cb {
                    assert(((ca as u32) as char) == ca && ((cb as u32) as char) == cb);
                }
            }
        }
        i = i + 1;
    }
    proof {
        lemma_lex_skip(la, lb, n as int);
        if na < nb {
            assert(la.skip(n as int).len() == 0);
        } else {
            assert(lb.skip(n as int).len() == nb - n);
            if na == nb {
                assert(la.skip(n as int).len() == 0);
            } else {
                assert(la.skip(n as int).len() > 0 && lb.skip(n as int).len() == 0);
            }
        }
    }
    na <= nb
}

/// The graphs whose folder prefix is `nf`, in input order.
pub open spec fn graphs_in(gv: Seq<GraphV>, nf: Seq<char>) -> Seq<GraphV> {
    gv.filter(|g: GraphV| g.name_folder == nf)
}

/// The values whose folder prefix is `nf`, in input order.
pub open spec fn values_in(vv: Seq<ValueV>, nf: Seq<char>) -> Seq<ValueV> {
    vv.filter(|v: ValueV| v.name_folder == nf)
}

/// The logs whose folder prefix is `nf`, in input order.
pub open spec fn logs_in(lv: Seq<LogV>, nf: Seq<char>) -> Seq<LogV> {
    lv.filter(|l: LogV| l.name_folder == nf)
}

/// A folder holds exactly the items bearing its name as folder prefix.
pub open spec fn folder_ok(f: FolderV, gv: Seq<GraphV>, vv: Seq<ValueV>, lv: Seq<LogV>) -> bool {
    &&& f.graphs == graphs_in(gv, f.name)
    &&& f.table == values_in(vv, f.name)
    &&& f.logs == logs_in(lv, f.name)
}

/// No two folders share a name.
pub open spec fn names_distinct(fs: Seq<FolderV>) -> bool {
    forall|a: int, b: int| 0 <= a < b < fs.len() ==> fs[a].name != fs[b].name
}

/// The folder list is in case-insensitive lexicographic order.
pub open spec fn folders_sorted(fs: Seq<FolderV>) -> bool {
    forall|a: int, b: int| 0 <= a < b < fs.len() ==> ci_le(fs[a].name, fs[b].name)
}

/// Some folder bears the name `nf`.
pub open spec fn covers(fs: Seq<FolderV>, nf: Seq<char>) -> bool {
    exists|j: int| 0 <= j < fs.len() && fs[j].name == nf
}

/// Some item's folder prefix is `nf`.
pub open spec fn folder_needed(nf: Seq<char>, gv: Seq<GraphV>, vv: Seq<ValueV>, lv: Seq<LogV>) -> bool {
    ||| exists|k: int| 0 <= k < gv.len() && gv[k].name_folder == nf
    ||| exists|k: int| 0 <= k < vv.len() && vv[k].name_folder == nf
    ||| exists|k: int| 0 <= k < lv.len() && lv[k].name_folder == nf
}

/// The grouping relation, short of the final order: the folders carry
/// exactly the items, one folder per occurring prefix, no two alike.
pub open spec fn folders_part(fs: Seq<FolderV>, gv: Seq<GraphV>, vv: Seq<ValueV>, lv: Seq<LogV>) -> bool {
    &&& forall|j: int| 0 <= j < fs.len() ==> folder_ok(#[trigger] fs[j], gv, vv, lv)
    &&& names_distinct(fs)
    &&& forall|j: int|
        0 <= j < fs.len() ==> folder_needed((#[trigger] fs[j]).name, gv, vv, lv)
    &&& forall|k: int| 0 <= k < gv.len() ==> covers(fs, (#[trigger] gv[k]).name_folder)
    &&& forall|k: int| 0 <= k < vv.len() ==> covers(fs, (#[trigger] vv[k]).name_folder)
    &&& forall|k: int| 0 <= k < lv.len() ==> covers(fs, (#[trigger] lv[k]).name_folder)
}

/// The full grouping relation: the partition, sorted case-insensitively.
pub open spec fn folders_post(fs: Seq<FolderV>, gv: Seq<GraphV>, vv: Seq<ValueV>, lv: Seq<LogV>) -> bool {
    &&& folders_part(fs, gv, vv, lv)
    &&& folders_sorted(fs)
}

/// Extending the input by one graph extends exactly its folder's slice.
proof fn lemma_graphs_in_push(gv: Seq<GraphV>, nf: Seq<char>, x: GraphV)
    ensures
        graphs_in(gv.push(x), nf) == if x.name_folder == nf {
            graphs_in(gv, nf).push(x)
        } else {
            graphs_in(gv, nf)
        },
{
    reveal(Seq::filter);
    assert(gv.push(x).drop_last() =~= gv);
}

/// Extending the input by one value extends exactly its folder's slice.
proof fn lemma_values_in_push(vv: Seq<ValueV>, nf: Seq<char>, x: ValueV)
    ensures
        values_in(vv.push(x), nf) == if x.name_folder == nf {
            values_in(vv, nf).push(x)
        } else {
            values_in(vv, nf)
        },
{
    reveal(Seq::filter);
    assert(vv.push(x).drop_last() =~= vv);
}

/// Extending the input by one log extends exactly its folder's slice.
proof fn lemma_logs_in_push(lv: Seq<LogV>, nf: Seq<char>, x: LogV)
    ensures
        logs_in(lv.push(x), nf) == if x.name_folder == nf {
            logs_in(lv, nf).push(x)
        } else {
            logs_in(lv, nf)
        },
{
    reveal(Seq::filter);
    assert(lv.push(x).drop_last() =~= lv);
}

/// A filter whose test fails everywhere yields nothing.
proof fn lemma_filter_all_false<A>(s: Seq<A>, pred: spec_fn(A) -> bool)
    requires
        forall|k: int| 0 <= k < s.len() ==> !pred(s[k]),
    ensures
        s.filter(pred) == Seq::<A>::empty(),
    decreases s.len(),
{
    reveal(Seq::filter);
    if s.len() > 0 {
        lemma_filter_all_false(s.drop_last(), pred);
        assert(s.filter(pred) =~= Seq::<A>::empty());
    } else {
        assert(s.filter(pred) =~= Seq::<A>::empty());
    }
}

/// Whatever the filter keeps was in the input and passes the test.
proof fn lemma_filter_member<A>(s: Seq<A>, pred: spec_fn(A) -> bool, x: A)
    requires
        s.filter(pred).contains(x),
    ensures
        s.contains(x),
        pred(x),
    decreases s.len(),
{
    reveal(Seq::filter);
    if s.len() > 0 {
        if pred(s.last()) && x == s.last() {
        } else {
            assert(s.filter(pred) == if pred(s.last()) {
                s.drop_last().filter(pred).push(s.last())
            } else {
                s.drop_last().filter(pred)
            });
            assert(s.drop_last().filter(pred).contains(x)) by {
                if pred(s.last()) {
                    let i = choose|i: int|
                        0 <= i < s.filter(pred).len() && s.filter(pred)[i] == x;
                    assert(i < s.filter(pred).len() - 1);
                    assert(s.drop_last().filter(pred)[i] == x);
                }
            }
            lemma_filter_member(s.drop_last(), pred, x);
            let i = choose|i: int| 0 <= i < s.drop_last().len() && s.drop_last()[i] == x;
            assert(s[i] == x);
        }
    }
}

/// Everything that passes the test is kept by the filter.
proof fn lemma_filter_has<A>(s: Seq<A>, pred: spec_fn(A) -> bool, i: int)
    requires
        0 <= i < s.len(),
        pred(s[i]),
    ensures
        s.filter(pred).contains(s[i]),
    decreases s.len(),
{
    reveal(Seq::filter);
    if s.len() > 0 {
        if i == s.len() - 1 {
            assert(s.filter(pred).last() == s.last());
        } else {
            lemma_filter_has(s.drop_last(), pred, i);
            let j = choose|j: int|
                0 <= j < s.drop_last().filter(pred).len() && s.drop_last().filter(pred)[j] == s[i];
            if pred(s.last()) {
                assert(s.filter(pred)[j] == s[i]);
            } else {
                assert(s.filter(pred)[j] == s[i]);
            }
        }
    }
}

/// Scans the folders for one bearing `name`.
fn find_folder(folders: &Vec<Folder>, name: &str) -> (r: Option<usize>)
    ensures
        match r {
            Some(j) => j < folders@.len() && folder_views(folders@)[j as int].name == name@,
            None => forall|j: int|
                0 <= j < folders@.len() ==> folder_views(folders@)[j].name != name@,
        },
{
    let ghost fv = folder_views(folders@);
    let mut j: usize = 0;
    while j < folders.len()
        invariant
            j <= folders@.len(),
            fv == folder_views(folders@),
            fv.len() == folders@.len(),
            forall|m: int| 0 <= m < j ==> fv[m].name != name@,
        decreases folders@.len() - j,
    {
        proof {
            assert(fv[j as int] == folders@[j as int]@);
        }
        if str_eq_str(folders[j].name.as_str(), name) {
            return Some(j);
        }
        j = j + 1;
    }
    None
}

/// Inserting an element anywhere adds exactly it to the multiset.
proof fn lemma_insert_multiset(s: Seq<FolderV>, p: int, v: FolderV)
    requires
        0 <= p <= s.len(),
    ensures
        s.insert(p, v).to_multiset() == s.to_multiset().insert(v),
{
    broadcast use vstd::seq_lib::group_to_multiset_ensures;

    lemma_multiset_commutative(s.take(p), seq![v] + s.skip(p));
    lemma_multiset_commutative(seq![v], s.skip(p));
    lemma_multiset_commutative(s.take(p), s.skip(p));
    assert(s.insert(p, v) =~= s.take(p) + (seq![v] + s.skip(p)));
    assert(s =~= s.take(p) + s.skip(p));
    assert(seq![v] =~= Seq::<FolderV>::empty().push(v));
    assert(Seq::<FolderV>::empty().to_multiset() =~= Multiset::<FolderV>::empty()) by {
        assert(Seq::<FolderV>::empty().to_multiset().len() == 0);
    }
    assert(seq![v].to_multiset() =~= Multiset::<FolderV>::empty().insert(v));
    assert(s.insert(p, v).to_multiset() =~= s.to_multiset().insert(v));
}

/// Sorts the folder list case-insensitively by name; the folders
/// themselves are only rearranged.
fn sort_folders(folders: &mut Vec<Folder>)
    ensures
        folder_views(final(folders)@).to_multiset() == folder_views(old(folders)@).to_multiset(),
        folders_sorted(folder_views(final(folders)@)),
{
    let ghost orig = folder_views(folders@).to_multiset();
    if folders.len() <= 1 {
        return ;
    }
    let mut i: usize = 1;
    while i < folders.len()
        invariant
            1 <= i <= folders@.len(),
            folder_views(folders@).to_multiset() == orig,
            folders_sorted(folder_views(folders@).take(i as int)),
        decreases folders@.len() - i,
    {
        let ghost fv = folder_views(folders@);
        let mut p: usize = 0;
        while p < i
            invariant
                p <= i,
                i < folders@.len(),
                fv == folder_views(folders@),
                fv.len() == folders@.len(),
                forall|k: int| 0 <= k < p ==> ci_le(fv[k].name, fv[i as int].name),
            ensures
                p <= i,
                fv == folder_views(folders@),
                forall|k: int| 0 <= k < p ==> ci_le(fv[k].name, fv[i as int].name),
                p < i ==> !ci_le(fv[p as int].name, fv[i as int].name),
            decreases i - p,
        {
            proof {
                assert(fv[p as int] == folders@[p as int]@);
                assert(fv[i as int] == folders@[i as int]@);
            }
            if !ci_le_exec(folders[p].name.as_str(), folders[i].name.as_str()) {
                break ;
            }
            p = p + 1;
        }
        proof {
            assert(fv[i as int] == folders@[i as int]@);
        }
        let f = folders.remove(i);
        folders.insert(p, f);
        proof {
            let mid = fv.remove(i as int);
            let newv = folder_views(folders@);
            assert(folder_views(folders@.subrange(0, folders@.len() as int)) =~= newv);
            assert(newv =~= mid.insert(p as int, fv[i as int])) by {
                assert(forall|m: int|
                    0 <= m < newv.len() ==> newv[m] == folders@[m]@);
            }
            broadcast use vstd::seq_lib::group_to_multiset_ensures;

            assert(mid.to_multiset() =~= fv.to_multiset().remove(fv[i as int]));
            lemma_insert_multiset(mid, p as int, fv[i as int]);
            assert(fv.to_multiset().count(fv[i as int]) > 0) by {
                assert(fv.contains(fv[i as int]));
            }
            assert(newv.to_multiset() =~= fv.to_multiset());
            assert(folders_sorted(newv.take(i + 1))) by {
                assert(forall|k: int| 0 <= k < p ==> newv[k] == fv[k]);
                assert(newv[p as int] == fv[i as int]);
                assert(forall|k: int| p < k <= i ==> newv[k] == fv[k - 1]);
                if (p as int) < (i as int) {
                    assert(!ci_le(fv[p as int].name, fv[i as int].name));
                    lemma_lex_total(
                        lower_seq(fv[p as int].name),
                        lower_seq(fv[i as int].name),
                    );
                    assert(ci_le(fv[i as int].name, fv[p as int].name));
                }
                assert(forall|m: int| 0 <= m < i ==> fv.take(i as int)[m] == fv[m]);
                assert forall|a: int, b: int|
                    0 <= a < b <= i implies ci_le(newv[a].name, newv[b].name) by {
                    if b < p || (a < p && b == p) || (a >= p + 1) {
                        if a >= p + 1 {
                            assert(ci_le(
                                fv.take(i as int)[a - 1].name,
                                fv.take(i as int)[b - 1].name,
                            ));
                        } else if b < p {
                            assert(ci_le(fv.take(i as int)[a].name, fv.take(i as int)[b].name));
                        }
                    } else if a < p && b > p {
                        assert(ci_le(fv.take(i as int)[a].name, fv.take(i as int)[b - 1].name));
                    } else if a == p {
                        if b > p {
                            assert(newv[a] == fv[i as int]);
                            assert(newv[b] == fv[b - 1]);
                            if (p as int) == (i as int) {
                            } else {
                                assert(ci_le(fv[i as int].name, fv[p as int].name));
                                if b - 1 == p {
                                } else {
                                    assert(ci_le(
                                        fv.take(i as int)[p as int].name,
                                        fv.take(i as int)[b - 1].name,
                                    ));
                                    lemma_lex_trans(
                                        lower_seq(fv[i as int].name),
                                        lower_seq(fv[p as int].name),
                                        lower_seq(fv[b - 1].name),
                                    );
                                }
                            }
                        }
                    }
                }
            }
        }
        i = i + 1;
    }
    proof {
        assert(folder_views(folders@).take(folders@.len() as int) =~= folder_views(folders@));
    }
}

/// The grouping relation, short of order, is carried by the folders alone:
/// any rearrangement of the same folders keeps it.
proof fn lemma_part_transfer(
    fs1: Seq<FolderV>,
    fs2: Seq<FolderV>,
    gv: Seq<GraphV>,
    vv: Seq<ValueV>,
    lv: Seq<LogV>,
)
    requires
        folders_part(fs1, gv, vv, lv),
        fs2.to_multiset() == fs1.to_multiset(),
    ensures
        folders_part(fs2, gv, vv, lv),
{
    broadcast use vstd::seq_lib::group_to_multiset_ensures;

    assert(forall|j: int| 0 <= j < fs2.len() ==> fs1.contains(#[trigger] fs2[j])) by {
        assert(forall|j: int|
            0 <= j < fs2.len() ==> fs2.to_multiset().count(#[trigger] fs2[j]) > 0);
    }
    assert forall|j: int| 0 <= j < fs2.len() implies folder_ok(#[trigger] fs2[j], gv, vv, lv)
        && folder_needed(fs2[j].name, gv, vv, lv) by {
        let i = choose|i: int| 0 <= i < fs1.len() && fs1[i] == fs2[j];
        assert(folder_ok(fs1[i], gv, vv, lv));
    }
    assert(forall|j: int| 0 <= j < fs1.len() ==> fs2.contains(#[trigger] fs1[j])) by {
        assert(forall|j: int|
            0 <= j < fs1.len() ==> fs1.to_multiset().count(#[trigger] fs1[j]) > 0);
    }
    assert forall|k: int| 0 <= k < gv.len() implies covers(fs2, (#[trigger] gv[k]).name_folder) by {
        let j = choose|j: int| 0 <= j < fs1.len() && fs1[j].name == gv[k].name_folder;
        let j2 = choose|j2: int| 0 <= j2 < fs2.len() && fs2[j2] == fs1[j];
        assert(fs2[j2].name == gv[k].name_folder);
    }
    assert forall|k: int| 0 <= k < vv.len() implies covers(fs2, (#[trigger] vv[k]).name_folder) by {
        let j = choose|j: int| 0 <= j < fs1.len() && fs1[j].name == vv[k].name_folder;
        let j2 = choose|j2: int| 0 <= j2 < fs2.len() && fs2[j2] == fs1[j];
        assert(fs2[j2].name == vv[k].name_folder);
    }
    assert forall|k: int| 0 <= k < lv.len() implies covers(fs2, (#[trigger] lv[k]).name_folder) by {
        let j = choose|j: int| 0 <= j < fs1.len() && fs1[j].name == lv[k].name_folder;
        let j2 = choose|j2: int| 0 <= j2 < fs2.len() && fs2[j2] == fs1[j];
        assert(fs2[j2].name == lv[k].name_folder);
    }
    assert(fs1.no_duplicates()) by {
        assert forall|a: int, b: int| 0 <= a < b < fs1.len() implies fs1[a] != fs1[b] by {
            assert(fs1[a].name != fs1[b].name);
        }
    }
    fs1.lemma_multiset_has_no_duplicates();
    assert forall|a: int, b: int| 0 <= a < b < fs2.len() implies fs2[a].name != fs2[b].name by {
        if fs2[a].name == fs2[b].name {
            if fs2[a] == fs2[b] {
                let v = fs2[a];
                assert(fs2.remove(a).to_multiset() =~= fs2.to_multiset().remove(v));
                assert(fs2.remove(a)[b - 1] == fs2[b]);
                assert(fs2.remove(a).contains(v));
                assert(fs2.remove(a).to_multiset().count(v) > 0);
                assert(fs2.to_multiset().count(v) >= 2);
                assert(fs1.to_multiset().contains(v));
            } else {
                let i1 = choose|i: int| 0 <= i < fs1.len() && fs1[i] == fs2[a];
                let i2 = choose|i: int| 0 <= i < fs1.len() && fs1[i] == fs2[b];
                assert(i1 != i2);
                assert(fs1[i1].name == fs1[i2].name);
            }
        }
    }
}

/// What the graphs slice of a folder keeps came from the input.
proof fn lemma_graphs_in_member(gv: Seq<GraphV>, nf: Seq<char>, x: GraphV)
    requires
        graphs_in(gv, nf).contains(x),
    ensures
        gv.contains(x),
        x.name_folder == nf,
{
    lemma_filter_member(gv, |g: GraphV| g.name_folder == nf, x);
}

/// What the values slice of a folder keeps came from the input.
proof fn lemma_values_in_member(vv: Seq<ValueV>, nf: Seq<char>, x: ValueV)
    requires
        values_in(vv, nf).contains(x),
    ensures
        vv.contains(x),
        x.name_folder == nf,
{
    lemma_filter_member(vv, |v: ValueV| v.name_folder == nf, x);
}

/// What the logs slice of a folder keeps came from the input.
proof fn lemma_logs_in_member(lv: Seq<LogV>, nf: Seq<char>, x: LogV)
    requires
        logs_in(lv, nf).contains(x),
    ensures
        lv.contains(x),
        x.name_folder == nf,
{
    lemma_filter_member(lv, |l: LogV| l.name_folder == nf, x);
}

/// No graph of `gv` has folder prefix `nf`.
proof fn lemma_graphs_in_empty(gv: Seq<GraphV>, nf: Seq<char>)
    requires
        forall|m: int| 0 <= m < gv.len() ==> (#[trigger] gv[m]).name_folder != nf,
    ensures
        graphs_in(gv, nf) == Seq::<GraphV>::empty(),
{
    lemma_filter_all_false(gv, |g: GraphV| g.name_folder == nf);
}

/// No value of `vv` has folder prefix `nf`.
proof fn lemma_values_in_empty(vv: Seq<ValueV>, nf: Seq<char>)
    requires
        forall|m: int| 0 <= m < vv.len() ==> (#[trigger] vv[m]).name_folder != nf,
    ensures
        values_in(vv, nf) == Seq::<ValueV>::empty(),
{
    lemma_filter_all_false(vv, |v: ValueV| v.name_folder == nf);
}

/// No log of `lv` has folder prefix `nf`.
proof fn lemma_logs_in_empty(lv: Seq<LogV>, nf: Seq<char>)
    requires
        forall|m: int| 0 <= m < lv.len() ==> (#[trigger] lv[m]).name_folder != nf,
    ensures
        logs_in(lv, nf) == Seq::<LogV>::empty(),
{
    lemma_filter_all_false(lv, |l: LogV| l.name_folder == nf);
}

/// Everything that passes a folder's test lands in its slice.
proof fn lemma_graphs_in_has(gv: Seq<GraphV>, nf: Seq<char>, k: int)
    requires
        0 <= k < gv.len(),
        gv[k].name_folder == nf,
    ensures
        graphs_in(gv, nf).contains(gv[k]),
{
    lemma_filter_has(gv, |g: GraphV| g.name_folder == nf, k);
}

/// Everything that passes a folder's test lands in its slice.
proof fn lemma_values_in_has(vv: Seq<ValueV>, nf: Seq<char>, k: int)
    requires
        0 <= k < vv.len(),
        vv[k].name_folder == nf,
    ensures
        values_in(vv, nf).contains(vv[k]),
{
    lemma_filter_has(vv, |v: ValueV| v.name_folder == nf, k);
}

/// Everything that passes a folder's test lands in its slice.
proof fn lemma_logs_in_has(lv: Seq<LogV>, nf: Seq<char>, k: int)
    requires
        0 <= k < lv.len(),
        lv[k].name_folder == nf,
    ensures
        logs_in(lv, nf).contains(lv[k]),
{
    lemma_filter_has(lv, |l: LogV| l.name_folder == nf, k);
}

/// Whether some folder shows the graph `x`.
pub open spec fn in_some_folder_graph(fs: Seq<FolderV>, x: GraphV) -> bool {
    exists|j: int| 0 <= j < fs.len() && #[trigger] fs[j].graphs.contains(x)
}

/// Whether some folder shows the value `x`.
pub open spec fn in_some_folder_value(fs: Seq<FolderV>, x: ValueV) -> bool {
    exists|j: int| 0 <= j < fs.len() && #[trigger] fs[j].table.contains(x)
}

/// Whether some folder shows the log `x`.
pub open spec fn in_some_folder_log(fs: Seq<FolderV>, x: LogV) -> bool {
    exists|j: int| 0 <= j < fs.len() && #[trigger] fs[j].logs.contains(x)
}

/// Folder assignment is a total partition: every graph, value and log
/// appears in a folder, in no two folders at once, and everything a folder
/// holds came from the input and bears the folder's own name as its
/// prefix.
pub proof fn lemma_folders_partition(
    fs: Seq<FolderV>,
    gv: Seq<GraphV>,
    vv: Seq<ValueV>,
    lv: Seq<LogV>,
)
    requires
        folders_post(fs, gv, vv, lv),
    ensures
        forall|k: int| 0 <= k < gv.len() ==> in_some_folder_graph(fs, #[trigger] gv[k]),
        forall|k: int| 0 <= k < vv.len() ==> in_some_folder_value(fs, #[trigger] vv[k]),
        forall|k: int| 0 <= k < lv.len() ==> in_some_folder_log(fs, #[trigger] lv[k]),
        forall|j1: int, j2: int, x: GraphV|
            0 <= j1 < fs.len() && 0 <= j2 < fs.len() && #[trigger] fs[j1].graphs.contains(x)
                && #[trigger] fs[j2].graphs.contains(x) ==> j1 == j2,
        forall|j1: int, j2: int, x: ValueV|
            0 <= j1 < fs.len() && 0 <= j2 < fs.len() && #[trigger] fs[j1].table.contains(x)
                && #[trigger] fs[j2].table.contains(x) ==> j1 == j2,
        forall|j1: int, j2: int, x: LogV|
            0 <= j1 < fs.len() && 0 <= j2 < fs.len() && #[trigger] fs[j1].logs.contains(x)
                && #[trigger] fs[j2].logs.contains(x) ==> j1 == j2,
        forall|j: int, x: GraphV|
            0 <= j < fs.len() && #[trigger] fs[j].graphs.contains(x) ==> gv.contains(x)
                && x.name_folder == fs[j].name,
        forall|j: int, x: ValueV|
            0 <= j < fs.len() && #[trigger] fs[j].table.contains(x) ==> vv.contains(x)
                && x.name_folder == fs[j].name,
        forall|j: int, x: LogV|
            0 <= j < fs.len() && #[trigger] fs[j].logs.contains(x) ==> lv.contains(x)
                && x.name_folder == fs[j].name,
{
    assert forall|k: int| 0 <= k < gv.len() implies in_some_folder_graph(fs, #[trigger] gv[k]) by {
        assert(covers(fs, gv[k].name_folder));
        let j = choose|j: int| 0 <= j < fs.len() && fs[j].name == gv[k].name_folder;
        lemma_graphs_in_has(gv, fs[j].name, k);
        assert(fs[j].graphs.contains(gv[k]));
    }
    assert forall|k: int| 0 <= k < vv.len() implies in_some_folder_value(fs, #[trigger] vv[k]) by {
        assert(covers(fs, vv[k].name_folder));
        let j = choose|j: int| 0 <= j < fs.len() && fs[j].name == vv[k].name_folder;
        lemma_values_in_has(vv, fs[j].name, k);
        assert(fs[j].table.contains(vv[k]));
    }
    assert forall|k: int| 0 <= k < lv.len() implies in_some_folder_log(fs, #[trigger] lv[k]) by {
        assert(covers(fs, lv[k].name_folder));
        let j = choose|j: int| 0 <= j < fs.len() && fs[j].name == lv[k].name_folder;
        lemma_logs_in_has(lv, fs[j].name, k);
        assert(fs[j].logs.contains(lv[k]));
    }
    assert forall|j: int, x: GraphV|
        0 <= j < fs.len() && #[trigger] fs[j].graphs.contains(x) implies gv.contains(x)
        && x.name_folder == fs[j].name by {
        lemma_graphs_in_member(gv, fs[j].name, x);
    }
    assert forall|j: int, x: ValueV|
        0 <= j < fs.len() && #[trigger] fs[j].table.contains(x) implies vv.contains(x)
        && x.name_folder == fs[j].name by {
        lemma_values_in_member(vv, fs[j].name, x);
    }
    assert forall|j: int, x: LogV|
        0 <= j < fs.len() && #[trigger] fs[j].logs.contains(x) implies lv.contains(x)
        && x.name_folder == fs[j].name by {
        lemma_logs_in_member(lv, fs[j].name, x);
    }
    assert forall|j1: int, j2: int, x: GraphV|
        0 <= j1 < fs.len() && 0 <= j2 < fs.len() && #[trigger] fs[j1].graphs.contains(x)
            && #[trigger] fs[j2].graphs.contains(x) implies j1 == j2 by {
        lemma_graphs_in_member(gv, fs[j1].name, x);
        lemma_graphs_in_member(gv, fs[j2].name, x);
        if j1 != j2 {
            assert(fs[j1].name == fs[j2].name);
        }
    }
    assert forall|j1: int, j2: int, x: ValueV|
        0 <= j1 < fs.len() && 0 <= j2 < fs.len() && #[trigger] fs[j1].table.contains(x)
            && #[trigger] fs[j2].table.contains(x) implies j1 == j2 by {
        lemma_values_in_member(vv, fs[j1].name, x);
        lemma_values_in_member(vv, fs[j2].name, x);
        if j1 != j2 {
            assert(fs[j1].name == fs[j2].name);
        }
    }
    assert forall|j1: int, j2: int, x: LogV|
        0 <= j1 < fs.len() && 0 <= j2 < fs.len() && #[trigger] fs[j1].logs.contains(x)
            && #[trigger] fs[j2].logs.contains(x) implies j1 == j2 by {
        lemma_logs_in_member(lv, fs[j1].name, x);
        lemma_logs_in_member(lv, fs[j2].name, x);
        if j1 != j2 {
            assert(fs[j1].name == fs[j2].name);
        }
    }
}

impl Folder {
    /// Partitions the graphs, values and logs into folders by the
    /// hierarchical prefix of their names, then sorts the folders
    /// case-insensitively.  Every item lands in exactly the folder whose
    /// name is its prefix; folders exist exactly for occurring prefixes.
    #[verifier::rlimit(60)]
    pub fn gen_folders(graphs: Vec<Graph>, values: Vec<Value>, logs: Vec<Log>) -> (r: Vec<Folder>)
        ensures
            folders_post(
                folder_views(r@),
                graph_views(graphs@),
                value_views(values@),
                log_views(logs@),
            ),
    {
        let ghost gv = graph_views(graphs@);
        let ghost vv = value_views(values@);
        let ghost lv = log_views(logs@);
        let mut graphs = graphs;
        let mut values = values;
        let mut logs = logs;
        let mut folders: Vec<Folder> = Vec::new();
        let ghost mut k: int = 0;
        proof {
            assert(folder_views(folders@) =~= Seq::<FolderV>::empty());
            assert(graph_views(graphs@) =~= gv.skip(0));
        }
        while graphs.len() > 0
            invariant
                0 <= k <= gv.len(),
                graph_views(graphs@) == gv.skip(k),
                graph_views(graphs@).len() == graphs@.len(),
                forall|j: int|
                    0 <= j < folder_views(folders@).len() ==> {
                        let f = #[trigger] folder_views(folders@)[j];
                        &&& f.graphs == graphs_in(gv.take(k), f.name)
                        &&& f.table == Seq::<ValueV>::empty()
                        &&& f.logs == Seq::<LogV>::empty()
                    },
                names_distinct(folder_views(folders@)),
                forall|m: int|
                    0 <= m < k ==> covers(folder_views(folders@), (#[trigger] gv[m]).name_folder),
                forall|j: int|
                    0 <= j < folder_views(folders@).len() ==> ((#[trigger] folder_views(
                        folders@,
                    )[j]).graphs.len() + folder_views(folders@)[j].table.len() + folder_views(
                        folders@,
                    )[j].logs.len()) > 0,
            decreases graphs@.len(),
        {
            let ghost fv_old = folder_views(folders@);
            let ghost gseq_old = graphs@;
            let g = graphs.remove(0);
            proof {
                assert(graph_views(gseq_old) == gv.skip(k));
                assert(gv.skip(k)[0] == gv[k]);
                assert(graph_views(gseq_old)[0] == gseq_old[0]@);
                assert(g@ == gv[k]);
                assert(graphs@.len() == gseq_old.len() - 1);
                assert(graph_views(graphs@).len() == graphs@.len());
                assert(graph_views(gseq_old).len() == gseq_old.len());
                assert(gseq_old.len() == gv.len() - k);
                assert forall|m: int|
                    0 <= m < graphs@.len() implies graph_views(graphs@)[m] == gv.skip(k + 1)[m] by {
                    assert(graphs@[m] == gseq_old[m + 1]);
                    assert(graph_views(graphs@)[m] == graphs@[m]@);
                    assert(graph_views(gseq_old)[m + 1] == gseq_old[m + 1]@);
                    assert(gv.skip(k)[m + 1] == gv[k + 1 + m]);
                    assert(gv.skip(k + 1)[m] == gv[k + 1 + m]);
                }
                assert(graph_views(graphs@) =~= gv.skip(k + 1));
                assert(gv.take(k + 1) =~= gv.take(k).push(gv[k]));
            }
            match find_folder(&folders, g.name_folder.as_str()) {
                Some(j) => {
                    let ghost nf = g@.name_folder;
                    let mut f = folders.remove(j);
                    let ghost fview = f@;
                    f.graphs.push(g);
                    proof {
                        assert(f@.graphs =~= fview.graphs.push(gv[k]));
                    }
                    folders.insert(j, f);
                    proof {
                        assert(folders@ =~= folders@.subrange(0, j as int) + seq![
                            folders@[j as int],
                        ] + folders@.subrange(j + 1, folders@.len() as int));
                        assert(folder_views(folders@) =~= fv_old.update(
                            j as int,
                            FolderV { graphs: fview.graphs.push(gv[k]), ..fview },
                        )) by {
                            assert(forall|m: int|
                                0 <= m < folders@.len() ==> folder_views(folders@)[m]
                                    == folders@[m]@);
                        }
                        assert(fview.name == nf);
                        assert forall|j2: int|
                            0 <= j2 < folder_views(folders@).len() implies {
                            let f2 = #[trigger] folder_views(folders@)[j2];
                            &&& f2.graphs == graphs_in(gv.take(k + 1), f2.name)
                            &&& f2.table == Seq::<ValueV>::empty()
                            &&& f2.logs == Seq::<LogV>::empty()
                        } by {
                            let f2 = folder_views(folders@)[j2];
                            lemma_graphs_in_push(gv.take(k), f2.name, gv[k]);
                            if j2 != j {
                                assert(f2 == fv_old[j2]);
                                assert(f2.name != nf);
                            }
                        }
                        assert(names_distinct(folder_views(folders@))) by {
                            assert(forall|m: int|
                                0 <= m < folder_views(folders@).len()
                                    ==> (#[trigger] folder_views(folders@)[m]).name
                                    == fv_old[m].name);
                        }
                        assert forall|m: int| 0 <= m < k + 1 implies covers(
                            folder_views(folders@),
                            (#[trigger] gv[m]).name_folder,
                        ) by {
                            assert(forall|m2: int|
                                0 <= m2 < folder_views(folders@).len()
                                    ==> (#[trigger] folder_views(folders@)[m2]).name
                                    == fv_old[m2].name);
                            if m < k {
                                let w = choose|w: int|
                                    0 <= w < fv_old.len() && fv_old[w].name
                                        == gv[m].name_folder;
                                assert(folder_views(folders@)[w].name == gv[m].name_folder);
                            } else {
                                assert(folder_views(folders@)[j as int].name == nf);
                            }
                        }
                    }
                },
                None => {
                    let ghost nf = g@.name_folder;
                    let f = Folder {
                        name: g.name_folder.clone(),
                        table: Vec::new(),
                        logs: Vec::new(),
                        graphs: vec![g],
                    };
                    proof {
                        assert(f@.table =~= Seq::<ValueV>::empty());
                        assert(f@.logs =~= Seq::<LogV>::empty());
                        assert(f@.graphs =~= Seq::<GraphV>::empty().push(gv[k]));
                        assert forall|m: int| 0 <= m < gv.take(k).len() implies (#[trigger] gv.take(
                            k,
                        )[m]).name_folder != nf by {
                            assert(covers(fv_old, gv[m].name_folder));
                            let w = choose|w: int|
                                0 <= w < fv_old.len() && fv_old[w].name == gv[m].name_folder;
                        }
                        lemma_graphs_in_empty(gv.take(k), nf);
                    }
                    folders.push(f);
                    proof {
                        assert(folder_views(folders@) =~= fv_old.push(f@));
                        assert forall|j2: int|
                            0 <= j2 < folder_views(folders@).len() implies {
                            let f2 = #[trigger] folder_views(folders@)[j2];
                            &&& f2.graphs == graphs_in(gv.take(k + 1), f2.name)
                            &&& f2.table == Seq::<ValueV>::empty()
                            &&& f2.logs == Seq::<LogV>::empty()
                        } by {
                            let f2 = folder_views(folders@)[j2];
                            lemma_graphs_in_push(gv.take(k), f2.name, gv[k]);
                            if j2 < fv_old.len() {
                                assert(f2 == fv_old[j2]);
                                assert(f2.name != nf);
                            } else {
                                assert(f2 == f@);
                                assert(f2.graphs =~= graphs_in(gv.take(k), nf).push(gv[k]));
                            }
                        }
                        assert(names_distinct(folder_views(folders@)));
                        assert forall|m: int| 0 <= m < k + 1 implies covers(
                            folder_views(folders@),
                            (#[trigger] gv[m]).name_folder,
                        ) by {
                            if m < k {
                                let w = choose|w: int|
                                    0 <= w < fv_old.len() && fv_old[w].name
                                        == gv[m].name_folder;
                                assert(folder_views(folders@)[w].name == gv[m].name_folder);
                            } else {
                                assert(folder_views(folders@)[fv_old.len() as int].name == nf);
                            }
                        }
                    }
                },
            }
            proof {
                k = k + 1;
            }
        }
        proof {
            assert(gv.skip(k).len() == 0);
            assert(k == gv.len());
            assert(gv.take(k) =~= gv);
            assert(value_views(values@) =~= vv.skip(0));
            assert(vv.take(0) =~= Seq::<ValueV>::empty());
            assert forall|j: int| 0 <= j < folder_views(folders@).len() implies {
                let f = #[trigger] folder_views(folders@)[j];
                &&& f.graphs == graphs_in(gv, f.name)
                &&& f.table == values_in(vv.take(0), f.name)
            } by {
                let f = folder_views(folders@)[j];
                lemma_values_in_empty(vv.take(0), f.name);
            }
        }
        let ghost mut k2: int = 0;
        while values.len() > 0
            invariant
                0 <= k2 <= vv.len(),
                value_views(values@) == vv.skip(k2),
                value_views(values@).len() == values@.len(),
                forall|j: int|
                    0 <= j < folder_views(folders@).len() ==> {
                        let f = #[trigger] folder_views(folders@)[j];
                        &&& f.graphs == graphs_in(gv, f.name)
                        &&& f.table == values_in(vv.take(k2), f.name)
                        &&& f.logs == Seq::<LogV>::empty()
                    },
                names_distinct(folder_views(folders@)),
                forall|m: int|
                    0 <= m < gv.len() ==> covers(
                        folder_views(folders@),
                        (#[trigger] gv[m]).name_folder,
                    ),
                forall|m: int|
                    0 <= m < k2 ==> covers(folder_views(folders@), (#[trigger] vv[m]).name_folder),
                forall|j: int|
                    0 <= j < folder_views(folders@).len() ==> ((#[trigger] folder_views(
                        folders@,
                    )[j]).graphs.len() + folder_views(folders@)[j].table.len() + folder_views(
                        folders@,
                    )[j].logs.len()) > 0,
            decreases values@.len(),
        {
            let ghost fv_old = folder_views(folders@);
            let ghost vseq_old = values@;
            let v = values.remove(0);
            proof {
                assert(value_views(vseq_old) == vv.skip(k2));
                assert(vv.skip(k2)[0] == vv[k2]);
                assert(value_views(vseq_old)[0] == vseq_old[0]@);
                assert(v@ == vv[k2]);
                assert(values@.len() == vseq_old.len() - 1);
                assert(value_views(values@).len() == values@.len());
                assert(value_views(vseq_old).len() == vseq_old.len());
                assert(vseq_old.len() == vv.len() - k2);
                assert forall|m: int|
                    0 <= m < values@.len() implies value_views(values@)[m] == vv.skip(k2 + 1)[m] by {
                    assert(values@[m] == vseq_old[m + 1]);
                    assert(value_views(values@)[m] == values@[m]@);
                    assert(value_views(vseq_old)[m + 1] == vseq_old[m + 1]@);
                    assert(vv.skip(k2)[m + 1] == vv[k2 + 1 + m]);
                    assert(vv.skip(k2 + 1)[m] == vv[k2 + 1 + m]);
                }
                assert(value_views(values@) =~= vv.skip(k2 + 1));
                assert(vv.take(k2 + 1) =~= vv.take(k2).push(vv[k2]));
            }
            match find_folder(&folders, v.name_folder.as_str()) {
                Some(j) => {
                    let ghost nf = v@.name_folder;
                    let mut f = folders.remove(j);
                    let ghost fview = f@;
                    f.table.push(v);
                    proof {
                        assert(f@.table =~= fview.table.push(vv[k2]));
                    }
                    folders.insert(j, f);
                    proof {
                        assert(folders@ =~= folders@.subrange(0, j as int) + seq![
                            folders@[j as int],
                        ] + folders@.subrange(j + 1, folders@.len() as int));
                        assert(folder_views(folders@) =~= fv_old.update(
                            j as int,
                            FolderV { table: fview.table.push(vv[k2]), ..fview },
                        )) by {
                            assert(forall|m: int|
                                0 <= m < folders@.len() ==> folder_views(folders@)[m]
                                    == folders@[m]@);
                        }
                        assert(fview.name == nf);
                        assert forall|j2: int|
                            0 <= j2 < folder_views(folders@).len() implies {
                            let f2 = #[trigger] folder_views(folders@)[j2];
                            &&& f2.graphs == graphs_in(gv, f2.name)
                            &&& f2.table == values_in(vv.take(k2 + 1), f2.name)
                            &&& f2.logs == Seq::<LogV>::empty()
                        } by {
                            let f2 = folder_views(folders@)[j2];
                            lemma_values_in_push(vv.take(k2), f2.name, vv[k2]);
                            if j2 != j {
                                assert(f2 == fv_old[j2]);
                                assert(f2.name != nf);
                            }
                        }
                        assert(names_distinct(folder_views(folders@))) by {
                            assert(forall|m: int|
                                0 <= m < folder_views(folders@).len()
                                    ==> (#[trigger] folder_views(folders@)[m]).name
                                    == fv_old[m].name);
                        }
                        assert(forall|m: int|
                            0 <= m < folder_views(folders@).len()
                                ==> (#[trigger] folder_views(folders@)[m]).name
                                == fv_old[m].name);
                        assert forall|m: int| 0 <= m < gv.len() implies covers(
                            folder_views(folders@),
                            (#[trigger] gv[m]).name_folder,
                        ) by {
                            let w = choose|w: int|
                                0 <= w < fv_old.len() && fv_old[w].name == gv[m].name_folder;
                            assert(folder_views(folders@)[w].name == gv[m].name_folder);
                        }
                        assert forall|m: int| 0 <= m < k2 + 1 implies covers(
                            folder_views(folders@),
                            (#[trigger] vv[m]).name_folder,
                        ) by {
                            if m < k2 {
                                let w = choose|w: int|
                                    0 <= w < fv_old.len() && fv_old[w].name
                                        == vv[m].name_folder;
                                assert(folder_views(folders@)[w].name == vv[m].name_folder);
                            } else {
                                assert(folder_views(folders@)[j as int].name == nf);
                            }
                        }
                    }
                },
                None => {
                    let ghost nf = v@.name_folder;
                    let f = Folder {
                        name: v.name_folder.clone(),
                        table: vec![v],
                        logs: Vec::new(),
                        graphs: Vec::new(),
                    };
                    proof {
                        assert(f@.logs =~= Seq::<LogV>::empty());
                        assert(f@.graphs =~= Seq::<GraphV>::empty());
                        assert(f@.table =~= Seq::<ValueV>::empty().push(vv[k2]));
                        assert forall|m: int| 0 <= m < gv.len() implies (#[trigger] gv[m]).name_folder
                            != nf by {
                            assert(covers(fv_old, gv[m].name_folder));
                            let w = choose|w: int|
                                0 <= w < fv_old.len() && fv_old[w].name == gv[m].name_folder;
                        }
                        lemma_graphs_in_empty(gv, nf);
                        assert forall|m: int| 0 <= m < vv.take(k2).len() implies (#[trigger] vv.take(
                            k2,
                        )[m]).name_folder != nf by {
                            assert(covers(fv_old, vv[m].name_folder));
                            let w = choose|w: int|
                                0 <= w < fv_old.len() && fv_old[w].name == vv[m].name_folder;
                        }
                        lemma_values_in_empty(vv.take(k2), nf);
                    }
                    folders.push(f);
                    proof {
                        assert(folder_views(folders@) =~= fv_old.push(f@));
                        assert forall|j2: int|
                            0 <= j2 < folder_views(folders@).len() implies {
                            let f2 = #[trigger] folder_views(folders@)[j2];
                            &&& f2.graphs == graphs_in(gv, f2.name)
                            &&& f2.table == values_in(vv.take(k2 + 1), f2.name)
                            &&& f2.logs == Seq::<LogV>::empty()
                        } by {
                            let f2 = folder_views(folders@)[j2];
                            lemma_values_in_push(vv.take(k2), f2.name, vv[k2]);
                            if j2 < fv_old.len() {
                                assert(f2 == fv_old[j2]);
                                assert(f2.name != nf);
                            } else {
                                assert(f2 == f@);
                                assert(f2.table =~= values_in(vv.take(k2), nf).push(vv[k2]));
                            }
                        }
                        assert(names_distinct(folder_views(folders@)));
                        assert forall|m: int| 0 <= m < gv.len() implies covers(
                            folder_views(folders@),
                            (#[trigger] gv[m]).name_folder,
                        ) by {
                            let w = choose|w: int|
                                0 <= w < fv_old.len() && fv_old[w].name == gv[m].name_folder;
                            assert(folder_views(folders@)[w].name == gv[m].name_folder);
                        }
                        assert forall|m: int| 0 <= m < k2 + 1 implies covers(
                            folder_views(folders@),
                            (#[trigger] vv[m]).name_folder,
                        ) by {
                            if m < k2 {
                                let w = choose|w: int|
                                    0 <= w < fv_old.len() && fv_old[w].name
                                        == vv[m].name_folder;
                                assert(folder_views(folders@)[w].name == vv[m].name_folder);
                            } else {
                                assert(folder_views(folders@)[fv_old.len() as int].name == nf);
                            }
                        }
                    }
                },
            }
            proof {
                k2 = k2 + 1;
            }
        }
        proof {
            assert(vv.skip(k2).len() == 0);
            assert(k2 == vv.len());
            assert(vv.take(k2) =~= vv);
            assert(log_views(logs@) =~= lv.skip(0));
            assert(lv.take(0) =~= Seq::<LogV>::empty());
            assert forall|j: int| 0 <= j < folder_views(folders@).len() implies {
                let f = #[trigger] folder_views(folders@)[j];
                &&& f.table == values_in(vv, f.name)
                &&& f.logs == logs_in(lv.take(0), f.name)
            } by {
                let f = folder_views(folders@)[j];
                lemma_logs_in_empty(lv.take(0), f.name);
            }
        }
        let ghost mut k3: int = 0;
        while logs.len() > 0
            invariant
                0 <= k3 <= lv.len(),
                log_views(logs@) == lv.skip(k3),
                log_views(logs@).len() == logs@.len(),
                forall|j: int|
                    0 <= j < folder_views(folders@).len() ==> {
                        let f = #[trigger] folder_views(folders@)[j];
                        &&& f.graphs == graphs_in(gv, f.name)
                        &&& f.table == values_in(vv, f.name)
                        &&& f.logs == logs_in(lv.take(k3), f.name)
                    },
                names_distinct(folder_views(folders@)),
                forall|m: int|
                    0 <= m < gv.len() ==> covers(
                        folder_views(folders@),
                        (#[trigger] gv[m]).name_folder,
                    ),
                forall|m: int|
                    0 <= m < vv.len() ==> covers(
                        folder_views(folders@),
                        (#[trigger] vv[m]).name_folder,
                    ),
                forall|m: int|
                    0 <= m < k3 ==> covers(folder_views(folders@), (#[trigger] lv[m]).name_folder),
                forall|j: int|
                    0 <= j < folder_views(folders@).len() ==> ((#[trigger] folder_views(
                        folders@,
                    )[j]).graphs.len() + folder_views(folders@)[j].table.len() + folder_views(
                        folders@,
                    )[j].logs.len()) > 0,
            decreases logs@.len(),
        {
            let ghost fv_old = folder_views(folders@);
            let ghost lseq_old = logs@;
            let l = logs.remove(0);
            proof {
                assert(log_views(lseq_old) == lv.skip(k3));
                assert(lv.skip(k3)[0] == lv[k3]);
                assert(log_views(lseq_old)[0] == lseq_old[0]@);
                assert(l@ == lv[k3]);
                assert(logs@.len() == lseq_old.len() - 1);
                assert(log_views(logs@).len() == logs@.len());
                assert(log_views(lseq_old).len() == lseq_old.len());
                assert(lseq_old.len() == lv.len() - k3);
                assert forall|m: int|
                    0 <= m < logs@.len() implies log_views(logs@)[m] == lv.skip(k3 + 1)[m] by {
                    assert(logs@[m] == lseq_old[m + 1]);
                    assert(log_views(logs@)[m] == logs@[m]@);
                    assert(log_views(lseq_old)[m + 1] == lseq_old[m + 1]@);
                    assert(lv.skip(k3)[m + 1] == lv[k3 + 1 + m]);
                    assert(lv.skip(k3 + 1)[m] == lv[k3 + 1 + m]);
                }
                assert(log_views(logs@) =~= lv.skip(k3 + 1));
                assert(lv.take(k3 + 1) =~= lv.take(k3).push(lv[k3]));
            }
            match find_folder(&folders, l.name_folder.as_str()) {
                Some(j) => {
                    let ghost nf = l@.name_folder;
                    let mut f = folders.remove(j);
                    let ghost fview = f@;
                    f.logs.push(l);
                    proof {
                        assert(f@.logs =~= fview.logs.push(lv[k3]));
                    }
                    folders.insert(j, f);
                    proof {
                        assert(folders@ =~= folders@.subrange(0, j as int) + seq![
                            folders@[j as int],
                        ] + folders@.subrange(j + 1, folders@.len() as int));
                        assert(folder_views(folders@) =~= fv_old.update(
                            j as int,
                            FolderV { logs: fview.logs.push(lv[k3]), ..fview },
                        )) by {
                            assert(forall|m: int|
                                0 <= m < folders@.len() ==> folder_views(folders@)[m]
                                    == folders@[m]@);
                        }
                        assert(fview.name == nf);
                        assert forall|j2: int|
                            0 <= j2 < folder_views(folders@).len() implies {
                            let f2 = #[trigger] folder_views(folders@)[j2];
                            &&& f2.graphs == graphs_in(gv, f2.name)
                            &&& f2.table == values_in(vv, f2.name)
                            &&& f2.logs == logs_in(lv.take(k3 + 1), f2.name)
                        } by {
                            let f2 = folder_views(folders@)[j2];
                            lemma_logs_in_push(lv.take(k3), f2.name, lv[k3]);
                            if j2 != j {
                                assert(f2 == fv_old[j2]);
                                assert(f2.name != nf);
                            }
                        }
                        assert(forall|m: int|
                            0 <= m < folder_views(folders@).len()
                                ==> (#[trigger] folder_views(folders@)[m]).name
                                == fv_old[m].name);
                        assert(names_distinct(folder_views(folders@)));
                        assert forall|m: int| 0 <= m < gv.len() implies covers(
                            folder_views(folders@),
                            (#[trigger] gv[m]).name_folder,
                        ) by {
                            let w = choose|w: int|
                                0 <= w < fv_old.len() && fv_old[w].name == gv[m].name_folder;
                            assert(folder_views(folders@)[w].name == gv[m].name_folder);
                        }
                        assert forall|m: int| 0 <= m < vv.len() implies covers(
                            folder_views(folders@),
                            (#[trigger] vv[m]).name_folder,
                        ) by {
                            let w = choose|w: int|
                                0 <= w < fv_old.len() && fv_old[w].name == vv[m].name_folder;
                            assert(folder_views(folders@)[w].name == vv[m].name_folder);
                        }
                        assert forall|m: int| 0 <= m < k3 + 1 implies covers(
                            folder_views(folders@),
                            (#[trigger] lv[m]).name_folder,
                        ) by {
                            if m < k3 {
                                let w = choose|w: int|
                                    0 <= w < fv_old.len() && fv_old[w].name
                                        == lv[m].name_folder;
                                assert(folder_views(folders@)[w].name == lv[m].name_folder);
                            } else {
                                assert(folder_views(folders@)[j as int].name == nf);
                            }
                        }
                    }
                },
                None => {
                    let ghost nf = l@.name_folder;
                    let f = Folder {
                        name: l.name_folder.clone(),
                        table: Vec::new(),
                        logs: vec![l],
                        graphs: Vec::new(),
                    };
                    proof {
                        assert(f@.table =~= Seq::<ValueV>::empty());
                        assert(f@.graphs =~= Seq::<GraphV>::empty());
                        assert(f@.logs =~= Seq::<LogV>::empty().push(lv[k3]));
                        assert forall|m: int| 0 <= m < gv.len() implies (#[trigger] gv[m]).name_folder
                            != nf by {
                            assert(covers(fv_old, gv[m].name_folder));
                            let w = choose|w: int|
                                0 <= w < fv_old.len() && fv_old[w].name == gv[m].name_folder;
                        }
                        lemma_graphs_in_empty(gv, nf);
                        assert forall|m: int| 0 <= m < vv.len() implies (#[trigger] vv[m]).name_folder
                            != nf by {
                            assert(covers(fv_old, vv[m].name_folder));
                            let w = choose|w: int|
                                0 <= w < fv_old.len() && fv_old[w].name == vv[m].name_folder;
                        }
                        lemma_values_in_empty(vv, nf);
                        assert forall|m: int| 0 <= m < lv.take(k3).len() implies (#[trigger] lv.take(
                            k3,
                        )[m]).name_folder != nf by {
                            assert(covers(fv_old, lv[m].name_folder));
                            let w = choose|w: int|
                                0 <= w < fv_old.len() && fv_old[w].name == lv[m].name_folder;
                        }
                        lemma_logs_in_empty(lv.take(k3), nf);
                    }
                    folders.push(f);
                    proof {
                        assert(folder_views(folders@) =~= fv_old.push(f@));
                        assert forall|j2: int|
                            0 <= j2 < folder_views(folders@).len() implies {
                            let f2 = #[trigger] folder_views(folders@)[j2];
                            &&& f2.graphs == graphs_in(gv, f2.name)
                            &&& f2.table == values_in(vv, f2.name)
                            &&& f2.logs == logs_in(lv.take(k3 + 1), f2.name)
                        } by {
                            let f2 = folder_views(folders@)[j2];
                            lemma_logs_in_push(lv.take(k3), f2.name, lv[k3]);
                            if j2 < fv_old.len() {
                                assert(f2 == fv_old[j2]);
                                assert(f2.name != nf);
                            } else {
                                assert(f2 == f@);
                                assert(f2.logs =~= logs_in(lv.take(k3), nf).push(lv[k3]));
                            }
                        }
                        assert(names_distinct(folder_views(folders@)));
                        assert forall|m: int| 0 <= m < gv.len() implies covers(
                            folder_views(folders@),
                            (#[trigger] gv[m]).name_folder,
                        ) by {
                            let w = choose|w: int|
                                0 <= w < fv_old.len() && fv_old[w].name == gv[m].name_folder;
                            assert(folder_views(folders@)[w].name == gv[m].name_folder);
                        }
                        assert forall|m: int| 0 <= m < vv.len() implies covers(
                            folder_views(folders@),
                            (#[trigger] vv[m]).name_folder,
                        ) by {
                            let w = choose|w: int|
                                0 <= w < fv_old.len() && fv_old[w].name == vv[m].name_folder;
                            assert(folder_views(folders@)[w].name == vv[m].name_folder);
                        }
                        assert forall|m: int| 0 <= m < k3 + 1 implies covers(
                            folder_views(folders@),
                            (#[trigger] lv[m]).name_folder,
                        ) by {
                            if m < k3 {
                                let w = choose|w: int|
                                    0 <= w < fv_old.len() && fv_old[w].name
                                        == lv[m].name_folder;
                                assert(folder_views(folders@)[w].name == lv[m].name_folder);
                            } else {
                                assert(folder_views(folders@)[fv_old.len() as int].name == nf);
                            }
                        }
                    }
                },
            }
            proof {
                k3 = k3 + 1;
            }
        }
        let ghost before = folder_views(folders@);
        proof {
            assert(lv.skip(k3).len() == 0);
            assert(k3 == lv.len());
            assert(lv.take(k3) =~= lv);
            assert forall|j: int| 0 <= j < before.len() implies folder_needed(
                (#[trigger] before[j]).name,
                gv,
                vv,
                lv,
            ) by {
                let f = before[j];
                if f.graphs.len() > 0 {
                    assert(f.graphs.contains(f.graphs[0]));
                    lemma_graphs_in_member(gv, f.name, f.graphs[0]);
                    let m = choose|m: int| 0 <= m < gv.len() && gv[m] == f.graphs[0];
                    assert(gv[m].name_folder == f.name);
                } else if f.table.len() > 0 {
                    assert(f.table.contains(f.table[0]));
                    lemma_values_in_member(vv, f.name, f.table[0]);
                    let m = choose|m: int| 0 <= m < vv.len() && vv[m] == f.table[0];
                    assert(vv[m].name_folder == f.name);
                } else {
                    assert(f.logs.len() > 0);
                    assert(f.logs.contains(f.logs[0]));
                    lemma_logs_in_member(lv, f.name, f.logs[0]);
                    let m = choose|m: int| 0 <= m < lv.len() && lv[m] == f.logs[0];
                    assert(lv[m].name_folder == f.name);
                }
            }
            assert(folders_part(before, gv, vv, lv));
        }
        sort_folders(&mut folders);
        proof {
            lemma_part_transfer(before, folder_views(folders@), gv, vv, lv);
        }
        folders
    }
}

/// No two folder names are equal up to case.
pub open spec fn lowers_distinct(fs: Seq<FolderV>) -> bool {
    forall|a: int, b: int|
        0 <= a < b < fs.len() ==> lower_seq(fs[a].name) != lower_seq(fs[b].name)
}

/// The folder list order is determined by the folder names alone: two
/// sorted folder lists over the same names — with no two names equal up to
/// case — list them in the same order, whatever input order produced each.
pub proof fn lemma_folder_order_deterministic(fs1: Seq<FolderV>, fs2: Seq<FolderV>)
    requires
        folders_sorted(fs1),
        folders_sorted(fs2),
        names_distinct(fs1),
        names_distinct(fs2),
        lowers_distinct(fs1),
        forall|n: Seq<char>| #[trigger] covers(fs1, n) <==> #[trigger] covers(fs2, n),
    ensures
        fs1.len() == fs2.len(),
        forall|j: int| 0 <= j < fs1.len() ==> (#[trigger] fs1[j]).name == fs2[j].name,
    decreases fs1.len(),
{
    if fs1.len() == 0 {
        if fs2.len() > 0 {
            assert(covers(fs2, fs2[0].name));
            assert(covers(fs1, fs2[0].name));
        }
    } else if fs2.len() == 0 {
        assert(covers(fs1, fs1[0].name));
        assert(covers(fs2, fs1[0].name));
    } else {
        assert(covers(fs1, fs1[0].name));
        assert(covers(fs2, fs1[0].name));
        let j = choose|j: int| 0 <= j < fs2.len() && fs2[j].name == fs1[0].name;
        assert(covers(fs2, fs2[0].name));
        assert(covers(fs1, fs2[0].name));
        let i = choose|i: int| 0 <= i < fs1.len() && fs1[i].name == fs2[0].name;
        assert(fs1[0].name == fs2[0].name) by {
            if i == 0 {
            } else if j == 0 {
            } else {
                assert(ci_le(fs2[0].name, fs2[j].name));
                assert(ci_le(fs1[0].name, fs1[i].name));
                assert(ci_le(fs1[0].name, fs2[0].name));
                assert(ci_le(fs2[0].name, fs1[0].name));
                lemma_lex_antisym(lower_seq(fs1[0].name), lower_seq(fs2[0].name));
                assert(lower_seq(fs1[0].name) != lower_seq(fs1[i].name));
                assert(false);
            }
        }
        let t1 = fs1.drop_first();
        let t2 = fs2.drop_first();
        assert(forall|m: int| 0 <= m < t1.len() ==> (#[trigger] t1[m]) == fs1[m + 1]);
        assert(forall|m: int| 0 <= m < t2.len() ==> (#[trigger] t2[m]) == fs2[m + 1]);
        assert forall|n: Seq<char>| #[trigger] covers(t1, n) <==> #[trigger] covers(t2, n) by {
            if covers(t1, n) {
                let a = choose|a: int| 0 <= a < t1.len() && t1[a].name == n;
                assert(fs1[a + 1].name == n);
                assert(covers(fs1, n));
                assert(covers(fs2, n));
                let b = choose|b: int| 0 <= b < fs2.len() && fs2[b].name == n;
                assert(n != fs1[0].name);
                assert(b != 0);
                assert(t2[b - 1].name == n);
                assert(covers(t2, n));
            }
            if covers(t2, n) {
                let a = choose|a: int| 0 <= a < t2.len() && t2[a].name == n;
                assert(fs2[a + 1].name == n);
                assert(covers(fs2, n));
                assert(covers(fs1, n));
                let b = choose|b: int| 0 <= b < fs1.len() && fs1[b].name == n;
                assert(n != fs2[0].name);
                assert(b != 0);
                assert(t1[b - 1].name == n);
                assert(covers(t1, n));
            }
        }
        assert(folders_sorted(t1)) by {
            assert(forall|a: int, b: int|
                0 <= a < b < t1.len() ==> ci_le((#[trigger] t1[a]).name, (#[trigger] t1[b]).name));
        }
        assert(folders_sorted(t2)) by {
            assert(forall|a: int, b: int|
                0 <= a < b < t2.len() ==> ci_le((#[trigger] t2[a]).name, (#[trigger] t2[b]).name));
        }
        assert(names_distinct(t1));
        assert(names_distinct(t2));
        assert(lowers_distinct(t1));
        lemma_folder_order_deterministic(t1, t2);
        assert forall|m: int| 0 <= m < fs1.len() implies (#[trigger] fs1[m]).name
            == fs2[m].name by {
            if m > 0 {
                assert(t1[m - 1].name == t2[m - 1].name);
            }
        }
    }
}

} // verus!
