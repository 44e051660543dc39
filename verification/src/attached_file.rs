//! Files attached to a report: each is offered for download beside the
//! charts.  Repeated paths and repeated base names are reported but kept.

use vstd::prelude::*;
use vstd::string::*;

use crate::diag::{warn_views, WarnV, Warning};
use crate::util::str_eq_str;

verus! {

/// One file carried into the report.
#[derive(Debug)]
pub struct AttachedFile {
    /// The path the file was read from.
    pub path: String,
    /// The base name shown on the download button.
    pub name: String,
    /// The file's bytes, as read from disk.
    pub content: Vec<u8>,
}

/// The mathematical image of an `AttachedFile`.
pub struct AttachedFileV {
    pub path: Seq<char>,
    pub name: Seq<char>,
    pub content: Seq<u8>,
}

impl View for AttachedFile {
    type V = AttachedFileV;

    open spec fn view(&self) -> AttachedFileV {
        AttachedFileV { path: self.path@, name: self.name@, content: self.content@ }
    }
}

/// The images of an attached-file list.
pub open spec fn afile_views(s: Seq<AttachedFile>) -> Seq<AttachedFileV> {
    s.map_values(|f: AttachedFile| f@)
}

/// Whether one of the accumulated files has the given path.
pub open spec fn files_have_path(acc: Seq<AttachedFileV>, path: Seq<char>) -> bool {
    exists|j: int| 0 <= j < acc.len() && acc[j].path == path
}

/// Whether one of the accumulated files has the given base name.
pub open spec fn files_have_name(acc: Seq<AttachedFileV>, name: Seq<char>) -> bool {
    exists|j: int| 0 <= j < acc.len() && acc[j].name == name
}

/// The collected file list and warnings after the first `i` files: every
/// file is kept; a repeated path, or else a repeated base name, is warned
/// about.
pub open spec fn collect_attached_to(fs: Seq<AttachedFileV>, i: int) -> (Seq<AttachedFileV>, Seq<
    WarnV,
>)
    decreases i,
{
    if i <= 0 {
        (Seq::empty(), Seq::empty())
    } else {
        let acc = collect_attached_to(fs, i - 1);
        let f = fs[i - 1];
        let ws = if files_have_path(acc.0, f.path) {
            acc.1.push(WarnV::DuplicatePath { path: f.path })
        } else if files_have_name(acc.0, f.name) {
            acc.1.push(WarnV::DuplicateFileName { name: f.name })
        } else {
            acc.1
        };
        (acc.0.push(f), ws)
    }
}

/// Scans the accumulated files for one with the given path.
fn has_path(files: &Vec<AttachedFile>, path: &str) -> (r: bool)
    ensures
        r == files_have_path(afile_views(files@), path@),
{
    let ghost acc = afile_views(files@);
    let mut j: usize = 0;
    while j < files.len()
        invariant
            j <= files@.len(),
            acc == afile_views(files@),
            acc.len() == files@.len(),
            forall|m: int| 0 <= m < j ==> acc[m].path != path@,
        decreases files@.len() - j,
    {
        proof {
            assert(acc[j as int] == files@[j as int]@);
        }
        if str_eq_str(files[j].path.as_str(), path) {
            return true;
        }
        j = j + 1;
    }
    false
}

/// Scans the accumulated files for one with the given base name.
fn has_name(files: &Vec<AttachedFile>, name: &str) -> (r: bool)
    ensures
        r == files_have_name(afile_views(files@), name@),
{
    let ghost acc = afile_views(files@);
    let mut j: usize = 0;
    while j < files.len()
        invariant
            j <= files@.len(),
            acc == afile_views(files@),
            acc.len() == files@.len(),
            forall|m: int| 0 <= m < j ==> acc[m].name != name@,
        decreases files@.len() - j,
    {
        proof {
            assert(acc[j as int] == files@[j as int]@);
        }
        if str_eq_str(files[j].name.as_str(), name) {
            return true;
        }
        j = j + 1;
    }
    false
}

/// Collects the attached files in order, warning about a repeated path or,
/// failing that, a repeated base name; every file is kept regardless.
pub fn collect_attached(files: Vec<AttachedFile>) -> (r: (Vec<AttachedFile>, Vec<Warning>))
    ensures
        collect_attached_to(afile_views(files@), files@.len() as int) == (
            afile_views(r.0@),
            warn_views(r.1@),
        ),
{
    let ghost fv = afile_views(files@);
    let mut files = files;
    let mut out: Vec<AttachedFile> = Vec::new();
    let mut warns: Vec<Warning> = Vec::new();
    let ghost mut k: int = 0;
    proof {
        assert(afile_views(out@) =~= Seq::<AttachedFileV>::empty());
        assert(warn_views(warns@) =~= Seq::<WarnV>::empty());
        assert(afile_views(files@) =~= fv.skip(0));
    }
    while files.len() > 0
        invariant
            0 <= k <= fv.len(),
            afile_views(files@) == fv.skip(k),
            afile_views(files@).len() == files@.len(),
            collect_attached_to(fv, k) == (afile_views(out@), warn_views(warns@)),
        decreases files@.len(),
    {
        let ghost out_old = afile_views(out@);
        let ghost ws_old = warn_views(warns@);
        let ghost fseq_old = files@;
        let file = files.remove(0);
        proof {
            assert(afile_views(fseq_old) == fv.skip(k));
            assert(fv.skip(k)[0] == fv[k]);
            assert(afile_views(fseq_old)[0] == fseq_old[0]@);
            assert(file@ == fv[k]);
            assert(files@.len() == fseq_old.len() - 1);
            assert(afile_views(files@).len() == files@.len());
            assert(afile_views(fseq_old).len() == fseq_old.len());
            assert(fseq_old.len() == fv.len() - k);
            assert forall|m: int|
                0 <= m < files@.len() implies afile_views(files@)[m] == fv.skip(k + 1)[m] by {
                assert(files@[m] == fseq_old[m + 1]);
                assert(afile_views(files@)[m] == files@[m]@);
                assert(afile_views(fseq_old)[m + 1] == fseq_old[m + 1]@);
                assert(fv.skip(k)[m + 1] == fv[k + 1 + m]);
                assert(fv.skip(k + 1)[m] == fv[k + 1 + m]);
            }
            assert(afile_views(files@) =~= fv.skip(k + 1));
        }
        if has_path(&out, file.path.as_str()) {
            warns.push(Warning::DuplicatePath { path: file.path.clone() });
            proof {
                assert(warn_views(warns@) =~= ws_old.push(WarnV::DuplicatePath { path: fv[k].path }));
            }
        } else if has_name(&out, file.name.as_str()) {
            warns.push(Warning::DuplicateFileName { name: file.name.clone() });
            proof {
                assert(warn_views(warns@) =~= ws_old.push(
                    WarnV::DuplicateFileName { name: fv[k].name },
                ));
            }
        }
        out.push(file);
        proof {
            assert(afile_views(out@) =~= out_old.push(fv[k]));
            k = k + 1;
        }
    }
    (out, warns)
}

} // verus!
