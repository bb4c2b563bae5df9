//! The names of the files that stand beside a file while it is saved.

use vstd::prelude::*;
use vstd::string::*;

use crate::app::model::file_label;
#[allow(unused_imports)]
use crate::app::model::name_of;
#[allow(unused_imports)]
use crate::cli::matroska_extension;
use crate::mkv::file::FilePath;
#[allow(unused_imports)]
use crate::mkv::file::PathModel;
#[allow(unused_imports)]
use crate::text::{lower, lower_char};

verus! {

/// Whether no file whose name ends so is taken for a Matroska file: the last dot
/// stands in front of an extension that no such file has.
pub open spec fn no_matroska_name(end: Seq<char>) -> bool {
    exists|k: int| #[trigger] last_dot(end, k) && !matroska_extension(Some(end.skip(k + 1)))
}

/// Whether the last dot of a name stands at `k`.
pub open spec fn last_dot(name: Seq<char>, k: int) -> bool {
    &&& 0 <= k < name.len()
    &&& name[k] == '.'
    &&& forall|i: int| k < i < name.len() ==> #[trigger] name[i] != '.'
}

/// The name that a file of that name is rewritten under.
pub open spec fn temporary(name: Seq<char>) -> Seq<char> {
    "."@ + name + ".mkvtrack-tmp"@
}

/// What is put behind the name of a file for the name of its backup.
pub fn backup_suffix() -> (r: &'static str)
    ensures
        r@ == ".bak"@,
        r@.len() > 0,
        no_matroska_name(r@),
{
    proof {
        lemma_suffixes();
    }
    ".bak"
}

/// The name of the file that a rewrite is written to, in the same directory,
/// before it takes the place of the old one.
pub fn temp_name(path: &FilePath) -> (r: String)
    ensures
        r@ == "."@ + name_of(path@) + ".mkvtrack-tmp"@,
        r@ == temporary(name_of(path@)),
{
    let mut out = ".".to_owned();
    out.append(&file_label(path));
    out.append(".mkvtrack-tmp");
    out
}

proof fn lemma_suffixes()
    ensures
        no_matroska_name(".bak"@),
        no_matroska_name(".mkvtrack-tmp"@),
{
    reveal_strlit(".bak");
    reveal_strlit(".mkvtrack-tmp");
    reveal_strlit("mkv");
    reveal_strlit("mka");
    reveal_strlit("mks");
    reveal_strlit("mk3d");
    reveal_strlit("webm");
    assert(last_dot(".bak"@, 0));
    assert(last_dot(".mkvtrack-tmp"@, 0));
    let e = ".bak"@.skip(1);
    assert(e.len() == 3 && lower(e).len() == 3 && lower(e)[0] == lower_char(e[0]) && e[0] == 'b');
    let t = ".mkvtrack-tmp"@.skip(1);
    assert(t.len() == 12 && lower(t).len() == 12);
}

/// A rewrite never goes to the file itself, nor two rewrites to one file.
pub proof fn law_temporary_names(path: PathModel, other: PathModel)
    ensures
        temporary(name_of(path)) != name_of(path),
        name_of(path) != name_of(other) ==> temporary(name_of(path)) != temporary(name_of(other)),
        no_matroska_name(temporary(name_of(path))),
        temporary(name_of(path))[0] == '.',
{
    let a = name_of(path);
    let b = name_of(other);
    let end = ".mkvtrack-tmp"@;
    reveal_strlit(".");
    reveal_strlit(".mkvtrack-tmp");
    lemma_suffixes();
    let s = temporary(a);
    let t = temporary(b);
    if s == t {
        assert(s.subrange(1, s.len() - end.len()) =~= a);
        assert(t.subrange(1, t.len() - end.len()) =~= b);
    }
    let k = choose|k: int| #[trigger] last_dot(end, k) && !matroska_extension(Some(end.skip(k + 1)));
    let at = 1 + a.len() + k;
    assert forall|i: int| at < i < s.len() implies #[trigger] s[i] != '.' by {
        assert(s[i] == end[i - 1 - a.len()]);
    }
    assert(s[at] == end[k]);
    assert(last_dot(s, at));
    assert(s.skip(at + 1) =~= end.skip(k + 1));
}

} // verus!
