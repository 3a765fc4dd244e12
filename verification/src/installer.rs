//! Installing downloaded files: the record kept of an installed file and
//! the name a file is written under before it is moved into place.
use vstd::prelude::*;
use crate::chars::{append_str, str_chars, str_equal, string_of_chars};

verus! {

/// What is recorded of an installed file.
pub struct InstalledFile {
    pub project_id: u64,
    pub file_id: u64,
    pub file_name: String,
    pub sha1: Option<String>,
    pub sha256: Option<String>,
    pub bytes: u64,
    /// When it was installed, as RFC 3339 text in UTC.
    pub installed_at: String,
    pub path: Vec<String>,
}

/// The position of the last dot of `name`, if it has one.
pub open spec fn last_dot(name: Seq<char>) -> Option<int>
    decreases name.len(),
{
    if name.len() == 0 {
        None
    } else if name.last() == '.' {
        Some(name.len() - 1)
    } else {
        last_dot(name.drop_last())
    }
}

/// The stem of a file name, as `Path::file_stem` gives it: the name before
/// its last dot, or the whole name where that dot is its first character or
/// it has none.
pub open spec fn file_stem(name: Seq<char>) -> Seq<char> {
    match last_dot(name) {
        Some(k) => if k > 0 {
            name.take(k)
        } else {
            name
        },
        None => name,
    }
}

/// The name a file is written under before it is moved into place: its
/// extension replaced by `part`, as `Path::with_extension("part")` does.
pub open spec fn part_name(name: Seq<char>) -> Seq<char> {
    file_stem(name) + ".part"@
}

proof fn lemma_last_dot_none(name: Seq<char>, i: int)
    requires
        0 <= i <= name.len(),
        forall|j: int| i <= j < name.len() ==> name[j] != '.',
    ensures
        last_dot(name) == last_dot(name.take(i)),
    decreases name.len() - i,
{
    if i < name.len() {
        assert(name.drop_last().len() == name.len() - 1);
        lemma_last_dot_none(name.drop_last(), i);
        assert(name.drop_last().take(i) =~= name.take(i));
    } else {
        assert(name.take(i) =~= name);
    }
}

/// The name a file called `name` is written under while it downloads (see
/// `part_name`). An empty name, `.` and `..` name no file, so, as with
/// `Path::with_extension`, they are kept as they are.
pub fn part_file_name(name: &str) -> (r: String)
    ensures
        name@.len() == 0 || name@ == "."@ || name@ == ".."@ ==> r@ == name@,
        !(name@.len() == 0 || name@ == "."@ || name@ == ".."@) ==> r@ == part_name(name@),
{
    let cs = str_chars(name);
    if cs.len() == 0 || str_equal(name, ".") || str_equal(name, "..") {
        return crate::text::string_of(name);
    }
    let mut i = cs.len();
    while i > 0 && cs[i - 1] != '.'
        invariant
            cs@ == name@,
            i <= cs@.len(),
            forall|j: int| i <= j < cs@.len() ==> cs@[j] != '.',
        decreases i,
    {
        i = i - 1;
    }
    proof {
        lemma_last_dot_none(cs@, i as int);
        if i > 0 {
            assert(cs@.take(i as int).last() == '.');
            assert(last_dot(cs@.take(i as int)) == Some(i - 1));
        } else {
            assert(cs@.take(0) =~= Seq::<char>::empty());
        }
    }
    let stem_end = if i > 1 {
        i - 1
    } else {
        cs.len()
    };
    let mut out = string_of_chars(&cs, 0, stem_end);
    proof {
        if i <= 1 {
            assert(cs@.subrange(0, cs@.len() as int) =~= cs@);
        }
    }
    append_str(&mut out, ".part");
    out
}

} // verus!
