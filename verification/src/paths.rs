//! Filesystem paths as lists of names, and the directories of the client.
use vstd::prelude::*;
use crate::asar::{PathView, path_view};
use crate::text::string_of;

verus! {

/// The names of `base` followed by `names`.
pub open spec fn joined(base: Seq<String>, names: Seq<Seq<char>>) -> PathView {
    path_view(base) + names
}

/// `directories::ProjectDirs::from(qualifier, organization, application)`'s
/// data directory, as its components; `None` where no home directory is
/// known. Which directory it is depends on the machine; on every platform
/// the crate builds it by joining the project's path onto a base directory,
/// so it has at least one component.
#[verifier::external_body]
fn project_data_dir(qualifier: &str, organization: &str, application: &str) -> (r: Option<Vec<String>>)
    ensures
        r matches Some(p) ==> p@.len() > 0,
{
    directories::ProjectDirs::from(qualifier, organization, application)
        .map(|p| p.data_dir().components().map(|c| c.as_os_str().to_string_lossy().into_owned()).collect())
}

/// `dirs::document_dir()`, as its components; `None` where the platform
/// has none. What it holds depends on the environment.
#[verifier::external_body]
fn documents_dir() -> (r: Option<Vec<String>>) {
    dirs::document_dir().map(|p| p.components().map(|c| c.as_os_str().to_string_lossy().into_owned()).collect())
}

/// Appends a copy of each name of `names`.
fn extend_path(out: &mut Vec<String>, names: &Vec<String>)
    ensures
        path_view(final(out)@) == path_view(old(out)@) + path_view(names@),
{
    let mut i: usize = 0;
    while i < names.len()
        invariant
            i <= names@.len(),
            path_view(out@) == path_view(old(out)@) + path_view(names@.take(i as int)),
        decreases names@.len() - i,
    {
        let ghost before = out@;
        out.push(names[i].clone());
        proof {
            assert(path_view(out@) =~= path_view(before).push(names@[i as int]@));
            assert(path_view(names@.take(i + 1)) =~= path_view(names@.take(i as int)).push(names@[i as int]@));
            assert(path_view(out@) =~= path_view(old(out)@) + path_view(names@.take(i + 1)));
        }
        i = i + 1;
    }
    assert(names@.take(names@.len() as int) =~= names@);
}

/// `base` followed by the names `a`.
pub fn join1(base: &Vec<String>, a: &str) -> (r: Vec<String>)
    ensures
        path_view(r@) == joined(base@, seq![a@]),
{
    let mut out: Vec<String> = Vec::new();
    extend_path(&mut out, base);
    let ghost before = out@;
    out.push(string_of(a));
    assert(path_view(out@) =~= path_view(before).push(a@));
    assert(path_view(Seq::<String>::empty()) =~= Seq::<Seq<char>>::empty());
    out
}

/// `base` followed by the names `a`, `b`, `c`.
pub fn join3(base: &Vec<String>, a: &str, b: &str, c: &str) -> (r: Vec<String>)
    ensures
        path_view(r@) == joined(base@, seq![a@, b@, c@]),
{
    let p1 = join1(base, a);
    let p2 = join1(&p1, b);
    let p3 = join1(&p2, c);
    assert(path_view(p3@) =~= joined(base@, seq![a@, b@, c@]));
    p3
}

/// Where the client installs itself under the local application data
/// directory: `Programs/CurseForge Windows`.
pub fn install_root_in(local_app_data: &Vec<String>) -> (r: Vec<String>)
    ensures
        path_view(r@) == joined(local_app_data@, seq!["Programs"@, "CurseForge Windows"@]),
{
    let p = join1(local_app_data, "Programs");
    let r = join1(&p, "CurseForge Windows");
    assert(path_view(r@) =~= joined(local_app_data@, seq!["Programs"@, "CurseForge Windows"@]));
    r
}

/// The archive of an installed client: `resources/app.asar`.
pub fn asar_path_in(install_root: &Vec<String>) -> (r: Vec<String>)
    ensures
        path_view(r@) == joined(install_root@, seq!["resources"@, "app.asar"@]),
{
    let p = join1(install_root, "resources");
    let r = join1(&p, "app.asar");
    assert(path_view(r@) =~= joined(install_root@, seq!["resources"@, "app.asar"@]));
    r
}

/// The updater's feed file of an installed client: `resources/app-update.yml`.
pub fn update_yml_path_in(install_root: &Vec<String>) -> (r: Vec<String>)
    ensures
        path_view(r@) == joined(install_root@, seq!["resources"@, "app-update.yml"@]),
{
    let p = join1(install_root, "resources");
    let r = join1(&p, "app-update.yml");
    assert(path_view(r@) =~= joined(install_root@, seq!["resources"@, "app-update.yml"@]));
    r
}

/// The data directory of the client given what the platform reports: its
/// per-user data directory for OpenForge where there is one, else
/// `./openforge-data`.
pub fn data_dir_or_default(found: Option<Vec<String>>) -> (r: Vec<String>)
    ensures
        match found {
            Some(p) => r@ == p@,
            None => path_view(r@) == seq!["."@, "openforge-data"@],
        },
{
    match found {
        Some(p) => p,
        None => {
            let mut v: Vec<String> = Vec::new();
            v.push(string_of("."));
            v.push(string_of("openforge-data"));
            assert(path_view(v@) =~= seq!["."@, "openforge-data"@]);
            v
        },
    }
}

/// The data directory of the client on this machine: the platform's data
/// directory for the project `com.OpenForge.OpenForge`, or
/// `./openforge-data` (see `data_dir_or_default`). Either way it has at
/// least one name.
pub fn data_dir() -> (r: Vec<String>)
    ensures
        r@.len() > 0,
{
    let r = data_dir_or_default(project_data_dir("com", "OpenForge", "OpenForge"));
    assert(path_view(r@).len() == r@.len());
    r
}

/// `data_dir/instances`.
pub fn instances_dir_in(data_dir: &Vec<String>) -> (r: Vec<String>)
    ensures
        path_view(r@) == joined(data_dir@, seq!["instances"@]),
{
    join1(data_dir, "instances")
}

/// `data_dir/cache`.
pub fn cache_dir_in(data_dir: &Vec<String>) -> (r: Vec<String>)
    ensures
        path_view(r@) == joined(data_dir@, seq!["cache"@]),
{
    join1(data_dir, "cache")
}

/// `data_dir/downloads`.
pub fn downloads_dir_in(data_dir: &Vec<String>) -> (r: Vec<String>)
    ensures
        path_view(r@) == joined(data_dir@, seq!["downloads"@]),
{
    join1(data_dir, "downloads")
}

/// The directory that holds game instances: `instances` in the data
/// directory, whatever that is on this machine.
pub fn instances_dir() -> (r: Vec<String>)
    ensures
        path_view(r@).len() >= 2,
        path_view(r@).last() == "instances"@,
{
    instances_dir_in(&data_dir())
}

/// The download cache: `cache` in the data directory.
pub fn cache_dir() -> (r: Vec<String>)
    ensures
        path_view(r@).len() >= 2,
        path_view(r@).last() == "cache"@,
{
    cache_dir_in(&data_dir())
}

/// The downloads directory: `downloads` in the data directory.
pub fn downloads_dir() -> (r: Vec<String>)
    ensures
        path_view(r@).len() >= 2,
        path_view(r@).last() == "downloads"@,
{
    downloads_dir_in(&data_dir())
}

/// The documents directory given what the platform reports, or the empty
/// path where it reports none.
pub fn document_dir_or(found: Option<Vec<String>>) -> (r: Vec<String>)
    ensures
        match found {
            Some(p) => r@ == p@,
            None => r@.len() == 0,
        },
{
    match found {
        Some(p) => p,
        None => Vec::new(),
    }
}

/// The user's documents directory on this machine, or the empty path where
/// there is none (see `document_dir_or`).
pub fn document_dir_or_empty() -> (r: Vec<String>) {
    document_dir_or(documents_dir())
}

} // verus!
