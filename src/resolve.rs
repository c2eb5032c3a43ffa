use vstd::prelude::*;
use vstd::string::*;
use crate::structs::{ModFile, ModVersion};

verus! {

/// What semver decides when the requirement text `req` is checked against
/// the version text `version`: `false` where either text does not parse.
pub uninterp spec fn requirement_matches(req: Seq<char>, version: Seq<char>) -> bool;

/// Relies on semver: `VersionReq::parse` reads the requirement, `Version::parse`
/// reads the version, and `VersionReq::matches` decides; a text that does not
/// parse matches nothing.
#[verifier::external_body]
fn req_matches(req: &str, version: &str) -> (r: bool)
    ensures
        r == requirement_matches(req@, version@),
{
    match (semver::VersionReq::parse(req), semver::Version::parse(version)) {
        (Ok(q), Ok(v)) => q.matches(&v),
        _ => false,
    }
}

/// Why no artifact could be picked for a mod.
#[derive(Clone, Debug)]
pub enum ResolveError {
    /// No release with the loader supports the target game version.
    NotFound { mod_id: String, target: String },
    /// The matching release has no file at the position that was picked.
    MissingArtifact { mod_id: String, index: usize },
    /// The mod's releases could not be fetched.
    Unavailable { mod_id: String },
}

/// The one loader that releases must support.
pub open spec fn loader() -> Seq<char> {
    seq!['f', 'a', 'b', 'r', 'i', 'c']
}

/// The requirement that holds of exactly the version `entry` names.
pub open spec fn exact_requirement(entry: Seq<char>) -> Seq<char> {
    seq!['='] + entry
}

pub open spec fn supports_loader(rec: ModVersion) -> bool {
    exists|i: int| 0 <= i < rec.loaders@.len() && rec.loaders@[i]@ == loader()
}

pub open spec fn entry_matches(entry: Seq<char>, target: Seq<char>) -> bool {
    requirement_matches(exact_requirement(entry), target)
}

pub open spec fn supports_game_version(rec: ModVersion, target: Seq<char>) -> bool {
    exists|i: int|
        0 <= i < rec.game_versions@.len() && entry_matches(rec.game_versions@[i]@, target)
}

/// A release that the resolver may pick for `target`.
pub open spec fn accepts(rec: ModVersion, target: Seq<char>) -> bool {
    supports_loader(rec) && supports_game_version(rec, target)
}

/// How many of `recs` support the loader.
pub open spec fn loader_count(recs: Seq<ModVersion>) -> nat
    decreases recs.len(),
{
    if recs.len() == 0 {
        0
    } else {
        loader_count(recs.drop_last()) + if supports_loader(recs.last()) {
            1nat
        } else {
            0nat
        }
    }
}

/// `recs[i]` is the first release that fits `target`.
pub open spec fn is_first_accepted(recs: Seq<ModVersion>, target: Seq<char>, i: int) -> bool {
    &&& 0 <= i < recs.len()
    &&& accepts(recs[i], target)
    &&& forall|j: int| 0 <= j < i ==> !accepts(recs[j], target)
}

/// The position of the picked release among those that support the loader.
pub open spec fn match_position(recs: Seq<ModVersion>, i: int) -> nat {
    loader_count(recs.take(i))
}

/// The outcome that `find_correct_version` owes for `id`, `target` and `recs`.
pub open spec fn resolved(
    r: Result<ModFile, ResolveError>,
    id: Seq<char>,
    target: Seq<char>,
    recs: Seq<ModVersion>,
) -> bool {
    match r {
        Ok(file) => exists|i: int|
            {
                &&& #[trigger] is_first_accepted(recs, target, i)
                &&& match_position(recs, i) < recs[i].files@.len()
                &&& file == recs[i].files@[match_position(recs, i) as int]
            },
        Err(ResolveError::MissingArtifact { mod_id, index }) => exists|i: int|
            {
                &&& #[trigger] is_first_accepted(recs, target, i)
                &&& index == match_position(recs, i)
                &&& match_position(recs, i) >= recs[i].files@.len()
                &&& mod_id@ == id
            },
        Err(ResolveError::NotFound { mod_id, target: t }) => {
            &&& forall|i: int| 0 <= i < recs.len() ==> !accepts(#[trigger] recs[i], target)
            &&& mod_id@ == id
            &&& t@ == target
        },
        Err(ResolveError::Unavailable { .. }) => false,
    }
}

proof fn lemma_loader_count_step(recs: Seq<ModVersion>, i: int)
    requires
        0 <= i < recs.len(),
    ensures
        loader_count(recs.take(i + 1)) == loader_count(recs.take(i)) + if supports_loader(
            recs[i],
        ) {
            1nat
        } else {
            0nat
        },
{
    assert(recs.take(i + 1).drop_last() =~= recs.take(i));
}

/// A copy of a file descriptor.
fn copy_file(f: &ModFile) -> (r: ModFile)
    ensures
        r == *f,
{
    ModFile { url: f.url.clone(), filename: f.filename.clone() }
}

fn has_loader(rec: &ModVersion) -> (r: bool)
    ensures
        r == supports_loader(*rec),
{
    let wanted = String::from_str("fabric");
    proof {
        reveal_strlit("fabric");
    }
    assert(wanted@ =~= loader());
    let mut i: usize = 0;
    while i < rec.loaders.len()
        invariant
            wanted@ == loader(),
            i <= rec.loaders@.len(),
            forall|k: int| 0 <= k < i ==> rec.loaders@[k]@ != loader(),
        decreases rec.loaders@.len() - i,
    {
        if rec.loaders[i] == wanted {
            return true;
        }
        i = i + 1;
    }
    false
}

/// Whether the game version `entry` is exactly `target`, as a semver
/// requirement `=entry`.
pub fn matches_exactly(entry: &str, target: &str) -> (r: bool)
    ensures
        r == entry_matches(entry@, target@),
{
    let mut req = String::from_str("=");
    proof {
        reveal_strlit("=");
    }
    req.append(entry);
    assert(req@ =~= exact_requirement(entry@));
    req_matches(req.as_str(), target)
}

fn has_game_version(rec: &ModVersion, target: &str) -> (r: bool)
    ensures
        r == supports_game_version(*rec, target@),
{
    let mut i: usize = 0;
    while i < rec.game_versions.len()
        invariant
            i <= rec.game_versions@.len(),
            forall|k: int|
                0 <= k < i ==> !entry_matches(rec.game_versions@[k]@, target@),
        decreases rec.game_versions@.len() - i,
    {
        if matches_exactly(rec.game_versions[i].as_str(), target) {
            return true;
        }
        i = i + 1;
    }
    false
}

/// Picks the artifact of mod `id` for the game version `target` among the
/// releases `versions`, in the order given.
///
/// The first release that supports the loader and lists a game version that is
/// exactly `target` is the match. If it is the `k`-th of the releases that
/// support the loader (from zero), its `k`-th file is the artifact.
pub fn find_correct_version(id: &String, target: &str, versions: &Vec<ModVersion>) -> (r: Result<
    ModFile,
    ResolveError,
>)
    ensures
        resolved(r, id@, target@, versions@),
{
    let mut i: usize = 0;
    let mut k: usize = 0;
    while i < versions.len()
        invariant
            i <= versions@.len(),
            k == loader_count(versions@.take(i as int)),
            k <= i,
            forall|j: int| 0 <= j < i ==> !accepts(#[trigger] versions@[j], target@),
        decreases versions@.len() - i,
    {
        let rec = &versions[i];
        proof {
            lemma_loader_count_step(versions@, i as int);
        }
        if has_loader(rec) {
            if has_game_version(rec, target) {
                assert(is_first_accepted(versions@, target@, i as int));
                if k < rec.files.len() {
                    return Ok(copy_file(&rec.files[k]));
                } else {
                    return Err(ResolveError::MissingArtifact { mod_id: id.clone(), index: k });
                }
            }
            k = k + 1;
        }
        i = i + 1;
    }
    Err(ResolveError::NotFound { mod_id: id.clone(), target: String::from_str(target) })
}

/// Only a release that supports the loader and lists a game version whose
/// exact requirement matches the target is ever picked; a release without the
/// loader is never the picked one, whatever game versions it lists.
pub proof fn lemma_picked_release_fits(
    r: Result<ModFile, ResolveError>,
    id: Seq<char>,
    target: Seq<char>,
    recs: Seq<ModVersion>,
)
    requires
        resolved(r, id, target, recs),
    ensures
        forall|j: int|
            0 <= j < recs.len() && !supports_loader(#[trigger] recs[j]) ==> !is_first_accepted(
                recs,
                target,
                j,
            ),
        r is Ok ==> exists|i: int|
            {
                &&& #[trigger] is_first_accepted(recs, target, i)
                &&& supports_loader(recs[i])
                &&& supports_game_version(recs[i], target)
                &&& r->Ok_0 == recs[i].files@[match_position(recs, i) as int]
            },
{
}

} // verus!
