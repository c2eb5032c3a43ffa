use vstd::prelude::*;
use crate::resolve::{find_correct_version, resolved, ResolveError};
use crate::structs::{MinecraftMod, MinecraftMods, ModFile, ModState, ModVersion, OptionMod, Options};
use crate::text::{contains_seq, contains_text, lower_of, lowercase, normalize_id, normalized_id};

verus! {

/// Ids are unique among the tracked mods.
pub open spec fn ids_unique(mods: Seq<OptionMod>) -> bool {
    forall|i: int, j: int|
        0 <= i < mods.len() && 0 <= j < mods.len() && i != j ==> mods[i].id@ != mods[j].id@
}

impl Options {
    /// A well-formed manifest tracks each id once.
    pub open spec fn wf(&self) -> bool {
        ids_unique(self.mods@)
    }
}

/// The hits of `before` with their ids normalized, all else kept.
pub open spec fn normalized_hits(before: Seq<MinecraftMod>, after: Seq<MinecraftMod>) -> bool {
    &&& after.len() == before.len()
    &&& forall|i: int|
        0 <= i < before.len() ==> {
            &&& (#[trigger] after[i]).id@ == normalized_id(before[i].id@)
            &&& after[i].title == before[i].title
            &&& after[i].author == before[i].author
            &&& after[i].description == before[i].description
        }
}

/// Takes the registry's `local-` prefix off the id of every hit, so that the
/// ids compare with those of the manifest.
pub fn normalize_hits(mods: &mut MinecraftMods)
    ensures
        normalized_hits(old(mods).hits@, final(mods).hits@),
{
    let mut hits: Vec<MinecraftMod> = Vec::new();
    let n = mods.hits.len();
    let mut i: usize = 0;
    while i < n
        invariant
            n == mods.hits@.len(),
            i <= n,
            hits@.len() == i,
            forall|k: int|
                0 <= k < i ==> {
                    &&& (#[trigger] hits@[k]).id@ == normalized_id(mods.hits@[k].id@)
                    &&& hits@[k].title == mods.hits@[k].title
                    &&& hits@[k].author == mods.hits@[k].author
                    &&& hits@[k].description == mods.hits@[k].description
                },
        decreases n - i,
    {
        let h = &mods.hits[i];
        let hit = MinecraftMod {
            id: normalize_id(h.id.as_str()),
            title: h.title.clone(),
            author: h.author.clone(),
            description: h.description.clone(),
        };
        hits.push(hit);
        i = i + 1;
    }
    mods.hits = hits;
}

/// `mods[i]` is the first tracked mod with the id `id`.
pub open spec fn first_with_id(mods: Seq<OptionMod>, id: Seq<char>, i: int) -> bool {
    &&& 0 <= i < mods.len()
    &&& mods[i].id@ == id
    &&& forall|j: int| 0 <= j < i ==> mods[j].id@ != id
}

/// `id` is tracked and its file is present; `present[i]` tells whether the
/// file of the `i`-th tracked mod is on disk.
pub open spec fn is_installed(mods: Seq<OptionMod>, present: Seq<bool>, id: Seq<char>) -> bool {
    exists|i: int| #[trigger] first_with_id(mods, id, i) && present[i]
}

/// Whether the mod `id` is installed: tracked by `options`, with its file on
/// disk as `present` reports it, one flag per tracked mod.
pub fn already_installed(id: &String, options: &Options, present: &Vec<bool>) -> (r: bool)
    requires
        present@.len() == options.mods@.len(),
    ensures
        r == is_installed(options.mods@, present@, id@),
{
    let mut i: usize = 0;
    while i < options.mods.len()
        invariant
            present@.len() == options.mods@.len(),
            i <= options.mods@.len(),
            forall|j: int| 0 <= j < i ==> options.mods@[j].id@ != id@,
        decreases options.mods@.len() - i,
    {
        if options.mods[i].id == *id {
            assert(first_with_id(options.mods@, id@, i as int));
            proof {
                if is_installed(options.mods@, present@, id@) {
                    let w = choose|w: int| #[trigger] first_with_id(options.mods@, id@, w) && present@[w];
                    assert(w == i);
                }
            }
            return present[i];
        }
        i = i + 1;
    }
    false
}

/// `r` says of `id` that it is installed exactly when `installed` holds.
pub open spec fn state_of(r: ModState, id: Seq<char>, installed: bool) -> bool {
    match r {
        ModState::Installed(s) => installed && s@ == id,
        ModState::Uninstalled(s) => !installed && s@ == id,
    }
}

/// Classifies the mod `id` against the manifest.
pub fn classify_id(id: &String, options: &Options, present: &Vec<bool>) -> (r: ModState)
    requires
        present@.len() == options.mods@.len(),
    ensures
        state_of(r, id@, is_installed(options.mods@, present@, id@)),
{
    if already_installed(id, options, present) {
        ModState::Installed(id.clone())
    } else {
        ModState::Uninstalled(id.clone())
    }
}

/// `names[i]` is the first of `names` equal to `query`.
pub open spec fn is_first_equal(names: Seq<Seq<char>>, query: Seq<char>, i: int) -> bool {
    &&& 0 <= i < names.len()
    &&& names[i] == query
    &&& forall|j: int| 0 <= j < i ==> names[j] != query
}

pub open spec fn views(v: Seq<String>) -> Seq<Seq<char>> {
    v.map_values(|s: String| s@)
}

/// The position of the first of `names` equal to `query`.
pub fn first_equal(query: &str, names: &Vec<String>) -> (r: Option<usize>)
    ensures
        match r {
            Some(i) => is_first_equal(views(names@), query@, i as int),
            None => forall|j: int| 0 <= j < names@.len() ==> names@[j]@ != query@,
        },
{
    let q = String::from_str(query);
    let mut i: usize = 0;
    while i < names.len()
        invariant
            q@ == query@,
            i <= names@.len(),
            forall|j: int| 0 <= j < i ==> names@[j]@ != query@,
        decreases names@.len() - i,
    {
        if names[i] == q {
            return Some(i);
        }
        i = i + 1;
    }
    None
}

/// The case-folded titles of the hits.
pub open spec fn folded_titles(hits: Seq<MinecraftMod>) -> Seq<Seq<char>> {
    hits.map_values(|h: MinecraftMod| lower_of(h.title@))
}

/// What `find_mod` owes: a single hit is classified directly; among several,
/// the first whose title equals the query, ignoring case; otherwise nothing,
/// and the caller asks the user.
pub open spec fn found_mod(
    r: Option<ModState>,
    query: Seq<char>,
    hits: Seq<MinecraftMod>,
    mods: Seq<OptionMod>,
    present: Seq<bool>,
) -> bool {
    if hits.len() == 1 {
        r matches Some(s) && state_of(s, hits[0].id@, is_installed(mods, present, hits[0].id@))
    } else if exists|i: int| is_first_equal(folded_titles(hits), lower_of(query), i) {
        exists|i: int|
            #[trigger] is_first_equal(folded_titles(hits), lower_of(query), i) && (r matches Some(s)
                && state_of(s, hits[i].id@, is_installed(mods, present, hits[i].id@)))
    } else {
        r is None
    }
}

/// Decides which mod a query names among the search hits, and whether it is
/// installed.
pub fn find_mod(query: &str, mods: &MinecraftMods, options: &Options, present: &Vec<bool>) -> (r:
    Option<ModState>)
    requires
        present@.len() == options.mods@.len(),
    ensures
        found_mod(r, query@, mods.hits@, options.mods@, present@),
{
    if mods.hits.len() == 1 {
        return Some(classify_id(&mods.hits[0].id, options, present));
    }
    let folded_query = lowercase(query);
    let mut titles: Vec<String> = Vec::new();
    let mut i: usize = 0;
    while i < mods.hits.len()
        invariant
            i <= mods.hits@.len(),
            titles@.len() == i,
            forall|k: int| 0 <= k < i ==> titles@[k]@ == lower_of(mods.hits@[k].title@),
        decreases mods.hits@.len() - i,
    {
        let t = lowercase(mods.hits[i].title.as_str());
        titles.push(t);
        i = i + 1;
    }
    assert(views(titles@) =~= folded_titles(mods.hits@));
    match first_equal(folded_query.as_str(), &titles) {
        Some(k) => Some(classify_id(&mods.hits[k].id, options, present)),
        None => {
            assert forall|j: int| !is_first_equal(folded_titles(mods.hits@), lower_of(query@), j) by {
                if 0 <= j < titles@.len() {
                    assert(views(titles@)[j] == titles@[j]@);
                }
            }
            None
        },
    }
}

/// `names[i]` is the first of `names` that contains `query`.
pub open spec fn is_first_containing(names: Seq<Seq<char>>, query: Seq<char>, i: int) -> bool {
    &&& 0 <= i < names.len()
    &&& contains_seq(names[i], query)
    &&& forall|j: int| 0 <= j < i ==> !contains_seq(names[j], query)
}

/// The position of the first of `names` that contains `query`.
pub fn first_containing(query: &str, names: &Vec<String>) -> (r: Option<usize>)
    ensures
        match r {
            Some(i) => is_first_containing(views(names@), query@, i as int),
            None => forall|j: int| 0 <= j < names@.len() ==> !contains_seq(names@[j]@, query@),
        },
{
    let mut i: usize = 0;
    while i < names.len()
        invariant
            i <= names@.len(),
            forall|j: int| 0 <= j < i ==> !contains_seq(names@[j]@, query@),
        decreases names@.len() - i,
    {
        if contains_text(names[i].as_str(), query) {
            return Some(i);
        }
        i = i + 1;
    }
    None
}

/// The case-folded file names of the tracked mods.
pub open spec fn folded_filenames(mods: Seq<OptionMod>) -> Seq<Seq<char>> {
    mods.map_values(|m: OptionMod| lower_of(m.filename@))
}

/// Stops tracking the first mod whose file name contains `query`, ignoring
/// case, and returns it; the caller deletes its file.
pub fn remove_mod(options: &mut Options, query: &str) -> (r: Option<OptionMod>)
    ensures
        final(options).version == old(options).version,
        old(options).wf() ==> final(options).wf(),
        match r {
            Some(m) => exists|i: int|
                #[trigger] is_first_containing(folded_filenames(old(options).mods@), lower_of(query@), i)
                    && m == old(options).mods@[i]
                    && final(options).mods@ == old(options).mods@.remove(i),
            None => {
                &&& forall|i: int|
                    0 <= i < old(options).mods@.len() ==> !contains_seq(
                        lower_of(#[trigger] old(options).mods@[i].filename@),
                        lower_of(query@),
                    )
                &&& final(options).mods@ == old(options).mods@
            },
        },
{
    let folded_query = lowercase(query);
    let mut names: Vec<String> = Vec::new();
    let mut i: usize = 0;
    while i < options.mods.len()
        invariant
            i <= options.mods@.len(),
            names@.len() == i,
            forall|k: int| 0 <= k < i ==> names@[k]@ == lower_of(options.mods@[k].filename@),
        decreases options.mods@.len() - i,
    {
        let n = lowercase(options.mods[i].filename.as_str());
        names.push(n);
        i = i + 1;
    }
    assert(views(names@) =~= folded_filenames(options.mods@));
    match first_containing(folded_query.as_str(), &names) {
        Some(k) => Some(options.mods.remove(k)),
        None => {
            assert forall|j: int| 0 <= j < options.mods@.len() implies !contains_seq(
                lower_of(#[trigger] options.mods@[j].filename@),
                lower_of(query@),
            ) by {
                assert(names@[j]@ == lower_of(options.mods@[j].filename@));
            }
            None
        },
    }
}

/// The entry for `id`, pinned to `file`.
pub open spec fn pinned(id: String, file: ModFile) -> OptionMod {
    OptionMod { id: id, url: file.url, filename: file.filename }
}

/// Records that the mod `id` was installed from `file`: its entry is repinned
/// if it is tracked already, else a new entry is appended.
pub fn record_install(options: &mut Options, id: &String, file: &ModFile)
    ensures
        final(options).version == old(options).version,
        (forall|i: int|
            #[trigger] first_with_id(old(options).mods@, id@, i) ==> final(options).mods@
                == old(options).mods@.update(i, pinned(old(options).mods@[i].id, *file))),
        (forall|i: int| 0 <= i < old(options).mods@.len() ==> old(options).mods@[i].id@ != id@)
            ==> final(options).mods@ == old(options).mods@.push(pinned(*id, *file)),
        old(options).wf() ==> final(options).wf(),
{
    let mut i: usize = 0;
    while i < options.mods.len()
        invariant
            options.mods@ == old(options).mods@,
            options.version == old(options).version,
            i <= options.mods@.len(),
            forall|j: int| 0 <= j < i ==> options.mods@[j].id@ != id@,
        decreases options.mods@.len() - i,
    {
        if options.mods[i].id == *id {
            assert(first_with_id(options.mods@, id@, i as int));
            assert forall|w: int| #[trigger] first_with_id(options.mods@, id@, w) implies w == i by {
                if w < i {
                    assert(options.mods@[w].id@ != id@);
                }
            }
            let entry = OptionMod {
                id: options.mods[i].id.clone(),
                url: file.url.clone(),
                filename: file.filename.clone(),
            };
            options.mods.set(i, entry);
            return;
        }
        i = i + 1;
    }
    let entry = OptionMod { id: id.clone(), url: file.url.clone(), filename: file.filename.clone() };
    options.mods.push(entry);
}

/// The indices of the tracked mods whose files are missing, in manifest
/// order: those that installing the whole pack downloads.
pub fn missing_files(present: &Vec<bool>) -> (r: Vec<usize>)
    ensures
        forall|k: int| 0 <= k < r@.len() ==> r@[k] < present@.len() && !present@[r@[k] as int],
        forall|i: int| 0 <= i < present@.len() && !present@[i] ==> r@.contains(i as usize),
        forall|a: int, b: int| 0 <= a < b < r@.len() ==> r@[a] < r@[b],
{
    let mut r: Vec<usize> = Vec::new();
    let mut i: usize = 0;
    while i < present.len()
        invariant
            i <= present@.len(),
            forall|k: int| 0 <= k < r@.len() ==> r@[k] < i && !present@[r@[k] as int],
            forall|j: int| 0 <= j < i && !present@[j] ==> r@.contains(j as usize),
            forall|a: int, b: int| 0 <= a < b < r@.len() ==> r@[a] < r@[b],
        decreases present@.len() - i,
    {
        if !present[i] {
            let ghost before = r@;
            r.push(i);
            assert forall|j: int| 0 <= j <= i && !present@[j] implies r@.contains(j as usize) by {
                if j < i {
                    let k = choose|k: int| 0 <= k < before.len() && before[k] == j as usize;
                    assert(r@[k] == j as usize);
                } else {
                    assert(r@[r@.len() - 1] == i);
                }
            }
        }
        i = i + 1;
    }
    r
}

} // verus!
