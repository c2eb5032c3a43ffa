use vstd::prelude::*;
use crate::resolve::{find_correct_version, is_first_accepted, resolved, ResolveError, match_position};
use crate::structs::{ModFile, ModVersion, OptionMod, Options};

verus! {

/// A tracked mod whose pinned artifact is no longer the one that resolves.
#[derive(Clone, Debug)]
pub struct PendingUpdate {
    /// The position of the mod in the manifest.
    pub index: usize,
    pub id: String,
    pub old_filename: String,
    pub new_file: ModFile,
}

/// A tracked mod whose resolution failed.
#[derive(Clone, Debug)]
pub struct UpdateFailure {
    /// The position of the mod in the manifest.
    pub index: usize,
    pub error: ResolveError,
}

/// What an update run has to do, in manifest order.
#[derive(Clone, Debug)]
pub struct UpdatePlan {
    pub pending: Vec<PendingUpdate>,
    pub failures: Vec<UpdateFailure>,
}

/// Two outcomes of resolution that agree.
pub open spec fn same_resolution(a: Result<ModFile, ResolveError>, b: Result<ModFile, ResolveError>) -> bool {
    match (a, b) {
        (Ok(x), Ok(y)) => x == y,
        (Err(ResolveError::NotFound { .. }), Err(ResolveError::NotFound { .. })) => true,
        (
            Err(ResolveError::MissingArtifact { index: x, .. }),
            Err(ResolveError::MissingArtifact { index: y, .. }),
        ) => x == y,
        _ => false,
    }
}

/// Resolution is a function of the target and the releases: any two outcomes
/// that meet the resolver's contract for the same inputs agree.
pub proof fn lemma_resolution_deterministic(
    a: Result<ModFile, ResolveError>,
    b: Result<ModFile, ResolveError>,
    id: Seq<char>,
    target: Seq<char>,
    recs: Seq<ModVersion>,
)
    requires
        resolved(a, id, target, recs),
        resolved(b, id, target, recs),
    ensures
        same_resolution(a, b),
{
    assert forall|i: int, j: int|
        is_first_accepted(recs, target, i) && is_first_accepted(recs, target, j) implies i == j by {
        if i < j {
            assert(!crate::resolve::accepts(recs[i], target));
        } else if j < i {
            assert(!crate::resolve::accepts(recs[j], target));
        }
    }
}

/// The plan entry for a stale mod `m` at position `i`.
pub open spec fn is_stale_entry(
    p: PendingUpdate,
    m: OptionMod,
    version: Seq<char>,
    fetched: Option<Vec<ModVersion>>,
    i: int,
) -> bool {
    &&& p.index == i
    &&& p.id@ == m.id@
    &&& p.old_filename@ == m.filename@
    &&& p.new_file.url@ != m.url@
    &&& fetched matches Some(recs) && resolved(Ok(p.new_file), m.id@, version, recs@)
}

/// The failure recorded for mod `m` at position `i`.
pub open spec fn is_failure_entry(
    f: UpdateFailure,
    m: OptionMod,
    version: Seq<char>,
    fetched: Option<Vec<ModVersion>>,
    i: int,
) -> bool {
    &&& f.index == i
    &&& match fetched {
        None => f.error matches ResolveError::Unavailable { mod_id } && mod_id@ == m.id@,
        Some(recs) => resolved(Err(f.error), m.id@, version, recs@),
    }
}

/// Mod `m` is current: it resolves to the artifact it is pinned to.
pub open spec fn is_current(m: OptionMod, version: Seq<char>, fetched: Option<Vec<ModVersion>>) -> bool {
    fetched matches Some(recs) && exists|file: ModFile|
        #[trigger] resolved(Ok(file), m.id@, version, recs@) && file.url@ == m.url@
}

pub open spec fn pending_at(pending: Seq<PendingUpdate>, i: int) -> bool {
    exists|k: int| 0 <= k < pending.len() && (#[trigger] pending[k]).index == i
}

pub open spec fn failure_at(failures: Seq<UpdateFailure>, i: int) -> bool {
    exists|k: int| 0 <= k < failures.len() && (#[trigger] failures[k]).index == i
}

/// The plan covers the first `n` tracked mods: each is current, stale with
/// one entry in `pending`, or failed with one entry in `failures`, and both
/// lists follow manifest order.
pub open spec fn planned_upto(
    pending: Seq<PendingUpdate>,
    failures: Seq<UpdateFailure>,
    version: Seq<char>,
    mods: Seq<OptionMod>,
    fetched: Seq<Option<Vec<ModVersion>>>,
    n: int,
) -> bool {
    &&& forall|a: int, b: int| 0 <= a < b < pending.len() ==> pending[a].index < pending[b].index
    &&& forall|a: int, b: int| 0 <= a < b < failures.len() ==> failures[a].index < failures[b].index
    &&& forall|k: int|
        0 <= k < pending.len() ==> {
            let i = (#[trigger] pending[k]).index as int;
            i < n && is_stale_entry(pending[k], mods[i], version, fetched[i], i)
        }
    &&& forall|k: int|
        0 <= k < failures.len() ==> {
            let i = (#[trigger] failures[k]).index as int;
            i < n && is_failure_entry(failures[k], mods[i], version, fetched[i], i)
        }
    &&& forall|i: int|
        0 <= i < n ==> pending_at(pending, i) || failure_at(failures, i) || is_current(
            #[trigger] mods[i],
            version,
            fetched[i],
        )
}

/// `plan` is the update plan for the manifest `(version, mods)`, where
/// `fetched[i]` holds the releases of the `i`-th mod, or nothing where they
/// could not be fetched.
pub open spec fn planned(
    plan: UpdatePlan,
    version: Seq<char>,
    mods: Seq<OptionMod>,
    fetched: Seq<Option<Vec<ModVersion>>>,
) -> bool {
    planned_upto(plan.pending@, plan.failures@, version, mods, fetched, mods.len() as int)
}

/// Re-resolves every tracked mod against the manifest's version. A mod whose
/// artifact changed becomes a pending update; a mod that fails to resolve is
/// recorded and does not stop the others.
pub fn plan_update(options: &Options, fetched: &Vec<Option<Vec<ModVersion>>>) -> (r: UpdatePlan)
    requires
        fetched@.len() == options.mods@.len(),
    ensures
        planned(r, options.version@, options.mods@, fetched@),
{
    let mut pending: Vec<PendingUpdate> = Vec::new();
    let mut failures: Vec<UpdateFailure> = Vec::new();
    let ghost version = options.version@;
    let ghost mods = options.mods@;
    let mut i: usize = 0;
    while i < options.mods.len()
        invariant
            version == options.version@,
            mods == options.mods@,
            fetched@.len() == mods.len(),
            i <= mods.len(),
            planned_upto(pending@, failures@, version, mods, fetched@, i as int),
        decreases mods.len() - i,
    {
        let m = &options.mods[i];
        let ghost before_p = pending@;
        let ghost before_f = failures@;
        match &fetched[i] {
            None => {
                let f = UpdateFailure {
                    index: i,
                    error: ResolveError::Unavailable { mod_id: m.id.clone() },
                };
                failures.push(f);
                assert(failures@[failures@.len() - 1].index == i);
                assert(failure_at(failures@, i as int));
            },
            Some(recs) => {
                match find_correct_version(&m.id, options.version.as_str(), recs) {
                    Ok(file) => {
                        if file.url != m.url {
                            let p = PendingUpdate {
                                index: i,
                                id: m.id.clone(),
                                old_filename: m.filename.clone(),
                                new_file: file,
                            };
                            pending.push(p);
                            assert(pending@[pending@.len() - 1].index == i);
                            assert(pending_at(pending@, i as int));
                        } else {
                            assert(is_current(mods[i as int], version, fetched@[i as int]));
                        }
                    },
                    Err(e) => {
                        let f = UpdateFailure { index: i, error: e };
                        failures.push(f);
                        assert(failures@[failures@.len() - 1].index == i);
                        assert(failure_at(failures@, i as int));
                    },
                }
            },
        }
        assert forall|j: int| 0 <= j < i implies pending_at(pending@, j) || failure_at(failures@, j)
            || is_current(#[trigger] mods[j], version, fetched@[j]) by {
            if pending_at(before_p, j) {
                let k = choose|k: int| 0 <= k < before_p.len() && (#[trigger] before_p[k]).index == j;
                assert(pending@[k] == before_p[k]);
            }
            if failure_at(before_f, j) {
                let k = choose|k: int| 0 <= k < before_f.len() && (#[trigger] before_f[k]).index == j;
                assert(failures@[k] == before_f[k]);
            }
        }
        i = i + 1;
    }
    UpdatePlan { pending, failures }
}

/// Mod `m` repinned to the new artifact of `p`.
pub open spec fn updated_mod(m: OptionMod, p: PendingUpdate) -> OptionMod {
    OptionMod { id: m.id, url: p.new_file.url, filename: p.new_file.filename }
}

/// The tracked mods after every update of `pending` succeeded, one by one.
pub open spec fn apply_all(mods: Seq<OptionMod>, pending: Seq<PendingUpdate>) -> Seq<OptionMod>
    decreases pending.len(),
{
    if pending.len() == 0 {
        mods
    } else {
        let rest = apply_all(mods, pending.drop_last());
        let p = pending.last();
        if p.index < rest.len() {
            rest.update(p.index as int, updated_mod(rest[p.index as int], p))
        } else {
            rest
        }
    }
}

/// Repins the mod of a pending update after its new file was downloaded;
/// the rest of the manifest is kept.
pub fn apply_update(options: &mut Options, update: &PendingUpdate)
    requires
        update.index < old(options).mods@.len(),
    ensures
        final(options).version == old(options).version,
        final(options).mods@ == old(options).mods@.update(
            update.index as int,
            updated_mod(old(options).mods@[update.index as int], *update),
        ),
        old(options).wf() ==> final(options).wf(),
{
    let entry = OptionMod {
        id: options.mods[update.index].id.clone(),
        url: update.new_file.url.clone(),
        filename: update.new_file.filename.clone(),
    };
    options.mods.set(update.index, entry);
}

proof fn lemma_apply_all(mods: Seq<OptionMod>, pending: Seq<PendingUpdate>)
    requires
        forall|a: int, b: int| 0 <= a < b < pending.len() ==> pending[a].index < pending[b].index,
        forall|k: int| 0 <= k < pending.len() ==> (#[trigger] pending[k]).index < mods.len(),
    ensures
        apply_all(mods, pending).len() == mods.len(),
        forall|k: int|
            0 <= k < pending.len() ==> apply_all(mods, pending)[(#[trigger] pending[k]).index as int]
                == updated_mod(mods[pending[k].index as int], pending[k]),
        forall|i: int|
            0 <= i < mods.len() && !pending_at(pending, i) ==> #[trigger] apply_all(mods, pending)[i]
                == mods[i],
    decreases pending.len(),
{
    if pending.len() > 0 {
        let init = pending.drop_last();
        lemma_apply_all(mods, init);
        let last = pending.last();
        assert forall|i: int|
            0 <= i < mods.len() && !pending_at(pending, i) implies #[trigger] apply_all(
            mods,
            pending,
        )[i] == mods[i] by {
            if pending_at(init, i) {
                let k = choose|k: int| 0 <= k < init.len() && (#[trigger] init[k]).index == i;
                assert(pending[k].index == i);
            }
            assert(pending[pending.len() - 1].index != i);
        }
        assert forall|k: int| 0 <= k < pending.len() implies apply_all(
            mods,
            pending,
        )[(#[trigger] pending[k]).index as int] == updated_mod(
            mods[pending[k].index as int],
            pending[k],
        ) by {
            if k < pending.len() - 1 {
                assert(init[k] == pending[k]);
                assert(pending[k].index < last.index);
            } else {
                assert(!pending_at(init, last.index as int)) by {
                    if pending_at(init, last.index as int) {
                        let j = choose|j: int|
                            0 <= j < init.len() && (#[trigger] init[j]).index == last.index;
                        assert(pending[j].index < pending[pending.len() - 1].index);
                    }
                }
            }
        }
    }
}

/// Planning again right after every pending update was applied, with the
/// same releases, finds nothing to update.
pub proof fn lemma_replan_after_update_is_empty(
    version: Seq<char>,
    mods: Seq<OptionMod>,
    fetched: Seq<Option<Vec<ModVersion>>>,
    first: UpdatePlan,
    second: UpdatePlan,
)
    requires
        fetched.len() == mods.len(),
        planned(first, version, mods, fetched),
        planned(second, version, apply_all(mods, first.pending@), fetched),
    ensures
        second.pending@.len() == 0,
{
    let pend = first.pending@;
    lemma_apply_all(mods, pend);
    let after = apply_all(mods, pend);
    if second.pending@.len() > 0 {
        let q = second.pending@[0];
        let i = q.index as int;
        assert(is_stale_entry(q, after[i], version, fetched[i], i));
        let recs = fetched[i]->Some_0@;
        if pending_at(pend, i) {
            let k = choose|k: int| 0 <= k < pend.len() && (#[trigger] pend[k]).index == i;
            let p = pend[k];
            assert(is_stale_entry(p, mods[i], version, fetched[i], i));
            lemma_resolution_deterministic(Ok(p.new_file), Ok(q.new_file), mods[i].id@, version, recs);
        } else if failure_at(first.failures@, i) {
            let k = choose|k: int|
                0 <= k < first.failures@.len() && (#[trigger] first.failures@[k]).index == i;
            let f = first.failures@[k];
            assert(is_failure_entry(f, mods[i], version, fetched[i], i));
            lemma_resolution_deterministic(Err(f.error), Ok(q.new_file), mods[i].id@, version, recs);
        } else {
            assert(is_current(mods[i], version, fetched[i]));
            let file = choose|file: ModFile|
                #[trigger] resolved(Ok(file), mods[i].id@, version, recs) && file.url@ == mods[i].url@;
            lemma_resolution_deterministic(Ok(file), Ok(q.new_file), mods[i].id@, version, recs);
        }
    }
}

/// What the plan says of the mod at position `i`: its pending entry, if any.
pub open spec fn pending_entry(pending: Seq<PendingUpdate>, i: int) -> Option<ModFile> {
    if pending_at(pending, i) {
        Some(pending[choose|k: int| 0 <= k < pending.len() && (#[trigger] pending[k]).index == i].new_file)
    } else {
        None
    }
}

/// A mod's plan depends on its own releases alone: where two runs see the
/// same releases for the mod at position `i`, whatever the others' releases
/// and failures, they plan the same for it.
pub proof fn lemma_plan_isolates_mods(
    version: Seq<char>,
    mods: Seq<OptionMod>,
    fetched_a: Seq<Option<Vec<ModVersion>>>,
    fetched_b: Seq<Option<Vec<ModVersion>>>,
    a: UpdatePlan,
    b: UpdatePlan,
    i: int,
)
    requires
        fetched_a.len() == mods.len(),
        fetched_b.len() == mods.len(),
        0 <= i < mods.len(),
        fetched_a[i] == fetched_b[i],
        planned(a, version, mods, fetched_a),
        planned(b, version, mods, fetched_b),
    ensures
        pending_at(a.pending@, i) == pending_at(b.pending@, i),
        failure_at(a.failures@, i) == failure_at(b.failures@, i),
        pending_entry(a.pending@, i) == pending_entry(b.pending@, i),
{
    lemma_outcome_exclusive(version, mods, fetched_a, a, i);
    lemma_outcome_exclusive(version, mods, fetched_b, b, i);
    let m = mods[i];
    if pending_at(a.pending@, i) && pending_at(b.pending@, i) {
        let ka = choose|k: int| 0 <= k < a.pending@.len() && (#[trigger] a.pending@[k]).index == i;
        let kb = choose|k: int| 0 <= k < b.pending@.len() && (#[trigger] b.pending@[k]).index == i;
        let pa = a.pending@[ka];
        let pb = b.pending@[kb];
        assert(is_stale_entry(pa, m, version, fetched_a[i], i));
        assert(is_stale_entry(pb, m, version, fetched_b[i], i));
        let recs = fetched_a[i]->Some_0@;
        lemma_resolution_deterministic(Ok(pa.new_file), Ok(pb.new_file), m.id@, version, recs);
    }
}

/// At each position the plan holds exactly one of: a pending entry, a
/// failure, or nothing for a current mod.
pub proof fn lemma_outcome_exclusive(
    version: Seq<char>,
    mods: Seq<OptionMod>,
    fetched: Seq<Option<Vec<ModVersion>>>,
    plan: UpdatePlan,
    i: int,
)
    requires
        fetched.len() == mods.len(),
        0 <= i < mods.len(),
        planned(plan, version, mods, fetched),
    ensures
        pending_at(plan.pending@, i) ==> !failure_at(plan.failures@, i) && (exists|p: PendingUpdate|
            #[trigger] is_stale_entry(p, mods[i], version, fetched[i], i)),
        failure_at(plan.failures@, i) ==> !pending_at(plan.pending@, i) && !is_current(mods[i], version, fetched[i]),
        pending_at(plan.pending@, i) ==> !is_current(mods[i], version, fetched[i]),
        !pending_at(plan.pending@, i) && !failure_at(plan.failures@, i) ==> is_current(mods[i], version, fetched[i]),
{
    let m = mods[i];
    if pending_at(plan.pending@, i) {
        let k = choose|k: int| 0 <= k < plan.pending@.len() && (#[trigger] plan.pending@[k]).index == i;
        let p = plan.pending@[k];
        assert(is_stale_entry(p, m, version, fetched[i], i));
        let recs = fetched[i]->Some_0@;
        if failure_at(plan.failures@, i) {
            let j = choose|j: int| 0 <= j < plan.failures@.len() && (#[trigger] plan.failures@[j]).index == i;
            let f = plan.failures@[j];
            assert(is_failure_entry(f, m, version, fetched[i], i));
            lemma_resolution_deterministic(Ok(p.new_file), Err(f.error), m.id@, version, recs);
        }
        if is_current(m, version, fetched[i]) {
            let file = choose|file: ModFile|
                #[trigger] resolved(Ok(file), m.id@, version, recs) && file.url@ == m.url@;
            lemma_resolution_deterministic(Ok(p.new_file), Ok(file), m.id@, version, recs);
        }
    }
    if failure_at(plan.failures@, i) && is_current(m, version, fetched[i]) {
        let j = choose|j: int| 0 <= j < plan.failures@.len() && (#[trigger] plan.failures@[j]).index == i;
        let f = plan.failures@[j];
        assert(is_failure_entry(f, m, version, fetched[i], i));
        let recs = fetched[i]->Some_0@;
        let file = choose|file: ModFile|
            #[trigger] resolved(Ok(file), m.id@, version, recs) && file.url@ == m.url@;
        lemma_resolution_deterministic(Ok(file), Err(f.error), m.id@, version, recs);
    }
}

} // verus!
