use vstd::prelude::*;

verus! {

/// The directories that exist once every path of `paths` has been
/// created in a filesystem that already held `fs`: creation never
/// removes anything and adds exactly the computed paths.
pub open spec fn created(fs: Set<Seq<char>>, paths: Seq<Seq<char>>) -> Set<Seq<char>> {
    fs.union(Set::new(|p: Seq<char>| paths.contains(p)))
}

/// The paths of `paths`, in order, that are missing from `fs`: exactly
/// the directories an idempotent materializer creates.
pub open spec fn spec_missing(fs: Set<Seq<char>>, paths: Seq<Seq<char>>) -> Seq<Seq<char>>
    decreases paths.len(),
{
    if paths.len() == 0 {
        Seq::empty()
    } else {
        let rest = spec_missing(fs, paths.drop_first());
        if !fs.contains(paths[0]) {
            seq![paths[0]] + rest
        } else {
            rest
        }
    }
}

/// The paths selected by a per-path existence probe, in order: entry `i`
/// of `existing` says whether `paths[i]` already exists.
pub open spec fn spec_plan(paths: Seq<Seq<char>>, existing: Seq<bool>) -> Seq<Seq<char>>
    decreases paths.len(),
{
    if paths.len() == 0 {
        Seq::empty()
    } else {
        let rest = spec_plan(paths.drop_first(), existing.drop_first());
        if !existing[0] {
            seq![paths[0]] + rest
        } else {
            rest
        }
    }
}

/// Picks the paths whose existence probe came back negative: the
/// directories that still have to be created, in path-list order.
pub fn plan_creates(paths: &Vec<String>, existing: &Vec<bool>) -> (r: Vec<String>)
    requires
        existing@.len() == paths@.len(),
    ensures
        r.deep_view() == spec_plan(paths.deep_view(), existing@),
{
    let ghost pdv = paths.deep_view();
    let ghost ex = existing@;
    let mut out: Vec<String> = Vec::new();
    proof {
        assert(pdv.skip(0) =~= pdv);
        assert(ex.skip(0) =~= ex);
        assert(Seq::<Seq<char>>::empty() + spec_plan(pdv, ex) =~= spec_plan(pdv, ex));
    }
    for i in 0..paths.len()
        invariant
            pdv == paths.deep_view(),
            ex == existing@,
            ex.len() == pdv.len(),
            spec_plan(pdv, ex) == out.deep_view() + spec_plan(
                pdv.skip(i as int),
                ex.skip(i as int),
            ),
    {
        proof {
            assert(pdv.skip(i as int).drop_first() =~= pdv.skip(i + 1));
            assert(ex.skip(i as int).drop_first() =~= ex.skip(i + 1));
            assert(pdv.skip(i as int)[0] == pdv[i as int]);
            assert(ex.skip(i as int)[0] == ex[i as int]);
        }
        if !existing[i] {
            let ghost prevv = out@;
            let ghost prevdv = out.deep_view();
            let p = paths[i].clone();
            out.push(p);
            proof {
                assert(forall|j: int| 0 <= j < prevv.len() ==> prevv.push(p)[j] == prevv[j]);
                assert(prevv.push(p)[prevv.len() as int] == p);
                assert(out.deep_view() =~= prevdv.push(pdv[i as int]));
                assert(prevdv + (seq![pdv[i as int]] + spec_plan(pdv.skip(i + 1), ex.skip(i + 1)))
                    =~= prevdv.push(pdv[i as int]) + spec_plan(pdv.skip(i + 1), ex.skip(i + 1)));
            }
        }
    }
    proof {
        assert(pdv.skip(pdv.len() as int) =~= Seq::<Seq<char>>::empty());
        assert(ex.skip(ex.len() as int) =~= Seq::<bool>::empty());
        assert(out.deep_view() + Seq::<Seq<char>>::empty() =~= out.deep_view());
    }
    out
}

/// Once a filesystem holds every computed path, nothing is missing.
pub proof fn lemma_missing_all_present(fs: Set<Seq<char>>, paths: Seq<Seq<char>>)
    requires
        forall|i: int| 0 <= i < paths.len() ==> fs.contains(paths[i]),
    ensures
        spec_missing(fs, paths) =~= Seq::<Seq<char>>::empty(),
    decreases paths.len(),
{
    if paths.len() > 0 {
        assert(forall|i: int|
            0 <= i < paths.drop_first().len() ==> fs.contains(#[trigger] paths.drop_first()[i]));
        lemma_missing_all_present(fs, paths.drop_first());
    }
}

/// Materialization is idempotent: creating the computed paths a second
/// time changes nothing, and against the resulting filesystem no path of
/// the set is missing, so the second run creates no directory.
pub proof fn lemma_materialize_idempotent(fs: Set<Seq<char>>, paths: Seq<Seq<char>>)
    ensures
        created(created(fs, paths), paths) =~= created(fs, paths),
        spec_missing(created(fs, paths), paths) =~= Seq::<Seq<char>>::empty(),
{
    assert(created(created(fs, paths), paths) =~= created(fs, paths));
    assert(forall|i: int| 0 <= i < paths.len() ==> paths.contains(#[trigger] paths[i]));
    lemma_missing_all_present(created(fs, paths), paths);
}

/// A probe that reports exactly what the filesystem holds makes the
/// executable plan coincide with the model's missing set.
pub proof fn lemma_plan_matches_missing(
    fs: Set<Seq<char>>,
    paths: Seq<Seq<char>>,
    existing: Seq<bool>,
)
    requires
        existing.len() == paths.len(),
        forall|i: int| 0 <= i < paths.len() ==> existing[i] == fs.contains(paths[i]),
    ensures
        spec_plan(paths, existing) == spec_missing(fs, paths),
    decreases paths.len(),
{
    if paths.len() > 0 {
        assert(forall|i: int|
            0 <= i < paths.drop_first().len() ==> existing.drop_first()[i] == fs.contains(
                #[trigger] paths.drop_first()[i],
            ));
        lemma_plan_matches_missing(fs, paths.drop_first(), existing.drop_first());
        assert(existing[0] == fs.contains(paths[0]));
    }
}

} // verus!
