use crate::resolver::{
    cam_fragment, day_fragment, is_digit, lemma_concat_cancel_left, lemma_day_fragment_splits,
    lemma_digit_run_splits, lemma_padded2_digits, lemma_padded2_injective, resolve_placeholder,
    spec_kind, spec_resolve, SegmentKind,
};
use crate::types::{paths_view, Config, FileStructure, FolderTemplate, ProjectSetup, ScaffoldError};
use vstd::arithmetic::div_mod::lemma_fundamental_div_mod_converse;
use vstd::prelude::*;
use vstd::string::StringExecFns;

verus! {

/// The most ancestor hops the path builder follows before it declares
/// the parent chain corrupt.
pub const MAX_HOPS: usize = 100;

/// All pairings of a fragment with an existing suffix, fragment-major:
/// entry `a * acc.len() + b` is `/` + `frags[a]` + `acc[b]`.
pub open spec fn cross_prepend(frags: Seq<Seq<char>>, acc: Seq<Seq<char>>) -> Seq<Seq<char>> {
    Seq::new(
        frags.len() * acc.len(),
        |k: int| seq!['/'] + frags[k / acc.len() as int] + acc[k % acc.len() as int],
    )
}

/// One step of the ancestor walk for the template at position `i`,
/// carrying the suffixes built so far. Each step multiplies the working
/// set by the template's fragments; the walk ends at a template whose
/// parent is 0, and fails when a parent reference leaves the list or
/// when `fuel` hops are spent without reaching the root.
pub open spec fn spec_walk(
    ts: Seq<FolderTemplate>,
    setup: ProjectSetup,
    i: int,
    acc: Seq<Seq<char>>,
    fuel: nat,
) -> Result<Seq<Seq<char>>, ScaffoldError>
    recommends
        0 <= i < ts.len(),
    decreases fuel,
{
    match spec_resolve(ts[i].name@, setup) {
        Err(e) => Err(e),
        Ok(frags) => {
            let acc2 = cross_prepend(frags, acc);
            if ts[i].parent == 0 {
                Ok(acc2)
            } else {
                let p = ts[i].parent as int - 1;
                if p >= ts.len() {
                    Err(ScaffoldError::StructuralCycle)
                } else if fuel == 0 {
                    Err(ScaffoldError::StructuralCycle)
                } else {
                    spec_walk(ts, setup, p, acc2, (fuel - 1) as nat)
                }
            }
        },
    }
}

/// Every suffix with the project root name put in front.
pub open spec fn prepend_root(name: Seq<char>, sufs: Seq<Seq<char>>) -> Seq<Seq<char>> {
    sufs.map_values(|s: Seq<char>| name + s)
}

/// The ordered paths the template at position `i` stands for: the
/// ancestor walk started on one empty suffix, each result prefixed with
/// the root name.
pub open spec fn spec_template_paths(
    ts: Seq<FolderTemplate>,
    setup: ProjectSetup,
    i: int,
) -> Result<Seq<Seq<char>>, ScaffoldError> {
    match spec_walk(ts, setup, i, seq![Seq::<char>::empty()], MAX_HOPS as nat) {
        Ok(sufs) => Ok(prepend_root(setup.name@, sufs)),
        Err(e) => Err(e),
    }
}

/// The concatenation of the paths of the templates from position `i`
/// on, stopped by the first failing template.
pub open spec fn spec_paths_from(ts: Seq<FolderTemplate>, setup: ProjectSetup, i: int) -> Result<
    Seq<Seq<char>>,
    ScaffoldError,
>
    decreases ts.len() - i,
{
    if i < 0 || i >= ts.len() {
        Ok(Seq::empty())
    } else {
        match spec_template_paths(ts, setup, i) {
            Err(e) => Err(e),
            Ok(ps) => match spec_paths_from(ts, setup, i + 1) {
                Err(e) => Err(e),
                Ok(rest) => Ok(ps + rest),
            },
        }
    }
}

/// The full ordered path set of a configuration: the bare project root
/// first, then the paths of every template in list order.
pub open spec fn spec_all_paths(c: Config) -> Result<Seq<Seq<char>>, ScaffoldError> {
    match spec_paths_from(c.file_structure.folders_list@, c.setup, 0) {
        Ok(ps) => Ok(seq![c.setup.name@] + ps),
        Err(e) => Err(e),
    }
}

/// Cartesian correctness for a camera placeholder whose parent is a day
/// placeholder attached to the root: the chain yields exactly one path
/// per day-camera pairing, day-major, each the root name followed by the
/// day fragment and the camera fragment of its pairing.
pub proof fn lemma_cartesian_chain(ts: Seq<FolderTemplate>, setup: ProjectSetup, i: int, j: int)
    requires
        0 <= i < ts.len(),
        0 <= j < ts.len(),
        spec_kind(ts[i].name@) == SegmentKind::Cams,
        ts[i].parent == j + 1,
        spec_kind(ts[j].name@) == SegmentKind::Days,
        ts[j].parent == 0,
        setup.cameras <= 26,
        setup.cameras >= 1,
    ensures
        spec_template_paths(ts, setup, i) == Ok::<Seq<Seq<char>>, ScaffoldError>(
            Seq::new(
                (setup.days * setup.cameras) as nat,
                |k: int|
                    setup.name@ + seq!['/'] + day_fragment(
                        (k / (setup.cameras as int) + 1) as nat,
                    ) + seq!['/'] + cam_fragment((k % (setup.cameras as int) + 1) as nat),
            ),
        ),
{
    let m = setup.cameras as int;
    let n = setup.days as int;
    let acc0: Seq<Seq<char>> = seq![Seq::<char>::empty()];
    let acc1 = cross_prepend(crate::resolver::cam_fragments(setup.cameras as nat), acc0);
    let acc2 = cross_prepend(crate::resolver::day_fragments(setup.days as nat), acc1);
    assert(spec_walk(ts, setup, i, acc0, MAX_HOPS as nat) == spec_walk(
        ts,
        setup,
        j,
        acc1,
        (MAX_HOPS - 1) as nat,
    ));
    assert(spec_walk(ts, setup, j, acc1, (MAX_HOPS - 1) as nat) == Ok::<
        Seq<Seq<char>>,
        ScaffoldError,
    >(acc2));
    assert(acc1.len() == m) by {
        assert(m * 1 == m) by (nonlinear_arith);
    }
    assert forall|b: int| 0 <= b < m implies acc1[b] == seq!['/'] + cam_fragment(
        (b + 1) as nat,
    ) by {
        assert(b / 1 == b && b % 1 == 0) by (nonlinear_arith);
        assert(seq!['/'] + cam_fragment((b + 1) as nat) + Seq::<char>::empty() =~= seq!['/']
            + cam_fragment((b + 1) as nat));
    }
    assert(acc2.len() == n * m);
    let target = Seq::new(
        (setup.days * setup.cameras) as nat,
        |k: int|
            setup.name@ + seq!['/'] + day_fragment((k / (setup.cameras as int) + 1) as nat)
                + seq!['/'] + cam_fragment((k % (setup.cameras as int) + 1) as nat),
    );
    assert forall|k: int| 0 <= k < n * m implies prepend_root(setup.name@, acc2)[k]
        == target[k] by {
        assert(0 <= k / m < n && 0 <= k % m < m) by (nonlinear_arith)
            requires
                0 <= k < n * m,
                m >= 1,
        ;
        assert(acc2[k] == seq!['/'] + day_fragment((k / m + 1) as nat) + acc1[k % m]);
        assert(setup.name@ + (seq!['/'] + day_fragment((k / m + 1) as nat) + (seq!['/']
            + cam_fragment((k % m + 1) as nat))) =~= setup.name@ + seq!['/'] + day_fragment(
            (k / m + 1) as nat,
        ) + seq!['/'] + cam_fragment((k % m + 1) as nat));
    }
    assert(prepend_root(setup.name@, acc2) =~= target);
}

/// The paths of a day-over-camera chain carry no duplicates: each of
/// the `days * cameras` paths names a distinct day-camera pairing, and
/// distinct pairings render as distinct strings.
pub proof fn lemma_cartesian_distinct(ts: Seq<FolderTemplate>, setup: ProjectSetup, i: int, j: int)
    requires
        0 <= i < ts.len(),
        0 <= j < ts.len(),
        spec_kind(ts[i].name@) == SegmentKind::Cams,
        ts[i].parent == j + 1,
        spec_kind(ts[j].name@) == SegmentKind::Days,
        ts[j].parent == 0,
        setup.cameras <= 26,
        setup.cameras >= 1,
    ensures
        spec_template_paths(ts, setup, i) is Ok,
        spec_template_paths(ts, setup, i)->Ok_0.len() == setup.days * setup.cameras,
        forall|k1: int, k2: int|
            0 <= k1 < k2 < spec_template_paths(ts, setup, i)->Ok_0.len()
                ==> spec_template_paths(ts, setup, i)->Ok_0[k1] != spec_template_paths(
                ts,
                setup,
                i,
            )->Ok_0[k2],
{
    lemma_cartesian_chain(ts, setup, i, j);
    let m = setup.cameras as int;
    let ps = spec_template_paths(ts, setup, i)->Ok_0;
    assert forall|k1: int, k2: int| 0 <= k1 < k2 < ps.len() implies ps[k1] != ps[k2] by {
        if ps[k1] == ps[k2] {
            let d1 = (k1 / m + 1) as nat;
            let c1 = (k1 % m + 1) as nat;
            let d2 = (k2 / m + 1) as nat;
            let c2 = (k2 % m + 1) as nat;
            assert(0 <= k1 / m && 0 <= k1 % m < m && 0 <= k2 / m && 0 <= k2 % m < m) by {
                vstd::arithmetic::div_mod::lemma_fundamental_div_mod(k1, m);
                vstd::arithmetic::div_mod::lemma_fundamental_div_mod(k2, m);
                assert(k1 / m >= 0 && k2 / m >= 0) by (nonlinear_arith)
                    requires
                        k1 >= 0,
                        k2 >= 0,
                        m >= 1,
                ;
            }
            let u1 = seq!['/'] + (day_fragment(d1) + (seq!['/'] + cam_fragment(c1)));
            let u2 = seq!['/'] + (day_fragment(d2) + (seq!['/'] + cam_fragment(c2)));
            assert(ps[k1] == setup.name@ + seq!['/'] + day_fragment(d1) + seq!['/'] + cam_fragment(
                c1,
            ));
            assert(ps[k2] == setup.name@ + seq!['/'] + day_fragment(d2) + seq!['/'] + cam_fragment(
                c2,
            ));
            assert(setup.name@ + seq!['/'] + day_fragment(d1) + seq!['/'] + cam_fragment(c1)
                =~= setup.name@ + u1);
            assert(setup.name@ + seq!['/'] + day_fragment(d2) + seq!['/'] + cam_fragment(c2)
                =~= setup.name@ + u2);
            lemma_concat_cancel_left(setup.name@, u1, u2);
            lemma_concat_cancel_left(
                seq!['/'],
                day_fragment(d1) + (seq!['/'] + cam_fragment(c1)),
                day_fragment(d2) + (seq!['/'] + cam_fragment(c2)),
            );
            let r1 = seq!['/'] + cam_fragment(c1);
            let r2 = seq!['/'] + cam_fragment(c2);
            assert(r1.len() == 1 + cam_fragment(c1).len());
            assert(r2.len() == 1 + cam_fragment(c2).len());
            assert(r1[0] == '/' && r2[0] == '/');
            assert(!is_digit('/'));
            lemma_day_fragment_splits(d1, d2, r1, r2);
            lemma_concat_cancel_left(seq!['/'], cam_fragment(c1), cam_fragment(c2));
            let w1 = "_"@ + (seq![crate::resolver::letter_of(c1)] + "_CAM"@);
            let w2 = "_"@ + (seq![crate::resolver::letter_of(c2)] + "_CAM"@);
            assert(cam_fragment(c1) =~= crate::resolver::padded2(c1) + w1);
            assert(cam_fragment(c2) =~= crate::resolver::padded2(c2) + w2);
            lemma_padded2_digits(c1);
            lemma_padded2_digits(c2);
            reveal_strlit("_");
            assert(w1.len() >= 1 && w2.len() >= 1);
            assert(w1[0] == '_' && w2[0] == '_');
            assert(!is_digit('_'));
            lemma_digit_run_splits(crate::resolver::padded2(c1), w1, crate::resolver::padded2(c2), w2);
            lemma_padded2_injective(c1, c2);
            assert(k1 / m == k2 / m && k1 % m == k2 % m);
            vstd::arithmetic::div_mod::lemma_fundamental_div_mod(k1, m);
            vstd::arithmetic::div_mod::lemma_fundamental_div_mod(k2, m);
            assert(false);
        }
    }
}

/// Multiplies the working suffix set by one fragment list.
fn cross_step(frags: &Vec<String>, acc: &Vec<String>) -> (r: Vec<String>)
    ensures
        r.deep_view() == cross_prepend(frags.deep_view(), acc.deep_view()),
{
    let ghost fseq = frags.deep_view();
    let ghost aseq = acc.deep_view();
    let ghost l = aseq.len() as int;
    let mut out: Vec<String> = Vec::new();
    proof {
        assert(out.deep_view() =~= cross_prepend(fseq, aseq).take(0));
        assert(forall|x: int| #[trigger] (0 * x) == 0) by (nonlinear_arith);
    }
    for a in 0..frags.len()
        invariant
            frags.deep_view() == fseq,
            acc.deep_view() == aseq,
            l == aseq.len() as int,
            out@.len() == a * l,
            out.deep_view() == cross_prepend(fseq, aseq).take(a * l),
    {
        for b in 0..acc.len()
            invariant
                frags.deep_view() == fseq,
                acc.deep_view() == aseq,
                l == aseq.len() as int,
                a < fseq.len(),
                out@.len() == a * l + b,
                out.deep_view() == cross_prepend(fseq, aseq).take(a * l + b),
        {
            let mut np = String::from_str("/");
            np.append(frags[a].as_str());
            np.append(acc[b].as_str());
            let ghost prevv = out@;
            out.push(np);
            proof {
                reveal_strlit("/");
                let k = a * l + b;
                lemma_fundamental_div_mod_converse(k, l, a as int, b as int);
                assert(np@ =~= seq!['/'] + fseq[a as int] + aseq[b as int]);
                assert(k < fseq.len() * aseq.len()) by (nonlinear_arith)
                    requires
                        k == a * l + b,
                        l == aseq.len(),
                        0 <= b < l,
                        0 <= a < fseq.len(),
                ;
                assert(forall|j: int| 0 <= j < prevv.len() ==> prevv.push(np)[j] == prevv[j]);
                assert(prevv.push(np)[k] == np);
                assert(out.deep_view() =~= cross_prepend(fseq, aseq).take(k + 1));
            }
        }
        proof {
            assert((a + 1) * l == a * l + l) by (nonlinear_arith);
        }
    }
    proof {
        assert(fseq.len() * l >= 0) by (nonlinear_arith)
            requires
                l >= 0,
                fseq.len() >= 0,
        ;
        assert(cross_prepend(fseq, aseq).take(fseq.len() * l as int) =~= cross_prepend(
            fseq,
            aseq,
        ));
    }
    out
}

/// Builds the ordered paths of the template at position `index`: walks
/// its ancestor chain to the root, expanding placeholders into the
/// Cartesian product of their fragments with the suffixes built so far,
/// and finally prefixes the project root name.
pub fn build_template_paths(structure: &FileStructure, setup: &ProjectSetup, index: usize) -> (r:
    Result<Vec<String>, ScaffoldError>)
    requires
        index < structure.folders_list@.len(),
    ensures
        paths_view(r) == spec_template_paths(structure.folders_list@, *setup, index as int),
{
    let ts = &structure.folders_list;
    let ghost tseq = ts@;
    let mut acc: Vec<String> = Vec::new();
    acc.push(String::new());
    proof {
        assert(acc.deep_view() =~= seq![Seq::<char>::empty()]);
    }
    let mut cur: usize = index;
    let mut hops: usize = 0;
    loop
        invariant_except_break
            spec_walk(tseq, *setup, index as int, seq![Seq::<char>::empty()], MAX_HOPS as nat)
                == spec_walk(tseq, *setup, cur as int, acc.deep_view(), (MAX_HOPS - hops) as nat),
        invariant
            ts@ == tseq,
            structure.folders_list@ == tseq,
            index < tseq.len(),
            cur < tseq.len(),
            hops <= MAX_HOPS,
        ensures
            spec_walk(tseq, *setup, index as int, seq![Seq::<char>::empty()], MAX_HOPS as nat)
                == Ok::<Seq<Seq<char>>, ScaffoldError>(acc.deep_view()),
        decreases MAX_HOPS - hops,
    {
        let ghost fuel = (MAX_HOPS - hops) as nat;
        let ghost accprev = acc.deep_view();
        let t = &ts[cur];
        let frags = match resolve_placeholder(&t.name, setup) {
            Ok(f) => f,
            Err(e) => {
                proof {
                    assert(spec_walk(tseq, *setup, cur as int, accprev, fuel) == Err::<
                        Seq<Seq<char>>,
                        ScaffoldError,
                    >(e));
                }
                return Err(e);
            },
        };
        let next = cross_step(&frags, &acc);
        acc = next;
        proof {
            assert(acc.deep_view() == cross_prepend(frags.deep_view(), accprev));
        }
        if t.parent == 0 {
            proof {
                assert(spec_walk(tseq, *setup, cur as int, accprev, fuel) == Ok::<
                    Seq<Seq<char>>,
                    ScaffoldError,
                >(acc.deep_view()));
            }
            break ;
        }
        let p = t.parent - 1;
        if p >= ts.len() {
            proof {
                assert(spec_walk(tseq, *setup, cur as int, accprev, fuel) == Err::<
                    Seq<Seq<char>>,
                    ScaffoldError,
                >(ScaffoldError::StructuralCycle));
            }
            return Err(ScaffoldError::StructuralCycle);
        }
        if hops == MAX_HOPS {
            proof {
                assert(fuel == 0);
                assert(spec_walk(tseq, *setup, cur as int, accprev, fuel) == Err::<
                    Seq<Seq<char>>,
                    ScaffoldError,
                >(ScaffoldError::StructuralCycle));
            }
            return Err(ScaffoldError::StructuralCycle);
        }
        hops = hops + 1;
        cur = p;
        proof {
            assert(spec_walk(tseq, *setup, cur as int, acc.deep_view(), (MAX_HOPS - hops) as nat)
                == spec_walk(tseq, *setup, cur as int, acc.deep_view(), (fuel - 1) as nat));
        }
    }
    let mut out: Vec<String> = Vec::new();
    let ghost accdv = acc.deep_view();
    for b in 0..acc.len()
        invariant
            acc.deep_view() == accdv,
            out@.len() == b,
            out.deep_view() == prepend_root(setup.name@, accdv).take(b as int),
    {
        let mut o = setup.name.clone();
        o.append(acc[b].as_str());
        let ghost prevv = out@;
        out.push(o);
        proof {
            assert(forall|j: int| 0 <= j < prevv.len() ==> prevv.push(o)[j] == prevv[j]);
            assert(prevv.push(o)[b as int] == o);
            assert(out.deep_view() =~= prepend_root(setup.name@, accdv).take(b + 1 as int));
        }
    }
    proof {
        assert(prepend_root(setup.name@, accdv).take(accdv.len() as int) =~= prepend_root(
            setup.name@,
            accdv,
        ));
    }
    Ok(out)
}

/// Computes the full ordered path set of a configuration: the bare
/// project root first, then, for every folder template in list order,
/// the paths its ancestor chain denotes.
pub fn compute_all_paths(config: &Config) -> (r: Result<Vec<String>, ScaffoldError>)
    ensures
        paths_view(r) == spec_all_paths(*config),
{
    let ts = &config.file_structure;
    let ghost tseq = ts.folders_list@;
    let mut out: Vec<String> = Vec::new();
    out.push(config.setup.name.clone());
    proof {
        assert(out.deep_view() =~= seq![config.setup.name@]);
    }
    let mut i: usize = 0;
    while i < ts.folders_list.len()
        invariant
            ts == &config.file_structure,
            tseq == ts.folders_list@,
            i <= tseq.len(),
            match spec_paths_from(tseq, config.setup, i as int) {
                Ok(rest) => spec_all_paths(*config) == Ok::<Seq<Seq<char>>, ScaffoldError>(
                    out.deep_view() + rest,
                ),
                Err(e) => spec_all_paths(*config) == Err::<Seq<Seq<char>>, ScaffoldError>(e),
            },
        decreases tseq.len() - i,
    {
        let mut ps = match build_template_paths(ts, &config.setup, i) {
            Ok(ps) => ps,
            Err(e) => {
                return Err(e);
            },
        };
        let ghost outdv = out.deep_view();
        let ghost psdv = ps.deep_view();
        let ghost prevout = out@;
        let ghost prevps = ps@;
        out.append(&mut ps);
        proof {
            assert(out@ == prevout + prevps);
            assert(forall|j: int| 0 <= j < prevout.len() ==> (prevout + prevps)[j] == prevout[j]);
            assert(forall|j: int|
                prevout.len() <= j < prevout.len() + prevps.len() ==> (prevout + prevps)[j]
                    == prevps[j - prevout.len()]);
            assert(out.deep_view() =~= outdv + psdv);
            match spec_paths_from(tseq, config.setup, i + 1 as int) {
                Ok(rest) => {
                    assert((outdv + psdv) + rest =~= outdv + (psdv + rest));
                },
                Err(e) => {},
            }
        }
        i = i + 1;
    }
    proof {
        assert(out.deep_view() + Seq::<Seq<char>>::empty() =~= out.deep_view());
    }
    Ok(out)
}

} // verus!
