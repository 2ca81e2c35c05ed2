//! What holds of every walk of the closure engine.
use vstd::prelude::*;

use crate::closure::{is_done, lemma_add_new, run, step, well_formed, Traversal};

verus! {

/// The exclusion that excludes no file.
pub open spec fn no_exclusion() -> spec_fn(Seq<char>) -> bool {
    |p: Seq<char>| false
}

/// Whether `path` is a chain of references that starts at a seed: each file
/// after the first is referenced by the one before it.
pub open spec fn is_reference_chain(
    refs: spec_fn(Seq<char>) -> Seq<Seq<char>>,
    seeds: Seq<Seq<char>>,
    path: Seq<Seq<char>>,
) -> bool {
    &&& path.len() > 0
    &&& seeds.contains(path[0])
    &&& forall|i: int| 0 <= i < path.len() - 1 ==> #[trigger] refs(path[i]).contains(path[i + 1])
}

/// Whether `p` can be reached from `seeds` by following references.
pub open spec fn reachable(
    refs: spec_fn(Seq<char>) -> Seq<Seq<char>>,
    seeds: Seq<Seq<char>>,
    p: Seq<char>,
) -> bool {
    exists|path: Seq<Seq<char>>| #[trigger] is_reference_chain(refs, seeds, path) && path.last() == p
}

/// One step keeps a walk well formed, keeps what was found as a prefix, and
/// processes no fewer files.
proof fn lemma_step(
    refs: spec_fn(Seq<char>) -> Seq<Seq<char>>,
    excluded: spec_fn(Seq<char>) -> bool,
    t: Traversal,
)
    requires
        well_formed(t),
    ensures
        well_formed(step(refs, excluded, t)),
        step(refs, excluded, t).found.len() >= t.found.len(),
        step(refs, excluded, t).found.subrange(0, t.found.len() as int) == t.found,
        forall|p: Seq<char>| t.found.contains(p) ==> step(refs, excluded, t).found.contains(p),
        step(refs, excluded, t).next >= t.next,
{
    let s = step(refs, excluded, t);
    if !is_done(t) && !excluded(t.found[t.next]) {
        lemma_add_new(t.found, refs(t.found[t.next]));
    } else {
        assert(s.found.subrange(0, t.found.len() as int) =~= t.found);
    }
}

/// A walk never finds a file twice, whatever the references, however many
/// steps it has taken, and whether or not there are cycles.
pub proof fn lemma_no_duplicates(
    refs: spec_fn(Seq<char>) -> Seq<Seq<char>>,
    excluded: spec_fn(Seq<char>) -> bool,
    seeds: Seq<Seq<char>>,
    n: nat,
)
    ensures
        run(refs, excluded, seeds, n).found.no_duplicates(),
        well_formed(run(refs, excluded, seeds, n)),
    decreases n,
{
    if n == 0 {
        lemma_add_new(Seq::empty(), seeds);
    } else {
        lemma_no_duplicates(refs, excluded, seeds, (n - 1) as nat);
        lemma_step(refs, excluded, run(refs, excluded, seeds, (n - 1) as nat));
    }
}

/// Once a walk is complete, further steps change nothing.
proof fn lemma_done_stays(
    refs: spec_fn(Seq<char>) -> Seq<Seq<char>>,
    excluded: spec_fn(Seq<char>) -> bool,
    seeds: Seq<Seq<char>>,
    n: nat,
    d: nat,
)
    requires
        is_done(run(refs, excluded, seeds, n)),
    ensures
        run(refs, excluded, seeds, n + d) == run(refs, excluded, seeds, n),
    decreases d,
{
    if d > 0 {
        lemma_done_stays(refs, excluded, seeds, n, (d - 1) as nat);
        assert(run(refs, excluded, seeds, n + d) == step(
            refs,
            excluded,
            run(refs, excluded, seeds, (n + d - 1) as nat),
        ));
    }
}

/// Two complete walks over the same references, with the same exclusions and
/// seeds, find the same files in the same order.
pub proof fn lemma_complete_runs_agree(
    refs: spec_fn(Seq<char>) -> Seq<Seq<char>>,
    excluded: spec_fn(Seq<char>) -> bool,
    seeds: Seq<Seq<char>>,
    n: nat,
    m: nat,
)
    requires
        is_done(run(refs, excluded, seeds, n)),
        is_done(run(refs, excluded, seeds, m)),
    ensures
        run(refs, excluded, seeds, n) == run(refs, excluded, seeds, m),
{
    if n <= m {
        lemma_done_stays(refs, excluded, seeds, n, (m - n) as nat);
    } else {
        lemma_done_stays(refs, excluded, seeds, m, (n - m) as nat);
    }
}

/// Every file that a walk finds can be reached from the seeds, whatever is
/// excluded.
proof fn lemma_found_reachable(
    refs: spec_fn(Seq<char>) -> Seq<Seq<char>>,
    excluded: spec_fn(Seq<char>) -> bool,
    seeds: Seq<Seq<char>>,
    n: nat,
)
    ensures
        forall|p: Seq<char>|
            run(refs, excluded, seeds, n).found.contains(p) ==> reachable(refs, seeds, p),
    decreases n,
{
    if n == 0 {
        lemma_add_new(Seq::empty(), seeds);
        assert forall|p: Seq<char>| run(refs, excluded, seeds, n).found.contains(p) implies reachable(
            refs,
            seeds,
            p,
        ) by {
            assert(is_reference_chain(refs, seeds, seq![p]));
        }
    } else {
        let k = (n - 1) as nat;
        let t = run(refs, excluded, seeds, k);
        lemma_found_reachable(refs, excluded, seeds, k);
        lemma_no_duplicates(refs, excluded, seeds, k);
        assert forall|p: Seq<char>| run(refs, excluded, seeds, n).found.contains(p) implies reachable(
            refs,
            seeds,
            p,
        ) by {
            assert(run(refs, excluded, seeds, n) == step(refs, excluded, t));
            if !t.found.contains(p) {
                let cur = t.found[t.next];
                assert(!is_done(t) && !excluded(cur));
                lemma_add_new(t.found, refs(cur));
                assert(t.found.contains(cur));
                assert(reachable(refs, seeds, cur));
                let path = choose|path: Seq<Seq<char>>|
                    #[trigger] is_reference_chain(refs, seeds, path) && path.last() == cur;
                let longer = path.push(p);
                assert forall|i: int| 0 <= i < longer.len() - 1 implies #[trigger] refs(
                    longer[i],
                ).contains(longer[i + 1]) by {
                    if i < path.len() - 1 {
                        assert(refs(path[i]).contains(path[i + 1]));
                    }
                }
                assert(is_reference_chain(refs, seeds, longer));
            }
        }
    }
}

/// After `n` steps without exclusions, the seeds are found, and so is every
/// file that a processed file references.
proof fn lemma_processed_closed(
    refs: spec_fn(Seq<char>) -> Seq<Seq<char>>,
    seeds: Seq<Seq<char>>,
    n: nat,
)
    ensures
        forall|p: Seq<char>|
            seeds.contains(p) ==> run(refs, no_exclusion(), seeds, n).found.contains(p),
        forall|i: int, p: Seq<char>|
            0 <= i < run(refs, no_exclusion(), seeds, n).next && #[trigger] refs(
                run(refs, no_exclusion(), seeds, n).found[i],
            ).contains(p) ==> run(refs, no_exclusion(), seeds, n).found.contains(p),
    decreases n,
{
    if n == 0 {
        lemma_add_new(Seq::empty(), seeds);
    } else {
        let k = (n - 1) as nat;
        let t = run(refs, no_exclusion(), seeds, k);
        let s = run(refs, no_exclusion(), seeds, n);
        lemma_processed_closed(refs, seeds, k);
        lemma_no_duplicates(refs, no_exclusion(), seeds, k);
        lemma_step(refs, no_exclusion(), t);
        if !is_done(t) {
            lemma_add_new(t.found, refs(t.found[t.next]));
            assert forall|i: int, p: Seq<char>|
                0 <= i < s.next && #[trigger] refs(s.found[i]).contains(p) implies s.found.contains(
                p,
            ) by {
                assert(s.found[i] == s.found.subrange(0, t.found.len() as int)[i]);
                if i < t.next {
                    assert(t.found.contains(p));
                }
            }
        }
    }
}

/// Exclusion only prunes: whatever a walk with exclusions has found, after
/// any number of steps, a complete walk from the same seeds without exclusions
/// finds too. An excluded file is still found; only what it references may be
/// left out.
pub proof fn lemma_exclusion_only_prunes(
    refs: spec_fn(Seq<char>) -> Seq<Seq<char>>,
    excluded: spec_fn(Seq<char>) -> bool,
    seeds: Seq<Seq<char>>,
    n: nat,
    m: nat,
)
    requires
        is_done(run(refs, no_exclusion(), seeds, m)),
    ensures
        run(refs, excluded, seeds, n).found.to_set() <= run(
            refs,
            no_exclusion(),
            seeds,
            m,
        ).found.to_set(),
{
    let full = run(refs, no_exclusion(), seeds, m);
    lemma_found_reachable(refs, excluded, seeds, n);
    lemma_processed_closed(refs, seeds, m);
    lemma_no_duplicates(refs, no_exclusion(), seeds, m);
    assert forall|p: Seq<char>| run(refs, excluded, seeds, n).found.contains(p) implies full.found.contains(p) by {
        assert(reachable(refs, seeds, p));
        let path = choose|path: Seq<Seq<char>>|
            #[trigger] is_reference_chain(refs, seeds, path) && path.last() == p;
        lemma_chain_in_full(refs, seeds, m, path);
    }
}

/// In a complete walk without exclusions, every file of a chain of references
/// from the seeds is found.
proof fn lemma_chain_in_full(
    refs: spec_fn(Seq<char>) -> Seq<Seq<char>>,
    seeds: Seq<Seq<char>>,
    m: nat,
    path: Seq<Seq<char>>,
)
    requires
        is_done(run(refs, no_exclusion(), seeds, m)),
        is_reference_chain(refs, seeds, path),
    ensures
        run(refs, no_exclusion(), seeds, m).found.contains(path.last()),
    decreases path.len(),
{
    let full = run(refs, no_exclusion(), seeds, m);
    lemma_processed_closed(refs, seeds, m);
    lemma_no_duplicates(refs, no_exclusion(), seeds, m);
    if path.len() > 1 {
        let shorter = path.drop_last();
        assert forall|i: int| 0 <= i < shorter.len() - 1 implies #[trigger] refs(
            shorter[i],
        ).contains(shorter[i + 1]) by {
            assert(refs(path[i]).contains(path[i + 1]));
        }
        assert(is_reference_chain(refs, seeds, shorter));
        lemma_chain_in_full(refs, seeds, m, shorter);
        let q = shorter.last();
        let j = choose|j: int| 0 <= j < full.found.len() && full.found[j] == q;
        let i = path.len() - 2;
        assert(refs(path[i]).contains(path[i + 1]));
        assert(refs(full.found[j]).contains(path.last()));
    }
}

/// After `n` steps over a graph closed within `universe`, every file found
/// lies in it, and the walk has either ended or processed `n` files.
proof fn lemma_progress(
    refs: spec_fn(Seq<char>) -> Seq<Seq<char>>,
    excluded: spec_fn(Seq<char>) -> bool,
    seeds: Seq<Seq<char>>,
    universe: Set<Seq<char>>,
    n: nat,
)
    requires
        forall|p: Seq<char>| seeds.contains(p) ==> universe.contains(p),
        forall|p: Seq<char>, q: Seq<char>|
            universe.contains(p) && #[trigger] refs(p).contains(q) ==> universe.contains(q),
    ensures
        forall|p: Seq<char>|
            run(refs, excluded, seeds, n).found.contains(p) ==> universe.contains(p),
        is_done(run(refs, excluded, seeds, n)) || run(refs, excluded, seeds, n).next == n,
    decreases n,
{
    if n == 0 {
        lemma_add_new(Seq::empty(), seeds);
    } else {
        let k = (n - 1) as nat;
        let t = run(refs, excluded, seeds, k);
        lemma_progress(refs, excluded, seeds, universe, k);
        lemma_no_duplicates(refs, excluded, seeds, k);
        assert(run(refs, excluded, seeds, n) == step(refs, excluded, t));
        if !is_done(t) {
            let cur = t.found[t.next];
            assert(t.found.contains(cur));
            lemma_add_new(t.found, refs(cur));
        }
    }
}

/// A walk over a finite graph ends, cycles included: when the seeds lie in a
/// finite set of files that holds everything its files reference, the walk is
/// complete after as many steps as the set has files.
pub proof fn lemma_walk_ends(
    refs: spec_fn(Seq<char>) -> Seq<Seq<char>>,
    excluded: spec_fn(Seq<char>) -> bool,
    seeds: Seq<Seq<char>>,
    universe: Set<Seq<char>>,
    n: nat,
)
    requires
        universe.finite(),
        forall|p: Seq<char>| seeds.contains(p) ==> universe.contains(p),
        forall|p: Seq<char>, q: Seq<char>|
            universe.contains(p) && #[trigger] refs(p).contains(q) ==> universe.contains(q),
        n >= universe.len(),
    ensures
        is_done(run(refs, excluded, seeds, n)),
{
    let t = run(refs, excluded, seeds, n);
    lemma_progress(refs, excluded, seeds, universe, n);
    lemma_no_duplicates(refs, excluded, seeds, n);
    t.found.unique_seq_to_set();
    vstd::set_lib::lemma_len_subset(t.found.to_set(), universe);
}

} // verus!
