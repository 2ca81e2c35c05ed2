//! The closure engine: a breadth-first walk over file references.
//!
//! The walk alternates decisions with outside work (asking the version control
//! whether a file is excluded, asking the note store what a file references).
//! [`Closure`] holds the decisions: its caller takes the file that
//! [`Closure::pending`] names, does the outside work, and reports back with
//! [`Closure::skip`] or [`Closure::expand`].
//!
//! The files found so far double as the visited set and the work queue: every
//! file is queued when it is first found, so the queue is the part of the found
//! sequence that has not been processed yet.
use vstd::prelude::*;

use crate::roam_file::RoamFile;

verus! {

/// The state of a walk: the files found, in order of discovery, and how many
/// of them have been processed.
pub struct Traversal {
    pub found: Seq<Seq<char>>,
    pub next: int,
}

/// The paths of a sequence of files.
pub open spec fn paths(files: Seq<RoamFile>) -> Seq<Seq<char>> {
    files.map_values(|f: RoamFile| f@)
}

/// `found` extended by the files of `targets` that it does not hold yet, each
/// once, in the order of their first appearance in `targets`.
pub open spec fn add_new(found: Seq<Seq<char>>, targets: Seq<Seq<char>>) -> Seq<Seq<char>>
    decreases targets.len(),
{
    if targets.len() == 0 {
        found
    } else {
        let prev = add_new(found, targets.drop_last());
        if prev.contains(targets.last()) {
            prev
        } else {
            prev.push(targets.last())
        }
    }
}

/// The state before any file is processed: the seeds, without repeats, in the
/// order given.
pub open spec fn start(seeds: Seq<Seq<char>>) -> Traversal {
    Traversal { found: add_new(Seq::empty(), seeds), next: 0 }
}

/// Whether every file found has been processed.
pub open spec fn is_done(t: Traversal) -> bool {
    t.next >= t.found.len()
}

/// The state after the next file is processed as excluded: it is not expanded.
pub open spec fn pass(t: Traversal) -> Traversal {
    if is_done(t) {
        t
    } else {
        Traversal { found: t.found, next: t.next + 1 }
    }
}

/// The state after the next file is expanded, `targets` being the files that
/// it references.
pub open spec fn visit(t: Traversal, targets: Seq<Seq<char>>) -> Traversal {
    if is_done(t) {
        t
    } else {
        Traversal { found: add_new(t.found, targets), next: t.next + 1 }
    }
}

/// One step of the walk over the references `refs`, where `excluded` says
/// which files are not expanded.
pub open spec fn step(
    refs: spec_fn(Seq<char>) -> Seq<Seq<char>>,
    excluded: spec_fn(Seq<char>) -> bool,
    t: Traversal,
) -> Traversal {
    if !is_done(t) && excluded(t.found[t.next]) {
        pass(t)
    } else if !is_done(t) {
        visit(t, refs(t.found[t.next]))
    } else {
        t
    }
}

/// The state of the walk from `seeds` after `n` steps.
pub open spec fn run(
    refs: spec_fn(Seq<char>) -> Seq<Seq<char>>,
    excluded: spec_fn(Seq<char>) -> bool,
    seeds: Seq<Seq<char>>,
    n: nat,
) -> Traversal
    decreases n,
{
    if n == 0 {
        start(seeds)
    } else {
        step(refs, excluded, run(refs, excluded, seeds, (n - 1) as nat))
    }
}

/// A state that a walk can be in: no file found twice, and no more processed
/// than found.
pub open spec fn well_formed(t: Traversal) -> bool {
    &&& t.found.no_duplicates()
    &&& 0 <= t.next <= t.found.len()
}

/// What `add_new` holds: the files it started from, as a prefix, and those
/// of `targets`, and no others; no repeats where there were none.
pub proof fn lemma_add_new(found: Seq<Seq<char>>, targets: Seq<Seq<char>>)
    ensures
        add_new(found, targets).len() >= found.len(),
        add_new(found, targets).subrange(0, found.len() as int) == found,
        forall|p: Seq<char>|
            add_new(found, targets).contains(p) <==> (found.contains(p) || targets.contains(p)),
        found.no_duplicates() ==> add_new(found, targets).no_duplicates(),
    decreases targets.len(),
{
    if targets.len() > 0 {
        let prev = add_new(found, targets.drop_last());
        lemma_add_new(found, targets.drop_last());
        let t = targets.last();
        assert forall|p: Seq<char>| targets.contains(p) <==> (targets.drop_last().contains(p) || p == t) by {
            if targets.contains(p) {
                let i = choose|i: int| 0 <= i < targets.len() && targets[i] == p;
                if i < targets.len() - 1 {
                    assert(targets.drop_last()[i] == p);
                }
            }
            if targets.drop_last().contains(p) {
                let i = choose|i: int| 0 <= i < targets.len() - 1 && targets.drop_last()[i] == p;
                assert(targets[i] == p);
            }
            if p == t {
                assert(targets[targets.len() - 1] == p);
            }
        }
        if !prev.contains(t) {
            let next = prev.push(t);
            assert(next.subrange(0, found.len() as int) =~= prev.subrange(0, found.len() as int));
            assert forall|p: Seq<char>| next.contains(p) <==> (prev.contains(p) || p == t) by {
                if next.contains(p) {
                    let i = choose|i: int| 0 <= i < next.len() && next[i] == p;
                    if i < prev.len() {
                        assert(prev[i] == p);
                    }
                }
                if prev.contains(p) {
                    let i = choose|i: int| 0 <= i < prev.len() && prev[i] == p;
                    assert(next[i] == p);
                }
                if p == t {
                    assert(next[prev.len() as int] == p);
                }
            }
        }
    }
}

/// Whether `found` holds a file with the path of `f`.
fn holds(found: &Vec<RoamFile>, f: &RoamFile) -> (r: bool)
    ensures
        r == paths(found@).contains(f@),
{
    let mut i: usize = 0;
    while i < found.len()
        invariant
            0 <= i <= found.len(),
            forall|j: int| 0 <= j < i ==> found@[j]@ != f@,
        decreases found.len() - i,
    {
        if found[i] == *f {
            assert(paths(found@)[i as int] == f@);
            return true;
        }
        i += 1;
    }
    proof {
        if paths(found@).contains(f@) {
            let j = choose|j: int| 0 <= j < paths(found@).len() && paths(found@)[j] == f@;
            assert(found@[j]@ == f@);
        }
    }
    false
}

/// Appends to `found` the files of `targets` that it does not hold yet.
fn add_new_files(found: &mut Vec<RoamFile>, targets: &[RoamFile])
    ensures
        paths(final(found)@) == add_new(paths(old(found)@), paths(targets@)),
{
    let ghost start = paths(found@);
    let mut i: usize = 0;
    while i < targets.len()
        invariant
            0 <= i <= targets.len(),
            paths(found@) == add_new(start, paths(targets@).take(i as int)),
        decreases targets.len() - i,
    {
        let ghost before = paths(found@);
        let t = &targets[i];
        proof {
            let ts = paths(targets@).take(i as int + 1);
            assert(ts.drop_last() =~= paths(targets@).take(i as int));
            assert(ts.last() == t@);
        }
        if !holds(found, t) {
            found.push(t.copy());
            assert(paths(found@) =~= before.push(t@));
        }
        i += 1;
    }
    assert(paths(targets@).take(targets.len() as int) =~= paths(targets@));
}

/// A breadth-first walk in progress over the references between files.
pub struct Closure {
    found: Vec<RoamFile>,
    next: usize,
}

impl View for Closure {
    type V = Traversal;

    closed spec fn view(&self) -> Traversal {
        Traversal { found: paths(self.found@), next: self.next as int }
    }
}

impl Closure {
    #[verifier::type_invariant]
    closed spec fn inv(&self) -> bool {
        well_formed(self@)
    }

    /// A walk from `seeds`: each is found once, in the order given, before any
    /// file is processed.
    pub fn new(seeds: &[RoamFile]) -> (r: Closure)
        ensures
            r@ == start(paths(seeds@)),
    {
        let mut found: Vec<RoamFile> = Vec::new();
        add_new_files(&mut found, seeds);
        proof {
            assert(paths(Seq::<RoamFile>::empty()) =~= Seq::<Seq<char>>::empty());
            lemma_add_new(Seq::empty(), paths(seeds@));
        }
        Closure { found, next: 0 }
    }

    /// The file to process next, if any is left. The caller decides whether it
    /// is excluded, and reports with [`Closure::skip`] or [`Closure::expand`].
    pub fn pending(&self) -> (r: Option<RoamFile>)
        ensures
            r is Some <==> !is_done(self@),
            r matches Some(f) ==> f@ == self@.found[self@.next],
    {
        proof {
            use_type_invariant(self);
        }
        if self.next < self.found.len() {
            Some(self.found[self.next].copy())
        } else {
            None
        }
    }

    /// Whether every file found has been processed.
    pub fn is_done(&self) -> (r: bool)
        ensures
            r == is_done(self@),
    {
        self.next >= self.found.len()
    }

    /// Processes the pending file as excluded: it stays among the files found,
    /// and what it references is not explored. Does nothing when no file is
    /// pending.
    pub fn skip(&mut self)
        ensures
            final(self)@ == pass(old(self)@),
    {
        proof {
            use_type_invariant(&*self);
        }
        if self.next < self.found.len() {
            self.next = self.next + 1;
        }
    }

    /// Processes the pending file, which references `targets`: those not found
    /// yet are found, in the order given. Does nothing when no file is pending.
    pub fn expand(&mut self, targets: &[RoamFile])
        ensures
            final(self)@ == visit(old(self)@, paths(targets@)),
    {
        proof {
            use_type_invariant(&*self);
        }
        if self.next < self.found.len() {
            let mut taken = Closure { found: Vec::new(), next: 0 };
            core::mem::swap(self, &mut taken);
            proof {
                use_type_invariant(&taken);
                lemma_add_new(paths(taken.found@), paths(targets@));
            }
            let Closure { mut found, next } = taken;
            add_new_files(&mut found, targets);
            *self = Closure { found, next: next + 1 };
        }
    }

    /// The files found, in order of discovery, each once.
    pub fn finish(self) -> (r: Vec<RoamFile>)
        ensures
            paths(r@) == self@.found,
            paths(r@).no_duplicates(),
    {
        proof {
            use_type_invariant(&self);
        }
        self.found
    }
}

} // verus!
