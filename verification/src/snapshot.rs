//! What is known of the host filesystem: the answers that were gathered for
//! single paths. Planning reads these and never the disk.

use vstd::prelude::*;
use crate::text::{opt_view, str_eq, views};

verus! {

/// What a `PathFacts` holds, as plain sequences.
pub struct PathFactsView {
    pub path: Seq<char>,
    pub canonical: Option<Seq<char>>,
    pub link_target: Option<Seq<char>>,
}

/// The answers of the filesystem for one path.
#[derive(Debug, Clone, PartialEq, Eq)]
pub struct PathFacts {
    /// The path that was asked about, as it was written.
    pub path: String,
    /// Its canonical form: absolute, with every symlink followed. `None`
    /// where the path does not exist or cannot be resolved.
    pub canonical: Option<String>,
    /// The target text stored in the path, where the path itself is a
    /// symlink; `None` for anything else.
    pub link_target: Option<String>,
}

impl View for PathFacts {
    type V = PathFactsView;

    open spec fn view(&self) -> PathFactsView {
        PathFactsView {
            path: self.path@,
            canonical: opt_view(self.canonical),
            link_target: opt_view(self.link_target),
        }
    }
}

/// The first facts in `fs` that are about `path`.
pub open spec fn lookup(fs: Seq<PathFactsView>, path: Seq<char>) -> Option<PathFactsView>
    decreases fs.len(),
{
    if fs.len() == 0 {
        None
    } else if fs[0].path == path {
        Some(fs[0])
    } else {
        lookup(fs.drop_first(), path)
    }
}

/// `lookup` finds the facts at the least index whose path is `path`.
pub proof fn lemma_lookup_at(fs: Seq<PathFactsView>, path: Seq<char>, i: int)
    requires
        0 <= i <= fs.len(),
        forall|j: int| 0 <= j < i ==> fs[j].path != path,
        i < fs.len() ==> fs[i].path == path,
    ensures
        lookup(fs, path) == if i < fs.len() {
            Some(fs[i])
        } else {
            None
        },
    decreases fs.len(),
{
    if fs.len() == 0 {
    } else if i == 0 {
    } else {
        let rest = fs.drop_first();
        assert forall|j: int| 0 <= j < i - 1 implies rest[j].path != path by {
            assert(rest[j] == fs[j + 1]);
        }
        lemma_lookup_at(rest, path, i - 1);
    }
}

/// A set of gathered facts, one entry for each path that was asked about.
/// Where a path was recorded twice, the first entry counts.
#[derive(Debug, Clone, PartialEq, Eq)]
pub struct FsSnapshot {
    pub entries: Vec<PathFacts>,
}

impl View for FsSnapshot {
    type V = Seq<PathFactsView>;

    open spec fn view(&self) -> Seq<PathFactsView> {
        views(self.entries@)
    }
}

impl FsSnapshot {
    /// A snapshot that knows nothing yet.
    pub fn new() -> (r: FsSnapshot)
        ensures
            r@ == Seq::<PathFactsView>::empty(),
    {
        let r = FsSnapshot { entries: Vec::new() };
        proof {
            assert(r@ =~= Seq::<PathFactsView>::empty());
        }
        r
    }

    /// Adds the facts about one more path, behind those already held.
    pub fn record(&mut self, facts: PathFacts)
        ensures
            final(self)@ == old(self)@.push(facts@),
    {
        self.entries.push(facts);
        proof {
            assert(self@ =~= old(self)@.push(facts@));
        }
    }

    /// The facts held about `path`, if it was recorded.
    pub fn find(&self, path: &str) -> (r: Option<&PathFacts>)
        ensures
            match r {
                Some(facts) => lookup(self@, path@) == Some(facts@),
                None => lookup(self@, path@).is_none(),
            },
    {
        let mut i: usize = 0;
        while i < self.entries.len()
            invariant
                i <= self.entries.len(),
                forall|j: int| 0 <= j < i ==> self@[j].path != path@,
            decreases self.entries.len() - i,
        {
            if str_eq(self.entries[i].path.as_str(), path) {
                proof {
                    lemma_lookup_at(self@, path@, i as int);
                }
                return Some(&self.entries[i]);
            }
            i += 1;
        }
        proof {
            lemma_lookup_at(self@, path@, self@.len() as int);
        }
        None
    }
}

} // verus!
