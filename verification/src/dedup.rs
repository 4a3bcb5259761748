//! Dropping mounts that stand for a bind that an earlier mount stands for.

use vstd::prelude::*;
use crate::mount::{bind_string, mode_flag, resolve_paths_spec, Mount, MountView, ResolvedMount};
use crate::mount::ResolvedMountView;
use crate::profile::ResolvedProfile;
use crate::resolve::resolve_with_homes_spec;
use crate::snapshot::{FsSnapshot, PathFactsView};
use crate::text::{concat3, contains_str, views};

verus! {

/// The text of a truth value.
pub open spec fn bool_text(b: bool) -> Seq<char> {
    if b {
        "true"@
    } else {
        "false"@
    }
}

/// The text by which a mount is told from others: the bind string of its
/// canonical host path, its container path and its mode; where the
/// filesystem does not give the canonical path, the bind string of the
/// expanded paths; and where the spec does not expand, the spec itself
/// with its form and mode.
pub open spec fn dedup_key(
    m: MountView,
    host_home: Seq<char>,
    container_home: Seq<char>,
    fs: Seq<PathFactsView>,
) -> Seq<char> {
    match resolve_with_homes_spec(m, host_home, container_home, fs) {
        Ok((host, container)) => bind_string(ResolvedMountView { host, container, mode: m.mode }),
        Err(_) => match resolve_paths_spec(m, host_home, container_home) {
            Ok((host, container)) => bind_string(
                ResolvedMountView { host, container, mode: m.mode },
            ),
            Err(_) => m.spec + ":"@ + bool_text(m.home_relative) + ":"@ + mode_flag(m.mode),
        },
    }
}

/// The keys of `mounts`, in order.
pub open spec fn keys_of(
    mounts: Seq<MountView>,
    host_home: Seq<char>,
    container_home: Seq<char>,
    fs: Seq<PathFactsView>,
) -> Seq<Seq<char>> {
    Seq::new(mounts.len(), |i: int| dedup_key(mounts[i], host_home, container_home, fs))
}

/// `mounts` without those whose key an earlier mount has: of mounts with
/// one key the first stays, in its place.
pub open spec fn dedup_spec(
    mounts: Seq<MountView>,
    host_home: Seq<char>,
    container_home: Seq<char>,
    fs: Seq<PathFactsView>,
) -> Seq<MountView>
    decreases mounts.len(),
{
    if mounts.len() == 0 {
        Seq::empty()
    } else {
        let before = dedup_spec(mounts.drop_last(), host_home, container_home, fs);
        if keys_of(before, host_home, container_home, fs).contains(
            dedup_key(mounts.last(), host_home, container_home, fs),
        ) {
            before
        } else {
            before.push(mounts.last())
        }
    }
}

impl Mount {
    /// The text by which this mount is told from others when duplicates
    /// are dropped.
    pub fn dedup_key(&self, host_home: &str, container_home: &str, fs: &FsSnapshot) -> (r: String)
        ensures
            r@ == dedup_key(self@, host_home@, container_home@, fs@),
    {
        match self.resolve_with_homes(host_home, container_home, fs) {
            Ok((host, container)) => {
                ResolvedMount { host, container, mode: self.mode }.to_bind_string()
            },
            Err(_) => match self.resolve_paths(host_home, container_home) {
                Ok((host, container)) => {
                    ResolvedMount { host, container, mode: self.mode }.to_bind_string()
                },
                Err(_) => {
                    let form = if self.home_relative {
                        "true"
                    } else {
                        "false"
                    };
                    let mut key = concat3(self.spec.as_str(), ":", form);
                    key.append(":");
                    key.append(self.mode.as_str());
                    key
                },
            },
        }
    }
}

impl ResolvedProfile {
    /// Drops every mount that stands for the same bind as an earlier one.
    /// What stays keeps its order; the other lists are not touched.
    pub fn dedup_mounts(&mut self, host_home: &str, container_home: &str, fs: &FsSnapshot)
        ensures
            final(self)@.mounts == dedup_spec(old(self)@.mounts, host_home@, container_home@, fs@),
            final(self)@.env == old(self)@.env,
            final(self)@.ports == old(self)@.ports,
            final(self)@.hosts == old(self)@.hosts,
    {
        let ghost all = views(self.mounts@);
        let mut kept: Vec<Mount> = Vec::new();
        let mut keys: Vec<String> = Vec::new();
        let mut i: usize = 0;
        proof {
            assert(all.take(0) =~= Seq::<MountView>::empty());
            assert(views(kept@) =~= Seq::<MountView>::empty());
            assert(views(keys@) =~= keys_of(views(kept@), host_home@, container_home@, fs@));
        }
        while i < self.mounts.len()
            invariant
                i <= self.mounts.len(),
                all == views(self.mounts@),
                *self == *old(self),
                views(kept@) == dedup_spec(all.take(i as int), host_home@, container_home@, fs@),
                views(keys@) == keys_of(views(kept@), host_home@, container_home@, fs@),
            decreases self.mounts.len() - i,
        {
            proof {
                assert(all.take(i + 1).drop_last() =~= all.take(i as int));
                assert(all.take(i + 1).last() == self.mounts@[i as int]@);
            }
            let m = &self.mounts[i];
            let key = m.dedup_key(host_home, container_home, fs);
            if !contains_str(&keys, key.as_str()) {
                let ghost kept_before = views(kept@);
                let ghost keys_before = views(keys@);
                kept.push(m.duplicate());
                keys.push(key);
                proof {
                    assert(views(kept@) =~= kept_before.push(m@));
                    assert(views(keys@) =~= keys_before.push(key@));
                    assert(views(keys@) =~= keys_of(
                        views(kept@),
                        host_home@,
                        container_home@,
                        fs@,
                    ));
                }
            }
            i += 1;
        }
        proof {
            assert(all.take(self.mounts.len() as int) =~= all);
        }
        self.mounts = kept;
    }
}

/// After dropping duplicates no two mounts have the same key.
pub proof fn lemma_dedup_keys_differ(
    mounts: Seq<MountView>,
    host_home: Seq<char>,
    container_home: Seq<char>,
    fs: Seq<PathFactsView>,
)
    ensures
        keys_of(dedup_spec(mounts, host_home, container_home, fs), host_home, container_home, fs)
            .no_duplicates(),
    decreases mounts.len(),
{
    if mounts.len() > 0 {
        lemma_dedup_keys_differ(mounts.drop_last(), host_home, container_home, fs);
        let before = dedup_spec(mounts.drop_last(), host_home, container_home, fs);
        let keys = keys_of(before, host_home, container_home, fs);
        let key = dedup_key(mounts.last(), host_home, container_home, fs);
        if !keys.contains(key) {
            let after = keys_of(before.push(mounts.last()), host_home, container_home, fs);
            assert(after =~= keys.push(key));
            assert forall|i: int, j: int| 0 <= i < after.len() && 0 <= j < after.len() && i != j implies after[i]
                != after[j] by {
                if i < keys.len() && j < keys.len() {
                    assert(keys[i] != keys[j]);
                } else if i < keys.len() {
                    assert(keys.contains(keys[i]));
                } else {
                    assert(keys.contains(keys[j]));
                }
            }
        }
    }
}

/// Two mounts of one mode that resolve to the same canonical host path
/// and the same container path are one mount after dropping duplicates,
/// however their specs are spelled.
pub proof fn lemma_same_paths_dedup(
    a: MountView,
    b: MountView,
    host_home: Seq<char>,
    container_home: Seq<char>,
    fs: Seq<PathFactsView>,
)
    requires
        a.mode == b.mode,
        resolve_with_homes_spec(a, host_home, container_home, fs) is Ok,
        resolve_with_homes_spec(a, host_home, container_home, fs) == resolve_with_homes_spec(
            b,
            host_home,
            container_home,
            fs,
        ),
    ensures
        dedup_key(a, host_home, container_home, fs) == dedup_key(b, host_home, container_home, fs),
        dedup_spec(seq![a, b], host_home, container_home, fs) == seq![a],
{
    let both = seq![a, b];
    let one = both.drop_last();
    assert(one =~= seq![a]);
    assert(one.drop_last() =~= Seq::<MountView>::empty());
    let none = dedup_spec(one.drop_last(), host_home, container_home, fs);
    assert(none =~= Seq::<MountView>::empty());
    assert(keys_of(none, host_home, container_home, fs) =~= Seq::<Seq<char>>::empty());
    assert(dedup_spec(one, host_home, container_home, fs) =~= seq![a]);
    let keys = keys_of(seq![a], host_home, container_home, fs);
    assert(keys[0] == dedup_key(a, host_home, container_home, fs));
    assert(keys.contains(dedup_key(b, host_home, container_home, fs)));
}

} // verus!
