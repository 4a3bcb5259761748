//! Expanding a mount against the filesystem: the canonical host path, and
//! the chain of symlinks that has to be bound with it.

use vstd::prelude::*;
use crate::mount::{derived_container, has_dest, resolve_paths_spec};
use crate::mount::{Mount, MountError, MountErrorView, MountView, ResolvedMount, ResolvedMountView};
use crate::mount::paths_result_view;
use crate::paths::{link_destination, resolve_link};
use crate::snapshot::{lookup, FsSnapshot, PathFactsView};
use crate::text::{contains_char, lemma_first_pos, views};

verus! {

/// The canonical host path of a mount and the container path that goes with
/// it. A container path that the spec names stays as named; one that was
/// derived from the host path is derived anew from the canonical one.
pub open spec fn resolve_with_homes_spec(
    m: MountView,
    host_home: Seq<char>,
    container_home: Seq<char>,
    fs: Seq<PathFactsView>,
) -> Result<(Seq<char>, Seq<char>), MountErrorView> {
    match resolve_paths_spec(m, host_home, container_home) {
        Err(e) => Err(e),
        Ok((host, container)) => match lookup(fs, host) {
            None => Err(MountErrorView::Unprobed { path: host }),
            Some(facts) => match facts.canonical {
                None => Err(MountErrorView::NotCanonical { path: host }),
                Some(canonical) => Ok(
                    (
                        canonical,
                        if has_dest(m.spec) {
                            container
                        } else {
                            derived_container(
                                m.home_relative,
                                canonical,
                                host_home,
                                container_home,
                            )
                        },
                    ),
                ),
            },
        },
    }
}

/// The bind of `host` itself for the mount `m`.
pub open spec fn bind_of(
    m: MountView,
    host: Seq<char>,
    host_home: Seq<char>,
    container_home: Seq<char>,
) -> ResolvedMountView {
    ResolvedMountView {
        host,
        container: derived_container(m.home_relative, host, host_home, container_home),
        mode: m.mode,
    }
}

/// The binds for `path` and all it leads to. A symlink is bound under its
/// own path and followed; what is no symlink is bound under its canonical
/// path and ends the chain. At most `budget` links are followed: a chain
/// that is longer than the snapshot has entries runs in a circle, which no
/// canonical path can come from.
pub open spec fn symlink_chain(
    m: MountView,
    fs: Seq<PathFactsView>,
    path: Seq<char>,
    host_home: Seq<char>,
    container_home: Seq<char>,
    budget: nat,
) -> Result<Seq<ResolvedMountView>, MountErrorView>
    decreases budget,
{
    match lookup(fs, path) {
        None => Err(MountErrorView::Unprobed { path }),
        Some(facts) => match facts.canonical {
            None => Err(MountErrorView::NotCanonical { path }),
            Some(canonical) => match facts.link_target {
                None => Ok(seq![bind_of(m, canonical, host_home, container_home)]),
                Some(target) => if budget == 0 {
                    Err(MountErrorView::NotCanonical { path })
                } else {
                    match symlink_chain(
                        m,
                        fs,
                        link_destination(path, target),
                        host_home,
                        container_home,
                        (budget - 1) as nat,
                    ) {
                        Err(e) => Err(e),
                        Ok(rest) => Ok(seq![bind_of(m, path, host_home, container_home)] + rest),
                    }
                },
            },
        },
    }
}

/// All binds that a mount needs: its host path, each symlink on the way
/// from it, and the target that the chain ends in.
pub open spec fn resolved_mounts_spec(
    m: MountView,
    host_home: Seq<char>,
    container_home: Seq<char>,
    fs: Seq<PathFactsView>,
) -> Result<Seq<ResolvedMountView>, MountErrorView> {
    match resolve_paths_spec(m, host_home, container_home) {
        Err(e) => Err(e),
        Ok((host, container)) => match lookup(fs, host) {
            None => Err(MountErrorView::Unprobed { path: host }),
            Some(facts) => if facts.canonical.is_none() {
                Err(MountErrorView::NotFound { path: host })
            } else {
                symlink_chain(m, fs, host, host_home, container_home, fs.len())
            },
        },
    }
}

/// The view of a result that holds resolved mounts or a mount error.
pub open spec fn mounts_result_view(r: Result<Vec<ResolvedMount>, MountError>) -> Result<
    Seq<ResolvedMountView>,
    MountErrorView,
> {
    match r {
        Ok(v) => Ok(views(v@)),
        Err(e) => Err(e@),
    }
}

impl Mount {
    /// Resolves this mount to its canonical host path and its container
    /// path, by what `fs` knows of the expanded host path. A destination
    /// that the spec names is the container path as it stands; without one
    /// the container path is that of the canonical host path: the same
    /// path, or for a home-relative mount the path moved to the container's
    /// home where it lies in the host's home.
    ///
    /// Fails as `resolve_paths` does; with `Unprobed` where `fs` holds nothing
    /// about the host path; with `NotCanonical` where the path does not exist.
    pub fn resolve_with_homes(&self, host_home: &str, container_home: &str, fs: &FsSnapshot) -> (r:
        Result<(String, String), MountError>)
        ensures
            paths_result_view(r) == resolve_with_homes_spec(
                self@,
                host_home@,
                container_home@,
                fs@,
            ),
    {
        let (host, container) = match self.resolve_paths(host_home, container_home) {
            Ok(p) => p,
            Err(e) => {
                return Err(e);
            },
        };
        let facts = match fs.find(host.as_str()) {
            Some(f) => f,
            None => {
                return Err(MountError::Unprobed { path: host });
            },
        };
        let canonical = match &facts.canonical {
            Some(c) => c.clone(),
            None => {
                return Err(MountError::NotCanonical { path: host });
            },
        };
        proof {
            lemma_first_pos(self.spec@, ':');
        }
        let container = if contains_char(self.spec.as_str(), ':') {
            container
        } else {
            self.derive_container_path(canonical.as_str(), host_home, container_home)
        };
        Ok((canonical, container))
    }

    /// Appends to `out` the binds for `path` and for all that it leads to
    /// through symlinks, following at most `budget` links.
    pub fn collect_symlink_chain(
        &self,
        path: &str,
        host_home: &str,
        container_home: &str,
        fs: &FsSnapshot,
        budget: usize,
        out: &mut Vec<ResolvedMount>,
    ) -> (r: Result<(), MountError>)
        ensures
            match symlink_chain(self@, fs@, path@, host_home@, container_home@, budget as nat) {
                Ok(chain) => r is Ok && views(final(out)@) == views(old(out)@) + chain,
                Err(e) => r is Err && r->Err_0@ == e,
            },
        decreases budget,
    {
        let facts = match fs.find(path) {
            Some(f) => f,
            None => {
                return Err(MountError::Unprobed { path: path.to_owned() });
            },
        };
        let canonical = match &facts.canonical {
            Some(c) => c,
            None => {
                return Err(MountError::NotCanonical { path: path.to_owned() });
            },
        };
        match &facts.link_target {
            None => {
                let container = self.derive_container_path(
                    canonical.as_str(),
                    host_home,
                    container_home,
                );
                let bind = ResolvedMount { host: canonical.clone(), container, mode: self.mode };
                out.push(bind);
                proof {
                    assert(views(out@) =~= views(old(out)@) + seq![
                        bind_of(self@, canonical@, host_home@, container_home@),
                    ]);
                }
                Ok(())
            },
            Some(target) => {
                if budget == 0 {
                    return Err(MountError::NotCanonical { path: path.to_owned() });
                }
                let container = self.derive_container_path(path, host_home, container_home);
                let bind = ResolvedMount { host: path.to_owned(), container, mode: self.mode };
                out.push(bind);
                let ghost mid = out@;
                proof {
                    assert(views(mid) =~= views(old(out)@) + seq![
                        bind_of(self@, path@, host_home@, container_home@),
                    ]);
                }
                let next = resolve_link(path, target.as_str());
                let r = self.collect_symlink_chain(
                    next.as_str(),
                    host_home,
                    container_home,
                    fs,
                    budget - 1,
                    out,
                );
                proof {
                    if let Ok(rest) = symlink_chain(
                        self@,
                        fs@,
                        next@,
                        host_home@,
                        container_home@,
                        (budget - 1) as nat,
                    ) {
                        assert(views(out@) =~= views(old(out)@) + (seq![
                            bind_of(self@, path@, host_home@, container_home@),
                        ] + rest));
                    }
                }
                r
            },
        }
    }

    /// Resolves this mount to every bind it needs, symlink chain included, by
    /// what `fs` knows.
    ///
    /// Fails as `resolve_paths` does; with `NotFound` where the host path
    /// does not exist; with `Unprobed`, naming the path, where the walk comes
    /// to a path that `fs` holds nothing about.
    pub fn to_resolved_mounts_with_homes(
        &self,
        host_home: &str,
        container_home: &str,
        fs: &FsSnapshot,
    ) -> (r: Result<Vec<ResolvedMount>, MountError>)
        ensures
            mounts_result_view(r) == resolved_mounts_spec(
                self@,
                host_home@,
                container_home@,
                fs@,
            ),
    {
        let (host, _container) = match self.resolve_paths(host_home, container_home) {
            Ok(p) => p,
            Err(e) => {
                return Err(e);
            },
        };
        match fs.find(host.as_str()) {
            None => {
                return Err(MountError::Unprobed { path: host });
            },
            Some(facts) => {
                if facts.canonical.is_none() {
                    return Err(MountError::NotFound { path: host });
                }
            },
        }
        let mut out: Vec<ResolvedMount> = Vec::new();
        let budget: usize = fs.entries.len();
        match self.collect_symlink_chain(
            host.as_str(),
            host_home,
            container_home,
            fs,
            budget,
            &mut out,
        ) {
            Ok(()) => {
                proof {
                    let chain = symlink_chain(
                        self@,
                        fs@,
                        host@,
                        host_home@,
                        container_home@,
                        budget as nat,
                    )->Ok_0;
                    assert(views(Seq::<ResolvedMount>::empty()) + chain =~= chain);
                }
                Ok(out)
            },
            Err(e) => Err(e),
        }
    }
}

} // verus!
