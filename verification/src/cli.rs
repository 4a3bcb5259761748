//! Mount arguments of the command line: `[MODE:]PATH` or `[MODE:]SRC:DST`.

use vstd::prelude::*;
use crate::mount::{host_part, Mount, MountError, MountErrorView, MountMode, MountView};
use crate::text::{char_len, find_char, has_prefix, lemma_first_pos, starts_with_char, take_chars};
use crate::text::views;

verus! {

/// The mode that `s` begins with and what follows it: `ro:`, `rw:` or `o:`
/// and the rest. `None` where `s` begins with none of the three.
pub open spec fn mode_prefix(s: Seq<char>) -> Option<(MountMode, Seq<char>)> {
    if "ro:"@.is_prefix_of(s) {
        Some((MountMode::Ro, s.skip("ro:"@.len() as int)))
    } else if "rw:"@.is_prefix_of(s) {
        Some((MountMode::Rw, s.skip("rw:"@.len() as int)))
    } else if "o:"@.is_prefix_of(s) {
        Some((MountMode::Overlay, s.skip("o:"@.len() as int)))
    } else {
        None
    }
}

/// The view of an optional mode with the text behind it.
pub open spec fn prefix_view(o: Option<(MountMode, &str)>) -> Option<(MountMode, Seq<char>)> {
    match o {
        Some((mode, rest)) => Some((mode, rest@)),
        None => None,
    }
}

/// Splits a mode prefix off `s`: `ro:`, `rw:` or `o:`.
pub fn parse_mode_prefix<'a>(s: &'a str) -> (r: Option<(MountMode, &'a str)>)
    ensures
        prefix_view(r) == mode_prefix(s@),
{
    let n: usize = char_len(s);
    if has_prefix(s, "ro:") {
        Some((MountMode::Ro, s.substring_char(char_len("ro:"), n)))
    } else if has_prefix(s, "rw:") {
        Some((MountMode::Rw, s.substring_char(char_len("rw:"), n)))
    } else if has_prefix(s, "o:") {
        Some((MountMode::Overlay, s.substring_char(char_len("o:"), n)))
    } else {
        None
    }
}

/// The mount that the argument `arg` asks for. The mode is that of the
/// prefix, read-write without one. What follows must not be empty, and
/// its host side must begin with `/` or `~`.
pub open spec fn cli_mount(arg: Seq<char>, home_relative: bool) -> Result<MountView, MountErrorView> {
    let (mode, spec) = match mode_prefix(arg) {
        Some(p) => p,
        None => (MountMode::Rw, arg),
    };
    if spec.len() == 0 {
        Err(MountErrorView::EmptySpec { arg })
    } else if host_part(spec).len() > 0 && (host_part(spec)[0] == '/' || host_part(spec)[0] == '~') {
        Ok(MountView { spec, home_relative, mode })
    } else {
        Err(MountErrorView::NotAbsolute { arg })
    }
}

/// The view of a result that holds a mount or a mount error.
pub open spec fn mount_result_view(r: Result<Mount, MountError>) -> Result<MountView, MountErrorView> {
    match r {
        Ok(m) => Ok(m@),
        Err(e) => Err(e@),
    }
}

/// Reads one mount argument of the command line.
///
/// Fails with `EmptySpec` if and only if nothing stands behind the mode
/// prefix, or in `arg` where it has none; else with `NotAbsolute` if and
/// only if the path, or the source of `SRC:DST`, begins with neither `/`
/// nor `~`.
pub fn parse_single_cli_mount(arg: &str, home_relative: bool) -> (r: Result<Mount, MountError>)
    ensures
        mount_result_view(r) == cli_mount(arg@, home_relative),
{
    let (mode, spec) = match parse_mode_prefix(arg) {
        Some((mode, rest)) => (mode, rest),
        None => (MountMode::Rw, arg),
    };
    if char_len(spec) == 0 {
        return Err(MountError::EmptySpec { arg: arg.to_owned() });
    }
    proof {
        lemma_first_pos(spec@, ':');
    }
    let source = take_chars(spec, find_char(spec, ':'));
    if !starts_with_char(source.as_str(), '/') && !starts_with_char(source.as_str(), '~') {
        return Err(MountError::NotAbsolute { arg: arg.to_owned() });
    }
    Ok(Mount { spec: spec.to_owned(), home_relative, mode })
}

/// The mounts that the arguments `args` ask for, in order. The first
/// argument that cannot be read decides.
pub open spec fn cli_mounts_of(args: Seq<Seq<char>>, home_relative: bool) -> Result<
    Seq<MountView>,
    MountErrorView,
>
    decreases args.len(),
{
    if args.len() == 0 {
        Ok(Seq::empty())
    } else {
        match cli_mounts_of(args.drop_last(), home_relative) {
            Err(e) => Err(e),
            Ok(before) => match cli_mount(args.last(), home_relative) {
                Err(e) => Err(e),
                Ok(m) => Ok(before.push(m)),
            },
        }
    }
}

/// Where reading the first `n` arguments fails, reading all fails in the
/// same way.
pub proof fn lemma_cli_mounts_fail_on(args: Seq<Seq<char>>, home_relative: bool, n: int)
    requires
        0 <= n <= args.len(),
        cli_mounts_of(args.take(n), home_relative) is Err,
    ensures
        cli_mounts_of(args, home_relative) == cli_mounts_of(args.take(n), home_relative),
    decreases args.len() - n,
{
    if n == args.len() {
        assert(args.take(n) =~= args);
    } else {
        assert(args.take(n + 1).drop_last() =~= args.take(n));
        lemma_cli_mounts_fail_on(args, home_relative, n + 1);
    }
}

/// The mounts of the command line: the home-relative ones, then the
/// absolute ones.
pub open spec fn cli_mounts_spec(home_relative: Seq<Seq<char>>, absolute: Seq<Seq<char>>) -> Result<
    Seq<MountView>,
    MountErrorView,
> {
    match cli_mounts_of(home_relative, true) {
        Err(e) => Err(e),
        Ok(first) => match cli_mounts_of(absolute, false) {
            Err(e) => Err(e),
            Ok(second) => Ok(first + second),
        },
    }
}

/// The view of a result that holds mounts or a mount error.
pub open spec fn mount_list_view(r: Result<Vec<Mount>, MountError>) -> Result<
    Seq<MountView>,
    MountErrorView,
> {
    match r {
        Ok(v) => Ok(views(v@)),
        Err(e) => Err(e@),
    }
}

/// Appends the mounts that `args` ask for to `out`.
fn push_cli_mounts(out: &mut Vec<Mount>, args: &[String], home_relative: bool) -> (r: Result<
    (),
    MountError,
>)
    ensures
        match cli_mounts_of(views(args@), home_relative) {
            Ok(more) => r is Ok && views(final(out)@) == views(old(out)@) + more,
            Err(e) => r is Err && r->Err_0@ == e,
        },
{
    let ghost all = views(args@);
    let ghost start = views(out@);
    let mut i: usize = 0;
    proof {
        assert(all.take(0) =~= Seq::<Seq<char>>::empty());
        assert(views(out@) =~= start + Seq::<MountView>::empty());
    }
    while i < args.len()
        invariant
            i <= args.len(),
            all == views(args@),
            cli_mounts_of(all.take(i as int), home_relative) is Ok,
            views(out@) == start + cli_mounts_of(all.take(i as int), home_relative)->Ok_0,
        decreases args.len() - i,
    {
        proof {
            assert(all.take(i + 1).drop_last() =~= all.take(i as int));
            assert(all.take(i + 1).last() == args@[i as int]@);
        }
        match parse_single_cli_mount(args[i].as_str(), home_relative) {
            Ok(m) => {
                let ghost before = out@;
                out.push(m);
                proof {
                    assert(views(out@) =~= views(before).push(m@));
                    assert(views(out@) =~= start + cli_mounts_of(
                        all.take(i + 1),
                        home_relative,
                    )->Ok_0);
                }
            },
            Err(e) => {
                proof {
                    assert(cli_mounts_of(all.take(i + 1), home_relative) == Err::<
                        Seq<MountView>,
                        MountErrorView,
                    >(e@));
                    lemma_cli_mounts_fail_on(all, home_relative, i + 1);
                }
                return Err(e);
            },
        }
        i += 1;
    }
    proof {
        assert(all.take(args.len() as int) =~= all);
    }
    Ok(())
}

/// Reads the mount arguments of the command line: first those given as
/// home-relative, then those given as absolute. Fails with the error of
/// the first argument, in that order, that cannot be read.
pub fn parse_cli_mounts(home_relative: &[String], absolute: &[String]) -> (r: Result<
    Vec<Mount>,
    MountError,
>)
    ensures
        mount_list_view(r) == cli_mounts_spec(views(home_relative@), views(absolute@)),
{
    let mut mounts: Vec<Mount> = Vec::new();
    proof {
        assert(views(mounts@) =~= Seq::<MountView>::empty());
    }
    match push_cli_mounts(&mut mounts, home_relative, true) {
        Ok(()) => {},
        Err(e) => {
            return Err(e);
        },
    }
    let ghost first = views(mounts@);
    match push_cli_mounts(&mut mounts, absolute, false) {
        Ok(()) => {},
        Err(e) => {
            return Err(e);
        },
    }
    proof {
        assert(Seq::<MountView>::empty() + first =~= first);
    }
    Ok(mounts)
}

} // verus!
