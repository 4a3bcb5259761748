//! When two mount specifications count as the same mount.

use vstd::prelude::*;
use vstd::std_specs::cmp::PartialEqSpecImpl;
use crate::mount::{resolve_paths_spec, Mount, MountMode, MountView};
use crate::text::{lemma_first_pos_is, str_eq};

verus! {

/// The home directory under which two specs are compared, for both sides.
pub open spec fn comparison_home() -> Seq<char> {
    "/home/user"@
}

/// Two mounts are the same mount when their modes agree and both expand,
/// under one fixed home directory, to the same host and container paths.
/// How the specs are spelled does not count.
pub open spec fn same_mount(a: MountView, b: MountView) -> bool {
    a.mode == b.mode && match (
        resolve_paths_spec(a, comparison_home(), comparison_home()),
        resolve_paths_spec(b, comparison_home(), comparison_home()),
    ) {
        (Ok(x), Ok(y)) => x == y,
        _ => false,
    }
}

impl PartialEq for Mount {
    fn eq(&self, other: &Self) -> (r: bool) {
        if self.mode != other.mode {
            return false;
        }
        let home = "/home/user";
        match (self.resolve_paths(home, home), other.resolve_paths(home, home)) {
            (Ok((h1, c1)), Ok((h2, c2))) => str_eq(h1.as_str(), h2.as_str()) && str_eq(
                c1.as_str(),
                c2.as_str(),
            ),
            _ => false,
        }
    }
}

impl PartialEqSpecImpl for Mount {
    open spec fn obeys_eq_spec() -> bool {
        true
    }

    open spec fn eq_spec(&self, other: &Self) -> bool {
        same_mount(self@, other@)
    }
}

impl Eq for Mount {

}

/// Round-trip equality. A path below the home directory is the same
/// mount whether its spec writes the home as `~` or spells it out,
/// whatever form the two specs are given in, as long as the modes agree.
pub proof fn lemma_tilde_is_home(rest: Seq<char>, mode: MountMode, first_form: bool, second_form: bool)
    requires
        !rest.contains(':'),
    ensures
        same_mount(
            MountView { spec: "~"@ + rest, home_relative: first_form, mode },
            MountView { spec: comparison_home() + rest, home_relative: second_form, mode },
        ),
{
    reveal_strlit("~");
    reveal_strlit("/home/user");
    let home = comparison_home();
    let short = "~"@ + rest;
    let long = home + rest;
    assert forall|j: int| 0 <= j < short.len() implies short[j] != ':' by {
        if j >= 1 {
            assert(short[j] == rest[j - 1]);
            assert(rest.contains(rest[j - 1]));
        }
    }
    assert forall|j: int| 0 <= j < long.len() implies long[j] != ':' by {
        if j >= home.len() {
            assert(long[j] == rest[j - home.len()]);
            assert(rest.contains(rest[j - home.len()]));
        }
    }
    lemma_first_pos_is(short, ':', short.len() as int);
    lemma_first_pos_is(long, ':', long.len() as int);
    assert(short.take(short.len() as int) =~= short);
    assert(long.take(long.len() as int) =~= long);
    assert(short.skip(1) =~= rest);
    assert(long[0] == '/');
    assert(home.is_prefix_of(long)) by {
        assert(long.subrange(0, home.len() as int) =~= home);
    }
    assert(home + long.skip(home.len() as int) =~= long);
}

} // verus!
