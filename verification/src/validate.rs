//! Validation of the profiles of a configuration: every fault is found
//! and reported, not only the first.

use vstd::prelude::*;
use crate::config::{has_profile, names_of, no_mounts, profile_of};
use crate::config::{Config, ConfigView, ProfileEntry, ProfileEntryView};
use crate::profile::{lemma_path_grows, path_known};
use crate::text::{clone_strings, concat, concat3, contains_str, join, join_spec, opt_view, views};

verus! {

/// What a `ProfileValidationError` holds, as plain sequences.
pub struct IssueView {
    pub profile_name: Option<Seq<char>>,
    pub message: Seq<char>,
}

/// One finding of validation: the profile it is about, if it is about
/// one, and what is wrong.
#[derive(Debug, Clone, PartialEq, Eq)]
pub struct ProfileValidationError {
    pub profile_name: Option<String>,
    pub message: String,
}

impl View for ProfileValidationError {
    type V = IssueView;

    open spec fn view(&self) -> IssueView {
        IssueView { profile_name: opt_view(self.profile_name), message: self.message@ }
    }
}

/// The line that reports `issue`.
pub open spec fn issue_text(issue: IssueView) -> Seq<char> {
    match issue.profile_name {
        Some(name) => "Profile '"@ + name + "': "@ + issue.message,
        None => issue.message,
    }
}

impl ProfileValidationError {
    /// The line that reports this finding.
    pub fn to_text(&self) -> (r: String)
        ensures
            r@ == issue_text(self@),
    {
        match &self.profile_name {
            Some(name) => {
                let head = concat3("Profile '", name.as_str(), "': ");
                concat(head.as_str(), self.message.as_str())
            },
            None => self.message.clone(),
        }
    }
}

/// What a `ValidationResult` holds, as plain sequences.
pub struct ValidationResultView {
    pub errors: Seq<IssueView>,
    pub warnings: Seq<IssueView>,
}

/// The findings of validation. Errors stand in the way of a launch;
/// warnings do not.
#[derive(Debug, Clone, PartialEq, Eq)]
pub struct ValidationResult {
    pub errors: Vec<ProfileValidationError>,
    pub warnings: Vec<ProfileValidationError>,
}

impl View for ValidationResult {
    type V = ValidationResultView;

    open spec fn view(&self) -> ValidationResultView {
        ValidationResultView { errors: views(self.errors@), warnings: views(self.warnings@) }
    }
}

impl ValidationResult {
    /// Whether validation found no error.
    pub fn is_ok(&self) -> (r: bool)
        ensures
            r == (self@.errors.len() == 0),
    {
        self.errors.len() == 0
    }

    /// Whether validation found anything to warn about.
    pub fn has_warnings(&self) -> (r: bool)
        ensures
            r == (self@.warnings.len() > 0),
    {
        self.warnings.len() > 0
    }
}

/// The line of inheritance that leads from `current`, met below `path`,
/// back to a profile that is on the line already: `path`, `current` and
/// what follows, up to and with the name that closes the circle. Parents
/// are tried in their order; a profile that does not exist leads nowhere.
pub open spec fn cycle_from(
    entries: Seq<ProfileEntryView>,
    current: Seq<char>,
    path: Seq<Seq<char>>,
) -> Option<Seq<Seq<char>>>
    decreases entries.len() - path.len(), 0int, 0int,
    when path_known(entries, path)
    via cycle_from_terminates
{
    if path.contains(current) {
        Some(path.push(current))
    } else {
        match profile_of(entries, current) {
            None => None,
            Some(p) => cycle_among(entries, p.extends, path.push(current)),
        }
    }
}

/// The first circle that one of `parents` leads into, each met below `path`.
pub open spec fn cycle_among(
    entries: Seq<ProfileEntryView>,
    parents: Seq<Seq<char>>,
    path: Seq<Seq<char>>,
) -> Option<Seq<Seq<char>>>
    decreases entries.len() - path.len(), 1int, parents.len(),
    when path_known(entries, path)
{
    if parents.len() == 0 {
        None
    } else {
        match cycle_among(entries, parents.drop_last(), path) {
            Some(c) => Some(c),
            None => cycle_from(entries, parents.last(), path),
        }
    }
}

#[via_fn]
proof fn cycle_from_terminates(
    entries: Seq<ProfileEntryView>,
    current: Seq<char>,
    path: Seq<Seq<char>>,
) {
    if path_known(entries, path) && !path.contains(current) && profile_of(entries, current) is Some {
        lemma_path_grows(entries, path, current);
    }
}

/// Where one of the first `n` parents leads into a circle, that circle is
/// the one found among all of them.
pub proof fn lemma_cycle_among_found(
    entries: Seq<ProfileEntryView>,
    parents: Seq<Seq<char>>,
    path: Seq<Seq<char>>,
    n: int,
)
    requires
        path_known(entries, path),
        0 <= n <= parents.len(),
        cycle_among(entries, parents.take(n), path) is Some,
    ensures
        cycle_among(entries, parents, path) == cycle_among(entries, parents.take(n), path),
    decreases parents.len() - n,
{
    if n == parents.len() {
        assert(parents.take(n) =~= parents);
    } else {
        assert(parents.take(n + 1).drop_last() =~= parents.take(n));
        lemma_cycle_among_found(entries, parents, path, n + 1);
    }
}

/// The view of an optional list of strings.
pub open spec fn opt_names(o: Option<Vec<String>>) -> Option<Seq<Seq<char>>> {
    match o {
        Some(v) => Some(views(v@)),
        None => None,
    }
}

/// Looks for a circle of inheritance through `current`, met below the
/// profiles of `path`. `path` is the same after the call as before it.
pub fn detect_cycle_recursive(config: &Config, current: &str, path: &mut Vec<String>) -> (r: Option<
    Vec<String>,
>)
    requires
        path_known(config@.profiles, views(old(path)@)),
    ensures
        views(final(path)@) == views(old(path)@),
        opt_names(r) == cycle_from(config@.profiles, current@, views(old(path)@)),
    decreases config@.profiles.len() - old(path)@.len(),
{
    let ghost entries = config@.profiles;
    let ghost line = views(path@);
    if contains_str(path, current) {
        let mut cycle = clone_strings(path);
        let ghost before = cycle@;
        cycle.push(current.to_owned());
        proof {
            assert(views(cycle@) =~= views(before).push(current@));
        }
        return Some(cycle);
    }
    let profile = match config.profiles.get(current) {
        Some(p) => p,
        None => {
            return None;
        },
    };
    proof {
        lemma_path_grows(entries, line, current@);
    }
    path.push(current.to_owned());
    let ghost deeper = line.push(current@);
    proof {
        assert(views(path@) =~= deeper);
    }
    let mut found: Option<Vec<String>> = None;
    let mut i: usize = 0;
    while i < profile.extends.len() && found.is_none()
        invariant
            i <= profile.extends.len(),
            entries == config@.profiles,
            views(path@) == deeper,
            path_known(entries, deeper),
            deeper.len() == line.len() + 1,
            line.len() == old(path)@.len(),
            line.len() < entries.len(),
            path@.len() == deeper.len(),
            match found {
                None => cycle_among(entries, profile@.extends.take(i as int), deeper).is_none(),
                Some(c) => cycle_among(entries, profile@.extends, deeper) == Some(views(c@)),
            },
        decreases profile.extends.len() - i,
    {
        let ghost upto = profile@.extends.take(i + 1);
        proof {
            assert(upto.drop_last() =~= profile@.extends.take(i as int));
            assert(upto.last() == profile.extends@[i as int]@);
        }
        match detect_cycle_recursive(config, profile.extends[i].as_str(), path) {
            Some(c) => {
                proof {
                    assert(cycle_among(entries, upto, deeper) == Some(views(c@)));
                    lemma_cycle_among_found(entries, profile@.extends, deeper, i + 1);
                }
                found = Some(c);
            },
            None => {},
        }
        i += 1;
    }
    let ghost full = path@;
    path.pop();
    proof {
        assert(path@ == full.drop_last());
        assert forall|j: int| 0 <= j < line.len() implies views(path@)[j] == line[j] by {
            assert(views(full)[j] == deeper[j]);
        }
        assert(views(path@) =~= line);
        if found.is_none() {
            assert(profile@.extends.take(i as int) =~= profile@.extends);
        }
    }
    found
}

/// Looks for a circle of inheritance that begins at the profile `start`.
/// The result is the line from `start` to the profile that comes up a
/// second time, that profile at its end.
pub fn detect_cycle(config: &Config, start: &str) -> (r: Option<Vec<String>>)
    ensures
        opt_names(r) == cycle_from(config@.profiles, start@, Seq::empty()),
{
    let mut path: Vec<String> = Vec::new();
    proof {
        assert(views(path@) =~= Seq::<Seq<char>>::empty());
    }
    detect_cycle_recursive(config, start, &mut path)
}

/// The error for a default profile that does not exist.
pub open spec fn default_errors(c: ConfigView) -> Seq<IssueView> {
    match c.default_profile {
        Some(d) => if has_profile(c.profiles, d) {
            Seq::empty()
        } else {
            seq![
                IssueView {
                    profile_name: None,
                    message: "default_profile '"@ + d + "' is not defined. Available profiles: "@
                        + join_spec(names_of(c.profiles), ", "@),
                },
            ]
        },
        None => Seq::empty(),
    }
}

/// One error for each of `parents` that does not exist, in order.
pub open spec fn unknown_parent_errors(
    entries: Seq<ProfileEntryView>,
    name: Seq<char>,
    parents: Seq<Seq<char>>,
) -> Seq<IssueView>
    decreases parents.len(),
{
    if parents.len() == 0 {
        Seq::empty()
    } else {
        let before = unknown_parent_errors(entries, name, parents.drop_last());
        if has_profile(entries, parents.last()) {
            before
        } else {
            before.push(
                IssueView {
                    profile_name: Some(name),
                    message: "extends unknown profile '"@ + parents.last()
                        + "'. Available profiles: "@ + join_spec(names_of(entries), ", "@),
                },
            )
        }
    }
}

/// The error for a profile that names itself among those it extends.
pub open spec fn self_reference_errors(e: ProfileEntryView) -> Seq<IssueView> {
    if e.profile.extends.contains(e.name) {
        seq![
            IssueView { profile_name: Some(e.name), message: "extends itself (self-reference)"@ },
        ]
    } else {
        Seq::empty()
    }
}

/// The error for a profile from which inheritance runs in a circle. A
/// profile that names itself is reported as such and not here.
pub open spec fn cycle_errors(entries: Seq<ProfileEntryView>, e: ProfileEntryView) -> Seq<
    IssueView,
> {
    if e.profile.extends.contains(e.name) {
        Seq::empty()
    } else {
        match cycle_from(entries, e.name, Seq::empty()) {
            Some(cycle) => seq![
                IssueView {
                    profile_name: Some(e.name),
                    message: "circular dependency detected: "@ + join_spec(cycle, " -> "@),
                },
            ],
            None => Seq::empty(),
        }
    }
}

/// The errors of one profile: a reference to itself, then each parent
/// that does not exist, then a circle of inheritance.
pub open spec fn profile_errors(entries: Seq<ProfileEntryView>, e: ProfileEntryView) -> Seq<
    IssueView,
> {
    self_reference_errors(e) + unknown_parent_errors(entries, e.name, e.profile.extends)
        + cycle_errors(entries, e)
}

/// The warning for a profile without mounts, variables and parents.
pub open spec fn profile_warnings(e: ProfileEntryView) -> Seq<IssueView> {
    if e.profile.extends.len() == 0 && e.profile.env.len() == 0 && no_mounts(e.profile.mounts) {
        seq![
            IssueView {
                profile_name: Some(e.name),
                message: "profile is empty (no mounts, env, or extends)"@,
            },
        ]
    } else {
        Seq::empty()
    }
}

/// The errors of the profiles `some`, in order, judged against `entries`.
pub open spec fn errors_of(entries: Seq<ProfileEntryView>, some: Seq<ProfileEntryView>) -> Seq<
    IssueView,
>
    decreases some.len(),
{
    if some.len() == 0 {
        Seq::empty()
    } else {
        errors_of(entries, some.drop_last()) + profile_errors(entries, some.last())
    }
}

/// The warnings of the profiles `some`, in order.
pub open spec fn warnings_of(some: Seq<ProfileEntryView>) -> Seq<IssueView>
    decreases some.len(),
{
    if some.len() == 0 {
        Seq::empty()
    } else {
        warnings_of(some.drop_last()) + profile_warnings(some.last())
    }
}

/// All findings on a configuration: the default profile first, then the
/// profiles in their order.
pub open spec fn validation_spec(c: ConfigView) -> ValidationResultView {
    ValidationResultView {
        errors: default_errors(c) + errors_of(c.profiles, c.profiles),
        warnings: warnings_of(c.profiles),
    }
}

/// Appends the errors of the profile `entry` to `errors`.
fn push_profile_errors(config: &Config, entry: &ProfileEntry, errors: &mut Vec<ProfileValidationError>)
    ensures
        views(final(errors)@) == views(old(errors)@) + profile_errors(config@.profiles, entry@),
{
    let ghost entries = config@.profiles;
    let ghost start = views(errors@);
    let self_ref = contains_str(&entry.profile.extends, entry.name.as_str());
    if self_ref {
        let issue = ProfileValidationError {
            profile_name: Some(entry.name.clone()),
            message: "extends itself (self-reference)".to_owned(),
        };
        errors.push(issue);
        proof {
            assert(views(errors@) =~= start + self_reference_errors(entry@));
        }
    } else {
        proof {
            assert(views(errors@) =~= start + self_reference_errors(entry@));
        }
    }
    let ghost parents = entry@.profile.extends;
    let mut i: usize = 0;
    proof {
        assert(parents.take(0) =~= Seq::<Seq<char>>::empty());
        assert(views(errors@) =~= start + self_reference_errors(entry@) + unknown_parent_errors(
            entries,
            entry@.name,
            parents.take(0),
        ));
    }
    while i < entry.profile.extends.len()
        invariant
            i <= entry.profile.extends.len(),
            entries == config@.profiles,
            parents == entry@.profile.extends,
            views(errors@) == start + self_reference_errors(entry@) + unknown_parent_errors(
                entries,
                entry@.name,
                parents.take(i as int),
            ),
        decreases entry.profile.extends.len() - i,
    {
        proof {
            assert(parents.take(i + 1).drop_last() =~= parents.take(i as int));
            assert(parents.take(i + 1).last() == entry.profile.extends@[i as int]@);
        }
        let parent = &entry.profile.extends[i];
        if !config.profiles.contains_key(parent.as_str()) {
            let names = config.profiles.names();
            let list = join(&names, ", ");
            let head = concat3("extends unknown profile '", parent.as_str(), "'. Available profiles: ");
            let issue = ProfileValidationError {
                profile_name: Some(entry.name.clone()),
                message: concat(head.as_str(), list.as_str()),
            };
            let ghost before = errors@;
            errors.push(issue);
            proof {
                assert(views(errors@) =~= views(before).push(issue@));
                assert(views(errors@) =~= start + self_reference_errors(entry@)
                    + unknown_parent_errors(entries, entry@.name, parents.take(i + 1)));
            }
        }
        i += 1;
    }
    proof {
        assert(parents.take(entry.profile.extends.len() as int) =~= parents);
    }
    let ghost mid = views(errors@);
    if !self_ref {
        match detect_cycle(config, entry.name.as_str()) {
            Some(cycle) => {
                let list = join(&cycle, " -> ");
                let issue = ProfileValidationError {
                    profile_name: Some(entry.name.clone()),
                    message: concat("circular dependency detected: ", list.as_str()),
                };
                errors.push(issue);
                proof {
                    assert(views(errors@) =~= mid + cycle_errors(entries, entry@));
                }
            },
            None => {
                proof {
                    assert(views(errors@) =~= mid + cycle_errors(entries, entry@));
                }
            },
        }
    } else {
        proof {
            assert(views(errors@) =~= mid + cycle_errors(entries, entry@));
        }
    }
    proof {
        assert(views(errors@) =~= start + profile_errors(entries, entry@));
    }
}

/// Validates the profiles of `config` without resolving any.
///
/// Errors: a default profile that does not exist; and for each profile,
/// in the order of the profiles: that it extends itself, each profile it
/// extends that does not exist, and a circle of inheritance that begins
/// at it. Warnings: each profile without mounts, variables and parents.
/// None of the errors hides another.
pub fn validate_config(config: &Config) -> (r: ValidationResult)
    ensures
        r@ == validation_spec(config@),
{
    let mut errors: Vec<ProfileValidationError> = Vec::new();
    let mut warnings: Vec<ProfileValidationError> = Vec::new();
    let ghost entries = config@.profiles;
    if let Some(default) = &config.default_profile {
        if !config.profiles.contains_key(default.as_str()) {
            let names = config.profiles.names();
            let list = join(&names, ", ");
            let head = concat3(
                "default_profile '",
                default.as_str(),
                "' is not defined. Available profiles: ",
            );
            let issue = ProfileValidationError {
                profile_name: None,
                message: concat(head.as_str(), list.as_str()),
            };
            errors.push(issue);
        }
    }
    proof {
        assert(views(errors@) =~= default_errors(config@));
        assert(entries.take(0) =~= Seq::<ProfileEntryView>::empty());
        assert(views(errors@) =~= default_errors(config@) + errors_of(entries, entries.take(0)));
        assert(views(warnings@) =~= warnings_of(entries.take(0)));
    }
    let mut i: usize = 0;
    while i < config.profiles.entries.len()
        invariant
            i <= config.profiles.entries.len(),
            entries == config@.profiles,
            entries.len() == config.profiles.entries.len(),
            views(errors@) == default_errors(config@) + errors_of(entries, entries.take(i as int)),
            views(warnings@) == warnings_of(entries.take(i as int)),
        decreases config.profiles.entries.len() - i,
    {
        let entry = &config.profiles.entries[i];
        proof {
            assert(entries.take(i + 1).drop_last() =~= entries.take(i as int));
            assert(entries.take(i + 1).last() == entry@);
        }
        let ghost before = views(errors@);
        push_profile_errors(config, entry, &mut errors);
        proof {
            assert(views(errors@) =~= default_errors(config@) + errors_of(
                entries,
                entries.take(i + 1),
            ));
        }
        if entry.profile.extends.len() == 0 && entry.profile.env.len() == 0
            && entry.profile.mounts.is_empty() {
            let issue = ProfileValidationError {
                profile_name: Some(entry.name.clone()),
                message: "profile is empty (no mounts, env, or extends)".to_owned(),
            };
            let ghost old_warnings = warnings@;
            warnings.push(issue);
            proof {
                assert(views(warnings@) =~= views(old_warnings).push(issue@));
                assert(views(warnings@) =~= warnings_of(entries.take(i + 1)));
            }
        } else {
            proof {
                assert(views(warnings@) =~= warnings_of(entries.take(i + 1)));
            }
        }
        i += 1;
    }
    proof {
        assert(entries.take(entries.len() as int) =~= entries);
    }
    ValidationResult { errors, warnings }
}

/// What a `ValidationFailure` holds, as plain sequences.
pub struct ValidationFailureView {
    pub errors: Seq<IssueView>,
}

/// The errors that validation found, where it found any.
#[derive(Debug, Clone, PartialEq, Eq)]
pub struct ValidationFailure {
    pub errors: Vec<ProfileValidationError>,
}

impl View for ValidationFailure {
    type V = ValidationFailureView;

    open spec fn view(&self) -> ValidationFailureView {
        ValidationFailureView { errors: views(self.errors@) }
    }
}

/// The lines that report `issues`, in order.
pub open spec fn issue_texts(issues: Seq<IssueView>) -> Seq<Seq<char>> {
    Seq::new(issues.len(), |i: int| issue_text(issues[i]))
}

/// The report of a failed validation: a heading, and one line for each error.
pub open spec fn failure_text(f: ValidationFailureView) -> Seq<char> {
    "Configuration validation failed:\n  - "@ + join_spec(issue_texts(f.errors), "\n  - "@)
}

impl ValidationFailure {
    /// The report of this failure, with every error on a line of its own.
    pub fn message(&self) -> (r: String)
        ensures
            r@ == failure_text(self@),
    {
        let mut lines: Vec<String> = Vec::new();
        let mut i: usize = 0;
        while i < self.errors.len()
            invariant
                i <= self.errors.len(),
                lines@.len() == i,
                forall|j: int| 0 <= j < i ==> lines@[j]@ == issue_text(self.errors@[j]@),
            decreases self.errors.len() - i,
        {
            lines.push(self.errors[i].to_text());
            i += 1;
        }
        proof {
            assert(views(lines@) =~= issue_texts(self@.errors));
        }
        let body = join(&lines, "\n  - ");
        concat("Configuration validation failed:\n  - ", body.as_str())
    }
}

/// Validates `config` and fails with all errors found, if any was found.
/// Warnings stand in the way of nothing.
pub fn validate_config_or_err(config: &Config) -> (r: Result<(), ValidationFailure>)
    ensures
        match r {
            Ok(_) => validation_spec(config@).errors.len() == 0,
            Err(f) => f@.errors == validation_spec(config@).errors && f@.errors.len() > 0,
        },
{
    let result = validate_config(config);
    if !result.is_ok() {
        return Err(ValidationFailure { errors: result.errors });
    }
    Ok(())
}

} // verus!
