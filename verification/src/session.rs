//! Names of sessions: what a working copy is called.

use vstd::prelude::*;
use crate::text::{chars_of, is_space, string_of};

verus! {

/// Number of white-space characters that `s` begins with.
pub open spec fn leading_spaces(s: Seq<char>) -> int
    decreases s.len(),
{
    if s.len() == 0 || !is_space(s[0]) {
        0
    } else {
        1 + leading_spaces(s.drop_first())
    }
}

/// Number of white-space characters that `s` ends with.
pub open spec fn trailing_spaces(s: Seq<char>) -> int
    decreases s.len(),
{
    if s.len() == 0 || !is_space(s.last()) {
        0
    } else {
        1 + trailing_spaces(s.drop_last())
    }
}

/// `s` without the white space at its beginning and at its end.
pub open spec fn trimmed(s: Seq<char>) -> Seq<char> {
    let rest = s.skip(leading_spaces(s));
    rest.take(rest.len() - trailing_spaces(rest))
}

/// Whether `s` holds a white-space character.
pub open spec fn has_space(s: Seq<char>) -> bool {
    exists|i: int| 0 <= i < s.len() && is_space(#[trigger] s[i])
}

/// A count of white-space characters at the beginning of `s`, with no
/// further one behind them, is `leading_spaces`.
pub proof fn lemma_leading_is(s: Seq<char>, k: int)
    requires
        0 <= k <= s.len(),
        forall|j: int| 0 <= j < k ==> is_space(#[trigger] s[j]),
        k < s.len() ==> !is_space(s[k]),
    ensures
        leading_spaces(s) == k,
    decreases s.len(),
{
    if s.len() == 0 || k == 0 {
    } else {
        let t = s.drop_first();
        assert(is_space(s[0]));
        assert forall|j: int| 0 <= j < k - 1 implies is_space(#[trigger] t[j]) by {
            assert(t[j] == s[j + 1]);
        }
        lemma_leading_is(t, k - 1);
    }
}

/// A count of white-space characters at the end of `s`, with no further
/// one before them, is `trailing_spaces`.
pub proof fn lemma_trailing_is(s: Seq<char>, k: int)
    requires
        0 <= k <= s.len(),
        forall|j: int| s.len() - k <= j < s.len() ==> is_space(#[trigger] s[j]),
        k < s.len() ==> !is_space(s[s.len() - k - 1]),
    ensures
        trailing_spaces(s) == k,
    decreases s.len(),
{
    if s.len() == 0 || k == 0 {
    } else {
        let t = s.drop_last();
        assert(is_space(s[s.len() - 1]));
        assert forall|j: int| t.len() - (k - 1) <= j < t.len() implies is_space(#[trigger] t[j]) by {
            assert(t[j] == s[j]);
        }
        lemma_trailing_is(t, k - 1);
    }
}

/// Why a text cannot name a session.
#[derive(Debug, Clone, PartialEq, Eq)]
pub enum SessionNameError {
    /// The name, given here as it was written, has white space inside.
    Whitespace { name: String },
    /// The name holds nothing but white space.
    Empty,
}

/// What a `SessionNameError` holds, as plain sequences.
pub enum SessionNameErrorView {
    Whitespace { name: Seq<char> },
    Empty,
}

impl View for SessionNameError {
    type V = SessionNameErrorView;

    open spec fn view(&self) -> SessionNameErrorView {
        match self {
            SessionNameError::Whitespace { name } => SessionNameErrorView::Whitespace {
                name: name@,
            },
            SessionNameError::Empty => SessionNameErrorView::Empty,
        }
    }
}

impl SessionNameError {
    /// The sentence that reports this error.
    pub fn message(&self) -> (r: String)
        ensures
            r@ == match self@ {
                SessionNameErrorView::Whitespace {
                    name,
                } => "Session name cannot contain whitespace: '"@ + name + "'"@,
                SessionNameErrorView::Empty => "Session name cannot be empty"@,
            },
    {
        match self {
            SessionNameError::Whitespace { name } => crate::text::concat3(
                "Session name cannot contain whitespace: '",
                name.as_str(),
                "'",
            ),
            SessionNameError::Empty => "Session name cannot be empty".to_owned(),
        }
    }
}

/// The session name that `name` stands for: `name` without the white
/// space around it, which must not be empty nor hold white space.
pub open spec fn session_name_spec(name: Seq<char>) -> Result<Seq<char>, SessionNameErrorView> {
    let inner = trimmed(name);
    if has_space(inner) {
        Err(SessionNameErrorView::Whitespace { name })
    } else if inner.len() == 0 {
        Err(SessionNameErrorView::Empty)
    } else {
        Ok(inner)
    }
}

/// The view of a result that holds a session name or the reason why there
/// is none.
pub open spec fn session_result_view(r: Result<String, SessionNameError>) -> Result<
    Seq<char>,
    SessionNameErrorView,
> {
    match r {
        Ok(name) => Ok(name@),
        Err(e) => Err(e@),
    }
}

/// Takes the white space around `name` away and tests what is left.
///
/// Fails with `Whitespace` if and only if white space is left inside; with
/// `Empty` if and only if nothing is left.
pub fn get_session_name(name: &str) -> (r: Result<String, SessionNameError>)
    ensures
        session_result_view(r) == session_name_spec(name@),
{
    let chars = chars_of(name);
    let n: usize = chars.len();
    let mut a: usize = 0;
    while a < n && chars[a].is_whitespace()
        invariant
            a <= n,
            n == chars@.len(),
            forall|j: int| 0 <= j < a ==> is_space(#[trigger] chars@[j]),
        decreases n - a,
    {
        a += 1;
    }
    let mut b: usize = n;
    while b > a && chars[b - 1].is_whitespace()
        invariant
            a <= b <= n,
            n == chars@.len(),
            forall|j: int| b <= j < n ==> is_space(#[trigger] chars@[j]),
        decreases b,
    {
        b -= 1;
    }
    let ghost rest = chars@.skip(a as int);
    let ghost inner = chars@.subrange(a as int, b as int);
    proof {
        lemma_leading_is(chars@, a as int);
        assert forall|j: int| rest.len() - (n - b) <= j < rest.len() implies is_space(
            #[trigger] rest[j],
        ) by {
            assert(rest[j] == chars@[j + a]);
        }
        if n - b < rest.len() {
            assert(rest[rest.len() - (n - b) - 1] == chars@[b - 1]);
        }
        lemma_trailing_is(rest, n - b);
        assert(trimmed(name@) =~= inner);
    }
    let mut i: usize = a;
    while i < b
        invariant
            a <= i <= b,
            b <= n,
            n == chars@.len(),
            inner == chars@.subrange(a as int, b as int),
            trimmed(name@) == inner,
            forall|j: int| 0 <= j < i - a ==> !is_space(#[trigger] inner[j]),
        decreases b - i,
    {
        if chars[i].is_whitespace() {
            proof {
                assert(is_space(inner[i - a]));
            }
            return Err(SessionNameError::Whitespace { name: name.to_owned() });
        }
        i += 1;
    }
    if a == b {
        return Err(SessionNameError::Empty);
    }
    Ok(string_of(chars.as_slice(), a, b))
}

/// A text without white space that is not empty is the session name it
/// stands for.
pub proof fn lemma_name_without_space(name: Seq<char>)
    requires
        name.len() > 0,
        !has_space(name),
    ensures
        session_name_spec(name) == Ok::<Seq<char>, SessionNameErrorView>(name),
{
    assert(!is_space(name[0]));
    assert(!is_space(name[name.len() - 1]));
    assert(name.skip(0) =~= name);
    assert(name.take(name.len() as int) =~= name);
}

/// A letter with blanks around it is the session name of that letter, and
/// two letters with a blank between them are no session name.
pub proof fn lemma_blanks_in_names(letter: char)
    requires
        'a' <= letter <= 'z',
    ensures
        session_name_spec(seq![' ', letter, '\n']) == Ok::<Seq<char>, SessionNameErrorView>(
            seq![letter],
        ),
        session_name_spec(seq![letter, ' ', letter]) == Err::<Seq<char>, SessionNameErrorView>(
            SessionNameErrorView::Whitespace { name: seq![letter, ' ', letter] },
        ),
        session_name_spec(seq![' ', '\t']) == Err::<Seq<char>, SessionNameErrorView>(
            SessionNameErrorView::Empty,
        ),
{
    assert(is_space(' ') && is_space('\n') && is_space('\t') && !is_space(letter));
    let padded = seq![' ', letter, '\n'];
    lemma_leading_is(padded, 1);
    let rest = padded.skip(1);
    lemma_trailing_is(rest, 1);
    assert(trimmed(padded) =~= seq![letter]);
    assert(!has_space(seq![letter])) by {
        assert forall|i: int| 0 <= i < seq![letter].len() implies !is_space(
            #[trigger] seq![letter][i],
        ) by {
        }
    }
    let two = seq![letter, ' ', letter];
    lemma_leading_is(two, 0);
    assert(two.skip(0) =~= two);
    lemma_trailing_is(two, 0);
    assert(trimmed(two) =~= two);
    assert(is_space(two[1]));
    let blank = seq![' ', '\t'];
    lemma_leading_is(blank, 2);
    assert(blank.skip(2) =~= Seq::<char>::empty());
    assert(trimmed(blank) =~= Seq::<char>::empty());
    assert(!has_space(Seq::<char>::empty()));
}

} // verus!
