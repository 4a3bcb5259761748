//! Reading the listing of an image's files: the output of `tar -tv`, one
//! entry on each line, the kind of the entry first and its path last.

use vstd::prelude::*;
use crate::text::{chars_of, concat, has_prefix, is_space, last_pos, lemma_last_pos_is, str_eq};
use crate::text::{starts_with_char, string_of, views};

verus! {

/// The lines of `text`: what stands between its line feeds.
pub open spec fn lines_of(text: Seq<char>) -> Seq<Seq<char>>
    decreases text.len(),
{
    let cut = last_pos(text, '\n');
    if cut < 0 || cut >= text.len() {
        seq![text]
    } else {
        lines_of(text.take(cut)).push(text.skip(cut + 1))
    }
}

/// The lines that end before index `start` of `text`, where a line
/// begins at `start`.
pub open spec fn lines_before(text: Seq<char>, start: int) -> Seq<Seq<char>> {
    if start <= 0 {
        Seq::empty()
    } else {
        lines_of(text.take(start - 1))
    }
}

/// The lines of the text up to `end` are the lines before `start` and the
/// line from `start` to `end`, where that line holds no line feed.
pub proof fn lemma_line_ends(text: Seq<char>, start: int, end: int)
    requires
        0 <= start <= end <= text.len(),
        start > 0 ==> text[start - 1] == '\n',
        forall|j: int| start <= j < end ==> text[j] != '\n',
    ensures
        lines_of(text.take(end)) == lines_before(text, start).push(text.subrange(start, end)),
{
    let t = text.take(end);
    assert forall|j: int| start - 1 < j < t.len() implies t[j] != '\n' by {
        assert(t[j] == text[j]);
    }
    if start > 0 {
        assert(t[start - 1] == '\n');
    }
    lemma_last_pos_is(t, '\n', start - 1);
    if start > 0 {
        assert(t.take(start - 1) =~= text.take(start - 1));
        assert(t.skip(start) =~= text.subrange(start, end));
    } else {
        assert(t =~= text.subrange(start, end));
        assert(Seq::<Seq<char>>::empty().push(t) =~= seq![t]);
    }
}

/// Number of characters at the end of `s` that are no white space.
pub open spec fn trailing_letters(s: Seq<char>) -> int
    decreases s.len(),
{
    if s.len() == 0 || is_space(s.last()) {
        0
    } else {
        1 + trailing_letters(s.drop_last())
    }
}

/// A count of characters at the end of `s` that are no white space, with
/// white space before them, is `trailing_letters`.
pub proof fn lemma_trailing_letters_is(s: Seq<char>, k: int)
    requires
        0 <= k <= s.len(),
        forall|j: int| s.len() - k <= j < s.len() ==> !is_space(#[trigger] s[j]),
        k < s.len() ==> is_space(s[s.len() - k - 1]),
    ensures
        trailing_letters(s) == k,
    decreases s.len(),
{
    if s.len() == 0 || k == 0 {
    } else {
        let t = s.drop_last();
        assert(!is_space(s[s.len() - 1]));
        assert forall|j: int| t.len() - (k - 1) <= j < t.len() implies !is_space(#[trigger] t[j]) by {
            assert(t[j] == s[j]);
        }
        lemma_trailing_letters_is(t, k - 1);
    }
}

/// The last word of `line`: its last run of characters that are no white
/// space. `None` where `line` holds nothing else.
pub open spec fn last_word(line: Seq<char>) -> Option<Seq<char>> {
    let end = line.len() - crate::session::trailing_spaces(line);
    if end <= 0 {
        None
    } else {
        Some(line.subrange(end - trailing_letters(line.take(end)), end))
    }
}

/// The path that a line of the listing gives, where the line is about a
/// directory: its last word, where its first character is `d`.
pub open spec fn entry_of(line: Seq<char>) -> Option<Seq<char>> {
    if line.len() > 0 && line[0] == 'd' {
        last_word(line)
    } else {
        None
    }
}

/// The paths that the lines `lines` give for directories, in order.
pub open spec fn entries_of(lines: Seq<Seq<char>>) -> Seq<Seq<char>>
    decreases lines.len(),
{
    if lines.len() == 0 {
        Seq::empty()
    } else {
        match entry_of(lines.last()) {
            Some(word) => entries_of(lines.drop_last()).push(word),
            None => entries_of(lines.drop_last()),
        }
    }
}

/// The path that the line `chars[start..end]` gives for a directory.
fn line_entry(chars: &[char], start: usize, end: usize) -> (r: Option<String>)
    requires
        start <= end <= chars@.len(),
    ensures
        crate::text::opt_view(r) == entry_of(chars@.subrange(start as int, end as int)),
{
    let ghost line = chars@.subrange(start as int, end as int);
    if start == end || chars[start] != 'd' {
        proof {
            if start < end {
                assert(line[0] == chars@[start as int]);
            }
        }
        return None;
    }
    proof {
        assert(line[0] == chars@[start as int]);
    }
    let mut e: usize = end;
    while e > start && chars[e - 1].is_whitespace()
        invariant
            start <= e <= end,
            end <= chars@.len(),
            forall|j: int| e <= j < end ==> is_space(#[trigger] chars@[j]),
        decreases e,
    {
        e -= 1;
    }
    proof {
        assert forall|j: int| line.len() - (end - e) <= j < line.len() implies is_space(
            #[trigger] line[j],
        ) by {
            assert(line[j] == chars@[j + start]);
        }
        if end - e < line.len() {
            assert(line[line.len() - (end - e) - 1] == chars@[e - 1]);
        }
        crate::session::lemma_trailing_is(line, end - e);
    }
    if e == start {
        return None;
    }
    let mut s: usize = e;
    while s > start && !chars[s - 1].is_whitespace()
        invariant
            start <= s <= e,
            e <= chars@.len(),
            forall|j: int| s <= j < e ==> !is_space(#[trigger] chars@[j]),
        decreases s,
    {
        s -= 1;
    }
    proof {
        let head = line.take(e - start);
        assert forall|j: int| head.len() - (e - s) <= j < head.len() implies !is_space(
            #[trigger] head[j],
        ) by {
            assert(head[j] == chars@[j + start]);
        }
        if e - s < head.len() {
            assert(head[head.len() - (e - s) - 1] == chars@[s - 1]);
        }
        lemma_trailing_letters_is(head, e - s);
        assert(line.subrange(s - start, e - start) =~= chars@.subrange(s as int, e as int));
    }
    Some(string_of(chars, s, e))
}

/// The paths of the directories that `listing` lists, as they are written
/// there, in order.
pub fn directory_entries(listing: &str) -> (r: Vec<String>)
    ensures
        views(r@) == entries_of(lines_of(listing@)),
{
    let chars = chars_of(listing);
    let n: usize = chars.len();
    let mut out: Vec<String> = Vec::new();
    let mut start: usize = 0;
    let mut i: usize = 0;
    proof {
        assert(views(out@) =~= entries_of(lines_before(chars@, 0)));
    }
    while i < n
        invariant
            start <= i <= n,
            n == chars@.len(),
            chars@ == listing@,
            start > 0 ==> chars@[start - 1] == '\n',
            forall|j: int| start <= j < i ==> chars@[j] != '\n',
            views(out@) == entries_of(lines_before(chars@, start as int)),
        decreases n - i,
    {
        if chars[i] == '\n' {
            let entry = line_entry(chars.as_slice(), start, i);
            proof {
                lemma_line_ends(chars@, start as int, i as int);
                assert(lines_before(chars@, i + 1) == lines_of(chars@.take(i as int)));
                let lines = lines_of(chars@.take(i as int));
                assert(lines.drop_last() =~= lines_before(chars@, start as int));
            }
            match entry {
                Some(word) => {
                    let ghost before = out@;
                    out.push(word);
                    proof {
                        assert(views(out@) =~= views(before).push(word@));
                    }
                },
                None => {},
            }
            start = i + 1;
        }
        i += 1;
    }
    let entry = line_entry(chars.as_slice(), start, n);
    proof {
        lemma_line_ends(chars@, start as int, n as int);
        assert(chars@.take(n as int) =~= chars@);
        let lines = lines_of(chars@);
        assert(lines.drop_last() =~= lines_before(chars@, start as int));
    }
    match entry {
        Some(word) => {
            let ghost before = out@;
            out.push(word);
            proof {
                assert(views(out@) =~= views(before).push(word@));
            }
        },
        None => {},
    }
    out
}

/// Number of times `c` stands at the end of `s`.
pub open spec fn trailing_run(s: Seq<char>, c: char) -> int
    decreases s.len(),
{
    if s.len() == 0 || s.last() != c {
        0
    } else {
        1 + trailing_run(s.drop_last(), c)
    }
}

/// Number of times `c` stands at the beginning of `s`.
pub open spec fn leading_run(s: Seq<char>, c: char) -> int
    decreases s.len(),
{
    if s.len() == 0 || s[0] != c {
        0
    } else {
        1 + leading_run(s.drop_first(), c)
    }
}

/// `s` without any `c` at its end.
pub open spec fn strip_trailing(s: Seq<char>, c: char) -> Seq<char> {
    s.take(s.len() - trailing_run(s, c))
}

/// `s` without any `c` at its beginning.
pub open spec fn strip_leading(s: Seq<char>, c: char) -> Seq<char> {
    s.skip(leading_run(s, c))
}

/// A count of `c` at the end of `s`, with another character before them,
/// is `trailing_run`.
pub proof fn lemma_trailing_run_is(s: Seq<char>, c: char, k: int)
    requires
        0 <= k <= s.len(),
        forall|j: int| s.len() - k <= j < s.len() ==> s[j] == c,
        k < s.len() ==> s[s.len() - k - 1] != c,
    ensures
        trailing_run(s, c) == k,
    decreases s.len(),
{
    if s.len() == 0 || k == 0 {
    } else {
        let t = s.drop_last();
        assert(s[s.len() - 1] == c);
        assert forall|j: int| t.len() - (k - 1) <= j < t.len() implies t[j] == c by {
            assert(t[j] == s[j]);
        }
        lemma_trailing_run_is(t, c, k - 1);
    }
}

/// A count of `c` at the beginning of `s`, with another character behind
/// them, is `leading_run`.
pub proof fn lemma_leading_run_is(s: Seq<char>, c: char, k: int)
    requires
        0 <= k <= s.len(),
        forall|j: int| 0 <= j < k ==> s[j] == c,
        k < s.len() ==> s[k] != c,
    ensures
        leading_run(s, c) == k,
    decreases s.len(),
{
    if s.len() == 0 || k == 0 {
    } else {
        let t = s.drop_first();
        assert(s[0] == c);
        assert forall|j: int| 0 <= j < k - 1 implies t[j] == c by {
            assert(t[j] == s[j + 1]);
        }
        lemma_leading_run_is(t, c, k - 1);
    }
}

/// `s` without the slashes at its end and, if `both` is set, without
/// those at its beginning.
pub open spec fn without_slashes(s: Seq<char>, both: bool) -> Seq<char> {
    if both {
        strip_leading(strip_trailing(s, '/'), '/')
    } else {
        strip_trailing(s, '/')
    }
}

/// Takes the slashes at the end of `s` away and, if `both` is set, those
/// at its beginning.
pub fn trim_slashes(s: &str, both: bool) -> (r: String)
    ensures
        r@ == without_slashes(s@, both),
{
    let chars = chars_of(s);
    let n: usize = chars.len();
    let mut e: usize = n;
    while e > 0 && chars[e - 1] == '/'
        invariant
            e <= n,
            n == chars@.len(),
            forall|j: int| e <= j < n ==> chars@[j] == '/',
        decreases e,
    {
        e -= 1;
    }
    proof {
        lemma_trailing_run_is(chars@, '/', n - e);
    }
    let ghost head = chars@.take(e as int);
    let mut a: usize = 0;
    if both {
        while a < e && chars[a] == '/'
            invariant
                a <= e <= n,
                n == chars@.len(),
                head == chars@.take(e as int),
                forall|j: int| 0 <= j < a ==> head[j] == '/',
            decreases e - a,
        {
            a += 1;
        }
        proof {
            lemma_leading_run_is(head, '/', a as int);
            assert(head.skip(a as int) =~= chars@.subrange(a as int, e as int));
        }
    } else {
        proof {
            assert(head =~= chars@.subrange(0, e as int));
        }
    }
    string_of(chars.as_slice(), a, e)
}

/// Whether the listing entry `word` is the directory `path`: the two are
/// the same once the slashes around them are taken away.
pub open spec fn names_directory(word: Seq<char>, path: Seq<char>) -> bool {
    without_slashes(word, true) == without_slashes(path, true)
}

/// Whether one of the entries `entries` is the directory `path`.
pub open spec fn has_directory(entries: Seq<Seq<char>>, path: Seq<char>) -> bool {
    exists|i: int| 0 <= i < entries.len() && names_directory(#[trigger] entries[i], path)
}

/// Whether one of the directories `entries`, given as a listing writes
/// them, is `path`.
pub fn path_among(entries: &Vec<String>, path: &str) -> (r: bool)
    ensures
        r == has_directory(views(entries@), path@),
{
    let wanted = trim_slashes(path, true);
    let mut i: usize = 0;
    while i < entries.len()
        invariant
            i <= entries.len(),
            wanted@ == without_slashes(path@, true),
            forall|j: int| 0 <= j < i ==> !names_directory(#[trigger] views(entries@)[j], path@),
        decreases entries.len() - i,
    {
        let have = trim_slashes(entries[i].as_str(), true);
        if str_eq(have.as_str(), wanted.as_str()) {
            proof {
                assert(names_directory(views(entries@)[i as int], path@));
            }
            return true;
        }
        i += 1;
    }
    false
}

/// Whether `listing` lists the directory `path`.
pub fn path_exists_in_listing(listing: &str, path: &str) -> (r: bool)
    ensures
        r == has_directory(entries_of(lines_of(listing@)), path@),
{
    let entries = directory_entries(listing);
    path_among(&entries, path)
}

/// The absolute path of the listing entry `word`: without slashes at its
/// end, with one at its beginning, and the root for the entry `.` and for
/// an entry that is nothing but slashes.
pub open spec fn listed_path(word: Seq<char>) -> Seq<char> {
    let bare = strip_trailing(word, '/');
    if bare.len() == 0 || bare == "."@ {
        "/"@
    } else if bare[0] == '/' {
        bare
    } else {
        "/"@ + bare
    }
}

/// Whether `path` is the directory `root` or lies in it. Without a root,
/// and with the root of the filesystem, every path does.
pub open spec fn within_root(path: Seq<char>, root: Option<Seq<char>>) -> bool {
    match root {
        None => true,
        Some(r) => {
            let bare = strip_trailing(r, '/');
            bare.len() == 0 || path == bare || (bare + "/"@).is_prefix_of(path)
        },
    }
}

/// The absolute paths of the entries `entries` that lie within `root`, in
/// order.
pub open spec fn paths_within(entries: Seq<Seq<char>>, root: Option<Seq<char>>) -> Seq<Seq<char>>
    decreases entries.len(),
{
    if entries.len() == 0 {
        Seq::empty()
    } else {
        let before = paths_within(entries.drop_last(), root);
        if within_root(listed_path(entries.last()), root) {
            before.push(listed_path(entries.last()))
        } else {
            before
        }
    }
}

/// The absolute path of the listing entry `word`.
pub fn absolute_entry(word: &str) -> (r: String)
    ensures
        r@ == listed_path(word@),
{
    let bare = trim_slashes(word, false);
    if crate::text::char_len(bare.as_str()) == 0 || str_eq(bare.as_str(), ".") {
        "/".to_owned()
    } else if starts_with_char(bare.as_str(), '/') {
        bare
    } else {
        concat("/", bare.as_str())
    }
}

/// The absolute paths of the directories `entries`, given as a listing
/// writes them, that lie within `root_path`.
pub fn paths_among(entries: &Vec<String>, root_path: Option<&str>) -> (r: Vec<String>)
    ensures
        views(r@) == paths_within(views(entries@), crate::text::opt_view(root_path)),
{
    let ghost all = views(entries@);
    let ghost root = crate::text::opt_view(root_path);
    let prefix: Option<(String, String)> = match root_path {
        Some(r) => {
            let bare = trim_slashes(r, false);
            let below = concat(bare.as_str(), "/");
            Some((bare, below))
        },
        None => None,
    };
    let mut out: Vec<String> = Vec::new();
    let mut i: usize = 0;
    proof {
        assert(all.take(0) =~= Seq::<Seq<char>>::empty());
        assert(views(out@) =~= Seq::<Seq<char>>::empty());
    }
    while i < entries.len()
        invariant
            i <= entries.len(),
            all == views(entries@),
            root == crate::text::opt_view(root_path),
            match prefix {
                Some((bare, below)) => root is Some && bare@ == strip_trailing(root->Some_0, '/')
                    && below@ == bare@ + "/"@,
                None => root is None,
            },
            views(out@) == paths_within(all.take(i as int), root),
        decreases entries.len() - i,
    {
        proof {
            assert(all.take(i + 1).drop_last() =~= all.take(i as int));
            assert(all.take(i + 1).last() == entries@[i as int]@);
        }
        let path = absolute_entry(entries[i].as_str());
        let inside = match &prefix {
            None => true,
            Some((bare, below)) => crate::text::char_len(bare.as_str()) == 0 || str_eq(
                path.as_str(),
                bare.as_str(),
            ) || has_prefix(path.as_str(), below.as_str()),
        };
        if inside {
            let ghost before = out@;
            out.push(path);
            proof {
                assert(views(out@) =~= views(before).push(path@));
            }
        }
        i += 1;
    }
    proof {
        assert(all.take(entries.len() as int) =~= all);
    }
    out
}

/// The absolute paths of the directories that `listing` lists, those
/// within `root_path` where one is given.
pub fn list_paths_in_listing(listing: &str, root_path: Option<&str>) -> (r: Vec<String>)
    ensures
        views(r@) == paths_within(
            entries_of(lines_of(listing@)),
            crate::text::opt_view(root_path),
        ),
{
    let entries = directory_entries(listing);
    paths_among(&entries, root_path)
}

} // verus!
