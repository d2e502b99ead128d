//! Finding the Bitwarden access token: from the first `.bws` file met while
//! walking up from the working directory, or else from the environment.

use vstd::prelude::*;
use vstd::string::*;
use crate::text::{
    char_pred, chars_of, find_char, find_char_in, is_white_space, lemma_find_char_unique, opt_view,
    range_equals, string_of_range, trim_by, trim_char, trim_char_range, trim_end_by,
    trim_start_by, trim_ws, trim_ws_range, ws_pred,
};

verus! {

/// The key that a `.bws` file assigns the token to.
pub open spec fn token_key() -> Seq<char> {
    "BWS_ACCESS_TOKEN"@
}

/// The token that one line of a `.bws` file assigns, if it assigns one:
/// the line is trimmed; blank lines and `#` comments assign nothing; the key is
/// what precedes the first `=`, trimmed; the value is what follows it, trimmed,
/// then stripped of surrounding `"` and then of surrounding `'`; an empty value
/// assigns nothing.
pub open spec fn line_token(line: Seq<char>) -> Option<Seq<char>> {
    let t = trim_ws(line);
    let e = find_char(t, '=');
    if t.len() == 0 || t[0] == '#' || e >= t.len() {
        None
    } else {
        let key = trim_ws(t.take(e as int));
        let value = trim_char(trim_char(trim_ws(t.skip(e + 1 as int)), '"'), '\'');
        if key == token_key() && value.len() > 0 {
            Some(value)
        } else {
            None
        }
    }
}

/// The token of the first line of `s` (lines end at `\n`) that assigns one.
pub open spec fn token_in_text(s: Seq<char>) -> Option<Seq<char>>
    decreases s.len(),
{
    let k = find_char(s, '\n');
    if k < s.len() {
        match line_token(s.take(k as int)) {
            Some(v) => Some(v),
            None => token_in_text(s.skip(k + 1 as int)),
        }
    } else {
        line_token(s)
    }
}

/// Stripping by `p` leaves a text alone whose first and last characters it
/// does not strip.
proof fn lemma_trim_by_keeps(s: Seq<char>, p: spec_fn(char) -> bool)
    requires
        s.len() > 0,
        !p(s[0]),
        !p(s.last()),
    ensures
        trim_by(s, p) == s,
{
    assert(trim_start_by(s, p) == s);
    assert(trim_end_by(s, p) == s);
}

/// A value with no blank and no quote in it.
pub open spec fn plain_value(v: Seq<char>) -> bool {
    v.len() > 0 && forall|i: int|
        0 <= i < v.len() ==> !is_white_space(#[trigger] v[i]) && v[i] != '"' && v[i] != '\''
}

/// A line `BWS_ACCESS_TOKEN=v` assigns the whole of `v`, everything after the
/// first `=` (a `:` or another `=` in it included); so does it as the first
/// line of a file, whatever follows.
pub proof fn lemma_assignment_gives_whole_value(v: Seq<char>, rest: Seq<char>)
    requires
        plain_value(v),
    ensures
        line_token("BWS_ACCESS_TOKEN="@ + v) == Some(v),
        token_in_text("BWS_ACCESS_TOKEN="@ + v + seq!['\n'] + rest) == Some(v),
{
    reveal_strlit("BWS_ACCESS_TOKEN=");
    reveal_strlit("BWS_ACCESS_TOKEN");
    let k = "BWS_ACCESS_TOKEN="@;
    let line = k + v;
    assert(k.len() == 17);
    assert(!is_white_space(v[0]) && !is_white_space(v[v.len() - 1]));
    assert(line[0] == 'B');
    assert(line.last() == v.last());
    lemma_trim_by_keeps(line, ws_pred());
    assert forall|j: int| 0 <= j < 16 implies line[j] != '=' by {
        assert(line[j] == k[j]);
    }
    lemma_find_char_unique(line, '=', 16);
    assert(line.take(16) =~= token_key());
    lemma_trim_by_keeps(line.take(16), ws_pred());
    assert(line.skip(17) =~= v);
    lemma_trim_by_keeps(v, ws_pred());
    lemma_trim_by_keeps(v, char_pred('"'));
    lemma_trim_by_keeps(v, char_pred('\''));
    let text = line + seq!['\n'] + rest;
    assert forall|j: int| 0 <= j < line.len() implies text[j] != '\n' by {
        assert(text[j] == line[j]);
        if j >= 17 {
            assert(line[j] == v[j - 17]);
        }
    }
    lemma_find_char_unique(text, '\n', line.len() as int);
    assert(text.take(line.len() as int) =~= line);
}

/// Stripping by `c` takes one `c` off each end of a text that has no other
/// `c` at its ends.
proof fn lemma_trim_quotes(v: Seq<char>, c: char)
    requires
        v.len() > 0,
        v[0] != c,
        v.last() != c,
    ensures
        trim_by(seq![c] + v + seq![c], char_pred(c)) == v,
{
    let s = seq![c] + v + seq![c];
    let p = char_pred(c);
    assert(s.drop_first() =~= v + seq![c]);
    assert((v + seq![c])[0] == v[0]);
    assert(trim_start_by(v + seq![c], p) == v + seq![c]);
    assert(trim_start_by(s, p) == v + seq![c]);
    assert((v + seq![c]).drop_last() =~= v);
    assert(trim_end_by(v, p) == v);
    assert(trim_end_by(v + seq![c], p) == v);
}

/// A value in double or single quotes is assigned without its quotes.
pub proof fn lemma_quoted_assignment(v: Seq<char>)
    requires
        plain_value(v),
    ensures
        line_token("BWS_ACCESS_TOKEN="@ + seq!['"'] + v + seq!['"']) == Some(v),
        line_token("BWS_ACCESS_TOKEN="@ + seq!['\''] + v + seq!['\'']) == Some(v),
{
    reveal_strlit("BWS_ACCESS_TOKEN=");
    reveal_strlit("BWS_ACCESS_TOKEN");
    let k = "BWS_ACCESS_TOKEN="@;
    assert(k.len() == 17);
    assert(v[0] != '"' && v.last() != '"' && v[0] != '\'' && v.last() != '\'');
    let dq = seq!['"'] + v + seq!['"'];
    let sq = seq!['\''] + v + seq!['\''];
    lemma_trim_quotes(v, '"');
    lemma_trim_quotes(v, '\'');
    lemma_trim_by_keeps(v, char_pred('"'));
    lemma_trim_by_keeps(v, char_pred('\''));
    lemma_trim_by_keeps(sq, char_pred('"'));
    lemma_trim_by_keeps(dq, ws_pred());
    lemma_trim_by_keeps(sq, ws_pred());
    let line = k + dq;
    assert(line[0] == 'B' && line.last() == '"');
    lemma_trim_by_keeps(line, ws_pred());
    assert forall|j: int| 0 <= j < 16 implies line[j] != '=' by {
        assert(line[j] == k[j]);
    }
    lemma_find_char_unique(line, '=', 16);
    assert(line.take(16) =~= token_key());
    lemma_trim_by_keeps(line.take(16), ws_pred());
    assert(line.skip(17) =~= dq);
    assert(line =~= "BWS_ACCESS_TOKEN="@ + seq!['"'] + v + seq!['"']);
    assert(trim_char(trim_char(trim_ws(line.skip(17)), '"'), '\'') == v);
    let line2 = k + sq;
    assert(line2[0] == 'B' && line2.last() == '\'');
    lemma_trim_by_keeps(line2, ws_pred());
    assert forall|j: int| 0 <= j < 16 implies line2[j] != '=' by {
        assert(line2[j] == k[j]);
    }
    lemma_find_char_unique(line2, '=', 16);
    assert(line2.take(16) =~= token_key());
    lemma_trim_by_keeps(line2.take(16), ws_pred());
    assert(line2.skip(17) =~= sq);
    assert(line2 =~= "BWS_ACCESS_TOKEN="@ + seq!['\''] + v + seq!['\'']);
    assert(trim_char(trim_char(trim_ws(line2.skip(17)), '"'), '\'') == v);
}

/// The token of the line `v[lo..hi]`.
fn token_in_line(v: &Vec<char>, lo: usize, hi: usize, key: &Vec<char>) -> (r: Option<String>)
    requires
        lo <= hi <= v@.len(),
        key@ == token_key(),
    ensures
        opt_view(r) == line_token(v@.subrange(lo as int, hi as int)),
{
    let (a, b) = trim_ws_range(v, lo, hi);
    let ghost t = v@.subrange(a as int, b as int);
    if a == b {
        return None;
    }
    if v[a] == '#' {
        return None;
    }
    let e = find_char_in(v, a, b, '=');
    if e == b {
        return None;
    }
    let (ka, kb) = trim_ws_range(v, a, e);
    let (va, vb) = trim_ws_range(v, e + 1, b);
    let (qa, qb) = trim_char_range(v, va, vb, '"');
    let (sa, sb) = trim_char_range(v, qa, qb, '\'');
    proof {
        assert(t.take(e - a) =~= v@.subrange(a as int, e as int));
        assert(t.skip(e - a + 1) =~= v@.subrange(e + 1, b as int));
    }
    if range_equals(v, ka, kb, key) && sa < sb {
        Some(string_of_range(v, sa, sb))
    } else {
        None
    }
}

/// The token that a `.bws` file's content assigns: the value of the first
/// line that assigns `BWS_ACCESS_TOKEN` a non-empty value.
pub fn token_from_bws_file(content: &str) -> (r: Option<String>)
    ensures
        opt_view(r) == token_in_text(content@),
        r matches Some(t) ==> t@.len() > 0,
{
    let v = chars_of(content);
    let key = chars_of("BWS_ACCESS_TOKEN");
    let n = v.len();
    let mut pos: usize = 0;
    assert(v@.skip(0) =~= v@);
    loop
        invariant
            v@ == content@,
            key@ == token_key(),
            n == v@.len(),
            pos <= n,
            token_in_text(v@) == token_in_text(v@.skip(pos as int)),
        decreases n - pos,
    {
        let end = find_char_in(&v, pos, n, '\n');
        let ghost s = v@.skip(pos as int);
        proof {
            assert(s =~= v@.subrange(pos as int, n as int));
            assert(s.take(end - pos) =~= v@.subrange(pos as int, end as int));
        }
        let t = token_in_line(&v, pos, end, &key);
        if t.is_some() {
            return t;
        }
        if end == n {
            return None;
        }
        proof {
            assert(s.skip(end - pos + 1) =~= v@.skip(end + 1));
        }
        pos = end + 1;
    }
}

/// A directory as the sequence of its path components, each by its text;
/// the root directory is the component `/`.
pub open spec fn dir_view(d: Seq<String>) -> Seq<Seq<char>> {
    d.map_values(|c: String| c@)
}

/// The views of a list of directories.
pub open spec fn dirs_view(ds: Seq<Vec<String>>) -> Seq<Seq<Seq<char>>> {
    ds.map_values(|d: Vec<String>| dir_view(d@))
}

/// The root component.
pub open spec fn root_component() -> Seq<char> {
    seq!['/']
}

/// `Path::starts_with`: `base` is a leading run of the components of `d`.
pub open spec fn dir_starts_with(d: Seq<Seq<char>>, base: Seq<Seq<char>>) -> bool {
    base.len() <= d.len() && d.take(base.len() as int) == base
}

/// `PathBuf::pop` succeeds: `d` has a parent.
pub open spec fn has_parent(d: Seq<Seq<char>>) -> bool {
    d.len() > 1 || (d.len() == 1 && d[0] != root_component())
}

/// The directories searched for a `.bws` file, in order: `d` first; the walk
/// stops after reaching `home`, after a directory outside `home`, or at a
/// directory without a parent, and otherwise moves to the parent.
pub open spec fn search_dirs(d: Seq<Seq<char>>, home: Seq<Seq<char>>) -> Seq<Seq<Seq<char>>>
    decreases d.len(),
{
    if d == home || !dir_starts_with(d, home) || !has_parent(d) {
        seq![d]
    } else {
        seq![d] + search_dirs(d.drop_last(), home)
    }
}

/// A copy of a directory.
fn copy_dir(d: &Vec<String>) -> (r: Vec<String>)
    ensures
        r@ == d@,
{
    let mut r: Vec<String> = Vec::new();
    let mut i: usize = 0;
    while i < d.len()
        invariant
            i <= d@.len(),
            r@ == d@.take(i as int),
        decreases d@.len() - i,
    {
        r.push(d[i].clone());
        i = i + 1;
        assert(r@ =~= d@.take(i as int));
    }
    assert(r@ =~= d@);
    r
}

/// Whether the first `n` components of `d` are those of `base`.
fn components_match(d: &Vec<String>, base: &Vec<String>, n: usize) -> (r: bool)
    requires
        n <= d@.len(),
        n <= base@.len(),
    ensures
        r == (dir_view(d@).take(n as int) == dir_view(base@).take(n as int)),
{
    let mut i: usize = 0;
    while i < n
        invariant
            n <= d@.len(),
            n <= base@.len(),
            i <= n,
            forall|k: int| 0 <= k < i ==> d@[k]@ == base@[k]@,
        decreases n - i,
    {
        if d[i] != base[i] {
            assert(dir_view(d@).take(n as int)[i as int] != dir_view(base@).take(n as int)[i as int]);
            return false;
        }
        i = i + 1;
    }
    assert(dir_view(d@).take(n as int) =~= dir_view(base@).take(n as int));
    true
}

/// `Path::starts_with` on component lists.
fn starts_with_dir(d: &Vec<String>, base: &Vec<String>) -> (r: bool)
    ensures
        r == dir_starts_with(dir_view(d@), dir_view(base@)),
{
    if base.len() > d.len() {
        return false;
    }
    let r = components_match(d, base, base.len());
    assert(dir_view(base@).take(base@.len() as int) =~= dir_view(base@));
    r
}

/// `Path == Path` on component lists.
fn same_dir(d: &Vec<String>, e: &Vec<String>) -> (r: bool)
    ensures
        r == (dir_view(d@) == dir_view(e@)),
{
    if d.len() != e.len() {
        assert(dir_view(d@).len() != dir_view(e@).len());
        return false;
    }
    let r = components_match(d, e, d.len());
    assert(dir_view(d@).take(d@.len() as int) =~= dir_view(d@));
    assert(dir_view(e@).take(e@.len() as int) =~= dir_view(e@));
    r
}

/// `PathBuf::pop` would succeed on `d`.
fn dir_has_parent(d: &Vec<String>) -> (r: bool)
    ensures
        r == has_parent(dir_view(d@)),
{
    if d.len() > 1 {
        true
    } else if d.len() == 1 {
        let root = chars_of("/");
        let first = chars_of(d[0].as_str());
        proof {
            reveal_strlit("/");
        }
        assert(root@ =~= root_component());
        let is_root = range_equals(&first, 0, first.len(), &root);
        assert(first@.subrange(0, first@.len() as int) =~= first@);
        !is_root
    } else {
        false
    }
}

/// The directories to search for a `.bws` file, given the working directory
/// and the home directory as component lists.
pub fn bws_search_dirs(cwd: &Vec<String>, home: &Vec<String>) -> (r: Vec<Vec<String>>)
    ensures
        dirs_view(r@) == search_dirs(dir_view(cwd@), dir_view(home@)),
{
    let mut dir = copy_dir(cwd);
    let mut out: Vec<Vec<String>> = Vec::new();
    loop
        invariant
            search_dirs(dir_view(cwd@), dir_view(home@)) == dirs_view(out@) + search_dirs(
                dir_view(dir@),
                dir_view(home@),
            ),
        decreases dir@.len(),
    {
        let ghost before = out@;
        out.push(copy_dir(&dir));
        assert(dirs_view(out@) =~= dirs_view(before).push(dir_view(dir@)));
        if same_dir(&dir, home) || !starts_with_dir(&dir, home) || !dir_has_parent(&dir) {
            assert(dirs_view(out@) =~= dirs_view(before) + search_dirs(dir_view(dir@), dir_view(home@)));
            return out;
        }
        let ghost old_dir = dir@;
        dir.pop();
        assert(dir_view(dir@) =~= dir_view(old_dir).drop_last());
        assert(dirs_view(before) + search_dirs(dir_view(old_dir), dir_view(home@)) =~= dirs_view(out@)
            + search_dirs(dir_view(dir@), dir_view(home@)));
    }
}

/// Every searched directory is the working directory or one of its
/// ancestors, one level further up at each step.
pub proof fn lemma_search_dirs_ascend(d: Seq<Seq<char>>, home: Seq<Seq<char>>)
    ensures
        1 <= search_dirs(d, home).len() <= d.len() + 1,
        forall|i: int|
            0 <= i < search_dirs(d, home).len() ==> #[trigger] search_dirs(d, home)[i] == d.take(
                d.len() - i,
            ),
    decreases d.len(),
{
    let s = search_dirs(d, home);
    if d == home || !dir_starts_with(d, home) || !has_parent(d) {
        assert(d.take(d.len() as int) =~= d);
    } else {
        let t = d.drop_last();
        lemma_search_dirs_ascend(t, home);
        assert forall|i: int| 0 <= i < s.len() implies #[trigger] s[i] == d.take(d.len() - i) by {
            if i == 0 {
                assert(d.take(d.len() as int) =~= d);
            } else {
                assert(s[i] == search_dirs(t, home)[i - 1]);
                assert(t.take(t.len() - (i - 1)) =~= d.take(d.len() - i));
            }
        }
    }
}

/// Starting inside `home`, the walk never leaves `home`.
proof fn lemma_search_dirs_stay(d: Seq<Seq<char>>, home: Seq<Seq<char>>)
    requires
        dir_starts_with(d, home),
    ensures
        forall|i: int|
            0 <= i < search_dirs(d, home).len() ==> dir_starts_with(
                #[trigger] search_dirs(d, home)[i],
                home,
            ),
        home.len() > 0 ==> search_dirs(d, home).last() == home,
    decreases d.len(),
{
    let s = search_dirs(d, home);
    if d == home || !has_parent(d) {
        if home.len() > 0 && d != home {
            assert(d.len() != home.len() || d.take(home.len() as int) =~= d);
        }
    } else {
        let t = d.drop_last();
        if d.len() == home.len() {
            assert(d.take(home.len() as int) =~= d);
        }
        assert(t.take(home.len() as int) =~= d.take(home.len() as int));
        lemma_search_dirs_stay(t, home);
        assert forall|i: int| 0 <= i < s.len() implies dir_starts_with(#[trigger] s[i], home) by {
            if i > 0 {
                assert(s[i] == search_dirs(t, home)[i - 1]);
            }
        }
    }
}

/// The search is confined to `home`: every directory after the first lies in
/// `home`; a working directory outside `home` is the only one searched; and a
/// working directory inside a (non-empty) `home` is searched up to and
/// including `home` itself.
pub proof fn lemma_search_dirs_within_home(d: Seq<Seq<char>>, home: Seq<Seq<char>>)
    ensures
        forall|i: int|
            1 <= i < search_dirs(d, home).len() ==> dir_starts_with(
                #[trigger] search_dirs(d, home)[i],
                home,
            ),
        !dir_starts_with(d, home) ==> search_dirs(d, home) == seq![d],
        dir_starts_with(d, home) && home.len() > 0 ==> search_dirs(d, home).last() == home,
{
    if dir_starts_with(d, home) {
        lemma_search_dirs_stay(d, home);
    }
}

/// A `.bws` file that was found: where it is, for messages, and what it holds.
pub struct BwsFile {
    pub location: String,
    pub content: String,
}

/// What the search for a `.bws` file came to.
pub enum BwsSearch {
    /// The nearest `.bws` file along the search.
    Found(BwsFile),
    /// No directory along the search holds a `.bws` file.
    NoFile,
    /// The search could not be made: `HOME` is not set.
    HomeNotSet,
    /// The search could not be made: the working directory is unknown.
    NoCurrentDir,
}

/// Why no token could be found.
#[derive(Debug)]
pub enum TokenError {
    /// The nearest `.bws` file assigns no token.
    MissingInFile { file: String },
    /// Neither a `.bws` file nor the environment holds a token.
    NotFound,
    /// `HOME` is not set and the environment holds no token.
    HomeNotSet,
    /// The working directory is unknown and the environment holds no token.
    NoCurrentDir,
}

impl TokenError {
    /// The message shown for the error.
    pub fn message(&self) -> (r: String)
        ensures
            match self {
                TokenError::MissingInFile { file } => r@ == "Found "@ + file@
                    + " but it does not contain BWS_ACCESS_TOKEN"@,
                TokenError::NotFound => r@
                    == "BWS_ACCESS_TOKEN not found. Set it as an environment variable or in a .bws file."@,
                TokenError::HomeNotSet => r@ == "HOME not set"@,
                TokenError::NoCurrentDir => r@ == "Failed to get current directory"@,
            },
    {
        match self {
            TokenError::MissingInFile { file } => {
                let mut r = String::from_str("Found ");
                r.append(file.as_str());
                r.append(" but it does not contain BWS_ACCESS_TOKEN");
                r
            },
            TokenError::NotFound => String::from_str(
                "BWS_ACCESS_TOKEN not found. Set it as an environment variable or in a .bws file.",
            ),
            TokenError::HomeNotSet => String::from_str("HOME not set"),
            TokenError::NoCurrentDir => String::from_str("Failed to get current directory"),
        }
    }
}

/// The token that the `BWS_ACCESS_TOKEN` environment variable provides: its
/// value, when it is set and not empty.
pub fn token_from_env(value: Option<&str>) -> (r: Option<String>)
    ensures
        match value {
            Some(v) => if v@.len() > 0 {
                opt_view(r) == Some(v@)
            } else {
                r is None
            },
            None => r is None,
        },
{
    match value {
        Some(v) => if v.is_empty() {
            None
        } else {
            Some(String::from_str(v))
        },
        None => None,
    }
}

/// Resolves the access token: the nearest `.bws` file along the search (see
/// `bws_search_dirs`) comes first and must assign a token; only when no file
/// is found, or the search cannot be made, the `BWS_ACCESS_TOKEN` environment
/// variable is used when non-empty.
pub fn resolve_bws_token(env_token: Option<&str>, search: &BwsSearch) -> (r: Result<
    String,
    TokenError,
>)
    ensures
        match search {
            BwsSearch::Found(f) => match token_in_text(f.content@) {
                Some(t) => r matches Ok(s) && s@ == t,
                None => r matches Err(TokenError::MissingInFile { file }) && file@ == f.location@,
            },
            BwsSearch::NoFile => match env_token {
                Some(v) if v@.len() > 0 => r matches Ok(t) && t@ == v@,
                _ => r matches Err(TokenError::NotFound),
            },
            BwsSearch::HomeNotSet => match env_token {
                Some(v) if v@.len() > 0 => r matches Ok(t) && t@ == v@,
                _ => r matches Err(TokenError::HomeNotSet),
            },
            BwsSearch::NoCurrentDir => match env_token {
                Some(v) if v@.len() > 0 => r matches Ok(t) && t@ == v@,
                _ => r matches Err(TokenError::NoCurrentDir),
            },
        },
{
    match search {
        BwsSearch::Found(f) => match token_from_bws_file(f.content.as_str()) {
            Some(t) => Ok(t),
            None => Err(TokenError::MissingInFile { file: f.location.clone() }),
        },
        BwsSearch::NoFile => match token_from_env(env_token) {
            Some(t) => Ok(t),
            None => Err(TokenError::NotFound),
        },
        BwsSearch::HomeNotSet => match token_from_env(env_token) {
            Some(t) => Ok(t),
            None => Err(TokenError::HomeNotSet),
        },
        BwsSearch::NoCurrentDir => match token_from_env(env_token) {
            Some(t) => Ok(t),
            None => Err(TokenError::NoCurrentDir),
        },
    }
}

} // verus!
