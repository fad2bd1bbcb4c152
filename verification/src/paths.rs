//! Paths as the editor handles them: strings, with the standard library's
//! path rules behind a few trusted calls, and the resolution of what the user
//! types into a prompt.
use vstd::prelude::*;
use crate::text::string_push;

verus! {

/// The file name of a path as `Path::file_name` gives it (its last normal
/// component), if it has one.
pub uninterp spec fn file_name_of(p: Seq<char>) -> Option<Seq<char>>;

/// The parent of a path as `Path::parent` gives it, if it has one.
pub uninterp spec fn parent_of(p: Seq<char>) -> Option<Seq<char>>;

/// `base` joined with `p` as `Path::join` gives it.
pub uninterp spec fn joined(base: Seq<char>, p: Seq<char>) -> Seq<char>;

/// Whether a path is absolute as `Path::is_absolute` decides it.
pub uninterp spec fn is_absolute_path(p: Seq<char>) -> bool;

/// The components of a path as `Path::components` yields them (root,
/// `.`, `..` and names, after its normalisation of repeated separators,
/// inner `.` and a trailing separator), each taken by its text.
pub uninterp spec fn components_of(p: Seq<char>) -> Seq<Seq<char>>;

/// Whether two paths are equal as `Path`'s `==` decides it: they have the
/// same components.
pub open spec fn same_path(a: Seq<char>, b: Seq<char>) -> bool {
    components_of(a) == components_of(b)
}

/// The lower-case form of a string as `str::to_lowercase` gives it.
pub uninterp spec fn lowercase_of(s: Seq<char>) -> Seq<char>;

/// `Path::file_name`, the name turned back into a string. The contract names
/// the result and says nothing more of it.
#[verifier::external_body]
pub(crate) fn path_file_name(p: &str) -> (r: Option<String>)
    ensures
        match r {
            Some(n) => file_name_of(p@) == Some(n@),
            None => file_name_of(p@) is None,
        },
{
    match std::path::Path::new(p).file_name() {
        Some(n) => Some(n.to_string_lossy().into_owned()),
        None => None,
    }
}

/// `Path::parent`, the parent turned back into a string. The contract names
/// the result and says nothing more of it.
#[verifier::external_body]
pub(crate) fn path_parent(p: &str) -> (r: Option<String>)
    ensures
        match r {
            Some(q) => parent_of(p@) == Some(q@),
            None => parent_of(p@) is None,
        },
{
    match std::path::Path::new(p).parent() {
        Some(q) => Some(q.to_string_lossy().into_owned()),
        None => None,
    }
}

/// `Path::join`, the result turned back into a string. The contract names
/// the result and says nothing more of it.
#[verifier::external_body]
pub(crate) fn path_join(base: &str, p: &str) -> (r: String)
    ensures
        r@ == joined(base@, p@),
{
    std::path::Path::new(base).join(p).to_string_lossy().into_owned()
}

/// `Path::is_absolute`. The contract names the result and says nothing more of it.
#[verifier::external_body]
pub(crate) fn path_is_absolute(p: &str) -> (r: bool)
    ensures
        r == is_absolute_path(p@),
{
    std::path::Path::new(p).is_absolute()
}

/// `==` on `Path`, which compares the two paths component by component.
/// The contract states that and names the components; it says nothing more
/// of what the components of a given path are.
#[verifier::external_body]
pub(crate) fn path_eq(a: &str, b: &str) -> (r: bool)
    ensures
        r == (components_of(a@) == components_of(b@)),
{
    std::path::Path::new(a) == std::path::Path::new(b)
}

/// `str::to_lowercase`. The contract names the result and says nothing more of it.
#[verifier::external_body]
pub(crate) fn to_lowercase(s: &str) -> (r: String)
    ensures
        r@ == lowercase_of(s@),
{
    s.to_lowercase()
}

/// The name shown for a file: the file name, or the whole path when it has none.
pub open spec fn display_name(path: Seq<char>) -> Seq<char> {
    match file_name_of(path) {
        Some(n) => n,
        None => path,
    }
}

/// The name shown for the file at `path`.
pub fn name_for_path(path: &str) -> (n: String)
    ensures
        n@ == display_name(path@),
{
    match path_file_name(path) {
        Some(n) => n,
        None => crate::text::string_of(path),
    }
}

/// Unicode's White_Space property, which `char::is_whitespace` tests.
pub open spec fn is_white_space(c: char) -> bool {
    let u = c as u32;
    ||| 0x9 <= u <= 0xD
    ||| u == 0x20
    ||| u == 0x85
    ||| u == 0xA0
    ||| u == 0x1680
    ||| 0x2000 <= u <= 0x200A
    ||| u == 0x2028
    ||| u == 0x2029
    ||| u == 0x202F
    ||| u == 0x205F
    ||| u == 0x3000
}

/// `char::is_whitespace`.
pub fn is_whitespace(c: char) -> (r: bool)
    ensures
        r == is_white_space(c),
{
    let u = c as u32;
    (0x9 <= u && u <= 0xD) || u == 0x20 || u == 0x85 || u == 0xA0 || u == 0x1680 || (0x2000 <= u
        && u <= 0x200A) || u == 0x2028 || u == 0x2029 || u == 0x202F || u == 0x205F || u == 0x3000
}

/// `s` without its leading white space.
pub open spec fn trim_start(s: Seq<char>) -> Seq<char>
    decreases s.len(),
{
    if s.len() > 0 && is_white_space(s[0]) {
        trim_start(s.drop_first())
    } else {
        s
    }
}

/// `s` without its trailing white space.
pub open spec fn trim_end(s: Seq<char>) -> Seq<char>
    decreases s.len(),
{
    if s.len() > 0 && is_white_space(s.last()) {
        trim_end(s.drop_last())
    } else {
        s
    }
}

/// `s` without leading and trailing white space (`str::trim`).
pub open spec fn trim(s: Seq<char>) -> Seq<char> {
    trim_end(trim_start(s))
}

proof fn lemma_trim_start_skip(s: Seq<char>, i: int)
    requires
        0 <= i <= s.len(),
        forall|k: int| 0 <= k < i ==> is_white_space(#[trigger] s[k]),
        i == s.len() || !is_white_space(s[i]),
    ensures
        trim_start(s) == s.skip(i),
    decreases i,
{
    if i == 0 {
        assert(s.skip(0) =~= s);
    } else {
        assert forall|k: int| 0 <= k < i - 1 implies is_white_space(#[trigger] s.drop_first()[k]) by {
            assert(s.drop_first()[k] == s[k + 1]);
        }
        lemma_trim_start_skip(s.drop_first(), i - 1);
        assert(s.drop_first().skip(i - 1) =~= s.skip(i));
    }
}

proof fn lemma_trim_end_take(s: Seq<char>, j: int)
    requires
        0 <= j <= s.len(),
        forall|k: int| j <= k < s.len() ==> is_white_space(#[trigger] s[k]),
        j == 0 || !is_white_space(s[j - 1]),
    ensures
        trim_end(s) == s.take(j),
    decreases s.len() - j,
{
    if j == s.len() {
        assert(s.take(j) =~= s);
    } else {
        assert forall|k: int| j <= k < s.drop_last().len() implies is_white_space(
            #[trigger] s.drop_last()[k],
        ) by {
            assert(s.drop_last()[k] == s[k]);
        }
        lemma_trim_end_take(s.drop_last(), j);
        assert(s.drop_last().take(j) =~= s.take(j));
    }
}

proof fn lemma_trim_start_head(s: Seq<char>)
    ensures
        trim_start(s).len() == 0 || !is_white_space(trim_start(s)[0]),
    decreases s.len(),
{
    if s.len() > 0 && is_white_space(s[0]) {
        lemma_trim_start_head(s.drop_first());
    }
}

proof fn lemma_trim_end_prefix(s: Seq<char>)
    ensures
        trim_end(s).len() <= s.len(),
        trim_end(s) == s.take(trim_end(s).len() as int),
        trim_end(s).len() == 0 || !is_white_space(trim_end(s).last()),
    decreases s.len(),
{
    if s.len() > 0 && is_white_space(s.last()) {
        lemma_trim_end_prefix(s.drop_last());
        assert(s.drop_last().take(trim_end(s).len() as int) =~= s.take(trim_end(s).len() as int));
    } else {
        assert(s.take(s.len() as int) =~= s);
    }
}

/// Trimming twice is trimming once.
pub proof fn lemma_trim_is_trimmed(s: Seq<char>)
    ensures
        trim(trim(s)) == trim(s),
{
    let v = trim_start(s);
    let u = trim_end(v);
    lemma_trim_start_head(s);
    lemma_trim_end_prefix(v);
    if u.len() > 0 {
        assert(u[0] == v[0]);
        assert(trim_start(u) == u);
        assert(trim_end(u) == u);
    } else {
        assert(trim_start(u) == u);
        assert(trim_end(u) == u);
    }
}

/// The characters of a string slice, in order.
pub fn chars_of(s: &str) -> (cs: Vec<char>)
    ensures
        cs@ == s@,
{
    broadcast use vstd::string::group_string_axioms;

    let mut cs: Vec<char> = Vec::new();
    for c in it: s.chars()
        invariant
            it.seq() == s@,
            cs@ == s@.take(it.index()),
    {
        proof {
            assert(s@.take(it.index() + 1) =~= s@.take(it.index()).push(c));
        }
        cs.push(c);
    }
    proof {
        assert(s@.take(s@.len() as int) =~= s@);
    }
    cs
}

/// A string holding the characters `cs[from..to]`.
pub fn string_from_chars(cs: &Vec<char>, from: usize, to: usize) -> (s: String)
    requires
        from <= to <= cs@.len(),
    ensures
        s@ == cs@.subrange(from as int, to as int),
{
    let mut s = String::new();
    let mut i = from;
    while i < to
        invariant
            from <= i <= to <= cs@.len(),
            s@ == cs@.subrange(from as int, i as int),
        decreases to - i,
    {
        string_push(&mut s, cs[i]);
        proof {
            assert(cs@.subrange(from as int, i + 1) =~= cs@.subrange(from as int, i as int).push(cs@[i as int]));
        }
        i = i + 1;
    }
    s
}

/// `str::trim`: the text without leading and trailing white space.
pub fn trim_str(s: &str) -> (r: String)
    ensures
        r@ == trim(s@),
{
    let cs = chars_of(s);
    let n = cs.len();
    let mut i: usize = 0;
    while i < n && is_whitespace(cs[i])
        invariant
            n == cs@.len(),
            i <= n,
            forall|k: int| 0 <= k < i ==> is_white_space(#[trigger] cs@[k]),
        decreases n - i,
    {
        i = i + 1;
    }
    let mut j: usize = n;
    while j > i && is_whitespace(cs[j - 1])
        invariant
            n == cs@.len(),
            i <= j <= n,
            forall|k: int| j <= k < n ==> is_white_space(#[trigger] cs@[k]),
        decreases j,
    {
        j = j - 1;
    }
    proof {
        lemma_trim_start_skip(s@, i as int);
        let t = s@.skip(i as int);
        assert forall|k: int| j - i <= k < t.len() implies is_white_space(#[trigger] t[k]) by {
            assert(t[k] == cs@[k + i]);
        }
        if j > i {
            assert(t[j - i - 1] == cs@[j - 1]);
        }
        lemma_trim_end_take(t, j - i);
        assert(t.take(j - i) =~= cs@.subrange(i as int, j as int));
    }
    string_from_chars(&cs, i, j)
}

/// What a prompt's path resolves to: `~` and `~/...` are expanded with the
/// home directory (left as typed when it is unknown or, for `~/...`, empty),
/// then a relative path is taken relative to the workspace root, or else to
/// the working directory (`.` when that is unknown).
pub open spec fn resolve(
    input: Seq<char>,
    root: Option<Seq<char>>,
    home: Option<Seq<char>>,
    cwd: Option<Seq<char>>,
) -> Seq<char> {
    let t = trim(input);
    let expanded = if t == seq!['~'] {
        match home {
            Some(h) => h,
            None => seq!['~'],
        }
    } else if t.len() >= 2 && t[0] == '~' && t[1] == '/' {
        match home {
            Some(h) => if h.len() == 0 {
                t
            } else {
                h + seq!['/'] + t.skip(2)
            },
            None => t,
        }
    } else {
        t
    };
    if is_absolute_path(expanded) {
        expanded
    } else {
        match root {
            Some(r) => joined(r, expanded),
            None => match cwd {
                Some(c) => joined(c, expanded),
                None => joined(seq!['.'], expanded),
            },
        }
    }
}

/// Resolves what was typed into a path prompt (see [`resolve`]). `home` is the
/// `HOME` variable and `cwd` the working directory, each `None` where it could
/// not be read.
pub fn resolve_path(
    input: &str,
    root: &Option<String>,
    home: &Option<String>,
    cwd: &Option<String>,
) -> (p: String)
    ensures
        p@ == resolve(
            input@,
            match root {
                Some(r) => Some(r@),
                None => None,
            },
            match home {
                Some(h) => Some(h@),
                None => None,
            },
            match cwd {
                Some(c) => Some(c@),
                None => None,
            },
        ),
{
    let trimmed = trim_str(input);
    let t = chars_of(trimmed.as_str());
    let expanded: String = if t.len() == 1 && t[0] == '~' {
        match home {
            Some(h) => h.clone(),
            None => {
                let mut s = String::new();
                string_push(&mut s, '~');
                s
            },
        }
    } else if t.len() >= 2 && t[0] == '~' && t[1] == '/' {
        match home {
            Some(h) => {
                if h.as_str().is_empty() {
                    trimmed
                } else {
                    let mut s = h.clone();
                    string_push(&mut s, '/');
                    let rest = string_from_chars(&t, 2, t.len());
                    s.append(rest.as_str());
                    proof {
                        assert(t@.subrange(2, t@.len() as int) =~= t@.skip(2));
                    }
                    s
                }
            },
            None => trimmed,
        }
    } else {
        trimmed
    };
    proof {
        if t@.len() == 1 && t@[0] == '~' {
            assert(t@ =~= seq!['~']);
        }
        if t@ == seq!['~'] {
            assert(t@.len() == 1 && t@[0] == '~');
        }
        let ghost tt = trim(input@);
        let ghost spec_expanded = if tt == seq!['~'] {
            match home {
                Some(h) => h@,
                None => seq!['~'],
            }
        } else if tt.len() >= 2 && tt[0] == '~' && tt[1] == '/' {
            match home {
                Some(h) => if h@.len() == 0 {
                    tt
                } else {
                    h@ + seq!['/'] + tt.skip(2)
                },
                None => tt,
            }
        } else {
            tt
        };
        assert(Seq::<char>::empty().push('~') =~= seq!['~']);
        assert(expanded@ =~= spec_expanded);
    }
    if path_is_absolute(expanded.as_str()) {
        expanded
    } else {
        match root {
            Some(r) => path_join(r.as_str(), expanded.as_str()),
            None => match cwd {
                Some(c) => path_join(c.as_str(), expanded.as_str()),
                None => {
                    let mut dot = String::new();
                    string_push(&mut dot, '.');
                    proof {
                        assert(dot@ =~= seq!['.']);
                    }
                    path_join(dot.as_str(), expanded.as_str())
                },
            },
        }
    }
}

/// Law: a relative path typed into a prompt is taken from the workspace
/// folder when one is open, whatever the working directory; only without a
/// workspace is it taken from the working directory. An absolute path is
/// kept as typed. (Inputs starting with `~` are expanded first; the law is
/// about the others.)
pub proof fn law_relative_paths_start_at_the_workspace(
    input: Seq<char>,
    root: Option<Seq<char>>,
    home: Option<Seq<char>>,
    cwd: Option<Seq<char>>,
    other_cwd: Option<Seq<char>>,
)
    requires
        trim(input).len() == 0 || trim(input)[0] != '~',
    ensures
        is_absolute_path(trim(input)) ==> resolve(input, root, home, cwd) == trim(input),
        !is_absolute_path(trim(input)) && root is Some ==> resolve(input, root, home, cwd) == joined(
            root->0,
            trim(input),
        ),
        root is Some ==> resolve(input, root, home, cwd) == resolve(input, root, home, other_cwd),
        !is_absolute_path(trim(input)) && root is None && cwd is Some ==> resolve(input, root, home, cwd)
            == joined(cwd->0, trim(input)),
{
}

/// Law: `~` stands for the home folder, and `~/rest` for `rest` inside it,
/// when the home folder is known and not empty.
pub proof fn law_tilde_is_home(
    rest: Seq<char>,
    root: Option<Seq<char>>,
    h: Seq<char>,
    cwd: Option<Seq<char>>,
)
    requires
        h.len() > 0,
        trim(seq!['~', '/'] + rest) == seq!['~', '/'] + rest,
    ensures
        is_absolute_path(h) ==> resolve(seq!['~'], root, Some(h), cwd) == h,
        is_absolute_path(h + seq!['/'] + rest) ==> resolve(seq!['~', '/'] + rest, root, Some(h), cwd) == h
            + seq!['/'] + rest,
{
    let t = seq!['~', '/'] + rest;
    assert(t[0] == '~' && t[1] == '/');
    assert(t.skip(2) =~= rest);
    lemma_trim_single_tilde();
}

proof fn lemma_trim_single_tilde()
    ensures
        trim(seq!['~']) == seq!['~'],
{
    let s = seq!['~'];
    assert(!is_white_space('~'));
    assert(trim_start(s) == s);
    assert(trim_end(s) == s);
}

} // verus!
