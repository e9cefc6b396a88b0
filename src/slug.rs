//! Text search over character sequences, and the resolution of a remote URL
//! into the `owner/repo` slug that GitHub's API addresses.
use vstd::prelude::*;
use crate::error::IssueError;

verus! {

/// Whether `pat` occurs in `s` starting at character position `i`.
pub open spec fn occurs_at(s: Seq<char>, pat: Seq<char>, i: int) -> bool {
    0 <= i && i + pat.len() <= s.len() && s.subrange(i, i + pat.len()) == pat
}

/// Whether `pat` occurs anywhere in `s`.
pub open spec fn occurs_in(s: Seq<char>, pat: Seq<char>) -> bool {
    exists|i: int| occurs_at(s, pat, i)
}

/// The first position at or after `i` where `pat` occurs in `s`.
pub open spec fn find_from(s: Seq<char>, pat: Seq<char>, i: int) -> Option<int>
    decreases s.len() + 1 - i,
{
    if i < 0 || i + pat.len() > s.len() {
        None
    } else if occurs_at(s, pat, i) {
        Some(i)
    } else {
        find_from(s, pat, i + 1)
    }
}

/// The host name that marks a remote as GitHub's.
pub open spec fn github_host() -> Seq<char> {
    seq!['g', 'i', 't', 'h', 'u', 'b', '.', 'c', 'o', 'm']
}

/// The host name followed by the path separator; the slug follows it.
pub open spec fn github_marker() -> Seq<char> {
    github_host().push('/')
}

/// The suffix that a clone URL may carry.
pub open spec fn git_suffix() -> Seq<char> {
    seq!['.', 'g', 'i', 't']
}

/// `url` without one trailing `.git`, if it has one.
pub open spec fn strip_git(url: Seq<char>) -> Seq<char> {
    if url.len() >= 4 && occurs_at(url, git_suffix(), url.len() - 4) {
        url.subrange(0, url.len() - 4)
    } else {
        url
    }
}

/// The slug of a remote URL: what follows the first `github.com/` once one
/// trailing `.git` is gone; `None` where that marker is absent.
pub open spec fn slug_of(url: Seq<char>) -> Option<Seq<char>> {
    let t = strip_git(url);
    match find_from(t, github_marker(), 0) {
        Some(i) => Some(t.subrange(i + github_marker().len(), t.len() as int)),
        None => None,
    }
}

/// Checks whether `pat` occurs in `s` at character position `i`.
pub fn matches_at(s: &str, pat: &str, i: usize) -> (r: bool)
    ensures
        r == occurs_at(s@, pat@, i as int),
{
    let n = s.unicode_len();
    let m = pat.unicode_len();
    if i > n || m > n - i {
        return false;
    }
    let mut k: usize = 0;
    while k < m
        invariant
            n == s@.len(),
            m == pat@.len(),
            i + m <= n,
            k <= m,
            forall|j: int| 0 <= j < k ==> s@[i + j] == pat@[j],
        decreases m - k,
    {
        if s.get_char(i + k) != pat.get_char(k) {
            assert(s@.subrange(i as int, i + m)[k as int] != pat@[k as int]);
            return false;
        }
        k = k + 1;
    }
    assert(s@.subrange(i as int, i + m) =~= pat@);
    true
}

/// Finds the first position at which `pat` occurs in `s`.
pub fn find_first(s: &str, pat: &str) -> (r: Option<usize>)
    ensures
        match r {
            Some(i) => find_from(s@, pat@, 0) == Some(i as int),
            None => find_from(s@, pat@, 0) is None,
        },
{
    let n = s.unicode_len();
    let m = pat.unicode_len();
    if m > n {
        return None;
    }
    let mut i: usize = 0;
    while i <= n - m
        invariant
            n == s@.len(),
            m == pat@.len(),
            m <= n,
            i <= n - m,
            find_from(s@, pat@, 0) == find_from(s@, pat@, i as int),
        decreases n - m - i,
    {
        if matches_at(s, pat, i) {
            return Some(i);
        }
        if i == n - m {
            assert(find_from(s@, pat@, i + 1) is None);
            return None;
        }
        i = i + 1;
    }
    None
}

/// Checks whether `pat` occurs anywhere in `s`.
pub fn contains_text(s: &str, pat: &str) -> (r: bool)
    ensures
        r == occurs_in(s@, pat@),
{
    let f = find_first(s, pat);
    proof {
        lemma_find_from_found(s@, pat@, 0);
        if occurs_in(s@, pat@) {
            let j = choose|j: int| occurs_at(s@, pat@, j);
            lemma_find_from_complete(s@, pat@, 0, j);
        }
    }
    f.is_some()
}

/// Whether a remote URL names GitHub's host.
pub open spec fn is_github_url(url: Seq<char>) -> bool {
    occurs_in(url, github_host())
}

/// Checks whether a remote URL names GitHub's host.
pub fn is_github_remote(url: &str) -> (r: bool)
    ensures
        r == is_github_url(url@),
{
    proof {
        reveal_strlit("github.com");
    }
    assert("github.com"@ =~= github_host());
    contains_text(url, "github.com")
}

/// Resolves a remote URL into its `owner/repo` slug: the text after the first
/// `github.com/`, with one trailing `.git` removed first. The text is taken
/// as it stands, with no check of its characters.
pub fn resolve_slug(url: &str) -> (r: Result<String, IssueError>)
    ensures
        match r {
            Ok(s) => slug_of(url@) == Some(s@),
            Err(e) => slug_of(url@) is None && e == IssueError::MalformedRemoteUrl,
        },
{
    proof {
        reveal_strlit(".git");
        reveal_strlit("github.com/");
    }
    assert(".git"@ =~= git_suffix());
    assert("github.com/"@ =~= github_marker());
    let n = url.unicode_len();
    let end: usize = if n >= 4 && matches_at(url, ".git", n - 4) {
        n - 4
    } else {
        n
    };
    let t = url.substring_char(0, end);
    assert(t@ =~= strip_git(url@));
    match find_first(t, "github.com/") {
        Some(i) => {
            proof {
                lemma_find_from_found(t@, github_marker(), 0);
            }
            let rest = t.substring_char(i + 11, end);
            Ok(String::from_str(rest))
        },
        None => Err(IssueError::MalformedRemoteUrl),
    }
}

/// A remote URL in which `github.com/` does not occur has no slug, so
/// resolving it fails, always with `MalformedRemoteUrl`.
pub proof fn lemma_no_marker_no_slug(url: Seq<char>)
    requires
        !occurs_in(url, github_marker()),
    ensures
        slug_of(url) is None,
{
    let t = strip_git(url);
    let m = github_marker();
    lemma_find_from_found(t, m, 0);
    if let Some(j) = find_from(t, m, 0) {
        assert(url.subrange(j, j + m.len()) =~= t.subrange(j, j + m.len()));
        assert(occurs_at(url, m, j));
    }
}

/// Whether `s` ends with `.git`.
pub open spec fn ends_with_git(s: Seq<char>) -> bool {
    s.len() >= 4 && occurs_at(s, git_suffix(), s.len() - 4)
}

/// A URL made of some text in which the marker does not begin before its own
/// place, then `github.com/`, then a slug, then `.git` or not, resolves to
/// exactly that slug. Without the `.git`, the slug must not end in `.git`
/// itself, since a single trailing `.git` is always removed.
pub proof fn lemma_slug_after_marker(prefix: Seq<char>, slug: Seq<char>, with_suffix: bool)
    requires
        forall|j: int| 0 <= j < prefix.len() ==> !occurs_at(prefix + github_marker(), github_marker(), j),
        !with_suffix ==> !ends_with_git(slug),
    ensures
        slug_of(prefix + github_marker() + slug + (if with_suffix { git_suffix() } else { Seq::empty() }))
            == Some(slug),
{
    let m = github_marker();
    let head = prefix + m + slug;
    let url = head + (if with_suffix { git_suffix() } else { Seq::<char>::empty() });
    let p = prefix.len() as int;
    if with_suffix {
        assert(url.subrange(url.len() - 4, url.len() as int) =~= git_suffix());
        assert(url.subrange(0, url.len() - 4) =~= head);
    } else {
        assert(url =~= head);
        if url.len() >= 4 && occurs_at(url, git_suffix(), url.len() - 4) {
            if slug.len() >= 4 {
                assert(slug.subrange(slug.len() - 4, slug.len() as int)
                    =~= url.subrange(url.len() - 4, url.len() as int));
            } else {
                let k = p + 10 - (url.len() - 4);
                assert(url[p + 10] == '/');
                assert(url.subrange(url.len() - 4, url.len() as int)[k] == url[p + 10]);
                assert(git_suffix()[k] != '/');
            }
        }
    }
    assert(strip_git(url) =~= head);
    assert forall|j: int| 0 <= j < p implies !occurs_at(head, m, j) by {
        assert(!occurs_at(prefix + m, m, j));
        assert(m.len() == 11);
        assert(head.subrange(j, j + m.len()) =~= (prefix + m).subrange(j, j + m.len()));
    }
    assert(head.subrange(p, p + m.len()) =~= m);
    lemma_find_from_first(head, m, 0, p);
    assert(head.subrange(p + m.len(), head.len() as int) =~= slug);
}

/// What `find_from` returns is an occurrence, at or after where it started.
pub proof fn lemma_find_from_found(s: Seq<char>, pat: Seq<char>, i: int)
    ensures
        find_from(s, pat, i) matches Some(j) ==> i <= j && occurs_at(s, pat, j),
    decreases s.len() + 1 - i,
{
    if !(i < 0 || i + pat.len() > s.len()) && !occurs_at(s, pat, i) {
        lemma_find_from_found(s, pat, i + 1);
    }
}

/// `find_from` misses no occurrence at or after where it started.
pub proof fn lemma_find_from_complete(s: Seq<char>, pat: Seq<char>, i: int, j: int)
    requires
        0 <= i <= j,
        occurs_at(s, pat, j),
    ensures
        find_from(s, pat, i) is Some,
    decreases j - i,
{
    if !occurs_at(s, pat, i) {
        lemma_find_from_complete(s, pat, i + 1, j);
    }
}

/// `find_from` returns the first occurrence at or after where it started.
pub proof fn lemma_find_from_first(s: Seq<char>, pat: Seq<char>, i: int, p: int)
    requires
        0 <= i <= p,
        occurs_at(s, pat, p),
        forall|j: int| i <= j < p ==> !occurs_at(s, pat, j),
    ensures
        find_from(s, pat, i) == Some(p),
    decreases p - i,
{
    if i < p {
        lemma_find_from_first(s, pat, i + 1, p);
    }
}

} // verus!
