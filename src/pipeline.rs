//! The discovery pipeline: which directory entries are GitHub repositories,
//! the slug of each, what the GitHub command-line client is asked, and how
//! its answers become one ordered list of issues.
use vstd::prelude::*;
use vstd::utf8::{valid_utf8, decode_utf8};
use crate::error::IssueError;
use crate::issue::{Issue, IssueView, issue_views, normalized_all, normalize_all, texts};
use crate::json::{JsonValue, json_parse, parse_json};
use crate::slug::{is_github_url, is_github_remote, slug_of, resolve_slug};

verus! {

/// One entry of the projects directory, as the file system and the version
/// control metadata show it.
#[derive(Debug)]
pub struct RepoEntry {
    pub path: String,
    pub is_dir: bool,
    /// The URL of the `origin` remote, where the entry is a repository that
    /// has one with a URL.
    pub origin_url: Option<String>,
}

/// A repository whose `origin` remote points at GitHub.
#[derive(Debug)]
pub struct RemoteCandidate {
    pub path: String,
    pub url: String,
}

impl View for RemoteCandidate {
    type V = (Seq<char>, Seq<char>);

    open spec fn view(&self) -> (Seq<char>, Seq<char>) {
        (self.path@, self.url@)
    }
}

/// What an external tool reported: whether it succeeded, and what it wrote.
#[derive(Debug)]
pub struct ToolOutput {
    pub success: bool,
    pub stdout: Vec<u8>,
    pub stderr: Vec<u8>,
}

/// The candidate that an entry stands for, if any.
pub open spec fn candidate_of(e: RepoEntry) -> Option<(Seq<char>, Seq<char>)> {
    match e.origin_url {
        Some(u) => if e.is_dir && is_github_url(u@) {
            Some((e.path@, u@))
        } else {
            None
        },
        None => None,
    }
}

/// The candidates among the entries, in the listing's order.
pub open spec fn candidates_of(entries: Seq<RepoEntry>) -> Seq<(Seq<char>, Seq<char>)>
    decreases entries.len(),
{
    if entries.len() == 0 {
        Seq::empty()
    } else {
        let before = candidates_of(entries.drop_last());
        match candidate_of(entries.last()) {
            Some(c) => before.push(c),
            None => before,
        }
    }
}

/// The candidates of a listing; none where the projects directory is absent.
pub open spec fn located(listing: Option<Vec<RepoEntry>>) -> Seq<(Seq<char>, Seq<char>)> {
    match listing {
        Some(entries) => candidates_of(entries@),
        None => Seq::empty(),
    }
}

/// The slug of every candidate, in order; `None` where one has none.
pub open spec fn slugs_of(cands: Seq<(Seq<char>, Seq<char>)>) -> Option<Seq<Seq<char>>>
    decreases cands.len(),
{
    if cands.len() == 0 {
        Some(Seq::empty())
    } else {
        match (slugs_of(cands.drop_last()), slug_of(cands.last().1)) {
            (Some(before), Some(s)) => Some(before.push(s)),
            _ => None,
        }
    }
}

/// The raw records that a tool's answer holds: it must have succeeded and
/// written UTF-8 text that is a JSON array.
pub open spec fn fetched(out: ToolOutput) -> Result<Seq<JsonValue>, IssueError> {
    if !out.success {
        Err(IssueError::FetchFailed)
    } else if !valid_utf8(out.stdout@) {
        Err(IssueError::FetchDecodeError)
    } else {
        match json_parse(decode_utf8(out.stdout@)) {
            Some(JsonValue::Array(items)) => Ok(items@),
            _ => Err(IssueError::FetchDecodeError),
        }
    }
}

/// The issues of each repository in turn, in the order of `slugs`; a
/// repository whose answer holds no records adds none.
pub open spec fn gathered(slugs: Seq<Seq<char>>, outs: Seq<ToolOutput>) -> Seq<IssueView>
    decreases outs.len(),
{
    if outs.len() == 0 || slugs.len() == 0 {
        Seq::empty()
    } else {
        let before = gathered(slugs.drop_last(), outs.drop_last());
        match fetched(outs.last()) {
            Ok(items) => before + normalized_all(slugs.last(), items),
            Err(_) => before,
        }
    }
}

/// What a run of the command-line client gives its caller: its output as
/// text when it succeeded, else what it wrote to its error stream.
pub open spec fn command_result(out: ToolOutput) -> Result<Seq<char>, Seq<char>> {
    if out.success {
        if valid_utf8(out.stdout@) {
            Ok(decode_utf8(out.stdout@))
        } else {
            Err(utf8_error_text(out.stdout@))
        }
    } else {
        Err(utf8_lossy(out.stderr@))
    }
}

/// The message that std gives for bytes that are not UTF-8.
pub uninterp spec fn utf8_error_text(bytes: Seq<u8>) -> Seq<char>;

/// Relies on String::from_utf8: the text where the bytes are UTF-8, else an
/// error, here turned into its message.
#[verifier::external_body]
fn text_from_utf8(bytes: Vec<u8>) -> (r: Result<String, String>)
    ensures
        match r {
            Ok(s) => valid_utf8(bytes@) && s@ == decode_utf8(bytes@),
            Err(e) => !valid_utf8(bytes@) && e@ == utf8_error_text(bytes@),
        },
{
    String::from_utf8(bytes).map_err(|e| e.to_string())
}

/// What std makes of bytes read as UTF-8 with each bad sequence replaced.
pub uninterp spec fn utf8_lossy(bytes: Seq<u8>) -> Seq<char>;

/// Relies on String::from_utf8_lossy: the text with each invalid sequence
/// replaced by U+FFFD, which depends on the bytes alone.
#[verifier::external_body]
fn text_from_utf8_lossy(bytes: &Vec<u8>) -> (r: String)
    ensures
        r@ == utf8_lossy(bytes@),
{
    String::from_utf8_lossy(bytes.as_slice()).into_owned()
}

/// Picks out, in the listing's order, the entries that are directories whose
/// `origin` remote has a URL naming GitHub. A missing projects directory
/// (`None`) has none.
pub fn locate(listing: &Option<Vec<RepoEntry>>) -> (r: Vec<RemoteCandidate>)
    ensures
        r@.map_values(|c: RemoteCandidate| c@) == located(*listing),
        listing is None ==> r@.len() == 0,
{
    let mut out: Vec<RemoteCandidate> = Vec::new();
    match listing {
        Some(entries) => {
            let mut i: usize = 0;
            while i < entries.len()
                invariant
                    i <= entries@.len(),
                    out@.map_values(|c: RemoteCandidate| c@) == candidates_of(entries@.subrange(0, i as int)),
                decreases entries@.len() - i,
            {
                let ghost prefix = entries@.subrange(0, i + 1);
                assert(prefix.drop_last() =~= entries@.subrange(0, i as int));
                assert(prefix.last() == entries@[i as int]);
                let e = &entries[i];
                match &e.origin_url {
                    Some(u) => {
                        if e.is_dir && is_github_remote(u.as_str()) {
                            out.push(RemoteCandidate { path: e.path.clone(), url: u.clone() });
                        }
                    },
                    None => {},
                }
                assert(out@.map_values(|c: RemoteCandidate| c@) =~= candidates_of(prefix));
                i = i + 1;
            }
            assert(entries@.subrange(0, entries@.len() as int) =~= entries@);
        },
        None => {},
    }
    assert(out@.map_values(|c: RemoteCandidate| c@) =~= located(*listing));
    out
}

/// Resolves the slug of every candidate, in order. One URL without
/// `github.com/` fails the whole run with `MalformedRemoteUrl`.
pub fn resolve_all(cands: &Vec<RemoteCandidate>) -> (r: Result<Vec<String>, IssueError>)
    ensures
        match r {
            Ok(s) => slugs_of(cands@.map_values(|c: RemoteCandidate| c@)) == Some(texts(s@)),
            Err(e) => slugs_of(cands@.map_values(|c: RemoteCandidate| c@)) is None
                && e == IssueError::MalformedRemoteUrl,
        },
{
    let ghost views = cands@.map_values(|c: RemoteCandidate| c@);
    let mut out: Vec<String> = Vec::new();
    let mut i: usize = 0;
    while i < cands.len()
        invariant
            i <= cands@.len(),
            views == cands@.map_values(|c: RemoteCandidate| c@),
            slugs_of(views.subrange(0, i as int)) == Some(texts(out@)),
        decreases cands@.len() - i,
    {
        let ghost prefix = views.subrange(0, i + 1);
        assert(prefix.drop_last() =~= views.subrange(0, i as int));
        assert(prefix.last() == views[i as int]);
        match resolve_slug(cands[i].url.as_str()) {
            Ok(s) => {
                let ghost before = out@;
                let ghost text = s@;
                out.push(s);
                assert(texts(out@) =~= texts(before).push(text));
            },
            Err(e) => {
                proof {
                    lemma_slugs_of_prefix_fails(views, i + 1);
                }
                return Err(e);
            },
        }
        i = i + 1;
    }
    assert(views.subrange(0, views.len() as int) =~= views);
    Ok(out)
}

/// The slugs of the GitHub repositories of a listing, in the listing's
/// order. A missing projects directory gives none, and no error.
pub fn plan(listing: &Option<Vec<RepoEntry>>) -> (r: Result<Vec<String>, IssueError>)
    ensures
        match r {
            Ok(s) => slugs_of(located(*listing)) == Some(texts(s@)),
            Err(e) => slugs_of(located(*listing)) is None && e == IssueError::MalformedRemoteUrl,
        },
        listing is None ==> (r matches Ok(s) && s@.len() == 0),
{
    let cands = locate(listing);
    let r = resolve_all(&cands);
    proof {
        if listing is None {
            assert(cands@.map_values(|c: RemoteCandidate| c@) =~= Seq::empty());
            assert(slugs_of(Seq::empty()) == Some(Seq::<Seq<char>>::empty()));
            if r is Ok {
                assert(texts(r->Ok_0@).len() == r->Ok_0@.len());
            }
        }
    }
    r
}

/// The arguments of the command-line client that ask GitHub's API for the
/// issues of repository `slug`.
pub fn fetch_args(slug: &str) -> (r: Vec<String>)
    ensures
        texts(r@) == seq!["api"@, "repos/"@ + slug@ + "/issues"@],
{
    let mut endpoint = String::from_str("repos/");
    endpoint.append(slug);
    endpoint.append("/issues");
    let mut args: Vec<String> = Vec::new();
    args.push(String::from_str("api"));
    args.push(endpoint);
    assert(texts(args@) =~= seq!["api"@, "repos/"@ + slug@ + "/issues"@]);
    args
}

/// Reads the raw issue records out of what the client reported: it must
/// have succeeded and written UTF-8 text that is a JSON array.
pub fn fetched_records(out: &ToolOutput) -> (r: Result<Vec<JsonValue>, IssueError>)
    ensures
        match r {
            Ok(items) => fetched(*out) == Ok::<Seq<JsonValue>, IssueError>(items@),
            Err(e) => fetched(*out) == Err::<Seq<JsonValue>, IssueError>(e),
        },
{
    if !out.success {
        return Err(IssueError::FetchFailed);
    }
    match text_from_utf8(out.stdout.clone()) {
        Ok(text) => match parse_json(text.as_str()) {
            Some(JsonValue::Array(items)) => Ok(items),
            _ => Err(IssueError::FetchDecodeError),
        },
        Err(_) => Err(IssueError::FetchDecodeError),
    }
}

/// The issues of repository `slug` in what the client reported: none where
/// the run failed or its output is not a JSON array.
pub fn issues_from_output(slug: &str, out: &ToolOutput) -> (r: Vec<Issue>)
    ensures
        issue_views(r@) == match fetched(*out) {
            Ok(items) => normalized_all(slug@, items),
            Err(_) => Seq::empty(),
        },
{
    match fetched_records(out) {
        Ok(items) => normalize_all(slug, &items),
        Err(_) => {
            let r: Vec<Issue> = Vec::new();
            assert(issue_views(r@) =~= Seq::empty());
            r
        },
    }
}

/// Joins the issues of each repository, in the order of `slugs`, where
/// `outputs[i]` is what the client reported for `slugs[i]`. A repository
/// whose run failed, or whose output cannot be read, adds nothing; none of
/// them is an error.
pub fn collect_issues(slugs: &Vec<String>, outputs: &Vec<ToolOutput>) -> (r: Vec<Issue>)
    requires
        slugs@.len() == outputs@.len(),
    ensures
        issue_views(r@) == gathered(texts(slugs@), outputs@),
{
    let ghost names = texts(slugs@);
    let mut all: Vec<Issue> = Vec::new();
    let mut i: usize = 0;
    while i < outputs.len()
        invariant
            i <= outputs@.len(),
            slugs@.len() == outputs@.len(),
            names == texts(slugs@),
            issue_views(all@) == gathered(names.subrange(0, i as int), outputs@.subrange(0, i as int)),
        decreases outputs@.len() - i,
    {
        let ghost ns = names.subrange(0, i + 1);
        let ghost os = outputs@.subrange(0, i + 1);
        assert(ns.drop_last() =~= names.subrange(0, i as int));
        assert(os.drop_last() =~= outputs@.subrange(0, i as int));
        assert(ns.last() == slugs@[i as int]@);
        assert(os.last() == outputs@[i as int]);
        let mut more = issues_from_output(slugs[i].as_str(), &outputs[i]);
        let ghost before = all@;
        let ghost added = more@;
        all.append(&mut more);
        assert(all@ =~= before + added);
        assert(issue_views(all@) =~= issue_views(before) + issue_views(added));
        i = i + 1;
    }
    assert(names.subrange(0, i as int) =~= names);
    assert(outputs@.subrange(0, i as int) =~= outputs@);
    all
}

/// What a run of the command-line client gives its caller: the text it
/// wrote when it succeeded, else the text of its error stream; output that
/// is not UTF-8 gives the decoding error's message.
pub fn command_outcome(out: &ToolOutput) -> (r: Result<String, String>)
    ensures
        match r {
            Ok(s) => command_result(*out) == Ok::<Seq<char>, Seq<char>>(s@),
            Err(e) => command_result(*out) == Err::<Seq<char>, Seq<char>>(e@),
        },
{
    if out.success {
        text_from_utf8(out.stdout.clone())
    } else {
        Err(text_from_utf8_lossy(&out.stderr))
    }
}

/// Without a projects directory there is nothing to ask for and no error:
/// the plan is empty, and an empty plan gathers no issues.
pub proof fn lemma_missing_root_gives_no_issues(outs: Seq<ToolOutput>)
    ensures
        slugs_of(located(None)) == Some(Seq::<Seq<char>>::empty()),
        gathered(Seq::empty(), outs) == Seq::<IssueView>::empty(),
{
    assert(located(None) =~= Seq::<(Seq<char>, Seq<char>)>::empty());
}

/// Where a prefix of the candidates has a URL without a slug, so do all of
/// them.
proof fn lemma_slugs_of_prefix_fails(v: Seq<(Seq<char>, Seq<char>)>, k: int)
    requires
        0 <= k <= v.len(),
        slugs_of(v.subrange(0, k)) is None,
    ensures
        slugs_of(v) is None,
    decreases v.len() - k,
{
    if k == v.len() {
        assert(v.subrange(0, k) =~= v);
    } else {
        assert(v.subrange(0, k + 1).drop_last() =~= v.subrange(0, k));
        lemma_slugs_of_prefix_fails(v, k + 1);
    }
}

} // verus!
