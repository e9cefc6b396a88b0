//! The issue record, and the rules that turn one raw record of the GitHub API
//! into it or drop it.
use vstd::prelude::*;
use crate::json::{JsonValue, field_of, int_field, text_field, get_field, get_int, get_text};

verus! {

/// One issue of one repository.
#[derive(Debug)]
pub struct Issue {
    /// The `owner/repo` slug of the repository.
    pub repo: String,
    pub number: i32,
    pub title: String,
    /// The issue's page on the web.
    pub url: String,
    /// As the API reports it, such as `open` or `closed`.
    pub state: String,
    pub labels: Vec<String>,
}

/// What an `Issue` holds, as sequences of characters.
pub struct IssueView {
    pub repo: Seq<char>,
    pub number: i32,
    pub title: Seq<char>,
    pub url: Seq<char>,
    pub state: Seq<char>,
    pub labels: Seq<Seq<char>>,
}

/// The characters of each string, in order.
pub open spec fn texts(s: Seq<String>) -> Seq<Seq<char>> {
    s.map_values(|t: String| t@)
}

impl View for Issue {
    type V = IssueView;

    open spec fn view(&self) -> IssueView {
        IssueView {
            repo: self.repo@,
            number: self.number,
            title: self.title@,
            url: self.url@,
            state: self.state@,
            labels: texts(self.labels@),
        }
    }
}

/// The views of a sequence of issues.
pub open spec fn issue_views(s: Seq<Issue>) -> Seq<IssueView> {
    s.map_values(|i: Issue| i@)
}

/// The `name` strings of the label entries, in order; entries without one
/// are left out.
pub open spec fn names_of(entries: Seq<JsonValue>) -> Seq<Seq<char>>
    decreases entries.len(),
{
    if entries.len() == 0 {
        Seq::empty()
    } else {
        let before = names_of(entries.drop_last());
        match text_field(entries.last(), "name"@) {
            Some(n) => before.push(n),
            None => before,
        }
    }
}

/// The label names of a raw record: none where `labels` is absent or is not
/// an array.
pub open spec fn label_names(raw: JsonValue) -> Seq<Seq<char>> {
    match field_of(raw, "labels"@) {
        Some(JsonValue::Array(entries)) => names_of(entries@),
        _ => Seq::empty(),
    }
}

/// The issue that a raw record of repository `slug` stands for: present only
/// where the record has an integer `number` and string `title`, `html_url`
/// and `state`. The number is kept in 32 bits, as a cast keeps it.
pub open spec fn normalized(slug: Seq<char>, raw: JsonValue) -> Option<IssueView> {
    match (
        int_field(raw, "number"@),
        text_field(raw, "title"@),
        text_field(raw, "html_url"@),
        text_field(raw, "state"@),
    ) {
        (Some(n), Some(title), Some(url), Some(state)) => Some(
            IssueView { repo: slug, number: n as i32, title, url, state, labels: label_names(raw) },
        ),
        _ => None,
    }
}

/// The issues that a batch of raw records stands for, in the batch's order,
/// without the records that are dropped.
pub open spec fn normalized_all(slug: Seq<char>, raws: Seq<JsonValue>) -> Seq<IssueView>
    decreases raws.len(),
{
    if raws.len() == 0 {
        Seq::empty()
    } else {
        let before = normalized_all(slug, raws.drop_last());
        match normalized(slug, raws.last()) {
            Some(i) => before.push(i),
            None => before,
        }
    }
}

/// Normalizing two batches one after the other gives what normalizing the
/// joined batch gives.
pub proof fn lemma_normalized_all_append(slug: Seq<char>, a: Seq<JsonValue>, b: Seq<JsonValue>)
    ensures
        normalized_all(slug, a + b) == normalized_all(slug, a) + normalized_all(slug, b),
    decreases b.len(),
{
    if b.len() == 0 {
        assert(a + b =~= a);
        assert(normalized_all(slug, a) + normalized_all(slug, b) =~= normalized_all(slug, a));
    } else {
        let rest = b.drop_last();
        assert((a + b).drop_last() =~= a + rest);
        assert((a + b).last() == b.last());
        lemma_normalized_all_append(slug, a, rest);
        match normalized(slug, b.last()) {
            Some(i) => {
                assert(normalized_all(slug, a) + normalized_all(slug, b)
                    =~= (normalized_all(slug, a) + normalized_all(slug, rest)).push(i));
            },
            None => {},
        }
    }
}

/// A record without a string `title` is dropped from its batch, and every
/// other record of the batch gives what it gives alone, in the batch's order.
pub proof fn lemma_untitled_record_dropped(
    slug: Seq<char>,
    before: Seq<JsonValue>,
    raw: JsonValue,
    after: Seq<JsonValue>,
)
    requires
        text_field(raw, "title"@) is None,
    ensures
        normalized_all(slug, before + seq![raw] + after)
            == normalized_all(slug, before) + normalized_all(slug, after),
{
    lemma_normalized_all_append(slug, before + seq![raw], after);
    lemma_normalized_all_append(slug, before, seq![raw]);
    assert(seq![raw].drop_last() =~= Seq::<JsonValue>::empty());
    assert(seq![raw].last() == raw);
    assert(normalized(slug, raw) is None);
    assert(normalized_all(slug, Seq::<JsonValue>::empty()) =~= Seq::<IssueView>::empty());
    assert(normalized_all(slug, seq![raw]) =~= Seq::<IssueView>::empty());
    assert(normalized_all(slug, before) + Seq::<IssueView>::empty() =~= normalized_all(slug, before));
}

/// Extracts the label names of a raw record.
pub fn extract_labels(raw: &JsonValue) -> (r: Vec<String>)
    ensures
        texts(r@) == label_names(*raw),
{
    let mut names: Vec<String> = Vec::new();
    match get_field(raw, "labels") {
        Some(JsonValue::Array(entries)) => {
            let mut i: usize = 0;
            while i < entries.len()
                invariant
                    i <= entries@.len(),
                    texts(names@) == names_of(entries@.subrange(0, i as int)),
                decreases entries@.len() - i,
            {
                let ghost prefix = entries@.subrange(0, i + 1);
                assert(prefix.drop_last() =~= entries@.subrange(0, i as int));
                assert(prefix.last() == entries@[i as int]);
                match get_text(&entries[i], "name") {
                    Some(n) => {
                        names.push(n.clone());
                        assert(texts(names@) =~= names_of(prefix));
                    },
                    None => {},
                }
                i = i + 1;
            }
            assert(entries@.subrange(0, entries@.len() as int) =~= entries@);
        },
        _ => {},
    }
    names
}

/// Turns one raw record of repository `slug` into an issue, or drops it.
/// The same record always gives the same outcome.
pub fn normalize(slug: &str, raw: &JsonValue) -> (r: Option<Issue>)
    ensures
        match r {
            Some(i) => normalized(slug@, *raw) == Some(i@),
            None => normalized(slug@, *raw) is None,
        },
{
    let number = get_int(raw, "number");
    let title = get_text(raw, "title");
    let url = get_text(raw, "html_url");
    let state = get_text(raw, "state");
    match (number, title, url, state) {
        (Some(n), Some(title), Some(url), Some(state)) => {
            let labels = extract_labels(raw);
            Some(Issue {
                repo: String::from_str(slug),
                number: n as i32,
                title: title.clone(),
                url: url.clone(),
                state: state.clone(),
                labels,
            })
        },
        _ => None,
    }
}

/// Turns a batch of raw records of repository `slug` into issues, keeping the
/// batch's order and dropping the records that lack a required field.
pub fn normalize_all(slug: &str, raws: &Vec<JsonValue>) -> (r: Vec<Issue>)
    ensures
        issue_views(r@) == normalized_all(slug@, raws@),
{
    let mut out: Vec<Issue> = Vec::new();
    let mut i: usize = 0;
    while i < raws.len()
        invariant
            i <= raws@.len(),
            issue_views(out@) == normalized_all(slug@, raws@.subrange(0, i as int)),
        decreases raws@.len() - i,
    {
        let ghost prefix = raws@.subrange(0, i + 1);
        assert(prefix.drop_last() =~= raws@.subrange(0, i as int));
        assert(prefix.last() == raws@[i as int]);
        match normalize(slug, &raws[i]) {
            Some(issue) => {
                out.push(issue);
                assert(issue_views(out@) =~= normalized_all(slug@, prefix));
            },
            None => {},
        }
        i = i + 1;
    }
    assert(raws@.subrange(0, raws@.len() as int) =~= raws@);
    out
}

} // verus!
