//! Registry entries: decoding a file's bytes, reading its fields, and
//! extracting the repository URLs that the index is built from.

use vstd::prelude::*;
use crate::text::{contains, occurs_in};

verus! {

/// What a registry document holds, as far as the index reads it: the `title`
/// string, and for a `repo` array the `url` string of each element.
pub struct DocumentFields {
    pub title: Option<String>,
    pub repo_urls: Option<Vec<Option<String>>>,
}

/// The mathematical content of a `DocumentFields`.
pub struct FieldsView {
    pub title: Option<Seq<char>>,
    pub repo_urls: Option<Seq<Option<Seq<char>>>>,
}

/// One parsed project record: its display name and the URL slot of each
/// declared repository record (`None` where the record has no string `url`).
pub struct RegistryEntry {
    pub title: String,
    pub repo_urls: Vec<Option<String>>,
}

/// The mathematical content of a `RegistryEntry`.
pub struct EntryView {
    pub title: Seq<char>,
    pub repo_urls: Seq<Option<Seq<char>>>,
}

pub open spec fn opt_str_view(o: Option<String>) -> Option<Seq<char>> {
    match o {
        Some(s) => Some(s@),
        None => None,
    }
}

pub open spec fn url_slots_view(v: Seq<Option<String>>) -> Seq<Option<Seq<char>>> {
    v.map_values(|o: Option<String>| opt_str_view(o))
}

impl View for DocumentFields {
    type V = FieldsView;

    open spec fn view(&self) -> FieldsView {
        FieldsView {
            title: opt_str_view(self.title),
            repo_urls: match self.repo_urls {
                Some(v) => Some(url_slots_view(v@)),
                None => None,
            },
        }
    }
}

impl View for RegistryEntry {
    type V = EntryView;

    open spec fn view(&self) -> EntryView {
        EntryView { title: self.title@, repo_urls: url_slots_view(self.repo_urls@) }
    }
}

/// Why a file yields no registry entry.
#[derive(Debug, PartialEq, Eq)]
pub enum ParseError {
    /// The content is not a well-formed TOML document.
    MalformedDocument,
    /// A required field is absent or is not a string; it carries the field's name.
    MissingField(String),
}

/// The text that `String::from_utf8_lossy` makes of `bytes`.
pub uninterp spec fn lossy_utf8(bytes: Seq<u8>) -> Seq<char>;

/// The fields that TOML parsing reads from `text`, or `None` where `text` is not a TOML document.
pub uninterp spec fn toml_fields(text: Seq<char>) -> Option<FieldsView>;

/// Relies on `String::from_utf8_lossy`: invalid sequences are replaced, never rejected,
/// and the result depends on the bytes alone.
#[verifier::external_body]
fn decode_lossy(bytes: &[u8]) -> (r: String)
    ensures
        r@ == lossy_utf8(bytes@),
        bytes@.len() == 0 ==> r@.len() == 0,
{
    String::from_utf8_lossy(bytes).into_owned()
}

/// Relies on `toml::from_str` into a `toml::Value`, read with `Value::get`,
/// `Value::as_str` and `Value::as_array`: the top-level `title` when it is a
/// string, and when `repo` is an array the `url` string of each element.
/// The result depends on the text alone.
#[verifier::external_body]
fn read_fields(text: &str) -> (r: Option<DocumentFields>)
    ensures
        match r {
            Some(f) => toml_fields(text@) == Some(f@),
            None => toml_fields(text@) is None,
        },
{
    let doc: toml::Value = toml::from_str(text).ok()?;
    Some(DocumentFields {
        title: doc.get("title").and_then(toml::Value::as_str).map(String::from),
        repo_urls: doc.get("repo").and_then(toml::Value::as_array).map(|a| {
            a.iter().map(|r| r.get("url").and_then(toml::Value::as_str).map(String::from)).collect()
        }),
    })
}

/// `r` is the entry, or the error, that the fields `f` of a document give.
pub open spec fn entry_from(f: FieldsView, r: Result<RegistryEntry, ParseError>) -> bool {
    match r {
        Ok(e) => f.title == Some(e@.title) && e@.repo_urls == match f.repo_urls {
            Some(u) => u,
            None => Seq::empty(),
        },
        Err(e) => f.title is None && (e matches ParseError::MissingField(n) && n@ == "title"@),
    }
}

/// `r` is what parsing the document text `text` gives.
pub open spec fn parsed_from(text: Seq<char>, r: Result<RegistryEntry, ParseError>) -> bool {
    match toml_fields(text) {
        Some(f) => entry_from(f, r),
        None => r matches Err(ParseError::MalformedDocument),
    }
}

/// Turns the fields read from a document into an entry: a missing `title` is
/// an error, a missing `repo` array means no repository records.
pub fn entry_from_fields(fields: DocumentFields) -> (r: Result<RegistryEntry, ParseError>)
    ensures
        entry_from(fields@, r),
{
    match fields.title {
        None => Err(ParseError::MissingField(String::from_str("title"))),
        Some(title) => {
            let repo_urls = match fields.repo_urls {
                Some(v) => v,
                None => Vec::new(),
            };
            proof {
                assert(url_slots_view(Seq::<Option<String>>::empty()) =~= Seq::empty());
            }
            Ok(RegistryEntry { title, repo_urls })
        },
    }
}

/// Parses one registry file: its bytes are decoded leniently, then read as TOML.
pub fn parse_entry(content: &[u8]) -> (r: Result<RegistryEntry, ParseError>)
    ensures
        parsed_from(lossy_utf8(content@), r),
{
    let text = decode_lossy(content);
    match read_fields(text.as_str()) {
        None => Err(ParseError::MalformedDocument),
        Some(fields) => entry_from_fields(fields),
    }
}

/// The marker that a supported repository URL contains.
pub open spec fn host_marker() -> Seq<char> {
    "github.com"@
}

/// The URLs among `slots` that are present and contain the host marker, in order.
pub open spec fn hosted_urls(slots: Seq<Option<Seq<char>>>) -> Seq<Seq<char>>
    decreases slots.len(),
{
    if slots.len() == 0 {
        Seq::empty()
    } else {
        let prev = hosted_urls(slots.drop_last());
        match slots.last() {
            Some(u) => if occurs_in(host_marker(), u) {
                prev.push(u)
            } else {
                prev
            },
            None => prev,
        }
    }
}

/// The project name of `entry` and its declared URLs on the supported host, in
/// declaration order; records without a URL or on another host are dropped.
pub fn extract(entry: &RegistryEntry) -> (r: (String, Vec<String>))
    ensures
        r.0@ == entry@.title,
        r.1.deep_view() == hosted_urls(entry@.repo_urls),
{
    let ghost slots = entry@.repo_urls;
    let mut urls: Vec<String> = Vec::new();
    let mut i: usize = 0;
    while i < entry.repo_urls.len()
        invariant
            slots == entry@.repo_urls,
            slots.len() == entry.repo_urls.len(),
            i <= slots.len(),
            urls.deep_view() == hosted_urls(slots.take(i as int)),
        decreases entry.repo_urls.len() - i,
    {
        proof {
            assert(slots.take(i + 1).drop_last() =~= slots.take(i as int));
        }
        match &entry.repo_urls[i] {
            Some(u) => {
                if contains(u.as_str(), "github.com") {
                    urls.push(u.clone());
                    assert(urls.deep_view() =~= hosted_urls(slots.take(i as int)).push(u@));
                }
            },
            None => {},
        }
        i = i + 1;
    }
    assert(slots.take(i as int) =~= slots);
    (entry.title.clone(), urls)
}

} // verus!
