//! Composes parsing, extraction and derivation into a project index.

use vstd::prelude::*;
use crate::candidate::{all_candidates, get_readme_urls};
use crate::text::occurs_in;
use crate::entry::{
    extract, host_marker, hosted_urls, parse_entry, parsed_from, lossy_utf8, toml_fields, EntryView,
    FieldsView, ParseError, RegistryEntry,
};
use crate::index::{merged, IndexView, ProjectIndex};

verus! {

/// The candidates that one entry contributes, in URL order.
pub open spec fn contribution(e: EntryView) -> Seq<Seq<char>> {
    all_candidates(hosted_urls(e.repo_urls))
}

/// The index that the entries give, merged in order.
pub open spec fn index_of(entries: Seq<EntryView>) -> IndexView
    decreases entries.len(),
{
    if entries.len() == 0 {
        Seq::empty()
    } else {
        let e = entries.last();
        merged(index_of(entries.drop_last()), e.title, contribution(e))
    }
}

pub open spec fn entries_view(entries: Seq<RegistryEntry>) -> Seq<EntryView> {
    entries.map_values(|e: RegistryEntry| e@)
}

/// Builds the index of a sequence of entries: each entry's candidates are
/// merged under its name; entries without candidates add nothing.
pub fn build(entries: &Vec<RegistryEntry>) -> (r: ProjectIndex)
    ensures
        r@ == index_of(entries_view(entries@)),
        r.wf(),
{
    let ghost es = entries_view(entries@);
    let mut idx = ProjectIndex::new();
    let mut i: usize = 0;
    while i < entries.len()
        invariant
            es == entries_view(entries@),
            es.len() == entries.len(),
            i <= es.len(),
            idx.wf(),
            idx@ == index_of(es.take(i as int)),
        decreases entries.len() - i,
    {
        proof {
            assert(es.take(i + 1).drop_last() =~= es.take(i as int));
            assert(es.take(i + 1).last() == entries[i as int]@);
        }
        let (name, urls) = extract(&entries[i]);
        let cands = get_readme_urls(urls);
        idx.add(name, cands);
        i = i + 1;
    }
    assert(es.take(i as int) =~= es);
    idx
}

/// The entry that a document's fields give, if they name a title.
pub open spec fn entry_of_fields(f: FieldsView) -> Option<EntryView> {
    match f.title {
        Some(t) => Some(
            EntryView {
                title: t,
                repo_urls: match f.repo_urls {
                    Some(u) => u,
                    None => Seq::empty(),
                },
            },
        ),
        None => None,
    }
}

/// The entry that a file's bytes give, if they parse.
pub open spec fn entry_of_content(content: Seq<u8>) -> Option<EntryView> {
    match toml_fields(lossy_utf8(content)) {
        Some(f) => entry_of_fields(f),
        None => None,
    }
}

/// The entries of the files that parse, in file order.
pub open spec fn parsed_entries(files: Seq<(Seq<char>, Seq<u8>)>) -> Seq<EntryView>
    decreases files.len(),
{
    if files.len() == 0 {
        Seq::empty()
    } else {
        match entry_of_content(files.last().1) {
            Some(e) => parsed_entries(files.drop_last()).push(e),
            None => parsed_entries(files.drop_last()),
        }
    }
}

/// The content is not a TOML document at all.
pub open spec fn is_malformed(content: Seq<u8>) -> bool {
    toml_fields(lossy_utf8(content)) is None
}

/// The files that do not parse, in file order: each path, with whether the
/// document was malformed (else it lacked its title).
pub open spec fn skipped_paths(files: Seq<(Seq<char>, Seq<u8>)>) -> Seq<(Seq<char>, bool)>
    decreases files.len(),
{
    if files.len() == 0 {
        Seq::empty()
    } else {
        match entry_of_content(files.last().1) {
            Some(_) => skipped_paths(files.drop_last()),
            None => skipped_paths(files.drop_last()).push(
                (files.last().0, is_malformed(files.last().1)),
            ),
        }
    }
}

proof fn lemma_parsed(content: Seq<u8>, r: Result<RegistryEntry, ParseError>)
    requires
        parsed_from(lossy_utf8(content), r),
    ensures
        r is Ok <==> entry_of_content(content) is Some,
        r is Ok ==> entry_of_content(content) == Some(r->Ok_0@),
        r is Err ==> (r->Err_0 is MalformedDocument <==> is_malformed(content)),
        r is Err ==> (r->Err_0 is MissingField <==> !is_malformed(content)),
{
}

/// The result of indexing a batch of changed files.
pub struct BatchOutcome {
    /// The index of the entries that parsed.
    pub index: ProjectIndex,
    /// Each file that did not parse, with the reason.
    pub skipped: Vec<(String, ParseError)>,
}

/// Each skipped file's path, with whether its error is `MalformedDocument`.
pub open spec fn skipped_view(s: Seq<(String, ParseError)>) -> Seq<(Seq<char>, bool)> {
    s.map_values(|p: (String, ParseError)| (p.0@, p.1 is MalformedDocument))
}

/// Each `MissingField` error names the `title` field.
pub open spec fn missing_is_title(s: Seq<(String, ParseError)>) -> bool {
    forall|k: int|
        0 <= k < s.len() ==> ((#[trigger] s[k]).1 matches ParseError::MissingField(n) ==> n@
            == "title"@)
}

/// Indexes a batch of (path, content) files in order; a file that does not
/// parse is reported with its path and contributes nothing.
pub fn index_files(files: &Vec<(String, Vec<u8>)>) -> (r: BatchOutcome)
    ensures
        r.index@ == index_of(parsed_entries(files.deep_view())),
        r.index.wf(),
        skipped_view(r.skipped@) == skipped_paths(files.deep_view()),
        missing_is_title(r.skipped@),
{
    let ghost fs = files.deep_view();
    let mut entries: Vec<RegistryEntry> = Vec::new();
    let mut skipped: Vec<(String, ParseError)> = Vec::new();
    let mut i: usize = 0;
    while i < files.len()
        invariant
            fs == files.deep_view(),
            fs.len() == files.len(),
            i <= fs.len(),
            entries_view(entries@) == parsed_entries(fs.take(i as int)),
            skipped_view(skipped@) == skipped_paths(fs.take(i as int)),
            missing_is_title(skipped@),
        decreases files.len() - i,
    {
        proof {
            assert(fs.take(i + 1).drop_last() =~= fs.take(i as int));
            assert(fs.take(i + 1).last() == fs[i as int]);
            assert(fs[i as int].1 =~= files@[i as int].1@);
        }
        let ghost before_e = entries_view(entries@);
        let ghost before_s = skipped_view(skipped@);
        let ghost before_raw = skipped@;
        let r = parse_entry(files[i].1.as_slice());
        proof {
            lemma_parsed(fs[i as int].1, r);
        }
        match r {
            Ok(e) => {
                entries.push(e);
                assert(skipped@ == before_raw);
                assert(entries_view(entries@) =~= before_e.push(entries@.last()@));
                assert(skipped_view(skipped@) =~= before_s);
            },
            Err(err) => {
                skipped.push((files[i].0.clone(), err));
                assert forall|k: int| 0 <= k < skipped@.len() implies ((#[trigger] skipped@[k]).1 matches ParseError::MissingField(n) ==> n@ == "title"@) by {
                    if k < before_raw.len() {
                        assert(skipped@[k] == before_raw[k]);
                    }
                }
                assert(skipped_view(skipped@) =~= before_s.push(
                    (fs[i as int].0, is_malformed(fs[i as int].1)),
                ));
                assert(entries_view(entries@) =~= before_e);
            },
        }
        i = i + 1;
    }
    assert(fs.take(i as int) =~= fs);
    BatchOutcome { index: build(&entries), skipped }
}

/// An entry with no present URL containing the host marker leaves any index
/// as it was.
pub proof fn lemma_unhosted_entry_adds_nothing(idx: IndexView, e: EntryView)
    requires
        forall|k: int|
            0 <= k < e.repo_urls.len() ==> match #[trigger] e.repo_urls[k] {
                Some(u) => !occurs_in(host_marker(), u),
                None => true,
            },
    ensures
        merged(idx, e.title, contribution(e)) == idx,
{
    lemma_no_hosted_urls(e.repo_urls);
}

proof fn lemma_no_hosted_urls(slots: Seq<Option<Seq<char>>>)
    requires
        forall|k: int|
            0 <= k < slots.len() ==> match #[trigger] slots[k] {
                Some(u) => !occurs_in(host_marker(), u),
                None => true,
            },
    ensures
        hosted_urls(slots).len() == 0,
    decreases slots.len(),
{
    if slots.len() > 0 {
        assert(slots.last() == slots[slots.len() - 1]);
        assert forall|k: int| 0 <= k < slots.drop_last().len() implies match #[trigger] slots.drop_last()[k] {
            Some(u) => !occurs_in(host_marker(), u),
            None => true,
        } by {
            assert(slots.drop_last()[k] == slots[k]);
        }
        lemma_no_hosted_urls(slots.drop_last());
    }
}

/// Indexing the same batch twice gives the same index: the outcome is a
/// function of the files' paths and contents alone.
pub proof fn lemma_index_deterministic(
    files: Seq<(Seq<char>, Seq<u8>)>,
    first: IndexView,
    second: IndexView,
)
    requires
        first == index_of(parsed_entries(files)),
        second == index_of(parsed_entries(files)),
    ensures
        first == second,
{
}

} // verus!
