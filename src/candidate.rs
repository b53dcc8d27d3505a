//! Derivation of candidate README locations from a repository URL.

use vstd::prelude::*;
use crate::text::starts_with;

verus! {

/// The host prefix that every supported repository URL begins with.
pub open spec fn source_host() -> Seq<char> {
    "https://github"@
}

/// The raw-content host prefix that replaces `source_host()`.
pub open spec fn raw_host() -> Seq<char> {
    "https://raw.githubusercontent"@
}

/// Path of the README on the primary default branch.
pub open spec fn primary_doc() -> Seq<char> {
    "/main/README.md"@
}

/// Path of the README on the legacy default branch.
pub open spec fn legacy_doc() -> Seq<char> {
    "/master/README.md"@
}

/// The two candidates for `url`, primary branch first.
pub open spec fn candidates_of(url: Seq<char>) -> Seq<Seq<char>> {
    let rest = url.skip(source_host().len() as int);
    seq![raw_host() + rest + primary_doc(), raw_host() + rest + legacy_doc()]
}

/// Derivation depends on the URL alone: two derivations of one URL agree, and
/// each gives the primary-branch candidate first and the legacy one second,
/// on the same raw-content repository path.
pub proof fn lemma_derive_stable(url: Seq<char>, first: Seq<Seq<char>>, second: Seq<Seq<char>>)
    requires
        source_host().is_prefix_of(url),
        first == candidates_of(url),
        second == candidates_of(url),
    ensures
        first == second,
        first.len() == 2,
        first[0] == raw_host() + url.skip(source_host().len() as int) + primary_doc(),
        first[1] == raw_host() + url.skip(source_host().len() as int) + legacy_doc(),
{
}

/// Why a repository URL yields no candidates.
#[derive(Debug, Clone, Copy, PartialEq, Eq, Structural)]
pub enum DeriveError {
    /// The URL does not begin with `source_host()`.
    UnexpectedHostPrefix,
}

/// The two README candidates of a repository URL that begins with the source host.
pub fn repo_url_to_readme_url(repo_url: &str) -> (r: Vec<String>)
    requires
        source_host().is_prefix_of(repo_url@),
    ensures
        r.deep_view() == candidates_of(repo_url@),
{
    proof {
        reveal_strlit("https://github");
    }
    let rest = repo_url.substring_char(14, repo_url.unicode_len());
    let mut primary = String::from_str("https://raw.githubusercontent");
    primary.append(rest);
    primary.append("/main/README.md");
    let mut legacy = String::from_str("https://raw.githubusercontent");
    legacy.append(rest);
    legacy.append("/master/README.md");
    let r = vec![primary, legacy];
    assert(r.deep_view() =~= candidates_of(repo_url@));
    r
}

/// The README candidates of `url`, or an error if it does not begin with the source host.
pub fn derive_candidates(url: &str) -> (r: Result<Vec<String>, DeriveError>)
    ensures
        match r {
            Ok(v) => source_host().is_prefix_of(url@) && v.deep_view() == candidates_of(url@),
            Err(e) => !source_host().is_prefix_of(url@) && e == DeriveError::UnexpectedHostPrefix,
        },
{
    if starts_with(url, "https://github") {
        Ok(repo_url_to_readme_url(url))
    } else {
        Err(DeriveError::UnexpectedHostPrefix)
    }
}

/// The candidates of each URL of `urls` that begins with the source host,
/// concatenated in URL order; other URLs contribute nothing.
pub open spec fn all_candidates(urls: Seq<Seq<char>>) -> Seq<Seq<char>>
    decreases urls.len(),
{
    if urls.len() == 0 {
        Seq::empty()
    } else if source_host().is_prefix_of(urls.last()) {
        all_candidates(urls.drop_last()) + candidates_of(urls.last())
    } else {
        all_candidates(urls.drop_last())
    }
}

/// The README candidates of every repository URL of a project, in URL order;
/// a URL that `derive_candidates` rejects is skipped.
pub fn get_readme_urls(repo_urls: Vec<String>) -> (r: Vec<String>)
    ensures
        r.deep_view() == all_candidates(repo_urls.deep_view()),
{
    let ghost urls = repo_urls.deep_view();
    let mut out: Vec<String> = Vec::new();
    let mut i: usize = 0;
    while i < repo_urls.len()
        invariant
            urls == repo_urls.deep_view(),
            urls.len() == repo_urls.len(),
            i <= urls.len(),
            out.deep_view() == all_candidates(urls.take(i as int)),
        decreases repo_urls.len() - i,
    {
        proof {
            assert(urls.take(i + 1).drop_last() =~= urls.take(i as int));
            assert(urls.take(i + 1).last() == repo_urls[i as int]@);
        }
        match derive_candidates(repo_urls[i].as_str()) {
            Ok(mut pair) => {
                let ghost before = out.deep_view();
                out.append(&mut pair);
                assert(out.deep_view() =~= before + candidates_of(repo_urls[i as int]@));
            },
            Err(_) => {},
        }
        i = i + 1;
    }
    assert(urls.take(i as int) =~= urls);
    out
}

} // verus!
