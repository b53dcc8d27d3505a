//! Selection of the changed registry files between two snapshots.

use vstd::prelude::*;
use crate::text::{ends_with, starts_with};

verus! {

/// One file-level change between an older and a newer snapshot, as the
/// snapshot provider reports it: the path, and the blob id on each side
/// (`None` where the file is absent on that side).
pub struct FileDelta {
    pub path: String,
    pub old_blob: Option<String>,
    pub new_blob: Option<String>,
}

/// The mathematical content of a `FileDelta`.
pub struct DeltaView {
    pub path: Seq<char>,
    pub old_blob: Option<Seq<char>>,
    pub new_blob: Option<Seq<char>>,
}

pub open spec fn opt_view(o: Option<String>) -> Option<Seq<char>> {
    match o {
        Some(s) => Some(s@),
        None => None,
    }
}

impl View for FileDelta {
    type V = DeltaView;

    open spec fn view(&self) -> DeltaView {
        DeltaView {
            path: self.path@,
            old_blob: opt_view(self.old_blob),
            new_blob: opt_view(self.new_blob),
        }
    }
}

/// Which paths count as registry files: those with the given extension that
/// lie under the given root directory.
pub struct PathFilter {
    pub extension: String,
    pub root: String,
}

/// The final component of `path` is a non-empty stem, a dot, and `ext`.
pub open spec fn has_extension(path: Seq<char>, ext: Seq<char>) -> bool {
    let dotted = seq!['.'] + ext;
    &&& dotted.is_suffix_of(path)
    &&& path.len() > dotted.len()
    &&& path[path.len() - dotted.len() - 1] != '/'
}

/// `path` lies below the directory `root`, compared component by component.
pub open spec fn under_root(path: Seq<char>, root: Seq<char>) -> bool {
    &&& root.is_prefix_of(path)
    &&& path.len() > root.len()
    &&& path[root.len() as int] == '/'
}

/// `path` passes the filter with extension `ext` and root `root`.
pub open spec fn in_scope(path: Seq<char>, ext: Seq<char>, root: Seq<char>) -> bool {
    has_extension(path, ext) && under_root(path, root)
}

/// The delta leaves a file at the newer snapshot whose content differs from the older one.
pub open spec fn is_changed(d: DeltaView) -> bool {
    d.new_blob is Some && d.new_blob != d.old_blob
}

/// The paths of the changed deltas that pass the filter, in delta order.
pub open spec fn selected(deltas: Seq<DeltaView>, ext: Seq<char>, root: Seq<char>) -> Seq<Seq<char>>
    decreases deltas.len(),
{
    if deltas.len() == 0 {
        Seq::empty()
    } else {
        let d = deltas.last();
        let prev = selected(deltas.drop_last(), ext, root);
        if is_changed(d) && in_scope(d.path, ext, root) {
            prev.push(d.path)
        } else {
            prev
        }
    }
}

pub open spec fn deltas_view(deltas: Seq<FileDelta>) -> Seq<DeltaView> {
    deltas.map_values(|d: FileDelta| d@)
}

impl PathFilter {
    /// The registry's layout: TOML files under `data/ecosystems`.
    pub fn registry() -> (r: PathFilter)
        ensures
            r.extension@ == "toml"@,
            r.root@ == "data/ecosystems"@,
    {
        PathFilter {
            extension: String::from_str("toml"),
            root: String::from_str("data/ecosystems"),
        }
    }

    /// Whether `path` passes this filter.
    pub fn accepts(&self, path: &str) -> (r: bool)
        ensures
            r == in_scope(path@, self.extension@, self.root@),
    {
        let mut dotted = String::from_str(".");
        dotted.append(self.extension.as_str());
        proof {
            reveal_strlit(".");
        }
        assert(dotted@ =~= seq!['.'] + self.extension@);
        let n = path.unicode_len();
        let d = dotted.unicode_len();
        let ext_ok = ends_with(path, dotted.as_str()) && n > d && path.get_char(n - d - 1) != '/';
        let r = self.root.unicode_len();
        let root_ok = starts_with(path, self.root.as_str()) && n > r && path.get_char(r) == '/';
        ext_ok && root_ok
    }
}

fn same_blob(a: &Option<String>, b: &Option<String>) -> (r: bool)
    ensures
        r == (opt_view(*a) == opt_view(*b)),
{
    match a {
        Some(x) => match b {
            Some(y) => {
                let r = *x == *y;
                assert(opt_view(*a) == opt_view(*b) ==> x@ == y@);
                r
            },
            None => false,
        },
        None => b.is_none(),
    }
}

/// The paths of the deltas that leave changed content at the newer snapshot
/// and pass `filter`, in delta order. Deleted files and unchanged blobs are left out.
pub fn change_set(deltas: &Vec<FileDelta>, filter: &PathFilter) -> (r: Vec<String>)
    ensures
        r.deep_view() == selected(deltas_view(deltas@), filter.extension@, filter.root@),
        forall|k: int|
            0 <= k < r.len() ==> in_scope(#[trigger] r[k]@, filter.extension@, filter.root@),
{
    let ghost ds = deltas_view(deltas@);
    let ghost ext = filter.extension@;
    let ghost root = filter.root@;
    let mut out: Vec<String> = Vec::new();
    let mut i: usize = 0;
    while i < deltas.len()
        invariant
            ds == deltas_view(deltas@),
            ext == filter.extension@,
            root == filter.root@,
            ds.len() == deltas.len(),
            i <= ds.len(),
            out.deep_view() == selected(ds.take(i as int), ext, root),
            forall|k: int| 0 <= k < out.len() ==> in_scope(#[trigger] out[k]@, ext, root),
        decreases deltas.len() - i,
    {
        proof {
            assert(ds.take(i + 1).drop_last() =~= ds.take(i as int));
            assert(ds.take(i + 1).last() == deltas[i as int]@);
        }
        let d = &deltas[i];
        if d.new_blob.is_some() && !same_blob(&d.old_blob, &d.new_blob) && filter.accepts(
            d.path.as_str(),
        ) {
            let ghost before = out.deep_view();
            out.push(d.path.clone());
            assert(out.deep_view() =~= before.push(d.path@));
        }
        i = i + 1;
    }
    assert(ds.take(i as int) =~= ds);
    out
}

/// Where every delta keeps the same blob on both sides, as between a snapshot
/// and itself, nothing is selected.
pub proof fn lemma_unchanged_selects_nothing(
    deltas: Seq<DeltaView>,
    ext: Seq<char>,
    root: Seq<char>,
)
    requires
        forall|k: int| 0 <= k < deltas.len() ==> (#[trigger] deltas[k]).old_blob == deltas[k].new_blob,
    ensures
        selected(deltas, ext, root).len() == 0,
    decreases deltas.len(),
{
    if deltas.len() > 0 {
        assert(deltas.last() == deltas[deltas.len() - 1]);
        lemma_unchanged_selects_nothing(deltas.drop_last(), ext, root);
    }
}

/// Every selected path passes the filter.
pub proof fn lemma_selected_in_scope(deltas: Seq<DeltaView>, ext: Seq<char>, root: Seq<char>)
    ensures
        forall|k: int|
            0 <= k < selected(deltas, ext, root).len() ==> in_scope(
                #[trigger] selected(deltas, ext, root)[k],
                ext,
                root,
            ),
    decreases deltas.len(),
{
    if deltas.len() > 0 {
        lemma_selected_in_scope(deltas.drop_last(), ext, root);
        let prev = selected(deltas.drop_last(), ext, root);
        let cur = selected(deltas, ext, root);
        assert forall|k: int| 0 <= k < cur.len() implies in_scope(#[trigger] cur[k], ext, root) by {
            if k < prev.len() {
                assert(cur[k] == prev[k]);
            }
        }
    }
}

} // verus!
