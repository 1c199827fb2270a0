use vstd::prelude::*;

use crate::sample_scan::{library_roots, RootListing};
use crate::sample_tree::{SampleBrowserState, TreeLine};
use crate::session::{paths_equal, same_path, views};

verus! {

/// The sample browser panel: the browser over the library it was last built for, and the
/// keys of the sample on preview and of the one being decoded. (The decoded audio and the
/// decoding thread live with the window code.) Folder paths are compared as paths (see
/// [`same_path`]).
pub struct SampleBrowserPanel {
    pub open: bool,
    pub detached: bool,
    pub state: Option<SampleBrowserState>,
    pub last_paths: Vec<String>,
    pub default_path: Option<String>,
    pub preview_key: Option<String>,
    pub pending_key: Option<String>,
}

/// The view of an optional string.
pub open spec fn opt_view(s: Option<String>) -> Option<Seq<char>> {
    match s {
        Some(x) => Some(x@),
        None => None,
    }
}

/// The key a sample is previewed under: its folder, a colon, its name.
pub open spec fn preview_key(entry: TreeLine) -> Seq<char> {
    entry.folder@ + ":"@ + entry.label@
}

/// The folder lists `a` and `b` name the same folders, in the same order, as paths.
pub open spec fn same_paths(a: Seq<Seq<char>>, b: Seq<Seq<char>>) -> bool {
    &&& a.len() == b.len()
    &&& forall|i: int| 0 <= i < a.len() ==> same_path(#[trigger] a[i], b[i])
}

/// Both folders are missing, or both are there and the same path.
pub open spec fn same_opt_path(a: Option<Seq<char>>, b: Option<Seq<char>>) -> bool {
    match (a, b) {
        (Some(x), Some(y)) => same_path(x, y),
        (None, None) => true,
        _ => false,
    }
}

fn paths_eq(a: &Vec<String>, b: &Vec<String>) -> (r: bool)
    ensures
        r == same_paths(views(a@), views(b@)),
{
    if a.len() != b.len() {
        return false;
    }
    let mut i: usize = 0;
    while i < a.len()
        invariant
            a@.len() == b@.len(),
            i <= a@.len(),
            forall|k: int| 0 <= k < i ==> same_path(a@[k]@, b@[k]@),
        decreases a@.len() - i,
    {
        if !paths_equal(a[i].as_str(), b[i].as_str()) {
            proof {
                assert(!same_path(views(a@)[i as int], views(b@)[i as int]));
            }
            return false;
        }
        i += 1;
    }
    proof {
        assert forall|k: int| 0 <= k < views(a@).len() implies same_path(
            #[trigger] views(a@)[k],
            views(b@)[k],
        ) by {
            assert(same_path(a@[k]@, b@[k]@));
        }
    }
    true
}

fn opt_path_eq(a: &Option<String>, b: &Option<String>) -> (r: bool)
    ensures
        r == same_opt_path(opt_view(*a), opt_view(*b)),
{
    match (a, b) {
        (Some(x), Some(y)) => paths_equal(x.as_str(), y.as_str()),
        (None, None) => true,
        _ => false,
    }
}

impl SampleBrowserPanel {
    /// A closed panel over no library.
    pub fn new() -> (r: Self)
        ensures
            !r.open,
            !r.detached,
            r.state is None,
            r.last_paths@.len() == 0,
            r.default_path is None,
            r.preview_key is None,
            r.pending_key is None,
    {
        SampleBrowserPanel {
            open: false,
            detached: false,
            state: None,
            last_paths: Vec::new(),
            default_path: None,
            preview_key: None,
            pending_key: None,
        }
    }

    /// Whether the library folders differ from those the browser was built for: some pair of
    /// folders differs as paths (or their number differs), or the default folder does.
    pub fn paths_changed(&self, default_path: &Option<String>, paths: &Vec<String>) -> (r: bool)
        ensures
            r == (!same_paths(views(self.last_paths@), views(paths@)) || !same_opt_path(
                opt_view(self.default_path),
                opt_view(*default_path),
            )),
    {
        !paths_eq(&self.last_paths, paths) || !opt_path_eq(&self.default_path, default_path)
    }

    /// Rebuilds the browser for new library folders (their listings given): no browser when
    /// there is no folder at all; the preview is dropped.
    pub fn reset_library(
        &mut self,
        default_path: Option<String>,
        paths: Vec<String>,
        default_root: Option<RootListing>,
        user_roots: Vec<RootListing>,
    )
        ensures
            final(self).last_paths@ == paths@,
            final(self).default_path == default_path,
            final(self).preview_key is None,
            final(self).pending_key == old(self).pending_key,
            final(self).open == old(self).open,
            final(self).detached == old(self).detached,
            if paths@.len() == 0 && default_path is None {
                final(self).state is None
            } else {
                final(self).state matches Some(s) && library_roots(
                    s@.tree.roots(),
                    s@.tree.default_count(),
                    default_root,
                    user_roots@,
                ) && s@.cursor == 0 && s@.scroll_offset == 0 && s@.search_query
                    == Seq::<char>::empty() && s@.filter is None && s@.entries == s@.tree.lines()
            },
    {
        let empty = paths.len() == 0 && default_path.is_none();
        self.last_paths = paths;
        self.default_path = default_path;
        self.state = if empty {
            None
        } else {
            Some(SampleBrowserState::new(default_root, user_roots))
        };
        self.preview_key = None;
    }

    /// The preview key of a sample (see [`preview_key`]).
    pub fn preview_key_of(entry: &TreeLine) -> (r: String)
        ensures
            r@ == preview_key(*entry),
    {
        entry.folder.clone().concat(":").concat(entry.label.as_str())
    }

    /// Whether a sample under `key` is to be decoded: not when it is on preview already or
    /// being decoded.
    pub fn needs_preview(&self, key: &String) -> (r: bool)
        ensures
            r == (opt_view(self.preview_key) != Some(key@) && opt_view(self.pending_key) != Some(
                key@,
            )),
    {
        let shown = match &self.preview_key {
            Some(k) => *k == *key,
            None => false,
        };
        let pending = match &self.pending_key {
            Some(k) => *k == *key,
            None => false,
        };
        !shown && !pending
    }

    /// The sample under `key` is being decoded.
    pub fn mark_pending(&mut self, key: String)
        ensures
            opt_view(final(self).pending_key) == Some(key@),
            final(self).preview_key == old(self).preview_key,
    {
        self.pending_key = Some(key);
    }

    /// The sample under `key` was decoded and is on preview.
    pub fn preview_ready(&mut self, key: String)
        ensures
            opt_view(final(self).preview_key) == Some(key@),
            final(self).pending_key is None,
    {
        self.pending_key = None;
        self.preview_key = Some(key);
    }
}

} // verus!
