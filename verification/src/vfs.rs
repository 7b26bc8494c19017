//! The virtual file store: the shared map from path to byte content that the
//! scanner, the change detector, the optimizer and the daemon work against.
//! The last write to a path wins; reading a missing path yields nothing.

use vstd::prelude::*;
use crate::concurrent::file_map_view;
use crate::concurrent::file_map_new;
use crate::concurrent::file_map_insert;
use crate::concurrent::file_map_get;
use crate::concurrent::file_map_entries;
use crate::concurrent::random_state_new;

verus! {

pub struct Vfs {
    files: crate::concurrent::FileMap,
}

impl View for Vfs {
    type V = Map<Seq<char>, Seq<u8>>;

    closed spec fn view(&self) -> Map<Seq<char>, Seq<u8>> {
        file_map_view(self.files)
    }
}

impl Vfs {
    /// The store holds entries for finitely many paths. Every store reachable
    /// through this interface satisfies this.
    pub open spec fn wf(&self) -> bool {
        self@.dom().finite()
    }

    /// An empty store.
    pub fn new() -> (r: Self)
        ensures
            r@ == Map::<Seq<char>, Seq<u8>>::empty(),
            r.wf(),
    {
        let r = Vfs { files: file_map_new(random_state_new()) };
        r
    }

    /// Replaces the content stored under `path` unconditionally.
    pub fn write_file(&mut self, path: &str, content: Vec<u8>)
        ensures
            final(self)@ == old(self)@.insert(path@, content@),
            old(self).wf() ==> final(self).wf(),
    {
        file_map_insert(&mut self.files, path.to_owned(), content);
    }

    /// The content stored under `path`, if any.
    pub fn read_file(&self, path: &str) -> (r: Option<Vec<u8>>)
        ensures
            match r {
                Some(v) => self@.dom().contains(path@) && v@ == self@[path@],
                None => !self@.dom().contains(path@),
            },
    {
        let owned = path.to_owned();
        file_map_get(&self.files, &owned)
    }

    /// A snapshot of every (path, content) pair, each path exactly once, in
    /// no promised order.
    pub fn get_all_files(&self) -> (r: Vec<(String, Vec<u8>)>)
        ensures
            forall|i: int| 0 <= i < r@.len() ==> #[trigger] self@.contains_pair(r@[i].0@, r@[i].1@),
            forall|k: Seq<char>|
                #[trigger] self@.dom().contains(k) ==> exists|i: int|
                    0 <= i < r@.len() && #[trigger] r@[i].0@ == k,
            forall|i: int, j: int| 0 <= i < j < r@.len() ==> r@[i].0@ != r@[j].0@,
    {
        file_map_entries(&self.files)
    }
}

} // verus!
