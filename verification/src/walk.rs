//! The walk over the directory tree of a volume, one directory at a time.
//!
//! The walk keeps a queue of visits. A step takes the first visit off the
//! queue, reads its inode and, where that is a directory, puts a visit for
//! each of its entries behind the queue, but for the entries that lead back:
//! entries of the reserved inodes 0 and 1, the entry of the directory itself
//! and the entry of the directory it was reached from.

use crate::chain::spec_items;
use crate::defs::{
    BlockContents, DirEntryView, Ext4DirEntry, Ext4Inode, FileType, EXT4_ROOT_INO,
};
use crate::group::Ext4Fs;
use vstd::prelude::*;

verus! {

/// A place to visit: an inode, the directory that named it, and its path.
pub struct Visit {
    /// The inode of the directory in which the entry was found.
    pub parent: u64,
    /// The inode to visit.
    pub inode: u64,
    /// The path of the inode from the root.
    pub path: String,
}

/// What a visit says.
pub struct VisitView {
    /// The inode of the directory in which the entry was found.
    pub parent: u64,
    /// The inode to visit.
    pub inode: u64,
    /// The path of the inode from the root.
    pub path: Seq<char>,
}

impl View for Visit {
    type V = VisitView;

    open spec fn view(&self) -> VisitView {
        VisitView { parent: self.parent, inode: self.inode, path: self.path@ }
    }
}

/// The views of the visits, in order.
pub open spec fn visit_views(visits: Seq<Visit>) -> Seq<VisitView> {
    Seq::new(visits.len(), |i: int| visits[i]@)
}

/// Whether an entry that names `entry` is followed from the directory
/// `current`, which was reached from `parent`.
pub open spec fn spec_should_visit(parent: u64, current: u64, entry: u32) -> bool {
    entry >= 2 && entry != current && entry != parent
}

/// The text of a name: what its bytes decode to, or a mark where they are
/// not valid UTF-8.
pub open spec fn name_text(name: Seq<u8>) -> Seq<char> {
    if vstd::utf8::valid_utf8(name) {
        vstd::utf8::decode_utf8(name)
    } else {
        "<cannot parse>"@
    }
}

/// The visits that the entries of the directory `current` lead to, in the
/// order of the entries.
pub open spec fn spec_children(
    parent: u64,
    current: u64,
    path: Seq<char>,
    entries: Seq<DirEntryView>,
) -> Seq<VisitView>
    decreases entries.len(),
{
    if entries.len() == 0 {
        Seq::empty()
    } else {
        let e = entries.last();
        let before = spec_children(parent, current, path, entries.drop_last());
        if spec_should_visit(parent, current, e.inode) {
            before.push(
                VisitView {
                    parent: current,
                    inode: e.inode as u64,
                    path: path + "/"@ + name_text(e.name),
                },
            )
        } else {
            before
        }
    }
}

/// The visits that the visit `v` leads to in the volume `fs`: none where
/// its inode is not found or is no directory, else those of its entries.
pub open spec fn spec_next_visits(fs: &Ext4Fs, v: VisitView) -> Seq<VisitView> {
    if !fs.spec_inode_found(v.inode) {
        Seq::empty()
    } else {
        let inode = choose|inode: Ext4Inode|
            inode.decoded_from(fs.file@, fs.spec_inode_at(v.inode));
        if inode.i_mode.ty != FileType::Dir {
            Seq::empty()
        } else {
            spec_children(
                v.parent,
                v.inode,
                v.path,
                spec_items::<Ext4DirEntry>(
                    inode.spec_data_ranges(fs.file@, fs.super_block.s_log_block_size as nat),
                    0,
                    0,
                ),
            )
        }
    }
}

/// The queue after one step: without its first visit, and with the visits
/// that the first visit leads to behind the others.
pub open spec fn spec_step(fs: &Ext4Fs, queue: Seq<VisitView>) -> Seq<VisitView> {
    queue.drop_first() + spec_next_visits(fs, queue[0])
}

/// Whether an entry that names `entry` is followed from the directory
/// `current`, which was reached from `parent`: not where it names a
/// reserved inode, the directory itself, or the directory above.
pub fn should_visit(parent: u64, current: u64, entry: u32) -> (r: bool)
    ensures
        r == spec_should_visit(parent, current, entry),
{
    entry >= 2 && entry as u64 != current && entry as u64 != parent
}

/// The path of an entry of the directory at `parent_path`.
pub fn child_path(parent_path: &String, entry: &Ext4DirEntry) -> (r: String)
    ensures
        r@ == parent_path@ + "/"@ + name_text(entry@.name),
{
    let mut path = parent_path.clone();
    path.append("/");
    match entry.get_name() {
        Some(name) => path.append(name.as_str()),
        None => path.append("<cannot parse>"),
    }
    path
}

/// The visits that the entries of the directory `current` lead to, in the
/// order of the entries.
pub fn children(parent: u64, current: u64, path: &String, entries: &Vec<Ext4DirEntry>) -> (r: Vec<
    Visit,
>)
    ensures
        visit_views(r@) == spec_children(
            parent,
            current,
            path@,
            Seq::new(entries@.len(), |i: int| entries@[i]@),
        ),
        forall|k: int|
            0 <= k < r@.len() ==> (#[trigger] r@[k]).inode >= 2 && r@[k].inode != current
                && r@[k].inode != parent && r@[k].parent == current,
{
    let ghost all = Seq::new(entries@.len(), |i: int| entries@[i]@);
    let mut out: Vec<Visit> = Vec::new();
    let mut i: usize = 0;
    assert(all.take(0) =~= Seq::<DirEntryView>::empty());
    assert(visit_views(out@) =~= Seq::<VisitView>::empty());
    while i < entries.len()
        invariant
            i <= entries@.len(),
            all == Seq::new(entries@.len(), |i: int| entries@[i]@),
            visit_views(out@) == spec_children(parent, current, path@, all.take(i as int)),
            forall|k: int|
                0 <= k < out@.len() ==> (#[trigger] out@[k]).inode >= 2 && out@[k].inode != current
                    && out@[k].inode != parent && out@[k].parent == current,
        decreases entries@.len() - i,
    {
        let entry: &Ext4DirEntry = &entries[i];
        let ghost before = out@;
        proof {
            let now = all.take(i + 1);
            assert(now.drop_last() =~= all.take(i as int));
            assert(now.last() == entry@);
        }
        if should_visit(parent, current, entry.inode) {
            let visit = Visit {
                parent: current,
                inode: entry.inode as u64,
                path: child_path(path, entry),
            };
            out.push(visit);
            assert(visit_views(out@) =~= visit_views(before).push(visit@));
        }
        i += 1;
    }
    assert(all.take(i as int) =~= all);
    out
}

/// A walk over the directory tree of a volume that is under way.
pub struct TreeWalk {
    /// The visits that are still to be made, the next one first.
    pub queue: Vec<Visit>,
}

impl TreeWalk {
    /// A walk that starts at the root directory, inode 2, with the empty
    /// path.
    pub fn new() -> (r: Self)
        ensures
            visit_views(r.queue@) == seq![
                VisitView { parent: 2, inode: 2, path: Seq::<char>::empty() },
            ],
    {
        let mut queue: Vec<Visit> = Vec::new();
        let root = Visit { parent: EXT4_ROOT_INO, inode: EXT4_ROOT_INO, path: String::new() };
        queue.push(root);
        assert(visit_views(queue@) =~= seq![
            VisitView { parent: 2, inode: 2, path: Seq::<char>::empty() },
        ]);
        TreeWalk { queue }
    }

    /// One step of the walk: takes the first visit off the queue, puts the
    /// visits that it leads to behind the queue, and hands it back. `None`
    /// where the queue is empty: the walk is over.
    pub fn step(&mut self, fs: &Ext4Fs) -> (r: Option<Visit>)
        ensures
            old(self).queue@.len() == 0 ==> r is None && final(self).queue@ == old(self).queue@,
            old(self).queue@.len() > 0 ==> (r matches Some(visit) && visit@ == old(
                self,
            ).queue@[0]@ && visit_views(final(self).queue@) == spec_step(
                fs,
                visit_views(old(self).queue@),
            )),
    {
        if self.queue.len() == 0 {
            return None;
        }
        let visit = self.queue.remove(0);
        let ghost rest = self.queue@;
        assert(visit_views(rest) =~= visit_views(old(self).queue@).drop_first());
        let mut found: Vec<Visit> = Self::visits_from(fs, &visit);
        let ghost added = found@;
        self.queue.append(&mut found);
        assert(visit_views(self.queue@) =~= visit_views(rest) + visit_views(added));
        Some(visit)
    }

    /// The visits that `visit` leads to in the volume `fs`.
    pub fn visits_from(fs: &Ext4Fs, visit: &Visit) -> (r: Vec<Visit>)
        ensures
            visit_views(r@) == spec_next_visits(fs, visit@),
            forall|k: int|
                0 <= k < r@.len() ==> (#[trigger] r@[k]).inode >= 2 && r@[k].inode != visit.inode
                    && r@[k].inode != visit.parent && r@[k].parent == visit.inode,
    {
        let inode = match fs.get_inode(visit.inode) {
            Some(inode) => inode,
            None => {
                assert(visit_views(Seq::<Visit>::empty()) =~= Seq::<VisitView>::empty());
                return Vec::new();
            },
        };
        proof {
            let chosen = choose|other: Ext4Inode|
                other.decoded_from(fs.file@, fs.spec_inode_at(visit.inode));
            inode.lemma_decoded_unique(chosen, fs.file@, fs.spec_inode_at(visit.inode));
        }
        match fs.get_inode_block_contents(&inode) {
            Some(BlockContents::Dentries(mut entries)) => {
                let list = entries.drain();
                assert(Seq::new(list@.len(), |i: int| list@[i]@) =~= spec_items::<Ext4DirEntry>(
                    inode.spec_data_ranges(fs.file@, fs.super_block.s_log_block_size as nat),
                    0,
                    0,
                ));
                children(visit.parent, visit.inode, &visit.path, &list)
            },
            _ => {
                assert(visit_views(Seq::<Visit>::empty()) =~= Seq::<VisitView>::empty());
                Vec::new()
            },
        }
    }
}

/// Whether the inode `i_no` of the volume is found and is a directory.
pub open spec fn is_directory(fs: &Ext4Fs, i_no: u64) -> bool {
    fs.spec_inode_found(i_no) && (choose|inode: Ext4Inode|
        inode.decoded_from(fs.file@, fs.spec_inode_at(i_no))).i_mode.ty == FileType::Dir
}

/// The visit that a walk starts with: the root directory, reached from
/// itself, with the empty path.
pub open spec fn root_visit() -> VisitView {
    VisitView { parent: 2, inode: 2, path: Seq::empty() }
}

/// The walk after `n` steps: the visits that were made, in order, and the
/// queue.
pub open spec fn walk_after(fs: &Ext4Fs, n: nat) -> (Seq<VisitView>, Seq<VisitView>)
    decreases n,
{
    if n == 0 {
        (Seq::empty(), seq![root_visit()])
    } else {
        let (visited, queue) = walk_after(fs, (n - 1) as nat);
        if queue.len() == 0 {
            (visited, queue)
        } else {
            (visited.push(queue[0]), spec_step(fs, queue))
        }
    }
}

/// Whether the directories of the volume form a tree under `parent_of`:
/// the root is its own parent, and an entry of a directory that is followed
/// and names a directory names a child of that directory, and names it once.
pub open spec fn directories_form_tree(fs: &Ext4Fs, parent_of: spec_fn(u64) -> u64) -> bool {
    &&& parent_of(2) == 2
    &&& forall|v: VisitView, k: int|
        #![trigger spec_next_visits(fs, v)[k]]
        v.parent == parent_of(v.inode) && 0 <= k < spec_next_visits(fs, v).len() && is_directory(
            fs,
            spec_next_visits(fs, v)[k].inode,
        ) ==> parent_of(spec_next_visits(fs, v)[k].inode) == v.inode
    &&& forall|v: VisitView, j: int, k: int|
        #![trigger spec_next_visits(fs, v)[j], spec_next_visits(fs, v)[k]]
        v.parent == parent_of(v.inode) && 0 <= j < k < spec_next_visits(fs, v).len()
            && is_directory(fs, spec_next_visits(fs, v)[j].inode) ==> spec_next_visits(
            fs,
            v,
        )[j].inode != spec_next_visits(fs, v)[k].inode
}

/// Every visit that the entries of a directory lead to names an inode from
/// 2 on that is neither the directory nor the directory above, and was found
/// in the directory.
pub proof fn lemma_children_lead_on(
    parent: u64,
    current: u64,
    path: Seq<char>,
    entries: Seq<DirEntryView>,
)
    ensures
        forall|k: int|
            0 <= k < spec_children(parent, current, path, entries).len() ==> {
                let c = #[trigger] spec_children(parent, current, path, entries)[k];
                c.inode >= 2 && c.inode != current && c.inode != parent && c.parent == current
            },
    decreases entries.len(),
{
    if entries.len() > 0 {
        lemma_children_lead_on(parent, current, path, entries.drop_last());
        let before = spec_children(parent, current, path, entries.drop_last());
        let all = spec_children(parent, current, path, entries);
        assert forall|k: int| 0 <= k < all.len() implies {
            let c = #[trigger] all[k];
            c.inode >= 2 && c.inode != current && c.inode != parent && c.parent == current
        } by {
            if k < before.len() {
                assert(all[k] == before[k]);
            }
        }
    }
}

/// The same for the visits that a visit leads to; and a visit leads to
/// others only where its inode is a directory.
pub proof fn lemma_next_visits_lead_on(fs: &Ext4Fs, v: VisitView)
    ensures
        spec_next_visits(fs, v).len() > 0 ==> is_directory(fs, v.inode),
        forall|k: int|
            0 <= k < spec_next_visits(fs, v).len() ==> {
                let c = #[trigger] spec_next_visits(fs, v)[k];
                c.inode >= 2 && c.inode != v.inode && c.inode != v.parent && c.parent == v.inode
            },
{
    if fs.spec_inode_found(v.inode) {
        let inode = choose|inode: Ext4Inode|
            inode.decoded_from(fs.file@, fs.spec_inode_at(v.inode));
        if inode.i_mode.ty == FileType::Dir {
            lemma_children_lead_on(
                v.parent,
                v.inode,
                v.path,
                spec_items::<Ext4DirEntry>(
                    inode.spec_data_ranges(fs.file@, fs.super_block.s_log_block_size as nat),
                    0,
                    0,
                ),
            );
        }
    }
}

/// What holds of the visits made and queued after any number of steps in a
/// volume whose directories form a tree.
pub open spec fn walk_is_sound(
    fs: &Ext4Fs,
    parent_of: spec_fn(u64) -> u64,
    visited: Seq<VisitView>,
    queue: Seq<VisitView>,
) -> bool {
    let all = visited + queue;
    &&& all.len() > 0
    &&& all[0] == root_visit()
    &&& forall|i: int, j: int|
        #![trigger all[i], all[j]]
        0 <= i < j < all.len() && is_directory(fs, all[i].inode) ==> all[i].inode != all[j].inode
    &&& forall|i: int|
        0 <= i < all.len() && is_directory(fs, (#[trigger] all[i]).inode) ==> all[i].parent
            == parent_of(all[i].inode)
    &&& forall|i: int|
        1 <= i < all.len() ==> exists|j: int|
            0 <= j < visited.len() && visited[j].inode == (#[trigger] all[i]).parent
}

/// In a volume whose directories form a tree, a walk from the root visits
/// no directory twice: after any number of steps, no two of the visits that
/// were made or stand in the queue name the same directory.
pub proof fn lemma_walk_visits_directories_once(
    fs: &Ext4Fs,
    parent_of: spec_fn(u64) -> u64,
    n: nat,
)
    requires
        directories_form_tree(fs, parent_of),
    ensures
        walk_is_sound(fs, parent_of, walk_after(fs, n).0, walk_after(fs, n).1),
        forall|i: int, j: int|
            #![trigger walk_after(fs, n).0[i], walk_after(fs, n).0[j]]
            0 <= i < j < walk_after(fs, n).0.len() && is_directory(
                fs,
                walk_after(fs, n).0[i].inode,
            ) ==> walk_after(fs, n).0[i].inode != walk_after(fs, n).0[j].inode,
    decreases n,
{
    let (visited, queue) = walk_after(fs, n);
    let all = visited + queue;
    if n == 0 {
        assert(all =~= seq![root_visit()]);
        assert(walk_is_sound(fs, parent_of, visited, queue));
    } else {
        lemma_walk_visits_directories_once(fs, parent_of, (n - 1) as nat);
        let (visited0, queue0) = walk_after(fs, (n - 1) as nat);
        let all0 = visited0 + queue0;
        if queue0.len() > 0 {
            let v = queue0[0];
            let added = spec_next_visits(fs, v);
            let at = visited0.len() as int;
            lemma_next_visits_lead_on(fs, v);
            assert(all =~= all0 + added);
            assert(all0[at] == v);
            assert forall|i: int| 1 <= i < all.len() implies exists|j: int|
                0 <= j < visited.len() && visited[j].inode == (#[trigger] all[i]).parent by {
                if i < all0.len() {
                    assert(all[i] == all0[i]);
                    let j = choose|j: int|
                        0 <= j < visited0.len() && visited0[j].inode == all0[i].parent;
                    assert(visited[j] == visited0[j]);
                } else {
                    assert(all[i] == added[i - all0.len()]);
                    assert(visited[at] == v);
                }
            }
            if added.len() > 0 {
                assert(is_directory(fs, v.inode));
                assert(v.parent == parent_of(v.inode));
            }
            assert forall|i: int|
                0 <= i < all.len() && is_directory(fs, (#[trigger] all[i]).inode) implies all[i].parent
                == parent_of(all[i].inode) by {
                if i < all0.len() {
                    assert(all[i] == all0[i]);
                } else {
                    let k = i - all0.len();
                    assert(all[i] == added[k]);
                    assert(parent_of(spec_next_visits(fs, v)[k].inode) == v.inode);
                }
            }
            assert forall|i: int, j: int|
                #![trigger all[i], all[j]]
                0 <= i < j < all.len() && is_directory(fs, all[i].inode) implies all[i].inode
                != all[j].inode by {
                if j < all0.len() {
                    assert(all[i] == all0[i] && all[j] == all0[j]);
                } else if i >= all0.len() {
                    let a = i - all0.len();
                    let b = j - all0.len();
                    assert(all[i] == spec_next_visits(fs, v)[a]);
                    assert(all[j] == spec_next_visits(fs, v)[b]);
                } else {
                    let b = j - all0.len();
                    assert(all[i] == all0[i]);
                    assert(all[j] == spec_next_visits(fs, v)[b]);
                    if all[i].inode == all[j].inode {
                        let c = all[j];
                        assert(c.parent == v.inode && c.inode != v.inode);
                        assert(all0[i].parent == parent_of(c.inode));
                        assert(parent_of(c.inode) == v.inode);
                        if i == 0 {
                            assert(all0[0] == root_visit());
                        } else {
                            let w = choose|w: int|
                                0 <= w < visited0.len() && visited0[w].inode == all0[i].parent;
                            assert(all0[w] == visited0[w]);
                            assert(all0[w].inode == all0[at].inode);
                        }
                    }
                }
            }
            assert(all[0] == all0[0]);
            assert(walk_is_sound(fs, parent_of, visited, queue));
        }
    }
    assert forall|i: int, j: int|
        #![trigger visited[i], visited[j]]
        0 <= i < j < visited.len() && is_directory(fs, visited[i].inode) implies visited[i].inode
        != visited[j].inode by {
        assert(all[i] == visited[i] && all[j] == visited[j]);
    }
}

} // verus!
