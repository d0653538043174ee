//! The in-memory mirror of the remote folder tree, and the per-file upload
//! record.
//!
//! The tree answers "does this remote folder exist" without a network round
//! trip and is extended whenever a remote create succeeds. Its behaviour is
//! specified against [`FolderModel`], a mathematical folder tree.

use vstd::prelude::*;

use crate::paths::{split_segs, strip_root, split_path, strip_root_segs, str_eq};

verus! {

/// Mathematical model of a folder tree node: a name and the ordered
/// children, as they were inserted.
#[verifier::ext_equal]
pub struct FolderModel {
    pub name: Seq<char>,
    pub children: Seq<FolderModel>,
}

/// Index of the first node in `s` named `name`, or `s.len()` if there is
/// none.
pub open spec fn find_child(s: Seq<FolderModel>, name: Seq<char>) -> int
    decreases s.len(),
{
    if s.len() == 0 {
        0
    } else if s[0].name == name {
        0
    } else {
        1 + find_child(s.drop_first(), name)
    }
}

pub proof fn lemma_find_child_bounds(s: Seq<FolderModel>, name: Seq<char>)
    ensures
        0 <= find_child(s, name) <= s.len(),
        find_child(s, name) < s.len() ==> s[find_child(s, name)].name == name,
        forall|j: int| 0 <= j < find_child(s, name) ==> s[j].name != name,
    decreases s.len(),
{
    if s.len() > 0 && s[0].name != name {
        lemma_find_child_bounds(s.drop_first(), name);
        assert forall|j: int| 0 <= j < find_child(s, name) implies s[j].name != name by {
            if j > 0 {
                assert(s.drop_first()[j - 1] == s[j]);
            }
        }
    }
}

/// `find_child` is pinned down by the first matching position.
pub proof fn lemma_find_child_at(s: Seq<FolderModel>, name: Seq<char>, k: int)
    requires
        0 <= k <= s.len(),
        forall|j: int| 0 <= j < k ==> s[j].name != name,
        k < s.len() ==> s[k].name == name,
    ensures
        find_child(s, name) == k,
    decreases k,
{
    if k > 0 {
        assert(s[0].name != name);
        assert forall|j: int| 0 <= j < k - 1 implies s.drop_first()[j].name != name by {
            assert(s.drop_first()[j] == s[j + 1]);
        }
        lemma_find_child_at(s.drop_first(), name, k - 1);
    }
}

impl FolderModel {
    /// A node with no children.
    pub open spec fn leaf(name: Seq<char>) -> FolderModel {
        FolderModel { name, children: Seq::empty() }
    }

    /// Well-formedness: sibling names are unique, recursively.
    pub open spec fn wf(self) -> bool
        decreases self,
    {
        &&& forall|i: int, j: int|
            0 <= i < j < self.children.len() ==> self.children[i].name != self.children[j].name
        &&& forall|i: int| 0 <= i < self.children.len() ==> (#[trigger] self.children[i]).wf()
    }

    /// Does the walk along `segs` resolve, segment by segment, to an
    /// existing node? The empty walk resolves to this node itself.
    pub open spec fn has_segs(self, segs: Seq<Seq<char>>) -> bool
        decreases segs.len(),
    {
        if segs.len() == 0 {
            true
        } else {
            let i = find_child(self.children, segs[0]);
            i < self.children.len() && self.children[i].has_segs(segs.drop_first())
        }
    }

    /// The tree after walking along `segs`, creating every missing node on
    /// the way, and finally adding `sub` as a child of the node reached —
    /// unless a child of that name is already there (a no-op at each level).
    pub open spec fn add_at(self, segs: Seq<Seq<char>>, sub: FolderModel) -> FolderModel
        decreases segs.len(),
    {
        if segs.len() == 0 {
            let i = find_child(self.children, sub.name);
            if i < self.children.len() {
                self
            } else {
                FolderModel { name: self.name, children: self.children.push(sub) }
            }
        } else {
            let i = find_child(self.children, segs[0]);
            if i < self.children.len() {
                FolderModel {
                    name: self.name,
                    children: self.children.update(
                        i,
                        self.children[i].add_at(segs.drop_first(), sub),
                    ),
                }
            } else {
                FolderModel {
                    name: self.name,
                    children: self.children.push(
                        FolderModel::leaf(segs[0]).add_at(segs.drop_first(), sub),
                    ),
                }
            }
        }
    }
}

/// Adding a node never changes the name of the node it is added beneath.
pub proof fn lemma_add_at_keeps_name(t: FolderModel, segs: Seq<Seq<char>>, sub: FolderModel)
    ensures
        t.add_at(segs, sub).name == t.name,
{
}

/// A path walked by `add_at` resolves afterwards: adding, then asking, says
/// yes for the added path.
pub proof fn lemma_add_then_has(t: FolderModel, segs: Seq<Seq<char>>, sub: FolderModel)
    ensures
        t.add_at(segs, sub).has_segs(segs.push(sub.name)),
    decreases segs.len(),
{
    let t2 = t.add_at(segs, sub);
    let p = segs.push(sub.name);
    lemma_find_child_bounds(t.children, if segs.len() == 0 { sub.name } else { segs[0] });
    if segs.len() == 0 {
        assert(p[0] == sub.name);
        assert(p.drop_first().len() == 0);
        let i = find_child(t.children, sub.name);
        if i < t.children.len() {
            assert(t2.children[i].has_segs(p.drop_first()));
            assert(t2.has_segs(p));
        } else {
            lemma_find_child_at(t2.children, sub.name, i);
            assert(t2.children[i].has_segs(p.drop_first()));
        }
    } else {
        let i = find_child(t.children, segs[0]);
        assert(p[0] == segs[0]);
        if i < t.children.len() {
            let c2 = t.children[i].add_at(segs.drop_first(), sub);
            lemma_add_at_keeps_name(t.children[i], segs.drop_first(), sub);
            assert forall|j: int| 0 <= j < i implies t2.children[j].name != segs[0] by {
                lemma_find_child_bounds(t.children, segs[0]);
            }
            lemma_find_child_at(t2.children, segs[0], i);
            lemma_add_then_has(t.children[i], segs.drop_first(), sub);
            assert(p.drop_first() =~= segs.drop_first().push(sub.name));
        } else {
            let c2 = FolderModel::leaf(segs[0]).add_at(segs.drop_first(), sub);
            lemma_add_at_keeps_name(FolderModel::leaf(segs[0]), segs.drop_first(), sub);
            assert forall|j: int| 0 <= j < i implies t2.children[j].name != segs[0] by {
                lemma_find_child_bounds(t.children, segs[0]);
            }
            lemma_find_child_at(t2.children, segs[0], i);
            lemma_add_then_has(FolderModel::leaf(segs[0]), segs.drop_first(), sub);
            assert(p.drop_first() =~= segs.drop_first().push(sub.name));
        }
    }
}

/// Resolution is prefix-closed: a path that resolves does so through its
/// ancestors, so every leading run of it resolves too.
pub proof fn lemma_has_segs_prefix(t: FolderModel, q: Seq<Seq<char>>, k: int)
    requires
        t.has_segs(q),
        0 <= k <= q.len(),
    ensures
        t.has_segs(q.take(k)),
    decreases q.len(),
{
    if k == 0 {
        assert(q.take(0).len() == 0);
    } else {
        let i = find_child(t.children, q[0]);
        assert(q.take(k)[0] == q[0]);
        assert(q.take(k).drop_first() =~= q.drop_first().take(k - 1));
        lemma_has_segs_prefix(t.children[i], q.drop_first(), k - 1);
    }
}

/// Adding a leaf along `segs` makes no other path resolve: a path that
/// resolves afterwards either resolved before, or is a prefix of the added
/// path.
pub proof fn lemma_has_after_add(
    t: FolderModel,
    segs: Seq<Seq<char>>,
    sub: FolderModel,
    q: Seq<Seq<char>>,
)
    requires
        sub.children.len() == 0,
        t.add_at(segs, sub).has_segs(q),
    ensures
        t.has_segs(q) || crate::paths::is_seg_prefix(q, segs.push(sub.name)),
    decreases q.len(),
{
    let t2 = t.add_at(segs, sub);
    let p = segs.push(sub.name);
    if q.len() == 0 {
        assert(q =~= p.subrange(0, 0));
    } else if segs.len() == 0 {
        let i = find_child(t.children, sub.name);
        lemma_find_child_bounds(t.children, sub.name);
        if i < t.children.len() {
            assert(t2 == t);
        } else {
            // `sub` was pushed at the end.
            let j = find_child(t2.children, q[0]);
            lemma_find_child_bounds(t2.children, q[0]);
            assert(j < t2.children.len());
            if j < t.children.len() {
                // the walk enters an old child, unchanged by the add
                assert(t2.children[j] == t.children[j]);
                assert forall|k: int| 0 <= k < j implies t.children[k].name != q[0] by {
                    assert(t2.children[k] == t.children[k]);
                }
                lemma_find_child_at(t.children, q[0], j);
                assert(t.has_segs(q));
            } else {
                // the walk enters `sub` itself
                assert(t2.children[j] == sub);
                assert(q[0] == sub.name);
                if q.len() == 1 {
                    assert(q =~= p.subrange(0, 1));
                    assert(crate::paths::is_seg_prefix(q, p));
                } else {
                    // `sub` is a leaf, so nothing below it resolves
                    let r = q.drop_first();
                    assert(sub.has_segs(r));
                    assert(find_child(sub.children, r[0]) == 0);
                    assert(false);
                }
            }
        }
    } else {
        let i = find_child(t.children, segs[0]);
        lemma_find_child_bounds(t.children, segs[0]);
        let j = find_child(t2.children, q[0]);
        lemma_find_child_bounds(t2.children, q[0]);
        assert(j < t2.children.len());
        if i < t.children.len() {
            let c2 = t.children[i].add_at(segs.drop_first(), sub);
            lemma_add_at_keeps_name(t.children[i], segs.drop_first(), sub);
            if q[0] == segs[0] {
                assert forall|k: int| 0 <= k < i implies t2.children[k].name != q[0] by {
                    assert(t2.children[k] == t.children[k]);
                }
                lemma_find_child_at(t2.children, q[0], i);
                assert(j == i);
                lemma_has_after_add(t.children[i], segs.drop_first(), sub, q.drop_first());
                lemma_find_child_at(t.children, q[0], i);
                if t.children[i].has_segs(q.drop_first()) {
                    assert(t.has_segs(q));
                } else {
                    assert(crate::paths::is_seg_prefix(
                        q.drop_first(),
                        segs.drop_first().push(sub.name),
                    ));
                    assert(p.drop_first() =~= segs.drop_first().push(sub.name));
                    assert(q =~= p.subrange(0, q.len() as int)) by {
                        assert forall|k: int| 0 <= k < q.len() implies q[k] == p[k] by {
                            if k > 0 {
                                assert(q.drop_first()[k - 1] == p.drop_first().subrange(
                                    0,
                                    q.len() - 1,
                                )[k - 1]);
                            }
                        }
                    }
                }
            } else {
                // the walk diverges from the added path at this level
                if j == i {
                    assert(t2.children[i].name == segs[0]);
                    assert(false);
                }
                assert(t2.children[j] == t.children[j]);
                assert forall|k: int| 0 <= k < j implies t.children[k].name != q[0] by {
                    if k != i {
                        assert(t2.children[k] == t.children[k]);
                    }
                }
                lemma_find_child_at(t.children, q[0], j);
                assert(t.has_segs(q));
            }
        } else {
            let c2 = FolderModel::leaf(segs[0]).add_at(segs.drop_first(), sub);
            lemma_add_at_keeps_name(FolderModel::leaf(segs[0]), segs.drop_first(), sub);
            if q[0] == segs[0] {
                assert forall|k: int| 0 <= k < t.children.len() implies t2.children[k].name
                    != q[0] by {
                    assert(t2.children[k] == t.children[k]);
                }
                lemma_find_child_at(t2.children, q[0], t.children.len() as int);
                assert(j == t.children.len());
                assert(t2.children[j] == c2);
                lemma_has_after_add(
                    FolderModel::leaf(segs[0]),
                    segs.drop_first(),
                    sub,
                    q.drop_first(),
                );
                if FolderModel::leaf(segs[0]).has_segs(q.drop_first()) {
                    // a leaf resolves only the empty walk
                    if q.len() > 1 {
                        let r = q.drop_first();
                        assert(find_child(FolderModel::leaf(segs[0]).children, r[0]) == 0);
                        assert(false);
                    }
                    assert(q =~= p.subrange(0, 1));
                } else {
                    assert(crate::paths::is_seg_prefix(
                        q.drop_first(),
                        segs.drop_first().push(sub.name),
                    ));
                    assert(p.drop_first() =~= segs.drop_first().push(sub.name));
                    assert(q =~= p.subrange(0, q.len() as int)) by {
                        assert forall|k: int| 0 <= k < q.len() implies q[k] == p[k] by {
                            if k > 0 {
                                assert(q.drop_first()[k - 1] == p.drop_first().subrange(
                                    0,
                                    q.len() - 1,
                                )[k - 1]);
                            }
                        }
                    }
                }
            } else {
                assert forall|k: int| 0 <= k < j implies t.children[k].name != q[0] by {
                    assert(t2.children[k] == t.children[k]);
                }
                if j == t.children.len() {
                    assert(t2.children[j].name == segs[0]);
                    assert(false);
                }
                assert(t2.children[j] == t.children[j]);
                lemma_find_child_at(t.children, q[0], j);
                assert(t.has_segs(q));
            }
        }
    }
}

/// Adding the same node along the same path twice yields a tree identical to
/// adding it once.
pub proof fn lemma_add_idempotent(t: FolderModel, segs: Seq<Seq<char>>, sub: FolderModel)
    ensures
        t.add_at(segs, sub).add_at(segs, sub) == t.add_at(segs, sub),
    decreases segs.len(),
{
    let t2 = t.add_at(segs, sub);
    if segs.len() == 0 {
        let i = find_child(t.children, sub.name);
        lemma_find_child_bounds(t.children, sub.name);
        if i < t.children.len() {
            assert(t2 == t);
        } else {
            assert forall|k: int| 0 <= k < i implies t2.children[k].name != sub.name by {
                assert(t2.children[k] == t.children[k]);
            }
            lemma_find_child_at(t2.children, sub.name, i);
            assert(find_child(t2.children, sub.name) < t2.children.len());
            assert(t2.add_at(segs, sub) == t2);
        }
    } else {
        let i = find_child(t.children, segs[0]);
        lemma_find_child_bounds(t.children, segs[0]);
        if i < t.children.len() {
            let c2 = t.children[i].add_at(segs.drop_first(), sub);
            lemma_add_at_keeps_name(t.children[i], segs.drop_first(), sub);
            assert forall|k: int| 0 <= k < i implies t2.children[k].name != segs[0] by {
                assert(t2.children[k] == t.children[k]);
            }
            lemma_find_child_at(t2.children, segs[0], i);
            lemma_add_idempotent(t.children[i], segs.drop_first(), sub);
            assert(t2.add_at(segs, sub).children =~= t2.children);
            assert(t2.add_at(segs, sub) =~= t2);
        } else {
            let c2 = FolderModel::leaf(segs[0]).add_at(segs.drop_first(), sub);
            lemma_add_at_keeps_name(FolderModel::leaf(segs[0]), segs.drop_first(), sub);
            assert forall|k: int| 0 <= k < i implies t2.children[k].name != segs[0] by {
                assert(t2.children[k] == t.children[k]);
            }
            lemma_find_child_at(t2.children, segs[0], i);
            assert(find_child(t2.children, segs[0]) == t.children.len());
            lemma_add_idempotent(FolderModel::leaf(segs[0]), segs.drop_first(), sub);
            assert(t2.add_at(segs, sub).children =~= t2.children);
            assert(t2.add_at(segs, sub) =~= t2);
        }
    }
}

/// Adding a well-formed node keeps the tree well-formed: sibling names stay
/// unique at every level.
pub proof fn lemma_add_preserves_wf(t: FolderModel, segs: Seq<Seq<char>>, sub: FolderModel)
    requires
        t.wf(),
        sub.wf(),
    ensures
        t.add_at(segs, sub).wf(),
    decreases segs.len(),
{
    let t2 = t.add_at(segs, sub);
    if segs.len() == 0 {
        let i = find_child(t.children, sub.name);
        lemma_find_child_bounds(t.children, sub.name);
        if i < t.children.len() {
        } else {
            assert forall|a: int, b: int|
                0 <= a < b < t2.children.len() implies t2.children[a].name
                != t2.children[b].name by {
                if b == t.children.len() {
                    assert(t2.children[a] == t.children[a]);
                    assert(t2.children[b] == sub);
                }
            }
        }
    } else {
        let i = find_child(t.children, segs[0]);
        lemma_find_child_bounds(t.children, segs[0]);
        if i < t.children.len() {
            lemma_add_preserves_wf(t.children[i], segs.drop_first(), sub);
            lemma_add_at_keeps_name(t.children[i], segs.drop_first(), sub);
            assert forall|a: int, b: int|
                0 <= a < b < t2.children.len() implies t2.children[a].name
                != t2.children[b].name by {
                assert(t2.children[a].name == t.children[a].name);
                assert(t2.children[b].name == t.children[b].name);
            }
        } else {
            assert(FolderModel::leaf(segs[0]).wf());
            lemma_add_preserves_wf(FolderModel::leaf(segs[0]), segs.drop_first(), sub);
            lemma_add_at_keeps_name(FolderModel::leaf(segs[0]), segs.drop_first(), sub);
            assert forall|a: int, b: int|
                0 <= a < b < t2.children.len() implies t2.children[a].name
                != t2.children[b].name by {
                if b == t.children.len() {
                    assert(t2.children[a] == t.children[a]);
                    assert(t2.children[b].name == segs[0]);
                }
            }
        }
    }
}

/// A node of the cached mirror of the remote folder tree. The root node's
/// name is the remote root path; every other node is named after one path
/// segment.
#[derive(Debug)]
pub struct Folder {
    name: String,
    sub_folders: Vec<Folder>,
}

impl Folder {
    /// The mathematical tree this node mirrors.
    pub closed spec fn model(self) -> FolderModel
        decreases self,
    {
        FolderModel {
            name: self.name@,
            children: Seq::new(
                self.sub_folders@.len(),
                |i: int|
                    if 0 <= i < self.sub_folders@.len() {
                        self.sub_folders@[i].model()
                    } else {
                        FolderModel::leaf(Seq::empty())
                    },
            ),
        }
    }

    /// Sibling names are unique at every level.
    pub open spec fn inv(self) -> bool {
        self.model().wf()
    }

    /// How a node's model is built from its parts.
    proof fn lemma_model_parts(f: Folder)
        ensures
            f.model().name == f.name@,
            f.model().children.len() == f.sub_folders@.len(),
            forall|i: int|
                0 <= i < f.sub_folders@.len() ==> #[trigger] f.model().children[i]
                    == f.sub_folders@[i].model(),
    {
    }

    pub fn new(name: String) -> (r: Folder)
        ensures
            r.model() == FolderModel::leaf(name@),
            r.inv(),
    {
        let r = Folder { name, sub_folders: Vec::new() };
        proof {
            assert(r.model().children =~= Seq::<FolderModel>::empty());
            assert(r.model() =~= FolderModel::leaf(r.name@));
        }
        r
    }

    pub fn get_name(&self) -> (r: String)
        ensures
            r@ == self.model().name,
    {
        self.name.clone()
    }

    /// Index of the first direct child named `name`, if any.
    fn find_child_idx(&self, name: &String) -> (r: Option<usize>)
        ensures
            ({
                let f = find_child(self.model().children, name@);
                match r {
                    Some(i) => f == i && i < self.sub_folders@.len(),
                    None => f == self.model().children.len(),
                }
            }),
    {
        let mut j: usize = 0;
        while j < self.sub_folders.len()
            invariant
                0 <= j <= self.sub_folders@.len(),
                forall|k: int| 0 <= k < j ==> (#[trigger] self.sub_folders@[k]).name@ != name@,
            decreases self.sub_folders@.len() - j,
        {
            if str_eq(self.sub_folders[j].name.as_str(), name.as_str()) {
                proof {
                    Self::lemma_model_parts(*self);
                    assert forall|k: int| 0 <= k < j implies self.model().children[k].name
                        != name@ by {
                        Self::lemma_model_parts(self.sub_folders@[k]);
                    }
                    Self::lemma_model_parts(self.sub_folders@[j as int]);
                    lemma_find_child_at(self.model().children, name@, j as int);
                }
                return Some(j);
            }
            j = j + 1;
        }
        proof {
            Self::lemma_model_parts(*self);
            assert forall|k: int| 0 <= k < self.model().children.len() implies self.model()
                .children[k].name != name@ by {
                Self::lemma_model_parts(self.sub_folders@[k]);
            }
            lemma_find_child_at(self.model().children, name@, self.model().children.len() as int);
        }
        None
    }

    /// Walks the tree along `segs` starting at position `from`.
    fn has_at(&self, segs: &Vec<String>, from: usize) -> (r: bool)
        requires
            from <= segs@.len(),
        ensures
            r == self.model().has_segs(segs.deep_view().skip(from as int)),
        decreases segs@.len() - from,
    {
        let ghost rest = segs.deep_view().skip(from as int);
        if from == segs.len() {
            proof {
                assert(rest =~= Seq::<Seq<char>>::empty());
            }
            true
        } else {
            proof {
                assert(rest[0] == segs.deep_view()[from as int]);
            }
            match self.find_child_idx(&segs[from]) {
                Some(i) => {
                    let r = self.sub_folders[i].has_at(segs, from + 1);
                    proof {
                        assert(self.model().children[i as int] == self.sub_folders@[
                            i as int].model());
                        assert(segs.deep_view().skip(from as int + 1) =~= rest.drop_first());
                    }
                    r
                },
                None => false,
            }
        }
    }

    /// Does the cache know the folder at `path_folder`? The path is split at
    /// '/' and a leading run of segments equal to the root's own name is
    /// skipped before the walk.
    pub fn has_subfolder(&self, path_folder: &str) -> (r: bool)
        ensures
            r == self.model().has_segs(
                strip_root(split_segs(path_folder@), split_segs(self.model().name)),
            ),
    {
        let root_segs = split_path(self.name.as_str());
        let segs = split_path(path_folder);
        let rel = strip_root_segs(segs, &root_segs);
        let r = self.has_at(&rel, 0);
        proof {
            assert(rel.deep_view().skip(0) =~= rel.deep_view());
        }
        r
    }

    /// Adds `folder` beneath the node reached by walking the segments in
    /// `parent_folders` back to front (the caller hands them reversed so the
    /// walk can pop them); missing nodes on the way are created, and a node
    /// that is already present is left as it is.
    pub fn add_sub_folder_intern(&mut self, folder: Folder, parent_folders: &mut Vec<String>)
        ensures
            final(self).model() == old(self).model().add_at(
                old(parent_folders).deep_view().reverse(),
                folder.model(),
            ),
            final(parent_folders)@.len() == 0,
            old(self).inv() && folder.inv() ==> final(self).inv(),
        decreases old(parent_folders)@.len(),
    {
        proof {
            if old(self).inv() && folder.inv() {
                lemma_add_preserves_wf(
                    old(self).model(),
                    old(parent_folders).deep_view().reverse(),
                    folder.model(),
                );
            }
        }
        let ghost segs = old(parent_folders).deep_view().reverse();
        match parent_folders.pop() {
            None => {
                proof {
                    assert(segs =~= Seq::<Seq<char>>::empty());
                }
                match self.find_child_idx(&folder.name) {
                    Some(_) => {
                        proof {
                            assert(find_child(old(self).model().children, folder.model().name)
                                < old(self).model().children.len());
                        }
                    },
                    None => {
                        self.sub_folders.push(folder);
                        proof {
                            assert(self.model().children =~= old(self).model().children.push(
                                folder.model(),
                            ));
                            assert(self.model() =~= old(self).model().add_at(
                                segs,
                                folder.model(),
                            ));
                        }
                    },
                }
            },
            Some(seg) => {
                proof {
                    assert(segs[0] == seg@);
                    assert(parent_folders.deep_view().reverse() =~= segs.drop_first());
                }
                let ghost fm = folder.model();
                match self.find_child_idx(&seg) {
                    Some(i) => {
                        let ghost i_spec = i as int;
                        let mut child = self.sub_folders.remove(i);
                        proof {
                            assert(child == old(self).sub_folders@[i_spec]);
                        }
                        child.add_sub_folder_intern(folder, parent_folders);
                        self.sub_folders.insert(i, child);
                        proof {
                            assert(self.sub_folders@ =~= old(self).sub_folders@.update(
                                i_spec,
                                child,
                            ));
                            assert(self.model().children =~= old(self).model().children.update(
                                i_spec,
                                old(self).model().children[i_spec].add_at(segs.drop_first(), fm),
                            ));
                            assert(self.model() =~= old(self).model().add_at(segs, fm));
                        }
                    },
                    None => {
                        let mut child = Folder::new(seg);
                        child.add_sub_folder_intern(folder, parent_folders);
                        self.sub_folders.push(child);
                        proof {
                            assert(self.model().children =~= old(self).model().children.push(
                                FolderModel::leaf(segs[0]).add_at(segs.drop_first(), fm),
                            ));
                            assert(self.model() =~= old(self).model().add_at(segs, fm));
                        }
                    },
                }
            },
        }
    }

    /// Adds `folder` beneath the node at `path_parent`. The path is split at
    /// '/', a leading run of segments equal to the root's own name is
    /// skipped, and any missing folder on the way is created; adding a
    /// folder that is already present is a no-op.
    pub fn add_sub_folder(&mut self, folder: Folder, path_parent: &str)
        ensures
            final(self).model() == old(self).model().add_at(
                strip_root(split_segs(path_parent@), split_segs(old(self).model().name)),
                folder.model(),
            ),
            old(self).inv() && folder.inv() ==> final(self).inv(),
    {
        let root_segs = split_path(self.name.as_str());
        let segs = split_path(path_parent);
        let mut rel = strip_root_segs(segs, &root_segs);
        let ghost rel_segs = rel.deep_view();

        // reverse, so that the recursive walk can pop segments off the end
        let mut rev: Vec<String> = Vec::new();
        while rel.len() > 0
            invariant
                rev.deep_view() + rel.deep_view().reverse() =~= rel_segs.reverse(),
            decreases rel@.len(),
        {
            let ghost rel_before = rel.deep_view();
            let seg = rel.pop().unwrap();
            rev.push(seg);
            proof {
                assert(rel.deep_view() =~= rel_before.drop_last());
                assert(rel_before.reverse().drop_first() =~= rel.deep_view().reverse());
                assert(rev.deep_view() + rel.deep_view().reverse() =~= rel_segs.reverse());
            }
        }
        proof {
            assert(rev.deep_view() =~= rel_segs.reverse());
            assert(rev.deep_view().reverse() =~= rel_segs);
        }
        self.add_sub_folder_intern(folder, &mut rev);
    }
}

/// Structural tree equality: same name, same children in the same order.
fn folder_eq(a: &Folder, b: &Folder) -> (r: bool)
    ensures
        r == (a.model() == b.model()),
    decreases *a,
{
    proof {
        Folder::lemma_model_parts(*a);
        Folder::lemma_model_parts(*b);
    }
    if !str_eq(a.name.as_str(), b.name.as_str()) {
        return false;
    }
    if a.sub_folders.len() != b.sub_folders.len() {
        return false;
    }
    let n = a.sub_folders.len();
    let mut j: usize = 0;
    while j < n
        invariant
            0 <= j <= n,
            n == a.sub_folders@.len(),
            n == b.sub_folders@.len(),
            forall|k: int|
                0 <= k < j ==> #[trigger] a.sub_folders@[k].model() == b.sub_folders@[k].model(),
        decreases n - j,
    {
        if !folder_eq(&a.sub_folders[j], &b.sub_folders[j]) {
            proof {
                Folder::lemma_model_parts(*a);
                Folder::lemma_model_parts(*b);
                assert(a.model().children[j as int] != b.model().children[j as int]);
            }
            return false;
        }
        j = j + 1;
    }
    proof {
        Folder::lemma_model_parts(*a);
        Folder::lemma_model_parts(*b);
        assert(a.model().children =~= b.model().children);
        assert(a.model() =~= b.model());
    }
    true
}

impl PartialEq for Folder {
    /// Two cached trees are equal when their names agree and their children
    /// are pairwise equal, in order.
    fn eq(&self, other: &Self) -> (r: bool) {
        folder_eq(self, other)
    }
}

impl vstd::std_specs::cmp::PartialEqSpecImpl for Folder {
    open spec fn obeys_eq_spec() -> bool {
        true
    }

    open spec fn eq_spec(&self, other: &Folder) -> bool {
        self.model() == other.model()
    }
}

/// One file scheduled for upload: where it lives locally, where it goes
/// remotely, its modification time and its size in bytes.
pub struct File {
    local_path: String,
    remote_parent: String,
    mtime: i64,
    size: u64,
}

impl File {
    /// The local path this file is read from.
    pub closed spec fn spec_local_path(&self) -> Seq<char> {
        self.local_path@
    }

    /// The remote folder this file will be uploaded into.
    pub closed spec fn spec_remote_parent(&self) -> Seq<char> {
        self.remote_parent@
    }

    /// The file's modification time, in seconds since the Unix epoch.
    pub closed spec fn spec_mtime(&self) -> i64 {
        self.mtime
    }

    /// The file's size in bytes.
    pub closed spec fn spec_size(&self) -> u64 {
        self.size
    }

    /// A fresh upload record; the remote parent starts empty and is assigned
    /// before the upload.
    pub fn new(local_path: String, mtime: i64, size: u64) -> (r: File)
        ensures
            r.spec_local_path() == local_path@,
            r.spec_remote_parent() == Seq::<char>::empty(),
            r.spec_mtime() == mtime,
            r.spec_size() == size,
    {
        let r = File { local_path, remote_parent: String::new(), mtime, size };
        r
    }

    pub fn get_size(&self) -> (r: u64)
        ensures
            r == self.spec_size(),
    {
        self.size
    }

    pub fn get_local_path(&self) -> (r: &str)
        ensures
            r@ == self.spec_local_path(),
    {
        self.local_path.as_str()
    }

    pub fn get_remote_parent(&self) -> (r: &str)
        ensures
            r@ == self.spec_remote_parent(),
    {
        self.remote_parent.as_str()
    }

    /// Appends `remote_parent` to the stored remote parent path, separated
    /// by '/' when something is already there.
    pub fn set_remote_parent(&mut self, remote_parent: String)
        ensures
            final(self).spec_remote_parent() == if old(self).spec_remote_parent().len() == 0 {
                remote_parent@
            } else {
                old(self).spec_remote_parent() + "/"@ + remote_parent@
            },
            final(self).spec_local_path() == old(self).spec_local_path(),
            final(self).spec_mtime() == old(self).spec_mtime(),
            final(self).spec_size() == old(self).spec_size(),
    {
        if self.remote_parent.as_str().is_empty() {
            self.remote_parent = remote_parent;
        } else {
            self.remote_parent.append("/");
            self.remote_parent.append(remote_parent.as_str());
        }
    }

    pub fn get_mtime(&self) -> (r: i64)
        ensures
            r == self.spec_mtime(),
    {
        self.mtime
    }
}

} // verus!
