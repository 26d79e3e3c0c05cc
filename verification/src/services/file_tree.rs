//! Building the folder tree of a Google Drive from its flat file listing.
use crate::common::encrypt::{decrypt, decryption, Decrypted, NONCE_LEN};
use crate::services::entities::CloudAccount;
use vstd::prelude::*;

verus! {

/// A node of a drive's folder tree.
#[allow(non_snake_case)]
pub struct Node {
    pub id: String,
    pub name: String,
    pub mimeType: String,
    pub children: Vec<Node>,
}

/// Mathematical model of a [`Node`]: its id, name and MIME type as character
/// sequences, and the models of its children, in order.
pub struct NodeModel {
    pub id: Seq<char>,
    pub name: Seq<char>,
    pub mime_type: Seq<char>,
    pub children: Seq<NodeModel>,
}

impl Node {
    pub open spec fn model(&self) -> NodeModel
        decreases self,
    {
        NodeModel {
            id: self.id@,
            name: self.name@,
            mime_type: self.mimeType@,
            children: forest_model(self.children@),
        }
    }
}

/// The models of a sequence of nodes, element by element.
pub open spec fn forest_model(s: Seq<Node>) -> Seq<NodeModel>
    decreases s,
{
    if s.len() == 0 {
        Seq::empty()
    } else {
        forest_model(s.drop_last()).push(s.last().model())
    }
}

pub proof fn lemma_forest_model(s: Seq<Node>)
    ensures
        forest_model(s).len() == s.len(),
        forall|i: int| 0 <= i < s.len() ==> #[trigger] forest_model(s)[i] == s[i].model(),
    decreases s.len(),
{
    if s.len() > 0 {
        lemma_forest_model(s.drop_last());
    }
}

pub proof fn lemma_forest_model_update(s: Seq<Node>, i: int, n: Node)
    requires
        0 <= i < s.len(),
    ensures
        forest_model(s.update(i, n)) == forest_model(s).update(i, n.model()),
{
    lemma_forest_model(s);
    lemma_forest_model(s.update(i, n));
    assert(forest_model(s.update(i, n)) =~= forest_model(s).update(i, n.model()));
}

/// The path (one index per level) of the first node, in pre-order, whose id
/// is `id`, searching `forest` from its `i`-th tree on.
pub open spec fn find_path_from(forest: Seq<NodeModel>, id: Seq<char>, i: int) -> Option<Seq<int>>
    decreases forest, forest.len() - i,
{
    if i < 0 || i >= forest.len() {
        None
    } else if forest[i].id == id {
        Some(seq![i])
    } else {
        match find_path_from(forest[i].children, id, 0) {
            Some(p) => Some(seq![i] + p),
            None => find_path_from(forest, id, i + 1),
        }
    }
}

/// The path of the first node, in pre-order, of `forest` whose id is `id`.
pub open spec fn find_path(forest: Seq<NodeModel>, id: Seq<char>) -> Option<Seq<int>> {
    find_path_from(forest, id, 0)
}

/// The node that `path` leads to in `forest`.
pub open spec fn node_at(forest: Seq<NodeModel>, path: Seq<int>) -> NodeModel
    decreases path.len(),
{
    if path.len() <= 1 {
        forest[path[0]]
    } else {
        node_at(forest[path[0]].children, path.drop_first())
    }
}

/// `forest` with the node that `path` leads to replaced by `t`.
pub open spec fn replace_at(forest: Seq<NodeModel>, path: Seq<int>, t: NodeModel) -> Seq<NodeModel>
    decreases path.len(),
{
    if path.len() <= 1 {
        forest.update(path[0], t)
    } else {
        let n = forest[path[0]];
        forest.update(
            path[0],
            NodeModel { children: replace_at(n.children, path.drop_first(), t), ..n },
        )
    }
}

pub proof fn lemma_find_path_from(forest: Seq<NodeModel>, id: Seq<char>, i: int)
    ensures
        find_path_from(forest, id, i) matches Some(p) ==> p.len() >= 1,
    decreases forest, forest.len() - i,
{
    if 0 <= i < forest.len() && forest[i].id != id {
        lemma_find_path_from(forest[i].children, id, 0);
        lemma_find_path_from(forest, id, i + 1);
    }
}

/// Whether `path` leads, level by level, to a node of `forest`.
pub open spec fn valid_path(forest: Seq<NodeModel>, path: Seq<int>) -> bool
    decreases path.len(),
{
    &&& path.len() >= 1
    &&& 0 <= path[0] < forest.len()
    &&& path.len() > 1 ==> valid_path(forest[path[0]].children, path.drop_first())
}

/// Whether two nodes carry the same id, name and MIME type.
pub open spec fn same_label(a: NodeModel, b: NodeModel) -> bool {
    a.id == b.id && a.name == b.name && a.mime_type == b.mime_type
}

/// Whether every node of `b` is found in `a` at the same path, with the same
/// label.
pub open spec fn extends(a: Seq<NodeModel>, b: Seq<NodeModel>) -> bool {
    forall|q: Seq<int>|
        #![trigger valid_path(b, q)]
        valid_path(b, q) ==> valid_path(a, q) && same_label(node_at(a, q), node_at(b, q))
}

/// Whether some node of the forest, at any depth, has id `id`.
pub open spec fn occurs(forest: Seq<NodeModel>, id: Seq<char>) -> bool {
    find_path(forest, id) is Some
}

/// What the first match in pre-order is: a node with the id, at a valid path.
pub proof fn lemma_find_path_valid(forest: Seq<NodeModel>, id: Seq<char>, i: int)
    ensures
        find_path_from(forest, id, i) matches Some(p) ==> valid_path(forest, p) && node_at(forest, p).id
            == id && p[0] >= i,
    decreases forest, forest.len() - i,
{
    if 0 <= i < forest.len() && forest[i].id != id {
        lemma_find_path_valid(forest[i].children, id, 0);
        lemma_find_path_valid(forest, id, i + 1);
        if let Some(p) = find_path_from(forest[i].children, id, 0) {
            let q = seq![i] + p;
            assert(q.drop_first() =~= p);
        }
    }
}

/// A node with the id at some valid path means the search finds one.
pub proof fn lemma_find_path_complete(forest: Seq<NodeModel>, id: Seq<char>, i: int, q: Seq<int>)
    requires
        valid_path(forest, q),
        node_at(forest, q).id == id,
        0 <= i <= q[0],
    ensures
        find_path_from(forest, id, i) is Some,
    decreases forest, forest.len() - i,
{
    if forest[i].id != id {
        if i == q[0] {
            lemma_find_path_complete(forest[i].children, id, 0, q.drop_first());
        } else {
            lemma_find_path_complete(forest, id, i + 1, q);
        }
    }
}

/// Extending a sequence of trees at its end keeps every path of it.
proof fn lemma_push_keeps_paths(s: Seq<NodeModel>, x: NodeModel, q: Seq<int>)
    requires
        valid_path(s, q),
    ensures
        valid_path(s.push(x), q),
        node_at(s.push(x), q) == node_at(s, q),
{
    assert(s.push(x)[q[0]] == s[q[0]]);
}

/// A path of more than one step leads through its prefix.
proof fn lemma_valid_path_prefix(forest: Seq<NodeModel>, q: Seq<int>)
    requires
        valid_path(forest, q),
        q.len() > 1,
    ensures
        valid_path(forest, q.drop_last()),
        node_at(forest, q) == node_at(node_at(forest, q.drop_last()).children, seq![q.last()]),
    decreases q.len(),
{
    if q.len() > 2 {
        lemma_valid_path_prefix(forest[q[0]].children, q.drop_first());
        assert(q.drop_first().drop_last() =~= q.drop_last().drop_first());
    } else {
        assert(q.drop_first() =~= seq![q.last()]);
    }
}

/// What appending a child `c` to the node at path `p` does to the paths of a
/// forest: the old ones stay, with their labels; the one new path leads to `c`.
proof fn lemma_add_child(forest: Seq<NodeModel>, p: Seq<int>, c: NodeModel)
    requires
        valid_path(forest, p),
        c.children.len() == 0,
    ensures
        ({
            let n = node_at(forest, p);
            let after = replace_at(forest, p, with_child(n, c));
            let q_new = p.push(n.children.len() as int);
            &&& after.len() == forest.len()
            &&& extends(after, forest)
            &&& valid_path(after, q_new)
            &&& node_at(after, q_new) == c
            &&& forall|q: Seq<int>|
                #![trigger valid_path(after, q)]
                valid_path(after, q) ==> valid_path(forest, q) || q == q_new
        }),
    decreases p.len(),
{
    let n = node_at(forest, p);
    let t = with_child(n, c);
    let after = replace_at(forest, p, t);
    let q_new = p.push(n.children.len() as int);
    if p.len() == 1 {
        assert(after == forest.update(p[0], t));
        assert forall|q: Seq<int>| #![trigger valid_path(forest, q)] valid_path(forest, q) implies valid_path(
            after,
            q,
        ) && same_label(node_at(after, q), node_at(forest, q)) by {
            if q[0] != p[0] || q.len() == 1 {
            } else {
                lemma_push_keeps_paths(n.children, c, q.drop_first());
            }
        }
        assert(q_new.drop_first() =~= seq![n.children.len() as int]);
        assert(t.children[n.children.len() as int] == c);
        assert(after[p[0]] == t);
        assert(q_new[0] == p[0]);
        assert(valid_path(t.children, seq![n.children.len() as int]));
        assert(valid_path(after, q_new));
        assert(node_at(t.children, seq![n.children.len() as int]) == c);
        assert(node_at(after, q_new) == c);
        assert forall|q: Seq<int>| #![trigger valid_path(after, q)] valid_path(after, q) implies valid_path(
            forest,
            q,
        ) || q == q_new by {
            if q[0] == p[0] && q.len() > 1 {
                let r = q.drop_first();
                assert(after[q[0]] == t);
                assert(valid_path(t.children, r));
                if r[0] < n.children.len() {
                    assert(t.children[r[0]] == n.children[r[0]]);
                    assert(valid_path(n.children, r));
                    assert(forest[q[0]] == n);
                    assert(valid_path(forest, q));
                } else {
                    assert(r[0] == n.children.len());
                    assert(t.children[r[0]] == c);
                    if r.len() > 1 {
                        assert(valid_path(c.children, r.drop_first()));
                    }
                    assert(r.len() == 1);
                    assert(q =~= q_new);
                }
            }
        }
    } else {
        let m = forest[p[0]];
        let rest = p.drop_first();
        lemma_add_child(m.children, rest, c);
        assert(node_at(m.children, rest) == n);
        let inner = replace_at(m.children, rest, t);
        let m2 = NodeModel { children: inner, ..m };
        assert(after == forest.update(p[0], m2));
        assert forall|q: Seq<int>| #![trigger valid_path(forest, q)] valid_path(forest, q) implies valid_path(
            after,
            q,
        ) && same_label(node_at(after, q), node_at(forest, q)) by {
            if q[0] != p[0] || q.len() == 1 {
            } else {
                assert(valid_path(m.children, q.drop_first()));
            }
        }
        assert(q_new.drop_first() =~= rest.push(n.children.len() as int));
        assert(after[p[0]] == m2);
        assert(q_new[0] == p[0]);
        assert(valid_path(after, q_new));
        assert(node_at(after, q_new) == c);
        assert forall|q: Seq<int>| #![trigger valid_path(after, q)] valid_path(after, q) implies valid_path(
            forest,
            q,
        ) || q == q_new by {
            if q[0] == p[0] && q.len() > 1 {
                let r = q.drop_first();
                assert(valid_path(inner, r));
                if r != rest.push(n.children.len() as int) {
                    assert(valid_path(m.children, r));
                } else {
                    assert(q =~= seq![q[0]] + r);
                    assert(q_new =~= seq![p[0]] + rest.push(n.children.len() as int));
                    assert(q =~= q_new);
                }
            }
        }
    }
}

fn contains_id(nodes: &Vec<Node>, target: &String) -> (r: bool)
    ensures
        r == (find_path(forest_model(nodes@), target@) is Some),
    decreases nodes@,
{
    proof {
        lemma_forest_model(nodes@);
    }
    let n = nodes.len();
    let mut i: usize = 0;
    while i < n
        invariant
            n == nodes@.len(),
            i <= n,
            find_path(forest_model(nodes@), target@) == find_path_from(forest_model(nodes@), target@, i as int),
        decreases n - i,
    {
        proof {
            lemma_forest_model(nodes@);
        }
        if nodes[i].id == *target {
            return true;
        }
        assert(decreases_to!(nodes@ => nodes@[i as int]));
        if contains_id(&nodes[i].children, target) {
            return true;
        }
        i += 1;
    }
    false
}

fn find_in<'a>(nodes: &'a mut Vec<Node>, target: &String) -> (r: Option<&'a mut Node>)
    ensures
        match find_path(forest_model(old(nodes)@), target@) {
            None => r is None && final(nodes)@ == old(nodes)@,
            Some(p) => {
                &&& r is Some
                &&& (*r->0).model() == node_at(forest_model(old(nodes)@), p)
                &&& forest_model(final(nodes)@) == replace_at(
                    forest_model(old(nodes)@),
                    p,
                    (*final(r->0)).model(),
                )
            },
        },
    decreases old(nodes)@,
{
    let n = nodes.len();
    let mut i: usize = 0;
    while i < n
        invariant
            n == nodes@.len(),
            i <= n,
            nodes@ == old(nodes)@,
            find_path(forest_model(nodes@), target@) == find_path_from(forest_model(nodes@), target@, i as int),
        decreases n - i,
    {
        proof {
            lemma_forest_model(nodes@);
        }
        let ghost before = nodes@;
        if nodes[i].id == *target {
            let r = &mut nodes[i];
            proof {
                lemma_forest_model_update(before, i as int, *final(r));
                assert(find_path(forest_model(before), target@) == Some(seq![i as int]));
            }
            return Some(r);
        }
        assert(decreases_to!(nodes@ => nodes@[i as int]));
        if contains_id(&nodes[i].children, target) {
            let node = &mut nodes[i];
            let ghost child = *node;
            proof {
                lemma_forest_model_update(before, i as int, *final(node));
                lemma_forest_model(before);
                assert(forest_model(before)[i as int] == child.model());
            }
            let r = find_in_children(node, target);
            proof {
                let p = find_path(forest_model(child.children@), target@)->0;
                assert(find_path(forest_model(before), target@) == Some(seq![i as int] + p));
                assert((seq![i as int] + p).drop_first() =~= p);
                assert((seq![i as int] + p)[0] == i);
            }
            return r;
        }
        i += 1;
    }
    proof {
        lemma_forest_model(nodes@);
    }
    None
}

fn find_in_children<'a>(node: &'a mut Node, target: &String) -> (r: Option<&'a mut Node>)
    requires
        find_path(forest_model(old(node).children@), target@) is Some,
    ensures
        ({
            let p = find_path(forest_model(old(node).children@), target@)->0;
            &&& r is Some
            &&& p.len() >= 1
            &&& (*r->0).model() == node_at(forest_model(old(node).children@), p)
            &&& (*final(node)).model() == NodeModel {
                children: replace_at(forest_model(old(node).children@), p, (*final(r->0)).model()),
                ..old(node).model()
            }
        }),
    decreases *old(node),
{
    proof {
        lemma_find_path_from(forest_model(node.children@), target@, 0);
    }
    find_in(&mut node.children, target)
}

/// Finds, in pre-order, the first node of `nodes` (at any depth) whose id is
/// `target_id`, and hands it out for modification.
pub fn find_node_mut<'a>(nodes: &'a mut Vec<Node>, target_id: &str) -> (r: Option<&'a mut Node>)
    ensures
        r is None <==> !occurs(forest_model(old(nodes)@), target_id@),
        r matches Some(n) ==> n.id@ == target_id@,
        match find_path(forest_model(old(nodes)@), target_id@) {
            None => r is None && final(nodes)@ == old(nodes)@,
            Some(p) => {
                &&& r is Some
                &&& (*r->0).model() == node_at(forest_model(old(nodes)@), p)
                &&& forest_model(final(nodes)@) == replace_at(
                    forest_model(old(nodes)@),
                    p,
                    (*final(r->0)).model(),
                )
            },
        },
{
    let target = target_id.to_owned();
    proof {
        lemma_find_path_valid(forest_model(nodes@), target_id@, 0);
    }
    find_in(nodes, &target)
}

/// A file of a drive listing: the input the tree is built from.
#[allow(non_snake_case)]
pub struct DriveFile {
    pub id: String,
    pub name: String,
    pub mimeType: String,
    pub parents: Vec<String>,
}

/// The childless node that stands for `f` in the tree.
pub open spec fn leaf(f: DriveFile) -> NodeModel {
    NodeModel { id: f.id@, name: f.name@, mime_type: f.mimeType@, children: Seq::empty() }
}

/// `n` with `c` appended to its children.
pub open spec fn with_child(n: NodeModel, c: NodeModel) -> NodeModel {
    NodeModel { children: n.children.push(c), ..n }
}

/// Whether the file lists no parent folder.
pub open spec fn is_parentless(f: DriveFile) -> bool {
    f.parents@.len() == 0
}

/// The files without a parent, as childless nodes, in the order listed.
pub open spec fn root_leaves(files: Seq<DriveFile>) -> Seq<NodeModel>
    decreases files.len(),
{
    if files.len() == 0 {
        Seq::empty()
    } else if is_parentless(files.last()) {
        root_leaves(files.drop_last()).push(leaf(files.last()))
    } else {
        root_leaves(files.drop_last())
    }
}

/// The ids of the trees of a forest, in order.
pub open spec fn top_ids(forest: Seq<NodeModel>) -> Seq<Seq<char>> {
    forest.map_values(|n: NodeModel| n.id)
}

/// The views of a sequence of strings.
pub open spec fn string_views(v: Seq<String>) -> Seq<Seq<char>> {
    v.map_values(|s: String| s@)
}

/// A forest and the ids of the files attached so far: the state of the
/// construction.
pub type Build = (Seq<NodeModel>, Seq<Seq<char>>);

/// Attaching `file` under the first `k` of its parents, each one looked up in
/// the forest as it stands when its turn comes.
pub open spec fn attach_to_parents(st: Build, file: DriveFile, k: int) -> Build
    decreases k,
{
    if k <= 0 {
        st
    } else {
        let prev = attach_to_parents(st, file, k - 1);
        match find_path(prev.0, file.parents@[k - 1]@) {
            None => prev,
            Some(p) => (replace_at(prev.0, p, with_child(node_at(prev.0, p), leaf(file))), prev.1.push(file.id@)),
        }
    }
}

/// One file's turn in a pass: a file that has parents and is not attached
/// yet goes under each of its parents found in the forest.
pub open spec fn attach_file(st: Build, file: DriveFile) -> Build {
    if is_parentless(file) || st.1.contains(file.id@) {
        st
    } else {
        attach_to_parents(st, file, file.parents@.len() as int)
    }
}

/// The first `j` files' turns of a pass.
pub open spec fn pass_upto(st: Build, files: Seq<DriveFile>, j: int) -> Build
    decreases j,
{
    if j <= 0 {
        st
    } else {
        attach_file(pass_upto(st, files, j - 1), files[j - 1])
    }
}

/// One pass over all the files.
pub open spec fn one_pass(st: Build, files: Seq<DriveFile>) -> Build {
    pass_upto(st, files, files.len() as int)
}

/// Passes repeated until one of them attaches nothing, `rounds` of them at most.
pub open spec fn passes(st: Build, files: Seq<DriveFile>, rounds: nat) -> Seq<NodeModel>
    decreases rounds,
{
    if rounds == 0 {
        st.0
    } else {
        let next = one_pass(st, files);
        if next.1.len() == st.1.len() {
            next.0
        } else {
            passes(next, files, (rounds - 1) as nat)
        }
    }
}

/// The forest that [`build_tree`] builds from `files`: the parentless files
/// are the roots, and passes attach every other file under each of its
/// parents already in the forest, until a pass attaches nothing.
pub open spec fn built_forest(files: Seq<DriveFile>) -> Seq<NodeModel> {
    let roots = root_leaves(files);
    passes((roots, top_ids(roots)), files, (files.len() + 1) as nat)
}

/// The number of files that have parents and whose id is not among `ids`.
pub open spec fn unattached(files: Seq<DriveFile>, ids: Seq<Seq<char>>) -> nat
    decreases files.len(),
{
    if files.len() == 0 {
        0
    } else {
        unattached(files.drop_last(), ids) + if !is_parentless(files.last()) && !ids.contains(
            files.last().id@,
        ) {
            1nat
        } else {
            0nat
        }
    }
}

/// Attaching a file under its parents only appends that file's id.
proof fn lemma_attach_to_parents_ids(st: Build, file: DriveFile, k: int)
    ensures
        ({
            let r = attach_to_parents(st, file, k);
            &&& r.1.len() >= st.1.len()
            &&& r.1.subrange(0, st.1.len() as int) == st.1
            &&& forall|t: int| st.1.len() <= t < r.1.len() ==> #[trigger] r.1[t] == file.id@
        }),
    decreases k,
{
    if k > 0 {
        lemma_attach_to_parents_ids(st, file, k - 1);
        let prev = attach_to_parents(st, file, k - 1);
        let r = attach_to_parents(st, file, k);
        if find_path(prev.0, file.parents@[k - 1]@) is Some {
            assert(r.1 == prev.1.push(file.id@));
            assert(r.1.subrange(0, st.1.len() as int) =~= prev.1.subrange(0, st.1.len() as int));
        }
    }
}

/// A pass only appends ids, and when it appends any, some file with parents
/// that was not attached before has been attached by it.
proof fn lemma_pass_upto_ids(st: Build, files: Seq<DriveFile>, j: int)
    requires
        0 <= j <= files.len(),
    ensures
        ({
            let r = pass_upto(st, files, j);
            &&& r.1.len() >= st.1.len()
            &&& r.1.subrange(0, st.1.len() as int) == st.1
            &&& r.1.len() > st.1.len() ==> exists|x: int|
                #![trigger files[x]]
                0 <= x < j && !is_parentless(files[x]) && !st.1.contains(files[x].id@)
                    && r.1.contains(files[x].id@)
        }),
    decreases j,
{
    if j > 0 {
        lemma_pass_upto_ids(st, files, j - 1);
        let prev = pass_upto(st, files, j - 1);
        let r = pass_upto(st, files, j);
        let file = files[j - 1];
        if !is_parentless(file) && !prev.1.contains(file.id@) {
            lemma_attach_to_parents_ids(prev, file, file.parents@.len() as int);
        }
        assert(r.1.len() >= prev.1.len());
        assert(r.1.subrange(0, prev.1.len() as int) == prev.1);
        assert(r.1.subrange(0, st.1.len() as int) =~= r.1.subrange(0, prev.1.len() as int).subrange(
            0,
            st.1.len() as int,
        ));
        if r.1.len() > st.1.len() {
            if prev.1.len() > st.1.len() {
                let x = choose|x: int|
                    #![trigger files[x]]
                    0 <= x < j - 1 && !is_parentless(files[x]) && !st.1.contains(files[x].id@)
                        && prev.1.contains(files[x].id@);
                let t = choose|t: int| 0 <= t < prev.1.len() && prev.1[t] == files[x].id@;
                assert(r.1[t] == prev.1[t]);
                assert(r.1.contains(files[x].id@));
            } else {
                assert(prev.1 =~= st.1);
                assert(r.1[prev.1.len() as int] == file.id@);
                assert(r.1.contains(file.id@));
                assert(files[j - 1] == file);
            }
        }
    }
}

/// Attaching more ids never raises the count of unattached files, and
/// attaching one that counted lowers it.
proof fn lemma_unattached_mono(files: Seq<DriveFile>, a: Seq<Seq<char>>, b: Seq<Seq<char>>)
    requires
        forall|x: Seq<char>| a.contains(x) ==> b.contains(x),
    ensures
        unattached(files, b) <= unattached(files, a),
        (exists|i: int|
            #![trigger files[i]]
            0 <= i < files.len() && !is_parentless(files[i]) && !a.contains(files[i].id@)
                && b.contains(files[i].id@)) ==> unattached(files, b) < unattached(files, a),
        unattached(files, a) <= files.len(),
    decreases files.len(),
{
    if files.len() > 0 {
        let init = files.drop_last();
        lemma_unattached_mono(init, a, b);
        if exists|i: int|
            #![trigger files[i]]
            0 <= i < files.len() && !is_parentless(files[i]) && !a.contains(files[i].id@)
                && b.contains(files[i].id@) {
            let i = choose|i: int|
                #![trigger files[i]]
                0 <= i < files.len() && !is_parentless(files[i]) && !a.contains(files[i].id@)
                    && b.contains(files[i].id@);
            if i < files.len() - 1 {
                assert(init[i] == files[i]);
            }
        }
    }
}

proof fn lemma_forest_model_push(s: Seq<Node>, n: Node)
    ensures
        forest_model(s.push(n)) == forest_model(s).push(n.model()),
{
    assert(s.push(n).drop_last() =~= s);
}

/// The id of the parent of the node at `q`, if it is not a root.
pub open spec fn parent_id(forest: Seq<NodeModel>, q: Seq<int>) -> Option<Seq<char>> {
    if q.len() <= 1 {
        None
    } else {
        Some(node_at(forest, q.drop_last()).id)
    }
}

/// Whether `n` stands for one of `files`: a file without parents when `parent`
/// is `None`, a file that lists `parent` among its parents otherwise.
pub open spec fn from_file(n: NodeModel, files: Seq<DriveFile>, parent: Option<Seq<char>>) -> bool {
    exists|x: int|
        #![trigger files[x]]
        0 <= x < files.len() && same_label(n, leaf(files[x])) && match parent {
            None => is_parentless(files[x]),
            Some(pid) => string_views(files[x].parents@).contains(pid),
        }
}

/// Whether every node of `forest` stands for one of `files`: each root for a
/// file without parents, each child for a file that lists its parent.
pub open spec fn placed(forest: Seq<NodeModel>, files: Seq<DriveFile>) -> bool {
    forall|q: Seq<int>|
        #![trigger valid_path(forest, q)]
        valid_path(forest, q) ==> from_file(node_at(forest, q), files, parent_id(forest, q))
}

/// Whether the roots of `forest` carry, in order, the labels of `roots`.
pub open spec fn same_roots(forest: Seq<NodeModel>, roots: Seq<NodeModel>) -> bool {
    forest.len() == roots.len() && forall|i: int|
        0 <= i < roots.len() ==> #[trigger] same_label(forest[i], roots[i])
}

/// What holds of every state of the construction.
pub open spec fn build_inv(st: Build, files: Seq<DriveFile>) -> bool {
    &&& placed(st.0, files)
    &&& forall|t: int| 0 <= t < st.1.len() ==> #[trigger] occurs(st.0, st.1[t])
    &&& same_roots(st.0, root_leaves(files))
}

/// Whether every file with parents whose parent is in the forest is in it too.
pub open spec fn closed(forest: Seq<NodeModel>, files: Seq<DriveFile>) -> bool {
    forall|x: int, k: int|
        #![trigger files[x].parents@[k]]
        0 <= x < files.len() && 0 <= k < files[x].parents@.len() && occurs(
            forest,
            files[x].parents@[k]@,
        ) ==> occurs(forest, files[x].id@)
}

proof fn lemma_occurs_kept(before: Seq<NodeModel>, after: Seq<NodeModel>, id: Seq<char>)
    requires
        extends(after, before),
        occurs(before, id),
    ensures
        occurs(after, id),
{
    lemma_find_path_valid(before, id, 0);
    let p = find_path(before, id)->0;
    assert(valid_path(before, p));
    lemma_find_path_complete(after, id, 0, p);
}

/// Attaching a file under a parent found in the forest keeps the invariant.
proof fn lemma_attach_step(st: Build, files: Seq<DriveFile>, x: int, k: int)
    requires
        build_inv(st, files),
        0 <= x < files.len(),
        0 <= k < files[x].parents@.len(),
        find_path(st.0, files[x].parents@[k]@) is Some,
    ensures
        ({
            let file = files[x];
            let p = find_path(st.0, file.parents@[k]@)->0;
            build_inv(
                (replace_at(st.0, p, with_child(node_at(st.0, p), leaf(file))), st.1.push(file.id@)),
                files,
            )
        }),
{
    let file = files[x];
    let pid = file.parents@[k]@;
    let f0 = st.0;
    lemma_find_path_valid(f0, pid, 0);
    let p = find_path(f0, pid)->0;
    let n = node_at(f0, p);
    let c = leaf(file);
    let f1 = replace_at(f0, p, with_child(n, c));
    let ids = st.1.push(file.id@);
    lemma_add_child(f0, p, c);
    let q_new = p.push(n.children.len() as int);
    assert forall|q: Seq<int>| #![trigger valid_path(f1, q)] valid_path(f1, q) implies from_file(
        node_at(f1, q),
        files,
        parent_id(f1, q),
    ) by {
        if q == q_new {
            assert(q_new.drop_last() =~= p);
            assert(string_views(file.parents@)[k] == pid);
            assert(from_file(node_at(f1, q), files, parent_id(f1, q)));
        } else {
            assert(valid_path(f0, q));
            assert(from_file(node_at(f0, q), files, parent_id(f0, q)));
            if q.len() > 1 {
                lemma_valid_path_prefix(f0, q);
                assert(valid_path(f0, q.drop_last()));
            }
            let y = choose|y: int|
                #![trigger files[y]]
                0 <= y < files.len() && same_label(node_at(f0, q), leaf(files[y])) && match parent_id(
                    f0,
                    q,
                ) {
                    None => is_parentless(files[y]),
                    Some(pp) => string_views(files[y].parents@).contains(pp),
                };
            assert(same_label(node_at(f1, q), leaf(files[y])));
        }
    }
    assert forall|t: int| 0 <= t < ids.len() implies #[trigger] occurs(f1, ids[t]) by {
        if t < st.1.len() {
            assert(occurs(f0, st.1[t]));
            lemma_occurs_kept(f0, f1, st.1[t]);
        } else {
            lemma_find_path_complete(f1, file.id@, 0, q_new);
        }
    }
    let roots = root_leaves(files);
    assert forall|i: int| 0 <= i < roots.len() implies #[trigger] same_label(f1[i], roots[i]) by {
        assert(same_label(f0[i], roots[i]));
        assert(valid_path(f0, seq![i]));
    }
}

/// Attaching a file under its parents keeps the invariant.
proof fn lemma_attach_to_parents_inv(st: Build, files: Seq<DriveFile>, x: int, k: int)
    requires
        build_inv(st, files),
        0 <= x < files.len(),
        0 <= k <= files[x].parents@.len(),
    ensures
        build_inv(attach_to_parents(st, files[x], k), files),
    decreases k,
{
    if k > 0 {
        lemma_attach_to_parents_inv(st, files, x, k - 1);
        let prev = attach_to_parents(st, files[x], k - 1);
        if find_path(prev.0, files[x].parents@[k - 1]@) is Some {
            lemma_attach_step(prev, files, x, k - 1);
        }
    }
}

/// Every state that a pass goes through satisfies the invariant.
proof fn lemma_pass_upto_inv(st: Build, files: Seq<DriveFile>, j: int)
    requires
        build_inv(st, files),
        0 <= j <= files.len(),
    ensures
        build_inv(pass_upto(st, files, j), files),
    decreases j,
{
    if j > 0 {
        lemma_pass_upto_inv(st, files, j - 1);
        let prev = pass_upto(st, files, j - 1);
        if !is_parentless(files[j - 1]) && !prev.1.contains(files[j - 1].id@) {
            lemma_attach_to_parents_inv(prev, files, j - 1, files[j - 1].parents@.len() as int);
        }
    }
}

/// Attaching that appends no id changes nothing, and found none of the parents.
proof fn lemma_attach_to_parents_quiet(st: Build, file: DriveFile, k: int)
    requires
        attach_to_parents(st, file, k).1.len() == st.1.len(),
        0 <= k <= file.parents@.len(),
    ensures
        attach_to_parents(st, file, k) == st,
        forall|l: int| 0 <= l < k ==> find_path(st.0, #[trigger] file.parents@[l]@) is None,
    decreases k,
{
    if k > 0 {
        let prev = attach_to_parents(st, file, k - 1);
        lemma_attach_to_parents_ids(st, file, k - 1);
        if find_path(prev.0, file.parents@[k - 1]@) is Some {
            assert(attach_to_parents(st, file, k).1 == prev.1.push(file.id@));
        }
        lemma_attach_to_parents_quiet(st, file, k - 1);
    }
}

/// A pass that appends no id changes nothing: every file with parents that
/// is not attached yet has none of its parents in the forest.
proof fn lemma_pass_upto_quiet(st: Build, files: Seq<DriveFile>, j: int)
    requires
        pass_upto(st, files, j).1.len() == st.1.len(),
        0 <= j <= files.len(),
    ensures
        pass_upto(st, files, j) == st,
        forall|x: int, l: int|
            #![trigger files[x].parents@[l]]
            0 <= x < j && 0 <= l < files[x].parents@.len() && !st.1.contains(files[x].id@)
                ==> find_path(st.0, files[x].parents@[l]@) is None,
    decreases j,
{
    if j > 0 {
        let prev = pass_upto(st, files, j - 1);
        lemma_pass_upto_ids(st, files, j - 1);
        let file = files[j - 1];
        if !is_parentless(file) && !prev.1.contains(file.id@) {
            lemma_attach_to_parents_ids(prev, file, file.parents@.len() as int);
        }
        lemma_pass_upto_quiet(st, files, j - 1);
        if !is_parentless(file) && !prev.1.contains(file.id@) {
            lemma_attach_to_parents_quiet(prev, file, file.parents@.len() as int);
        }
    }
}

/// Passes from a state that satisfies the invariant end in a closed forest
/// that satisfies it, when there are rounds enough.
proof fn lemma_passes(st: Build, files: Seq<DriveFile>, rounds: nat)
    requires
        build_inv(st, files),
        rounds >= unattached(files, st.1) + 1,
    ensures
        placed(passes(st, files, rounds), files),
        same_roots(passes(st, files, rounds), root_leaves(files)),
        closed(passes(st, files, rounds), files),
    decreases rounds,
{
    let next = one_pass(st, files);
    lemma_pass_upto_inv(st, files, files.len() as int);
    lemma_pass_upto_ids(st, files, files.len() as int);
    if next.1.len() == st.1.len() {
        lemma_pass_upto_quiet(st, files, files.len() as int);
        assert forall|x: int, k: int|
            #![trigger files[x].parents@[k]]
            0 <= x < files.len() && 0 <= k < files[x].parents@.len() && occurs(
                st.0,
                files[x].parents@[k]@,
            ) implies occurs(st.0, files[x].id@) by {
            if !st.1.contains(files[x].id@) {
                assert(find_path(st.0, files[x].parents@[k]@) is None);
            } else {
                let t = choose|t: int| 0 <= t < st.1.len() && st.1[t] == files[x].id@;
                assert(occurs(st.0, st.1[t]));
            }
        }
    } else {
        assert forall|y: Seq<char>| st.1.contains(y) implies next.1.contains(y) by {
            let t = choose|t: int| 0 <= t < st.1.len() && st.1[t] == y;
            assert(next.1.subrange(0, st.1.len() as int)[t] == y);
        }
        lemma_unattached_mono(files, st.1, next.1);
        lemma_passes(next, files, (rounds - 1) as nat);
    }
}

/// The starting state: the parentless files as roots.
proof fn lemma_root_leaves(files: Seq<DriveFile>)
    ensures
        build_inv((root_leaves(files), top_ids(root_leaves(files))), files),
        forall|i: int|
            0 <= i < root_leaves(files).len() ==> (#[trigger] root_leaves(files)[i]).children.len()
                == 0,
    decreases files.len(),
{
    let r = root_leaves(files);
    if files.len() > 0 {
        let init = files.drop_last();
        lemma_root_leaves(init);
        let r0 = root_leaves(init);
        assert forall|i: int| 0 <= i < r.len() implies (#[trigger] r[i]).children.len() == 0 by {
            if i < r0.len() {
                assert(r[i] == r0[i]);
            }
        }
        assert forall|q: Seq<int>| #![trigger valid_path(r, q)] valid_path(r, q) implies from_file(
            node_at(r, q),
            files,
            parent_id(r, q),
        ) by {
            if q.len() > 1 {
                assert(r[q[0]].children.len() == 0);
                assert(valid_path(r[q[0]].children, q.drop_first()));
            }
            assert(q.len() == 1);
            if q[0] < r0.len() {
                assert(r[q[0]] == r0[q[0]]);
                assert(valid_path(r0, q));
                let y = choose|y: int|
                    #![trigger init[y]]
                    0 <= y < init.len() && same_label(node_at(r0, q), leaf(init[y]))
                        && is_parentless(init[y]);
                assert(files[y] == init[y]);
            } else {
                assert(files[files.len() - 1] == files.last());
            }
        }
    }
    assert forall|t: int| 0 <= t < top_ids(r).len() implies #[trigger] occurs(r, top_ids(r)[t]) by {
        lemma_find_path_complete(r, top_ids(r)[t], 0, seq![t]);
    }
}

/// How many nodes a forest holds, at every depth.
pub open spec fn forest_size(forest: Seq<NodeModel>) -> nat
    decreases forest,
{
    if forest.len() == 0 {
        0
    } else {
        forest_size(forest.drop_last()) + 1 + forest_size(forest.last().children)
    }
}

/// How many (file, listed parent) pairs the files with parents make.
pub open spec fn parent_links(files: Seq<DriveFile>) -> nat
    decreases files.len(),
{
    if files.len() == 0 {
        0
    } else {
        parent_links(files.drop_last()) + files.last().parents@.len()
    }
}

/// The parent links of the files with parents whose id is not among `ids`.
pub open spec fn open_links(files: Seq<DriveFile>, ids: Seq<Seq<char>>) -> nat
    decreases files.len(),
{
    if files.len() == 0 {
        0
    } else {
        open_links(files.drop_last(), ids) + if !is_parentless(files.last()) && !ids.contains(
            files.last().id@,
        ) {
            files.last().parents@.len()
        } else {
            0
        }
    }
}

proof fn lemma_size_update(forest: Seq<NodeModel>, i: int, x: NodeModel)
    requires
        0 <= i < forest.len(),
    ensures
        forest_size(forest.update(i, x)) + 1 + forest_size(forest[i].children) == forest_size(forest) + 1
            + forest_size(x.children),
    decreases forest.len(),
{
    let u = forest.update(i, x);
    if i == forest.len() - 1 {
        assert(u.drop_last() =~= forest.drop_last());
    } else {
        lemma_size_update(forest.drop_last(), i, x);
        assert(u.drop_last() =~= forest.drop_last().update(i, x));
    }
}

proof fn lemma_size_push(forest: Seq<NodeModel>, c: NodeModel)
    ensures
        forest_size(forest.push(c)) == forest_size(forest) + 1 + forest_size(c.children),
{
    assert(forest.push(c).drop_last() =~= forest);
}

/// Appending a childless node under the node at a valid path adds one node.
proof fn lemma_size_add_child(forest: Seq<NodeModel>, p: Seq<int>, c: NodeModel)
    requires
        valid_path(forest, p),
        c.children.len() == 0,
    ensures
        forest_size(replace_at(forest, p, with_child(node_at(forest, p), c))) == forest_size(forest) + 1,
    decreases p.len(),
{
    let n = forest[p[0]];
    assert(forest_size(c.children) == 0);
    if p.len() <= 1 {
        lemma_size_push(n.children, c);
        lemma_size_update(forest, p[0], with_child(n, c));
    } else {
        let sub = p.drop_first();
        lemma_size_add_child(n.children, sub, c);
        assert(node_at(forest, p) == node_at(n.children, sub));
        let n2 = NodeModel { children: replace_at(n.children, sub, with_child(node_at(n.children, sub), c)), ..n };
        lemma_size_update(forest, p[0], n2);
    }
}

/// Each attachment adds one node and logs one id, and a file is attached at
/// most once per parent it lists.
proof fn lemma_attach_to_parents_size(st: Build, file: DriveFile, k: int)
    requires
        0 <= k <= file.parents@.len(),
    ensures
        ({
            let r = attach_to_parents(st, file, k);
            &&& forest_size(r.0) + st.1.len() == forest_size(st.0) + r.1.len()
            &&& r.1.len() <= st.1.len() + k
        }),
    decreases k,
{
    if k > 0 {
        lemma_attach_to_parents_size(st, file, k - 1);
        let prev = attach_to_parents(st, file, k - 1);
        if let Some(p) = find_path(prev.0, file.parents@[k - 1]@) {
            lemma_find_path_valid(prev.0, file.parents@[k - 1]@, 0);
            lemma_size_add_child(prev.0, p, leaf(file));
        }
    }
}

proof fn lemma_open_links_mono(files: Seq<DriveFile>, a: Seq<Seq<char>>, b: Seq<Seq<char>>, x: int)
    requires
        forall|y: Seq<char>| a.contains(y) ==> b.contains(y),
    ensures
        open_links(files, b) <= open_links(files, a),
        0 <= x < files.len() && !is_parentless(files[x]) && !a.contains(files[x].id@) && b.contains(
            files[x].id@,
        ) ==> open_links(files, b) + files[x].parents@.len() <= open_links(files, a),
        open_links(files, a) <= parent_links(files),
    decreases files.len(),
{
    if files.len() > 0 {
        let init = files.drop_last();
        lemma_open_links_mono(init, a, b, x);
        if 0 <= x < files.len() - 1 {
            assert(init[x] == files[x]);
        }
    }
}

/// What holds of every state of the construction: the forest has one node
/// per logged id, and what is logged beyond the roots, with the links of the
/// files not logged yet, is no more than all the links.
pub open spec fn size_inv(st: Build, files: Seq<DriveFile>) -> bool {
    &&& forest_size(st.0) == st.1.len()
    &&& st.1.len() + open_links(files, st.1) <= root_leaves(files).len() + parent_links(files)
}

proof fn lemma_contains_prefix(a: Seq<Seq<char>>, b: Seq<Seq<char>>)
    requires
        b.len() >= a.len(),
        b.subrange(0, a.len() as int) == a,
    ensures
        forall|y: Seq<char>| a.contains(y) ==> b.contains(y),
{
    assert forall|y: Seq<char>| a.contains(y) implies b.contains(y) by {
        let t = choose|t: int| 0 <= t < a.len() && a[t] == y;
        assert(b.subrange(0, a.len() as int)[t] == y);
    }
}

proof fn lemma_pass_upto_size(st: Build, files: Seq<DriveFile>, j: int)
    requires
        size_inv(st, files),
        0 <= j <= files.len(),
    ensures
        size_inv(pass_upto(st, files, j), files),
    decreases j,
{
    if j > 0 {
        lemma_pass_upto_size(st, files, j - 1);
        let prev = pass_upto(st, files, j - 1);
        let file = files[j - 1];
        let r = pass_upto(st, files, j);
        if !is_parentless(file) && !prev.1.contains(file.id@) {
            let k = file.parents@.len() as int;
            lemma_attach_to_parents_size(prev, file, k);
            lemma_attach_to_parents_ids(prev, file, k);
            lemma_contains_prefix(prev.1, r.1);
            if r.1.len() > prev.1.len() {
                assert(r.1[prev.1.len() as int] == file.id@);
                assert(r.1.contains(file.id@));
            } else {
                assert(r.1 =~= prev.1);
            }
            lemma_open_links_mono(files, prev.1, r.1, j - 1);
        }
    }
}

proof fn lemma_passes_size(st: Build, files: Seq<DriveFile>, rounds: nat)
    requires
        size_inv(st, files),
    ensures
        forest_size(passes(st, files, rounds)) <= root_leaves(files).len() + parent_links(files),
    decreases rounds,
{
    if rounds > 0 {
        lemma_pass_upto_size(st, files, files.len() as int);
        let next = one_pass(st, files);
        if next.1.len() != st.1.len() {
            lemma_passes_size(next, files, (rounds - 1) as nat);
        }
    }
}

proof fn lemma_root_leaves_size(files: Seq<DriveFile>)
    ensures
        forest_size(root_leaves(files)) == root_leaves(files).len(),
    decreases files.len(),
{
    if files.len() > 0 {
        lemma_root_leaves_size(files.drop_last());
        if is_parentless(files.last()) {
            lemma_size_push(root_leaves(files.drop_last()), leaf(files.last()));
        }
    }
}

/// No file is attached again by a later pass: the tree that [`build_tree`]
/// builds holds one node per file without parents and at most one per pair
/// of a file and a parent it lists.
pub proof fn lemma_build_tree_attaches_once(files: Seq<DriveFile>)
    ensures
        forest_size(built_forest(files)) <= root_leaves(files).len() + parent_links(files),
{
    let roots = root_leaves(files);
    lemma_root_leaves_size(files);
    lemma_open_links_mono(files, Seq::empty(), top_ids(roots), -1);
    lemma_passes_size((roots, top_ids(roots)), files, (files.len() + 1) as nat);
}

/// The roots of the tree that [`build_tree`] builds are the files without a
/// parent, in the order listed, and only those.
pub proof fn lemma_build_tree_roots(files: Seq<DriveFile>)
    ensures
        same_roots(built_forest(files), root_leaves(files)),
{
    lemma_root_leaves(files);
    lemma_unattached_mono(files, top_ids(root_leaves(files)), top_ids(root_leaves(files)));
    lemma_passes((root_leaves(files), top_ids(root_leaves(files))), files, (files.len() + 1) as nat);
}

/// Every node of the tree that [`build_tree`] builds stands for one of the
/// files: each root for a file without parents, each child for a file that
/// lists the node above it among its parents.
pub proof fn lemma_build_tree_placed(files: Seq<DriveFile>)
    ensures
        placed(built_forest(files), files),
{
    lemma_root_leaves(files);
    lemma_unattached_mono(files, top_ids(root_leaves(files)), top_ids(root_leaves(files)));
    lemma_passes((root_leaves(files), top_ids(root_leaves(files))), files, (files.len() + 1) as nat);
}

/// The tree that [`build_tree`] builds leaves no file out that could hang in
/// it: whenever a parent of a file is in the tree, so is the file.
pub proof fn lemma_build_tree_closed(files: Seq<DriveFile>)
    ensures
        closed(built_forest(files), files),
{
    lemma_root_leaves(files);
    lemma_unattached_mono(files, top_ids(root_leaves(files)), top_ids(root_leaves(files)));
    lemma_passes((root_leaves(files), top_ids(root_leaves(files))), files, (files.len() + 1) as nat);
}

/// How many nodes of a forest, at every depth, have id `x`.
pub open spec fn id_count(forest: Seq<NodeModel>, x: Seq<char>) -> nat
    decreases forest,
{
    if forest.len() == 0 {
        0
    } else {
        id_count(forest.drop_last(), x) + (if forest.last().id == x {
            1nat
        } else {
            0nat
        }) + id_count(forest.last().children, x)
    }
}

/// How many times `x` is in `s`.
pub open spec fn log_count(s: Seq<Seq<char>>, x: Seq<char>) -> nat
    decreases s.len(),
{
    if s.len() == 0 {
        0
    } else {
        log_count(s.drop_last(), x) + if s.last() == x {
            1nat
        } else {
            0nat
        }
    }
}

/// Whether no two files have the same id.
pub open spec fn distinct_ids(files: Seq<DriveFile>) -> bool {
    forall|i: int, j: int| 0 <= i < j < files.len() ==> (#[trigger] files[i]).id@ != (#[trigger] files[j]).id@
}

/// Whether every file lists one parent at most.
pub open spec fn single_parents(files: Seq<DriveFile>) -> bool {
    forall|i: int| 0 <= i < files.len() ==> (#[trigger] files[i]).parents@.len() <= 1
}

proof fn lemma_id_count_update(forest: Seq<NodeModel>, i: int, y: NodeModel, x: Seq<char>)
    requires
        0 <= i < forest.len(),
    ensures
        id_count(forest.update(i, y), x) + (if forest[i].id == x {
            1nat
        } else {
            0nat
        }) + id_count(forest[i].children, x) == id_count(forest, x) + (if y.id == x {
            1nat
        } else {
            0nat
        }) + id_count(y.children, x),
    decreases forest.len(),
{
    let u = forest.update(i, y);
    if i == forest.len() - 1 {
        assert(u.drop_last() =~= forest.drop_last());
    } else {
        lemma_id_count_update(forest.drop_last(), i, y, x);
        assert(u.drop_last() =~= forest.drop_last().update(i, y));
    }
}

proof fn lemma_id_count_push(forest: Seq<NodeModel>, c: NodeModel, x: Seq<char>)
    ensures
        id_count(forest.push(c), x) == id_count(forest, x) + (if c.id == x {
            1nat
        } else {
            0nat
        }) + id_count(c.children, x),
{
    assert(forest.push(c).drop_last() =~= forest);
}

proof fn lemma_id_count_add_child(forest: Seq<NodeModel>, p: Seq<int>, c: NodeModel, x: Seq<char>)
    requires
        valid_path(forest, p),
        c.children.len() == 0,
    ensures
        id_count(replace_at(forest, p, with_child(node_at(forest, p), c)), x) == id_count(forest, x) + if c.id
            == x {
            1nat
        } else {
            0nat
        },
    decreases p.len(),
{
    let n = forest[p[0]];
    assert(id_count(c.children, x) == 0);
    if p.len() <= 1 {
        lemma_id_count_push(n.children, c, x);
        lemma_id_count_update(forest, p[0], with_child(n, c), x);
    } else {
        let sub = p.drop_first();
        lemma_id_count_add_child(n.children, sub, c, x);
        assert(node_at(forest, p) == node_at(n.children, sub));
        let n2 = NodeModel { children: replace_at(n.children, sub, with_child(node_at(n.children, sub), c)), ..n };
        lemma_id_count_update(forest, p[0], n2, x);
    }
}

proof fn lemma_id_count_at(forest: Seq<NodeModel>, i: int, x: Seq<char>)
    requires
        0 <= i < forest.len(),
    ensures
        id_count(forest, x) >= (if forest[i].id == x {
            1nat
        } else {
            0nat
        }) + id_count(forest[i].children, x),
    decreases forest.len(),
{
    if i < forest.len() - 1 {
        lemma_id_count_at(forest.drop_last(), i, x);
    }
}

/// A node with id `x` at a valid path is counted.
proof fn lemma_id_count_path(forest: Seq<NodeModel>, q: Seq<int>, x: Seq<char>)
    requires
        valid_path(forest, q),
        node_at(forest, q).id == x,
    ensures
        id_count(forest, x) >= 1,
    decreases q.len(),
{
    lemma_id_count_at(forest, q[0], x);
    if q.len() > 1 {
        lemma_id_count_path(forest[q[0]].children, q.drop_first(), x);
    }
}

proof fn lemma_log_count_push(s: Seq<Seq<char>>, y: Seq<char>, x: Seq<char>)
    ensures
        log_count(s.push(y), x) == log_count(s, x) + if y == x {
            1nat
        } else {
            0nat
        },
{
    assert(s.push(y).drop_last() =~= s);
}

proof fn lemma_log_count_contains(s: Seq<Seq<char>>, x: Seq<char>)
    ensures
        log_count(s, x) == 0 <==> !s.contains(x),
    decreases s.len(),
{
    if s.len() > 0 {
        lemma_log_count_contains(s.drop_last(), x);
        if s.drop_last().contains(x) {
            let t = choose|t: int| 0 <= t < s.drop_last().len() && s.drop_last()[t] == x;
            assert(s[t] == x);
        }
        if s.contains(x) && s.last() != x {
            let t = choose|t: int| 0 <= t < s.len() && s[t] == x;
            assert(s.drop_last()[t] == x);
        }
    }
}

/// What holds of every state when ids are distinct and parents single: each
/// id is on one node per time it is logged, and logged once at most.
pub open spec fn once_inv(st: Build) -> bool {
    forall|x: Seq<char>| #[trigger] id_count(st.0, x) == log_count(st.1, x) && log_count(st.1, x) <= 1
}

proof fn lemma_attach_to_parents_once(st: Build, file: DriveFile, k: int, x: Seq<char>)
    requires
        0 <= k <= file.parents@.len(),
    ensures
        ({
            let r = attach_to_parents(st, file, k);
            &&& id_count(r.0, x) + log_count(st.1, x) == id_count(st.0, x) + log_count(r.1, x)
            &&& r.1.len() <= st.1.len() + k
            &&& x != file.id@ ==> log_count(r.1, x) == log_count(st.1, x)
            &&& log_count(r.1, x) <= log_count(st.1, x) + k
        }),
    decreases k,
{
    if k > 0 {
        lemma_attach_to_parents_once(st, file, k - 1, x);
        let prev = attach_to_parents(st, file, k - 1);
        if let Some(p) = find_path(prev.0, file.parents@[k - 1]@) {
            lemma_find_path_valid(prev.0, file.parents@[k - 1]@, 0);
            lemma_id_count_add_child(prev.0, p, leaf(file), x);
            lemma_log_count_push(prev.1, file.id@, x);
        }
    }
}

proof fn lemma_pass_upto_once(st: Build, files: Seq<DriveFile>, j: int)
    requires
        once_inv(st),
        single_parents(files),
        0 <= j <= files.len(),
    ensures
        once_inv(pass_upto(st, files, j)),
    decreases j,
{
    if j > 0 {
        lemma_pass_upto_once(st, files, j - 1);
        let prev = pass_upto(st, files, j - 1);
        let file = files[j - 1];
        let r = pass_upto(st, files, j);
        if !is_parentless(file) && !prev.1.contains(file.id@) {
            let k = file.parents@.len() as int;
            assert forall|x: Seq<char>| #[trigger] id_count(r.0, x) == log_count(r.1, x) && log_count(r.1, x) <= 1 by {
                lemma_attach_to_parents_once(prev, file, k, x);
                assert(id_count(prev.0, x) == log_count(prev.1, x));
                if x == file.id@ {
                    lemma_log_count_contains(prev.1, x);
                }
            }
        }
    }
}

proof fn lemma_passes_once(st: Build, files: Seq<DriveFile>, rounds: nat)
    requires
        once_inv(st),
        single_parents(files),
    ensures
        forall|x: Seq<char>| #[trigger] id_count(passes(st, files, rounds), x) <= 1,
    decreases rounds,
{
    if rounds == 0 {
        assert forall|x: Seq<char>| #[trigger] id_count(passes(st, files, rounds), x) <= 1 by {
            assert(id_count(st.0, x) == log_count(st.1, x));
        }
    } else {
        lemma_pass_upto_once(st, files, files.len() as int);
        let next = one_pass(st, files);
        if next.1.len() != st.1.len() {
            lemma_passes_once(next, files, (rounds - 1) as nat);
            assert(passes(st, files, rounds) == passes(next, files, (rounds - 1) as nat));
            assert forall|x: Seq<char>| #[trigger] id_count(passes(st, files, rounds), x) <= 1 by {
                assert(id_count(passes(next, files, (rounds - 1) as nat), x) <= 1);
            }
        } else {
            assert forall|x: Seq<char>| #[trigger] id_count(passes(st, files, rounds), x) <= 1 by {
                assert(id_count(next.0, x) == log_count(next.1, x));
            }
        }
    }
}

/// The roots: one node per logged root id, and a root id is one of a
/// parentless file's.
proof fn lemma_root_leaves_once(files: Seq<DriveFile>, x: Seq<char>)
    requires
        distinct_ids(files),
    ensures
        id_count(root_leaves(files), x) == log_count(top_ids(root_leaves(files)), x),
        log_count(top_ids(root_leaves(files)), x) <= 1,
        log_count(top_ids(root_leaves(files)), x) == 1 ==> exists|y: int|
            0 <= y < files.len() && #[trigger] files[y].id@ == x,
    decreases files.len(),
{
    if files.len() > 0 {
        let init = files.drop_last();
        assert forall|i: int, j: int| 0 <= i < j < init.len() implies (#[trigger] init[i]).id@
            != (#[trigger] init[j]).id@ by {
            assert(init[i] == files[i] && init[j] == files[j]);
        }
        lemma_root_leaves_once(init, x);
        let r0 = root_leaves(init);
        if log_count(top_ids(r0), x) == 1 {
            let y = choose|y: int| 0 <= y < init.len() && #[trigger] init[y].id@ == x;
            assert(files[y] == init[y]);
        }
        if is_parentless(files.last()) {
            let l = leaf(files.last());
            lemma_id_count_push(r0, l, x);
            assert(top_ids(r0.push(l)) =~= top_ids(r0).push(l.id));
            lemma_log_count_push(top_ids(r0), l.id, x);
            assert(id_count(l.children, x) == 0);
            if l.id == x && log_count(top_ids(r0), x) == 1 {
                let y = choose|y: int| 0 <= y < init.len() && #[trigger] init[y].id@ == x;
                assert(files[y] == init[y]);
                assert(files[files.len() - 1] == files.last());
                assert(false);
            }
            if l.id == x {
                assert(files[files.len() - 1].id@ == x);
            }
        }
    }
}

/// With distinct ids and one parent at most per file, every file that can
/// hang in the tree that [`build_tree`] builds sits in it exactly once, as
/// that file, under its parent; no id is on two nodes.
pub proof fn lemma_build_tree_single_parents(files: Seq<DriveFile>)
    requires
        distinct_ids(files),
        single_parents(files),
    ensures
        forall|x: Seq<char>| #[trigger] id_count(built_forest(files), x) <= 1,
        forall|i: int|
            0 <= i < files.len() && files[i].parents@.len() == 1 && occurs(
                built_forest(files),
                #[trigger] files[i].parents@[0]@,
            ) ==> {
                let q = find_path(built_forest(files), files[i].id@)->0;
                &&& occurs(built_forest(files), files[i].id@)
                &&& id_count(built_forest(files), files[i].id@) == 1
                &&& same_label(node_at(built_forest(files), q), leaf(files[i]))
                &&& parent_id(built_forest(files), q) == Some(files[i].parents@[0]@)
            },
{
    let roots = root_leaves(files);
    let built = built_forest(files);
    assert forall|x: Seq<char>| #[trigger] id_count((roots, top_ids(roots)).0, x) == log_count(
        (roots, top_ids(roots)).1,
        x,
    ) && log_count((roots, top_ids(roots)).1, x) <= 1 by {
        lemma_root_leaves_once(files, x);
    }
    lemma_passes_once((roots, top_ids(roots)), files, (files.len() + 1) as nat);
    lemma_build_tree_placed(files);
    lemma_build_tree_closed(files);
    assert forall|i: int|
        0 <= i < files.len() && files[i].parents@.len() == 1 && occurs(built, #[trigger] files[i].parents@[0]@)
        implies {
        let q = find_path(built, files[i].id@)->0;
        &&& occurs(built, files[i].id@)
        &&& id_count(built, files[i].id@) == 1
        &&& same_label(node_at(built, q), leaf(files[i]))
        &&& parent_id(built, q) == Some(files[i].parents@[0]@)
    } by {
        let id = files[i].id@;
        assert(occurs(built, id));
        lemma_find_path_valid(built, id, 0);
        let q = find_path(built, id)->0;
        lemma_id_count_path(built, q, id);
        assert(from_file(node_at(built, q), files, parent_id(built, q)));
        let y = choose|y: int|
            #![trigger files[y]]
            0 <= y < files.len() && same_label(node_at(built, q), leaf(files[y])) && match parent_id(built, q) {
                None => is_parentless(files[y]),
                Some(pid) => string_views(files[y].parents@).contains(pid),
            };
        if y != i {
            if y < i {
                assert(files[y].id@ != files[i].id@);
            } else {
                assert(files[i].id@ != files[y].id@);
            }
        }
        assert(y == i);
        if let Some(pid) = parent_id(built, q) {
            let t = choose|t: int| 0 <= t < string_views(files[i].parents@).len() && string_views(files[i].parents@)[t] == pid;
            assert(t == 0);
        }
    }
}

fn leaf_node(f: &DriveFile) -> (n: Node)
    ensures
        n.model() == leaf(*f),
{
    let n = Node { id: f.id.clone(), name: f.name.clone(), mimeType: f.mimeType.clone(), children: Vec::new() };
    proof {
        assert(forest_model(n.children@) =~= Seq::<NodeModel>::empty());
    }
    n
}

fn contains_string(v: &Vec<String>, s: &String) -> (r: bool)
    ensures
        r == string_views(v@).contains(s@),
{
    let n = v.len();
    let mut i: usize = 0;
    while i < n
        invariant
            n == v@.len(),
            i <= n,
            forall|j: int| 0 <= j < i ==> v@[j]@ != s@,
        decreases n - i,
    {
        if v[i] == *s {
            proof {
                assert(string_views(v@)[i as int] == s@);
            }
            return true;
        }
        i += 1;
    }
    proof {
        if string_views(v@).contains(s@) {
            let j = choose|j: int| 0 <= j < string_views(v@).len() && string_views(v@)[j] == s@;
            assert(v@[j]@ == s@);
        }
    }
    false
}

/// Builds the folder tree of a drive from its flat listing: the files without
/// a parent are the roots, in the order listed; the other files are attached,
/// as childless copies, under each of their parents found in the tree (the
/// first such node in pre-order), pass after pass, until a pass attaches
/// nothing. A file attached in one pass is not attached again by a later
/// one.
pub fn build_tree(files: &Vec<DriveFile>) -> (roots: Vec<Node>)
    ensures
        forest_model(roots@) == built_forest(files@),
{
    let mut roots: Vec<Node> = Vec::new();
    let mut pushed: Vec<String> = Vec::new();
    let n = files.len();
    for i in 0..n
        invariant
            n == files@.len(),
            forest_model(roots@) == root_leaves(files@.take(i as int)),
            string_views(pushed@) == top_ids(forest_model(roots@)),
    {
        proof {
            assert(files@.take(i + 1).drop_last() =~= files@.take(i as int));
        }
        if files[i].parents.len() == 0 {
            let l = leaf_node(&files[i]);
            let ghost rb = roots@;
            let ghost pb = pushed@;
            roots.push(l);
            pushed.push(files[i].id.clone());
            proof {
                lemma_forest_model_push(rb, l);
                assert(string_views(pushed@) =~= string_views(pb).push(l.id@));
                assert(top_ids(forest_model(roots@)) =~= top_ids(forest_model(rb)).push(l.id@));
            }
        }
    }
    proof {
        assert(files@.take(n as int) =~= files@);
        lemma_unattached_mono(files@, string_views(pushed@), string_views(pushed@));
    }
    let ghost mut rounds: nat = (n + 1) as nat;
    loop
        invariant
            n == files@.len(),
            passes((forest_model(roots@), string_views(pushed@)), files@, rounds) == built_forest(
                files@,
            ),
            rounds >= unattached(files@, string_views(pushed@)) + 1,
        decreases rounds,
    {
        let ghost st0: Build = (forest_model(roots@), string_views(pushed@));
        let before = pushed.len();
        for j in 0..n
            invariant
                n == files@.len(),
                (forest_model(roots@), string_views(pushed@)) == pass_upto(st0, files@, j as int),
        {
            let f = &files[j];
            if f.parents.len() != 0 && !contains_string(&pushed, &f.id) {
                let ghost st1: Build = (forest_model(roots@), string_views(pushed@));
                let m = f.parents.len();
                for k in 0..m
                    invariant
                        m == f.parents@.len(),
                        (forest_model(roots@), string_views(pushed@)) == attach_to_parents(
                            st1,
                            *f,
                            k as int,
                        ),
                {
                    let ghost fb = forest_model(roots@);
                    let ghost pb = pushed@;
                    match find_node_mut(&mut roots, f.parents[k].as_str()) {
                        None => {},
                        Some(pn) => {
                            let ghost cb = pn.children@;
                            let l = leaf_node(f);
                            pn.children.push(l);
                            proof {
                                lemma_forest_model_push(cb, l);
                            }
                            pushed.push(f.id.clone());
                            proof {
                                assert(string_views(pushed@) =~= string_views(pb).push(f.id@));
                            }
                        },
                    }
                }
            }
        }
        proof {
            lemma_pass_upto_ids(st0, files@, n as int);
        }
        if pushed.len() == before {
            return roots;
        }
        proof {
            let st = (forest_model(roots@), string_views(pushed@));
            assert forall|x: Seq<char>| st0.1.contains(x) implies st.1.contains(x) by {
                let t = choose|t: int| 0 <= t < st0.1.len() && st0.1[t] == x;
                assert(st.1.subrange(0, st0.1.len() as int)[t] == x);
            }
            lemma_unattached_mono(files@, st0.1, st.1);
            rounds = (rounds - 1) as nat;
        }
    }
}

/// The map that a sequence of (key, value) pairs spells, a later pair
/// overriding an earlier one with the same key.
pub open spec fn pairs_map(s: Seq<(String, String)>) -> Map<Seq<char>, Seq<char>>
    decreases s.len(),
{
    if s.len() == 0 {
        Map::empty()
    } else {
        pairs_map(s.drop_last()).insert(s.last().0@, s.last().1@)
    }
}

/// Whether no two pairs have the same key.
pub open spec fn keys_unique(s: Seq<(String, String)>) -> bool {
    forall|i: int, j: int| 0 <= i < j < s.len() ==> (#[trigger] s[i]).0@ != (#[trigger] s[j]).0@
}

/// The access token of each account, by email, where it decrypts under `key`;
/// of two accounts with one email, the later one's.
pub open spec fn token_map(accounts: Seq<CloudAccount>, key: Seq<u8>) -> Map<Seq<char>, Seq<char>>
    decreases accounts.len(),
{
    if accounts.len() == 0 {
        Map::empty()
    } else {
        let before = token_map(accounts.drop_last(), key);
        let a = accounts.last();
        match decryption(key, a.access_token@) {
            Decrypted::Plaintext(p) => before.insert(a.email@, p),
            _ => before,
        }
    }
}

proof fn lemma_pairs_map_update(s: Seq<(String, String)>, i: int, x: (String, String))
    requires
        keys_unique(s),
        0 <= i < s.len(),
        s[i].0@ == x.0@,
    ensures
        pairs_map(s.update(i, x)) == pairs_map(s).insert(x.0@, x.1@),
    decreases s.len(),
{
    let t = s.update(i, x);
    if i == s.len() - 1 {
        assert(t.drop_last() =~= s.drop_last());
        assert(pairs_map(t) =~= pairs_map(s).insert(x.0@, x.1@));
    } else {
        lemma_pairs_map_update(s.drop_last(), i, x);
        assert(t.drop_last() =~= s.drop_last().update(i, x));
        assert(s.last().0@ != x.0@);
        assert(pairs_map(t) =~= pairs_map(s).insert(x.0@, x.1@));
    }
}

/// Whether the access token of `a` decrypts under `key`.
pub open spec fn decrypts(a: CloudAccount, key: Seq<u8>) -> bool {
    decryption(key, a.access_token@) is Plaintext
}

/// Each account whose access token decrypts has its email mapped to that
/// token, unless a later account with the same email decrypts too (the later
/// one's token stays); and only emails of accounts whose token decrypts are
/// mapped.
pub proof fn lemma_token_map(accounts: Seq<CloudAccount>, key: Seq<u8>)
    ensures
        forall|i: int|
            #![trigger accounts[i]]
            0 <= i < accounts.len() && decrypts(accounts[i], key) && (forall|j: int|
                #![trigger accounts[j]]
                i < j < accounts.len() && accounts[j].email@ == accounts[i].email@ ==> !decrypts(accounts[j], key))
                ==> token_map(accounts, key).contains_key(accounts[i].email@) && Decrypted::Plaintext(
                token_map(accounts, key)[accounts[i].email@],
            ) == decryption(key, accounts[i].access_token@),
        forall|e: Seq<char>|
            #[trigger] token_map(accounts, key).contains_key(e) ==> exists|i: int|
                #![trigger accounts[i]]
                0 <= i < accounts.len() && accounts[i].email@ == e && decrypts(accounts[i], key),
    decreases accounts.len(),
{
    if accounts.len() > 0 {
        let init = accounts.drop_last();
        let n = accounts.len() - 1;
        lemma_token_map(init, key);
        let before = token_map(init, key);
        let a = accounts.last();
        assert(accounts[n] == a);
        assert forall|i: int|
            #![trigger accounts[i]]
            0 <= i < accounts.len() && decrypts(accounts[i], key) && (forall|j: int|
                #![trigger accounts[j]]
                i < j < accounts.len() && accounts[j].email@ == accounts[i].email@ ==> !decrypts(accounts[j], key))
            implies token_map(accounts, key).contains_key(accounts[i].email@) && Decrypted::Plaintext(
            token_map(accounts, key)[accounts[i].email@],
        ) == decryption(key, accounts[i].access_token@) by {
            if i < n {
                assert(init[i] == accounts[i]);
                assert forall|j: int| #![trigger init[j]] i < j < init.len() && init[j].email@ == init[i].email@ implies !decrypts(init[j], key) by {
                    assert(init[j] == accounts[j]);
                }
                if decrypts(a, key) {
                    assert(a.email@ != accounts[i].email@);
                }
            }
        }
        assert forall|e: Seq<char>| #[trigger] token_map(accounts, key).contains_key(e) implies exists|i: int|
            #![trigger accounts[i]]
            0 <= i < accounts.len() && accounts[i].email@ == e && decrypts(accounts[i], key) by {
            if before.contains_key(e) {
                let i = choose|i: int| #![trigger init[i]] 0 <= i < init.len() && init[i].email@ == e && decrypts(init[i], key);
                assert(accounts[i] == init[i]);
            } else {
                assert(accounts[n].email@ == e && decrypts(accounts[n], key));
            }
        }
    }
}

/// Whether the listing of a drive succeeded.
pub open spec fn listing_ok() -> spec_fn((String, Result<Vec<DriveFile>, String>)) -> bool {
    |x: (String, Result<Vec<DriveFile>, String>)| x.1 is Ok
}

/// Whether the listing of a drive failed.
pub open spec fn listing_failed() -> spec_fn((String, Result<Vec<DriveFile>, String>)) -> bool {
    |x: (String, Result<Vec<DriveFile>, String>)| x.1 is Err
}

/// A listed drive's name and the tree built from its files.
pub open spec fn listed_tree() -> spec_fn((String, Result<Vec<DriveFile>, String>)) -> (Seq<char>, Seq<NodeModel>) {
    |x: (String, Result<Vec<DriveFile>, String>)| (x.0@, built_forest(x.1->Ok_0@))
}

/// A failed drive's name and its error.
pub open spec fn listing_error() -> spec_fn((String, Result<Vec<DriveFile>, String>)) -> (Seq<char>, Seq<char>) {
    |x: (String, Result<Vec<DriveFile>, String>)| (x.0@, x.1->Err_0@)
}

/// Every drive whose listing succeeded is among the drives, in order, with
/// the tree built from its files; every drive whose listing failed is among
/// the failures, in order, with its error; nothing else is in either.
pub proof fn lemma_drive_split(results: Seq<(String, Result<Vec<DriveFile>, String>)>)
    ensures
        listed_drives(results) == results.filter(listing_ok()).map_values(listed_tree()),
        failed_drives(results) == results.filter(listing_failed()).map_values(listing_error()),
    decreases results.len(),
{
    reveal_with_fuel(Seq::filter, 1);
    if results.len() > 0 {
        let init = results.drop_last();
        lemma_drive_split(init);
        let fo = init.filter(listing_ok());
        let fe = init.filter(listing_failed());
        let x = results.last();
        match x.1 {
            Ok(files) => {
                assert(results.filter(listing_ok()) == fo.push(x));
                assert(fo.push(x).map_values(listed_tree()) =~= fo.map_values(listed_tree()).push((x.0@, built_forest(files@))));
            },
            Err(e) => {
                assert(results.filter(listing_failed()) == fe.push(x));
                assert(fe.push(x).map_values(listing_error()) =~= fe.map_values(listing_error()).push((x.0@, e@)));
            },
        }
    } else {
        assert(results.filter(listing_ok()).map_values(listed_tree()) =~= Seq::<(Seq<char>, Seq<NodeModel>)>::empty());
        assert(results.filter(listing_failed()).map_values(listing_error()) =~= Seq::<(Seq<char>, Seq<char>)>::empty());
    }
}

/// The access tokens of the accounts, decrypted under `key`, one pair (email,
/// token) per email: an account whose token does not decrypt is left out, and
/// of two accounts with one email, the later one's token stays.
pub fn account_tokens(accounts: &Vec<CloudAccount>, key: &[u8; 32]) -> (r: Vec<(String, String)>)
    requires
        forall|i: int| 0 <= i < accounts@.len() ==> (#[trigger] accounts@[i]).access_token@.len() >= NONCE_LEN,
    ensures
        keys_unique(r@),
        pairs_map(r@) == token_map(accounts@, key@),
        forall|i: int|
            #![trigger accounts@[i]]
            0 <= i < accounts@.len() && decrypts(accounts@[i], key@) && (forall|j: int|
                #![trigger accounts@[j]]
                i < j < accounts@.len() && accounts@[j].email@ == accounts@[i].email@ ==> !decrypts(
                    accounts@[j],
                    key@,
                )) ==> pairs_map(r@).contains_key(accounts@[i].email@) && Decrypted::Plaintext(
                pairs_map(r@)[accounts@[i].email@],
            ) == decryption(key@, accounts@[i].access_token@),
        forall|e: Seq<char>|
            #[trigger] pairs_map(r@).contains_key(e) ==> exists|i: int|
                #![trigger accounts@[i]]
                0 <= i < accounts@.len() && accounts@[i].email@ == e && decrypts(accounts@[i], key@),
{
    let mut out: Vec<(String, String)> = Vec::new();
    let n = accounts.len();
    for i in 0..n
        invariant
            n == accounts@.len(),
            forall|i: int| 0 <= i < accounts@.len() ==> (#[trigger] accounts@[i]).access_token@.len() >= NONCE_LEN,
            keys_unique(out@),
            pairs_map(out@) == token_map(accounts@.take(i as int), key@),
    {
        let acc = &accounts[i];
        proof {
            assert(accounts@.take(i + 1).drop_last() =~= accounts@.take(i as int));
            assert(accounts@.take(i + 1).last() == accounts@[i as int]);
        }
        match decrypt(acc.access_token.clone(), key) {
            Err(_) => {},
            Ok(token) => {
                let m = out.len();
                let mut j: usize = 0;
                while j < m
                    invariant
                        m == out@.len(),
                        j <= m,
                        forall|t: int| 0 <= t < j ==> (#[trigger] out@[t]).0@ != acc.email@,
                    ensures
                        j <= m,
                        j < m ==> out@[j as int].0@ == acc.email@,
                        forall|t: int| 0 <= t < j ==> (#[trigger] out@[t]).0@ != acc.email@,
                    decreases m - j,
                {
                    if out[j].0 == acc.email {
                        break;
                    }
                    j += 1;
                }
                let found = j < m;
                let ghost before = out@;
                let entry = (acc.email.clone(), token);
                if found {
                    proof {
                        lemma_pairs_map_update(before, j as int, entry);
                    }
                    out.set(j, entry);
                    proof {
                        assert forall|a: int, b: int| 0 <= a < b < out@.len() implies (
                        #[trigger] out@[a]).0@ != (#[trigger] out@[b]).0@ by {
                            if a != j && b != j {
                                assert(out@[a] == before[a] && out@[b] == before[b]);
                            } else if a == j {
                                assert(before[a].0@ == entry.0@);
                                assert(out@[b] == before[b]);
                            } else {
                                assert(before[b].0@ == entry.0@);
                                assert(out@[a] == before[a]);
                            }
                        }
                    }
                } else {
                    out.push(entry);
                    proof {
                        assert(out@.drop_last() =~= before);
                    }
                }
            },
        }
    }
    proof {
        assert(accounts@.take(n as int) =~= accounts@);
        lemma_token_map(accounts@, key@);
    }
    out
}

/// A drive whose files could be listed, with its tree.
pub struct Drive {
    pub drive_name: String,
    pub files: Vec<Node>,
}

/// The drives whose listing succeeded, each with the tree built from its
/// files, in order.
pub open spec fn listed_drives(results: Seq<(String, Result<Vec<DriveFile>, String>)>) -> Seq<
    (Seq<char>, Seq<NodeModel>),
>
    decreases results.len(),
{
    if results.len() == 0 {
        Seq::empty()
    } else {
        let before = listed_drives(results.drop_last());
        let (name, outcome) = results.last();
        match outcome {
            Ok(files) => before.push((name@, built_forest(files@))),
            Err(_) => before,
        }
    }
}

/// The drives whose listing failed, each with the error's text, in order.
pub open spec fn failed_drives(results: Seq<(String, Result<Vec<DriveFile>, String>)>) -> Seq<
    (Seq<char>, Seq<char>),
>
    decreases results.len(),
{
    if results.len() == 0 {
        Seq::empty()
    } else {
        let before = failed_drives(results.drop_last());
        let (name, outcome) = results.last();
        match outcome {
            Ok(_) => before,
            Err(e) => before.push((name@, e@)),
        }
    }
}

/// The model of a drive.
pub open spec fn drive_model(d: Drive) -> (Seq<char>, Seq<NodeModel>) {
    (d.drive_name@, forest_model(d.files@))
}

/// The views of (name, error) pairs.
pub open spec fn error_views(s: Seq<(String, String)>) -> Seq<(Seq<char>, Seq<char>)> {
    s.map_values(|p: (String, String)| (p.0@, p.1@))
}

/// Splits the outcome of listing each drive (by name) into the drives, each
/// with its folder tree, and the drives whose listing failed, with the error.
pub fn drive_structures(results: &Vec<(String, Result<Vec<DriveFile>, String>)>) -> (r: (Vec<Drive>, Vec<(String, String)>))
    ensures
        r.0@.map_values(|d: Drive| drive_model(d)) == listed_drives(results@),
        error_views(r.1@) == failed_drives(results@),
        r.0@.map_values(|d: Drive| drive_model(d)) == results@.filter(listing_ok()).map_values(listed_tree()),
        error_views(r.1@) == results@.filter(listing_failed()).map_values(listing_error()),
{
    let mut drives: Vec<Drive> = Vec::new();
    let mut errors: Vec<(String, String)> = Vec::new();
    let n = results.len();
    for i in 0..n
        invariant
            n == results@.len(),
            drives@.map_values(|d: Drive| drive_model(d)) == listed_drives(results@.take(i as int)),
            error_views(errors@) == failed_drives(results@.take(i as int)),
    {
        proof {
            assert(results@.take(i + 1).drop_last() =~= results@.take(i as int));
            assert(results@.take(i + 1).last() == results@[i as int]);
        }
        let ghost db = drives@;
        let ghost eb = errors@;
        let (name, outcome) = &results[i];
        match outcome {
            Ok(files) => {
                let tree = build_tree(files);
                drives.push(Drive { drive_name: name.clone(), files: tree });
                proof {
                    assert(drives@.map_values(|d: Drive| drive_model(d)) =~= db.map_values(
                        |d: Drive| drive_model(d),
                    ).push((name@, built_forest(files@))));
                    assert(errors@ == eb);
                }
            },
            Err(e) => {
                errors.push((name.clone(), e.clone()));
                proof {
                    assert(error_views(errors@) =~= error_views(eb).push((name@, e@)));
                    assert(drives@ == db);
                }
            },
        }
    }
    proof {
        assert(results@.take(n as int) =~= results@);
        lemma_drive_split(results@);
    }
    (drives, errors)
}

} // verus!
