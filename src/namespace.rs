use vstd::prelude::*;
use crate::api::{ElementType, VrApiReq, VrApiRsp, ReqView, RspView, strings_view, copy_bytes};
use crate::text::{chars_of, string_of};

verus! {

/// Index of the last '/' in `p`, or -1 when there is none.
pub open spec fn last_slash(p: Seq<char>) -> int
    decreases p.len(),
{
    if p.len() == 0 {
        -1
    } else if p.last() == '/' {
        p.len() - 1
    } else {
        last_slash(p.drop_last())
    }
}

/// The root of the namespace, which always exists.
pub open spec fn root() -> Seq<char> {
    seq!['/']
}

/// The parent of `p`: what stands before its last '/', or the root when that
/// '/' is the first character; none when `p` holds no '/'.
pub open spec fn parent_of(p: Seq<char>) -> Option<Seq<char>> {
    let k = last_slash(p);
    if k < 0 {
        None
    } else if k == 0 {
        Some(root())
    } else {
        Some(p.take(k))
    }
}

/// The last component of `p`: what follows its last '/'.
pub open spec fn key_of(p: Seq<char>) -> Seq<char> {
    p.skip(last_slash(p) + 1)
}

/// `q` is `p` itself or lies below it.
pub open spec fn under(q: Seq<char>, p: Seq<char>) -> bool {
    q == p || (p.len() < q.len() && q.take(p.len() as int) == p && q[p.len() as int] == '/')
}

/// Holds of the elements that a delete of `p` keeps.
pub open spec fn outside_of(p: Seq<char>) -> spec_fn(NodeView) -> bool {
    |n: NodeView| !under(n.path, p)
}

pub ghost struct NodeView {
    pub path: Seq<char>,
    pub ty: ElementType,
    pub data: Seq<u8>,
    pub tag: u64,
}

/// A store is its elements in order of creation and the last tag handed out.
pub ghost struct StoreView {
    pub nodes: Seq<NodeView>,
    pub version: u64,
}

/// Index of the last element at path `p`, or -1.
pub open spec fn find(nodes: Seq<NodeView>, p: Seq<char>) -> int
    decreases nodes.len(),
{
    if nodes.len() == 0 {
        -1
    } else if nodes.last().path == p {
        nodes.len() - 1
    } else {
        find(nodes.drop_last(), p)
    }
}

pub open spec fn exists_path(s: StoreView, p: Seq<char>) -> bool {
    p == root() || find(s.nodes, p) >= 0
}

/// The keys of the immediate children of `p`, in order of creation.
pub open spec fn children(nodes: Seq<NodeView>, p: Seq<char>) -> Seq<Seq<char>>
    decreases nodes.len(),
{
    if nodes.len() == 0 {
        Seq::empty()
    } else if parent_of(nodes.last().path) == Some(p) {
        children(nodes.drop_last(), p).push(key_of(nodes.last().path))
    } else {
        children(nodes.drop_last(), p)
    }
}

/// A path of an element: a '/' and then non-empty components separated by
/// single '/' characters.
pub open spec fn valid_path(p: Seq<char>) -> bool {
    &&& p.len() >= 2
    &&& p[0] == '/'
    &&& p.last() != '/'
    &&& forall|i: int| 0 <= i < p.len() - 1 ==> !(#[trigger] p[i] == '/' && p[i + 1] == '/')
}

pub open spec fn invalid_path_msg() -> Seq<char> {
    "invalid path"@
}

pub open spec fn exhausted_msg() -> Seq<char> {
    "version space exhausted"@
}

/// No two elements share a path.
pub open spec fn unique_paths(nodes: Seq<NodeView>) -> bool {
    forall|i: int, j: int| 0 <= i < j < nodes.len() ==> #[trigger] nodes[i].path != #[trigger] nodes[j].path
}

/// Every tag handed out is at most the store's version, paths are unique, the
/// root is no element, and the parent of every element exists.
pub open spec fn store_wf(s: StoreView) -> bool {
    &&& forall|i: int| 0 <= i < s.nodes.len() ==> #[trigger] s.nodes[i].tag <= s.version
    &&& unique_paths(s.nodes)
    &&& forall|i: int| 0 <= i < s.nodes.len() ==> #[trigger] s.nodes[i].path != root()
    &&& forall|i: int| 0 <= i < s.nodes.len() ==> valid_path(#[trigger] s.nodes[i].path)
    &&& forall|i: int|
        0 <= i < s.nodes.len() ==> parent_of(#[trigger] s.nodes[i].path) is Some && exists_path(
            s,
            parent_of(s.nodes[i].path)->0,
        )
}

/// What applying `op` to `s` gives: the new store and the reply.
pub open spec fn apply_spec(s: StoreView, op: ReqView) -> (StoreView, RspView) {
    let next = (s.version + 1) as u64;
    match op {
        ReqView::Create { path, ty } => {
            if parent_of(path) is None || !exists_path(s, parent_of(path)->0) {
                (s, RspView::ParentNotFoundError)
            } else if exists_path(s, path) {
                (s, RspView::ElementAlreadyExistsError)
            } else if !valid_path(path) {
                (s, RspView::Error { msg: invalid_path_msg() })
            } else if s.version == u64::MAX {
                (s, RspView::Error { msg: exhausted_msg() })
            } else {
                let n = NodeView { path, ty, data: Seq::empty(), tag: next };
                (StoreView { nodes: s.nodes.push(n), version: next }, RspView::Success)
            }
        },
        ReqView::Put { path, data, cas_tag } => {
            let i = find(s.nodes, path);
            if i < 0 {
                (s, RspView::ElementNotFoundError(path))
            } else if cas_tag is Some && cas_tag->0 != s.nodes[i].tag {
                (s, RspView::CasFailedError { path, expected: cas_tag->0, actual: s.nodes[i].tag })
            } else if s.version == u64::MAX {
                (s, RspView::Error { msg: exhausted_msg() })
            } else {
                let n = NodeView { path, ty: s.nodes[i].ty, data, tag: next };
                (StoreView { nodes: s.nodes.update(i, n), version: next }, RspView::Success)
            }
        },
        ReqView::Delete { path, cas_tag } => {
            let i = find(s.nodes, path);
            if i < 0 {
                (s, RspView::ElementNotFoundError(path))
            } else if cas_tag is Some && cas_tag->0 != s.nodes[i].tag {
                (s, RspView::CasFailedError { path, expected: cas_tag->0, actual: s.nodes[i].tag })
            } else {
                let kept = s.nodes.filter(outside_of(path));
                (StoreView { nodes: kept, version: s.version }, RspView::Success)
            }
        },
        ReqView::Get { path, cas } => {
            let i = find(s.nodes, path);
            if i < 0 {
                (s, RspView::ElementNotFoundError(path))
            } else {
                let tag = if cas { Some(s.nodes[i].tag) } else { None };
                (s, RspView::Element { data: s.nodes[i].data, cas_tag: tag })
            }
        },
        ReqView::List { path } => {
            if !exists_path(s, path) {
                (s, RspView::ElementNotFoundError(path))
            } else {
                (s, RspView::KeyList { keys: children(s.nodes, path) })
            }
        },
    }
}

pub proof fn lemma_find(nodes: Seq<NodeView>, p: Seq<char>)
    ensures
        -1 <= find(nodes, p) < nodes.len(),
        find(nodes, p) >= 0 ==> nodes[find(nodes, p)].path == p,
        find(nodes, p) < 0 ==> forall|i: int| 0 <= i < nodes.len() ==> nodes[i].path != p,
    decreases nodes.len(),
{
    if nodes.len() > 0 {
        lemma_find(nodes.drop_last(), p);
        assert(forall|i: int| 0 <= i < nodes.len() - 1 ==> nodes.drop_last()[i] == nodes[i]);
    }
}

pub proof fn lemma_last_slash(p: Seq<char>)
    ensures
        -1 <= last_slash(p) < p.len(),
        last_slash(p) >= 0 ==> p[last_slash(p)] == '/',
    decreases p.len(),
{
    if p.len() > 0 {
        lemma_last_slash(p.drop_last());
    }
}

proof fn lemma_find_found(nodes: Seq<NodeView>, p: Seq<char>, i: int)
    requires
        0 <= i < nodes.len(),
        nodes[i].path == p,
    ensures
        find(nodes, p) >= 0,
{
    lemma_find(nodes, p);
}

proof fn lemma_find_same_paths(a: Seq<NodeView>, b: Seq<NodeView>, p: Seq<char>)
    requires
        a.len() == b.len(),
        forall|i: int| 0 <= i < a.len() ==> #[trigger] a[i].path == b[i].path,
    ensures
        find(a, p) == find(b, p),
    decreases a.len(),
{
    if a.len() > 0 {
        lemma_find_same_paths(a.drop_last(), b.drop_last(), p);
    }
}

/// A child of an element below `p` is below `p` too.
proof fn lemma_under_parent(q: Seq<char>, p: Seq<char>)
    requires
        parent_of(q) is Some,
        parent_of(q)->0 != root(),
        under(parent_of(q)->0, p),
    ensures
        under(q, p),
{
    lemma_last_slash(q);
    let k = last_slash(q);
    let par = q.take(k);
    if par == p {
        assert(q.take(p.len() as int) =~= p);
    } else {
        assert(q.take(p.len() as int) =~= par.take(p.len() as int));
        assert(q[p.len() as int] == par[p.len() as int]);
    }
}

proof fn lemma_filter_unique(nodes: Seq<NodeView>, pred: spec_fn(NodeView) -> bool)
    requires
        unique_paths(nodes),
    ensures
        unique_paths(nodes.filter(pred)),
        forall|i: int| 0 <= i < nodes.filter(pred).len() ==> nodes.contains(#[trigger] nodes.filter(pred)[i]),
    decreases nodes.len(),
{
    reveal(Seq::filter);
    if nodes.len() > 0 {
        let d = nodes.drop_last();
        assert(unique_paths(d));
        lemma_filter_unique(d, pred);
        let f = d.filter(pred);
        assert forall|i: int| 0 <= i < f.len() implies #[trigger] f[i].path != nodes.last().path by {
            assert(d.contains(f[i]));
            let j = choose|j: int| 0 <= j < d.len() && d[j] == f[i];
            assert(nodes[j] == d[j]);
        }
        assert forall|i: int| 0 <= i < f.len() implies nodes.contains(#[trigger] f[i]) by {
            assert(d.contains(f[i]));
            let j = choose|j: int| 0 <= j < d.len() && d[j] == f[i];
            assert(nodes[j] == d[j]);
        }
        if pred(nodes.last()) {
            assert(nodes.contains(nodes.last())) by {
                assert(nodes[nodes.len() - 1] == nodes.last());
            }
        }
    }
}

/// Applying any operation keeps a well-formed store well formed.
pub proof fn lemma_apply_wf(s: StoreView, op: ReqView)
    requires
        store_wf(s),
    ensures
        store_wf(apply_spec(s, op).0),
{
    let s2 = apply_spec(s, op).0;
    match op {
        ReqView::Create { path, ty } => {
            lemma_find(s.nodes, path);
            if s2 != s {
                let n = NodeView { path, ty, data: Seq::empty(), tag: (s.version + 1) as u64 };
                assert(s2.nodes == s.nodes.push(n));
                assert(s2.version == s.version + 1);
                assert(parent_of(path) is Some && exists_path(s, parent_of(path)->0));
                assert(!exists_path(s, path));
                assert forall|i: int| 0 <= i < s2.nodes.len() implies parent_of(#[trigger] s2.nodes[i].path) is Some
                    && exists_path(s2, parent_of(s2.nodes[i].path)->0) by {
                    let par = parent_of(s2.nodes[i].path)->0;
                    if par != root() {
                        if i < s.nodes.len() {
                            assert(s2.nodes[i] == s.nodes[i]);
                            assert(exists_path(s, parent_of(s.nodes[i].path)->0));
                        } else {
                            assert(s2.nodes[i] == n);
                        }
                        assert(exists_path(s, par));
                        lemma_find(s.nodes, par);
                        let j = find(s.nodes, par);
                        assert(0 <= j < s.nodes.len());
                        assert(s2.nodes[j] == s.nodes[j]);
                        lemma_find_found(s2.nodes, par, j);
                    }
                }
                assert(unique_paths(s2.nodes)) by {
                    assert forall|i: int, j: int| 0 <= i < j < s2.nodes.len() implies #[trigger] s2.nodes[i].path
                        != #[trigger] s2.nodes[j].path by {
                        assert(s2.nodes[i] == s.nodes[i]);
                        if j < s.nodes.len() {
                            assert(s2.nodes[j] == s.nodes[j]);
                        }
                    }
                }
                assert forall|i: int| 0 <= i < s2.nodes.len() implies #[trigger] s2.nodes[i].tag <= s2.version
                    && s2.nodes[i].path != root() by {
                    if i < s.nodes.len() {
                        assert(s2.nodes[i] == s.nodes[i]);
                    }
                }
                assert(forall|i: int| 0 <= i < s2.nodes.len() ==> #[trigger] s2.nodes[i].tag <= s2.version);
                assert(forall|i: int| 0 <= i < s2.nodes.len() ==> #[trigger] s2.nodes[i].path != root());
            }
        },
        ReqView::Put { path, data, cas_tag } => {
            lemma_find(s.nodes, path);
            if s2 != s {
                let i0 = find(s.nodes, path);
                assert forall|i: int| 0 <= i < s.nodes.len() implies #[trigger] s2.nodes[i].path == s.nodes[i].path by {}
                assert forall|q: Seq<char>| #[trigger] find(s2.nodes, q) == find(s.nodes, q) by {
                    lemma_find_same_paths(s2.nodes, s.nodes, q);
                }
                assert forall|i: int| 0 <= i < s2.nodes.len() implies parent_of(#[trigger] s2.nodes[i].path) is Some
                    && exists_path(s2, parent_of(s2.nodes[i].path)->0) by {
                    assert(s2.nodes[i].path == s.nodes[i].path);
                    let par = parent_of(s.nodes[i].path)->0;
                    assert(find(s2.nodes, par) == find(s.nodes, par));
                }
                assert(unique_paths(s2.nodes)) by {
                    assert forall|i: int, j: int| 0 <= i < j < s2.nodes.len() implies #[trigger] s2.nodes[i].path
                        != #[trigger] s2.nodes[j].path by {
                        assert(s2.nodes[i].path == s.nodes[i].path);
                        assert(s2.nodes[j].path == s.nodes[j].path);
                    }
                }
                assert forall|i: int| 0 <= i < s2.nodes.len() implies #[trigger] s2.nodes[i].tag <= s2.version
                    && s2.nodes[i].path != root() by {
                    assert(s2.nodes[i].path == s.nodes[i].path);
                    if i != i0 {
                        assert(s2.nodes[i] == s.nodes[i]);
                    }
                }
            }
        },
        ReqView::Delete { path, cas_tag } => {
            lemma_find(s.nodes, path);
            if s2 != s {
                let pred = outside_of(path);
                let kept = s.nodes.filter(pred);
                assert(s2.nodes == kept);
                lemma_filter_unique(s.nodes, pred);
                assert forall|i: int| 0 <= i < kept.len() implies parent_of(#[trigger] kept[i].path) is Some
                    && exists_path(s2, parent_of(kept[i].path)->0) && kept[i].tag <= s2.version
                    && kept[i].path != root() by {
                    assert(s.nodes.contains(kept[i]));
                    let j = choose|j: int| 0 <= j < s.nodes.len() && s.nodes[j] == kept[i];
                    assert(s.nodes[j].tag <= s.version);
                    assert(s.nodes[j].path != root());
                    assert(parent_of(s.nodes[j].path) is Some && exists_path(s, parent_of(s.nodes[j].path)->0));
                    let par = parent_of(kept[i].path)->0;
                    if par != root() {
                        s.nodes.lemma_filter_pred(pred, i);
                        lemma_find(s.nodes, par);
                        let m = find(s.nodes, par);
                        if under(par, path) {
                            lemma_under_parent(kept[i].path, path);
                        }
                        assert(pred(s.nodes[m]));
                        s.nodes.lemma_filter_contains(pred, m);
                        let k = choose|k: int| 0 <= k < kept.len() && kept[k] == s.nodes[m];
                        lemma_find_found(kept, par, k);
                    }
                }
                assert forall|i: int| 0 <= i < s2.nodes.len() implies #[trigger] s2.nodes[i].tag <= s2.version by {
                    assert(parent_of(kept[i].path) is Some);
                }
            }
        },
        _ => {},
    }
}

/// Two valid paths with the same parent and the same last component are equal.
proof fn lemma_same_parent_key(q1: Seq<char>, q2: Seq<char>)
    requires
        valid_path(q1),
        valid_path(q2),
        parent_of(q1) is Some,
        parent_of(q1) == parent_of(q2),
        key_of(q1) == key_of(q2),
    ensures
        q1 == q2,
{
    lemma_last_slash(q1);
    lemma_last_slash(q2);
    let k1 = last_slash(q1);
    let k2 = last_slash(q2);
    if k1 == 1 {
        assert(q1.take(1)[0] == q1[0]);
        assert(q1[0] == '/' && q1[1] == '/');
    }
    if k2 == 1 {
        assert(q2.take(1)[0] == q2[0]);
        assert(q2[0] == '/' && q2[1] == '/');
    }
    if k1 > 0 && q1.take(k1) == root() {
        assert(q1.take(k1).len() == 1);
    }
    if k2 > 0 && q2.take(k2) == root() {
        assert(q2.take(k2).len() == 1);
    }
    if k1 != k2 {
        if k1 == 0 {
            assert(q2.take(k2) == root());
        } else if k2 == 0 {
            assert(q1.take(k1) == root());
        } else {
            assert(q1.take(k1).len() == q2.take(k2).len());
        }
    }
    assert(q1 =~= q1.take(k1) + seq!['/'] + q1.skip(k1 + 1));
    assert(q2 =~= q2.take(k2) + seq!['/'] + q2.skip(k2 + 1));
    if k1 > 0 {
        assert(q1.take(k1) == q2.take(k2));
    } else {
        assert(q1.take(k1) =~= q2.take(k2));
    }
}

/// Some element with parent `p` has the last component `k`.
pub open spec fn has_child_key(nodes: Seq<NodeView>, p: Seq<char>, k: Seq<char>) -> bool {
    exists|j: int| 0 <= j < nodes.len() && parent_of(#[trigger] nodes[j].path) == Some(p) && key_of(nodes[j].path) == k
}

/// Each key listed under `p` is the key of an element whose parent is `p`.
proof fn lemma_children_from(nodes: Seq<NodeView>, p: Seq<char>)
    ensures
        forall|i: int| 0 <= i < children(nodes, p).len() ==> has_child_key(nodes, p, #[trigger] children(nodes, p)[i]),
    decreases nodes.len(),
{
    if nodes.len() > 0 {
        let d = nodes.drop_last();
        lemma_children_from(d, p);
        assert forall|i: int| 0 <= i < children(nodes, p).len() implies has_child_key(nodes, p, #[trigger] children(nodes, p)[i]) by {
            if parent_of(nodes.last().path) == Some(p) {
                assert(children(nodes, p) == children(d, p).push(key_of(nodes.last().path)));
            } else {
                assert(children(nodes, p) == children(d, p));
            }
            if i < children(d, p).len() {
                assert(children(nodes, p)[i] == children(d, p)[i]);
                assert(has_child_key(d, p, children(d, p)[i]));
                let j = choose|j: int| 0 <= j < d.len() && parent_of(#[trigger] d[j].path) == Some(p) && key_of(d[j].path) == children(d, p)[i];
                assert(nodes[j] == d[j]);
            } else {
                assert(nodes[nodes.len() - 1] == nodes.last());
                assert(parent_of(nodes[nodes.len() - 1].path) == Some(p));
            }
        }
    }
}

/// With unique, valid paths, no key is listed twice under a path.
pub proof fn lemma_children_distinct(nodes: Seq<NodeView>, p: Seq<char>)
    requires
        unique_paths(nodes),
        forall|i: int| 0 <= i < nodes.len() ==> valid_path(#[trigger] nodes[i].path),
    ensures
        children(nodes, p).no_duplicates(),
    decreases nodes.len(),
{
    if nodes.len() > 0 {
        let d = nodes.drop_last();
        assert(forall|i: int| 0 <= i < d.len() ==> d[i] == nodes[i]);
        lemma_children_distinct(d, p);
        lemma_children_from(d, p);
        if parent_of(nodes.last().path) == Some(p) {
            let c = children(d, p);
            let k = key_of(nodes.last().path);
            assert(valid_path(nodes[nodes.len() - 1].path));
            assert forall|i: int| 0 <= i < c.len() implies c[i] != k by {
                assert(has_child_key(d, p, c[i]));
                let j = choose|j: int| 0 <= j < d.len() && parent_of(#[trigger] d[j].path) == Some(p) && key_of(d[j].path) == c[i];
                assert(nodes[j] == d[j]);
                assert(valid_path(nodes[j].path));
                if c[i] == k {
                    lemma_same_parent_key(nodes[j].path, nodes.last().path);
                    assert(nodes[j].path != nodes[nodes.len() - 1].path);
                }
            }
            assert(children(nodes, p) == c.push(k));
            assert(c.push(k).no_duplicates()) by {
                assert forall|a: int, b: int|
                    0 <= a < c.push(k).len() && 0 <= b < c.push(k).len() && a != b implies c.push(k)[a]
                        != c.push(k)[b] by {
                    if a < c.len() && b < c.len() {
                        assert(c.push(k)[a] == c[a] && c.push(k)[b] == c[b]);
                    }
                }
            }
        }
    }
}

proof fn lemma_find_update(nodes: Seq<NodeView>, p: Seq<char>, n: NodeView)
    requires
        find(nodes, p) >= 0,
        n.path == p,
    ensures
        find(nodes.update(find(nodes, p), n), p) == find(nodes, p),
    decreases nodes.len(),
{
    let i = find(nodes, p);
    if nodes.last().path != p {
        lemma_find_update(nodes.drop_last(), p, n);
        lemma_find(nodes.drop_last(), p);
        assert(nodes.update(i, n).drop_last() =~= nodes.drop_last().update(i, n));
    }
}

/// A conditional put succeeds exactly when the element exists and the tag given
/// is its current one (and tags are not exhausted); after it the element's tag
/// is strictly larger, so it has changed.
pub proof fn lemma_cas_put(s: StoreView, path: Seq<char>, data: Seq<u8>, tag: u64)
    requires
        store_wf(s),
    ensures
        ({
            let (s2, r) = apply_spec(s, ReqView::Put { path, data, cas_tag: Some(tag) });
            let i = find(s.nodes, path);
            &&& (r == RspView::Success) <==> (i >= 0 && s.nodes[i].tag == tag && s.version < u64::MAX)
            &&& r == RspView::Success ==> find(s2.nodes, path) == i && s2.nodes[i].tag > s.nodes[i].tag
                && s2.nodes[i].data == data
            &&& r != RspView::Success ==> s2 == s
        }),
{
    lemma_find(s.nodes, path);
    let i = find(s.nodes, path);
    if i >= 0 && s.nodes[i].tag == tag && s.version < u64::MAX {
        let n = NodeView { path, ty: s.nodes[i].ty, data, tag: (s.version + 1) as u64 };
        lemma_find_update(s.nodes, path, n);
    }
}

/// One element of the namespace.
pub struct Node {
    pub path: String,
    pub ty: ElementType,
    pub data: Vec<u8>,
    pub tag: u64,
}

impl View for Node {
    type V = NodeView;

    open spec fn view(&self) -> NodeView {
        NodeView { path: self.path@, ty: self.ty, data: self.data@, tag: self.tag }
    }
}

/// The replicated tree of typed, versioned elements.
pub struct NamespaceStore {
    nodes: Vec<Node>,
    version: u64,
}

pub open spec fn nodes_view(v: Seq<Node>) -> Seq<NodeView> {
    v.map_values(|n: Node| n@)
}

impl View for NamespaceStore {
    type V = StoreView;

    closed spec fn view(&self) -> StoreView {
        StoreView { nodes: nodes_view(self.nodes@), version: self.version }
    }
}

fn last_slash_index(c: &Vec<char>) -> (r: Option<usize>)
    ensures
        r is None <==> last_slash(c@) < 0,
        r is Some ==> r->0 == last_slash(c@) && r->0 < c@.len(),
{
    proof {
        lemma_last_slash(c@);
    }
    let mut i: usize = c.len();
    assert(c@.take(i as int) =~= c@);
    while i > 0
        invariant
            i <= c.len(),
            last_slash(c@) == last_slash(c@.take(i as int)),
        decreases i,
    {
        assert(c@.take(i as int).drop_last() =~= c@.take(i - 1));
        if c[i - 1] == '/' {
            return Some(i - 1);
        }
        i = i - 1;
    }
    None
}

fn chars_range(c: &Vec<char>, from: usize, to: usize) -> (r: Vec<char>)
    requires
        from <= to <= c.len(),
    ensures
        r@ == c@.subrange(from as int, to as int),
{
    let mut r: Vec<char> = Vec::new();
    let mut i: usize = from;
    while i < to
        invariant
            from <= i <= to <= c.len(),
            r@ == c@.subrange(from as int, i as int),
        decreases to - i,
    {
        r.push(c[i]);
        i = i + 1;
        assert(r@ =~= c@.subrange(from as int, i as int));
    }
    r
}

/// The parent path of `path`, if it has one.
pub fn parent_path(path: &String) -> (r: Option<String>)
    ensures
        r is None <==> parent_of(path@) is None,
        r is Some ==> r->0@ == parent_of(path@)->0,
{
    let c = chars_of(path.as_str());
    match last_slash_index(&c) {
        None => None,
        Some(k) => {
            if k == 0 {
                let root = vec!['/'];
                assert(root@ =~= seq!['/']);
                Some(string_of(root.as_slice()))
            } else {
                let p = chars_range(&c, 0, k);
                assert(p@ =~= c@.take(k as int));
                Some(string_of(p.as_slice()))
            }
        },
    }
}

/// The last component of `path`.
pub fn path_key(path: &String) -> (r: String)
    ensures
        r@ == key_of(path@),
{
    let c = chars_of(path.as_str());
    let from: usize = match last_slash_index(&c) {
        None => 0,
        Some(k) => k + 1,
    };
    let p = chars_range(&c, from, c.len());
    proof {
        lemma_last_slash(c@);
    }
    assert(from == last_slash(c@) + 1);
    assert(p@ =~= c@.skip(last_slash(c@) + 1));
    string_of(p.as_slice())
}

fn is_root(path: &String) -> (r: bool)
    ensures
        r == (path@ == root()),
{
    let c = chars_of(path.as_str());
    let r = c.len() == 1 && c[0] == '/';
    if c.len() == 1 {
        assert(r ==> c@ =~= root());
    }
    r
}

impl NamespaceStore {
    pub open spec fn wf(&self) -> bool {
        store_wf(self@)
    }

    /// An empty store: only the root exists.
    pub fn new() -> (r: NamespaceStore)
        ensures
            r.wf(),
            r@ == (StoreView { nodes: Seq::empty(), version: 0 }),
    {
        let r = NamespaceStore { nodes: Vec::new(), version: 0 };
        assert(r@.nodes =~= Seq::<NodeView>::empty());
        r
    }

    /// The last tag handed out.
    pub fn version(&self) -> (r: u64)
        ensures
            r == self@.version,
    {
        self.version
    }

    fn find_index(&self, path: &String) -> (r: Option<usize>)
        ensures
            r is None <==> find(self@.nodes, path@) < 0,
            r is Some ==> r->0 == find(self@.nodes, path@),
    {
        let mut i: usize = self.nodes.len();
        assert(self@.nodes.take(i as int) =~= self@.nodes);
        while i > 0
            invariant
                i <= self.nodes.len(),
                find(self@.nodes, path@) == find(self@.nodes.take(i as int), path@),
            decreases i,
        {
            assert(self@.nodes.take(i as int).drop_last() =~= self@.nodes.take(i - 1));
            if self.nodes[i - 1].path == *path {
                return Some(i - 1);
            }
            i = i - 1;
        }
        None
    }

    fn path_exists(&self, path: &String) -> (r: bool)
        ensures
            r == exists_path(self@, path@),
    {
        if is_root(path) {
            true
        } else {
            self.find_index(path).is_some()
        }
    }

    fn child_keys(&self, path: &String) -> (r: Vec<String>)
        ensures
            strings_view(r@) == children(self@.nodes, path@),
    {
        let mut keys: Vec<String> = Vec::new();
        let mut i: usize = 0;
        while i < self.nodes.len()
            invariant
                i <= self.nodes.len(),
                strings_view(keys@) == children(self@.nodes.take(i as int), path@),
            decreases self.nodes.len() - i,
        {
            assert(self@.nodes.take(i + 1).drop_last() =~= self@.nodes.take(i as int));
            let ghost before = keys@;
            match parent_path(&self.nodes[i].path) {
                Some(par) => {
                    if par == *path {
                        let k = path_key(&self.nodes[i].path);
                        keys.push(k);
                        assert(strings_view(keys@) =~= strings_view(before).push(k@));
                    }
                },
                None => {},
            }
            i = i + 1;
        }
        assert(self@.nodes.take(self.nodes.len() as int) =~= self@.nodes);
        keys
    }

    fn remove_under(&mut self, path: &String)
        requires
            old(self).wf(),
        ensures
            final(self)@ == (StoreView {
                nodes: old(self)@.nodes.filter(outside_of(path@)),
                version: old(self)@.version,
            }),
    {
        let ghost orig = self@.nodes;
        let pc = chars_of(path.as_str());
        let mut kept: Vec<Node> = Vec::new();
        proof {
            reveal(Seq::filter);
            assert(orig.take(0) =~= Seq::<NodeView>::empty());
        }
        let mut i: usize = 0;
        while i < self.nodes.len()
            invariant
                i <= self.nodes.len(),
                nodes_view(self.nodes@) == orig,
                pc@ == path@,
                nodes_view(kept@) == orig.take(i as int).filter(outside_of(path@)),
                store_wf(self@),
                forall|j: int| 0 <= j < kept@.len() ==> #[trigger] kept@[j].tag <= self.version,
            decreases self.nodes.len() - i,
        {
            assert(orig.take(i + 1).drop_last() =~= orig.take(i as int));
            assert(orig.take(i + 1).last() == orig[i as int]);
            assert(orig[i as int] == self.nodes@[i as int]@);
            assert(self@.nodes[i as int].tag <= self.version);
            let below = node_under(&self.nodes[i].path, &pc);
            reveal(Seq::filter);
            assert(orig.take(i + 1).filter(outside_of(path@)) == if outside_of(path@)(orig[i as int]) {
                orig.take(i as int).filter(outside_of(path@)).push(orig[i as int])
            } else {
                orig.take(i as int).filter(outside_of(path@))
            });
            if !below {
                let ghost before = kept@;
                kept.push(copy_node(&self.nodes[i]));
                assert(nodes_view(kept@) =~= nodes_view(before).push(orig[i as int]));
            }
            i = i + 1;
        }
        assert(orig.take(self.nodes.len() as int) =~= orig);
        self.nodes = kept;
    }

    /// Applies one operation; the same store and operation always give the same result.
    pub fn apply(&mut self, op: &VrApiReq) -> (r: VrApiRsp)
        requires
            old(self).wf(),
        ensures
            final(self).wf(),
            (final(self)@, r@) == apply_spec(old(self)@, op@),
            r@ matches RspView::KeyList { keys } ==> keys.no_duplicates(),
    {
        proof {
            lemma_apply_wf(self@, op@);
            lemma_children_distinct(self@.nodes, op@->List_path);
        }
        match op {
            VrApiReq::Create { path, ty } => {
                let par = parent_path(path);
                if par.is_none() {
                    return VrApiRsp::ParentNotFoundError;
                }
                if !self.path_exists(&par.unwrap()) {
                    return VrApiRsp::ParentNotFoundError;
                }
                if self.path_exists(path) {
                    return VrApiRsp::ElementAlreadyExistsError;
                }
                if !is_valid_path(path) {
                    return VrApiRsp::Error { msg: "invalid path".to_string() };
                }
                if self.version == u64::MAX {
                    return VrApiRsp::Error { msg: "version space exhausted".to_string() };
                }
                self.version = self.version + 1;
                let n = Node { path: path.clone(), ty: *ty, data: Vec::new(), tag: self.version };
                let ghost before = self.nodes@;
                self.nodes.push(n);
                assert(nodes_view(self.nodes@) =~= nodes_view(before).push(n@));
                VrApiRsp::Success
            },
            VrApiReq::Put { path, data, cas_tag } => {
                proof {
                    lemma_find(self@.nodes, path@);
                }
                let i = match self.find_index(path) {
                    None => {
                        return VrApiRsp::ElementNotFoundError(path.clone());
                    },
                    Some(i) => i,
                };
                let actual = self.nodes[i].tag;
                match cas_tag {
                    Some(t) => {
                        if *t != actual {
                            return VrApiRsp::CasFailedError {
                                path: path.clone(),
                                expected: *t,
                                actual,
                            };
                        }
                    },
                    None => {},
                }
                if self.version == u64::MAX {
                    return VrApiRsp::Error { msg: "version space exhausted".to_string() };
                }
                self.version = self.version + 1;
                let n = Node {
                    path: path.clone(),
                    ty: self.nodes[i].ty,
                    data: copy_bytes(data),
                    tag: self.version,
                };
                let ghost before = self.nodes@;
                self.nodes.set(i, n);
                assert(nodes_view(self.nodes@) =~= nodes_view(before).update(i as int, n@));
                VrApiRsp::Success
            },
            VrApiReq::Delete { path, cas_tag } => {
                proof {
                    lemma_find(self@.nodes, path@);
                }
                let i = match self.find_index(path) {
                    None => {
                        return VrApiRsp::ElementNotFoundError(path.clone());
                    },
                    Some(i) => i,
                };
                let actual = self.nodes[i].tag;
                match cas_tag {
                    Some(t) => {
                        if *t != actual {
                            return VrApiRsp::CasFailedError {
                                path: path.clone(),
                                expected: *t,
                                actual,
                            };
                        }
                    },
                    None => {},
                }
                self.remove_under(path);
                VrApiRsp::Success
            },
            VrApiReq::Get { path, cas } => {
                proof {
                    lemma_find(self@.nodes, path@);
                }
                match self.find_index(path) {
                    None => VrApiRsp::ElementNotFoundError(path.clone()),
                    Some(i) => {
                        let tag = if *cas {
                            Some(self.nodes[i].tag)
                        } else {
                            None
                        };
                        VrApiRsp::Element { data: copy_bytes(&self.nodes[i].data), cas_tag: tag }
                    },
                }
            },
            VrApiReq::List { path } => {
                if !self.path_exists(path) {
                    VrApiRsp::ElementNotFoundError(path.clone())
                } else {
                    VrApiRsp::KeyList { keys: self.child_keys(path) }
                }
            },
        }
    }
}

/// Whether `path` is a valid element path.
pub fn is_valid_path(path: &String) -> (r: bool)
    ensures
        r == valid_path(path@),
{
    let c = chars_of(path.as_str());
    if c.len() < 2 || c[0] != '/' || c[c.len() - 1] == '/' {
        return false;
    }
    let mut i: usize = 0;
    while i + 1 < c.len()
        invariant
            c@ == path@,
            i + 1 <= c.len(),
            forall|j: int| 0 <= j < i ==> !(#[trigger] c@[j] == '/' && c@[j + 1] == '/'),
        decreases c.len() - i,
    {
        if c[i] == '/' && c[i + 1] == '/' {
            return false;
        }
        i = i + 1;
    }
    true
}

fn copy_node(n: &Node) -> (r: Node)
    ensures
        r@ == n@,
{
    Node { path: n.path.clone(), ty: n.ty, data: copy_bytes(&n.data), tag: n.tag }
}

fn node_under(q: &String, p: &Vec<char>) -> (r: bool)
    ensures
        r == under(q@, p@),
{
    let c = chars_of(q.as_str());
    if c.len() == p.len() {
        let mut i: usize = 0;
        while i < c.len()
            invariant
                i <= c.len() == p.len(),
                c@ == q@,
                c@.take(i as int) == p@.take(i as int),
            decreases c.len() - i,
        {
            if c[i] != p[i] {
                assert(c@[i as int] != p@[i as int]);
                assert(c@ != p@);
                return false;
            }
            i = i + 1;
            assert(c@.take(i as int) =~= c@.take(i - 1).push(c@[i - 1]));
            assert(p@.take(i as int) =~= p@.take(i - 1).push(p@[i - 1]));
        }
        assert(c@ =~= c@.take(c.len() as int));
        assert(p@ =~= p@.take(p.len() as int));
        true
    } else if p.len() < c.len() {
        let mut i: usize = 0;
        while i < p.len()
            invariant
                i <= p.len() < c.len(),
                c@ == q@,
                c@.take(i as int) == p@.take(i as int),
            decreases p.len() - i,
        {
            if c[i] != p[i] {
                assert(c@.take(p.len() as int)[i as int] == c@[i as int]);
                assert(c@.take(p.len() as int) != p@);
                return false;
            }
            i = i + 1;
            assert(c@.take(i as int) =~= c@.take(i - 1).push(c@[i - 1]));
            assert(p@.take(i as int) =~= p@.take(i - 1).push(p@[i - 1]));
        }
        assert(p@ =~= p@.take(p.len() as int));
        c[p.len()] == '/'
    } else {
        false
    }
}

} // verus!
