use vstd::prelude::*;
use crate::listing::{split_by, split_on};

verus! {

/// An RSS source, as the source tree lists it.
#[derive(Debug, Clone)]
pub struct RssSource {
    pub id: i32,
    pub channel: String,
    pub name: String,
    pub url: String,
    pub description: Option<String>,
    pub logo_img: Option<String>,
    pub background_img: Option<String>,
}

/// A node of the source tree: a source, or a group of further nodes.
pub enum RssNode {
    Leaf(Box<RssSource>),
    Branch(Box<RssTree>),
}

/// A group of nodes; `children` is an ordered map from names to nodes,
/// ascending by name.
pub struct RssTree {
    pub name: String,
    pub children: Vec<(String, RssNode)>,
}

/// The source tree as nested lists: a node with `data` is a source.
pub struct RssTreeVec {
    pub name: String,
    pub children: Vec<RssTreeVec>,
    pub data: Option<RssSource>,
}

/// Order of names: lexicographic by code point, which is the byte order
/// of their UTF-8 encodings.
pub open spec fn chars_lt(a: Seq<char>, b: Seq<char>) -> bool
    decreases a.len(),
{
    if a.len() == 0 {
        b.len() > 0
    } else if b.len() == 0 {
        false
    } else if a[0] != b[0] {
        (a[0] as int) < (b[0] as int)
    } else {
        chars_lt(a.drop_first(), b.drop_first())
    }
}

pub proof fn lemma_chars_lt_transitive(a: Seq<char>, b: Seq<char>, c: Seq<char>)
    requires
        chars_lt(a, b),
        chars_lt(b, c),
    ensures
        chars_lt(a, c),
    decreases a.len(),
{
    if a.len() > 0 && b.len() > 0 && c.len() > 0 {
        if a[0] == b[0] && b[0] == c[0] {
            lemma_chars_lt_transitive(a.drop_first(), b.drop_first(), c.drop_first());
        }
    }
}

pub proof fn lemma_chars_lt_total(a: Seq<char>, b: Seq<char>)
    requires
        a != b,
    ensures
        chars_lt(a, b) || chars_lt(b, a),
    decreases a.len(),
{
    if a.len() > 0 && b.len() > 0 && a[0] == b[0] {
        if a.drop_first() == b.drop_first() {
            assert(a =~= seq![a[0]] + a.drop_first());
            assert(b =~= seq![b[0]] + b.drop_first());
        }
        lemma_chars_lt_total(a.drop_first(), b.drop_first());
    } else if a.len() > 0 && b.len() > 0 {
        let x = a[0] as int;
        let y = b[0] as int;
        assert(x != y) by {
            if x == y {
                assert(a[0] == b[0]);
            }
        }
    } else if a.len() == 0 && b.len() == 0 {
        assert(a =~= b);
    }
}

/// Relies on `String`'s `<`: byte-wise lexicographic order, the same as
/// the order of code points.
#[verifier::external_body]
fn name_lt(a: &String, b: &String) -> (r: bool)
    ensures
        r == chars_lt(a@, b@),
{
    a < b
}

pub open spec fn keys_sorted(ch: Seq<(String, RssNode)>) -> bool {
    forall|a: int, b: int| 0 <= a < b < ch.len() ==> chars_lt(#[trigger] ch[a].0@, #[trigger] ch[b].0@)
}

/// Every group of the tree has its children in ascending name order, and
/// every nested group is named after its key.
pub open spec fn tree_wf(t: RssTree) -> bool
    decreases t,
{
    keys_sorted(t.children@) && children_wf(t, 0)
}

pub open spec fn children_wf(t: RssTree, j: int) -> bool
    decreases t, t.children@.len() - j,
{
    if j < 0 || j >= t.children@.len() {
        true
    } else {
        let ok = match t.children@[j].1 {
            RssNode::Leaf(_) => true,
            RssNode::Branch(b) => b.name@ == t.children@[j].0@ && tree_wf(*b),
        };
        ok && children_wf(t, j + 1)
    }
}

/// First position whose name is not below `key` (where `key` goes).
pub open spec fn pos_from(ch: Seq<(String, RssNode)>, key: Seq<char>, j: int) -> int
    decreases ch.len() - j,
{
    if j < 0 || j >= ch.len() || !chars_lt(ch[j].0@, key) {
        j
    } else {
        pos_from(ch, key, j + 1)
    }
}

pub open spec fn key_pos(ch: Seq<(String, RssNode)>, key: Seq<char>) -> int {
    pos_from(ch, key, 0)
}

pub open spec fn key_found(ch: Seq<(String, RssNode)>, key: Seq<char>) -> bool {
    key_pos(ch, key) < ch.len() && ch[key_pos(ch, key)].0@ == key
}

/// `new` is `old` with one entry put at `j`: in place of the entry there
/// when `replace`, else in front of it.
pub open spec fn placed(old: Seq<(String, RssNode)>, new: Seq<(String, RssNode)>, j: int, replace: bool) -> bool {
    if replace {
        &&& new.len() == old.len()
        &&& forall|k: int| 0 <= k < new.len() && k != j ==> #[trigger] new[k] == old[k]
    } else {
        &&& new.len() == old.len() + 1
        &&& forall|k: int| 0 <= k < j ==> #[trigger] new[k] == old[k]
        &&& forall|k: int| j < k < new.len() ==> #[trigger] new[k] == old[k - 1]
    }
}

/// `t` holds only the path `levels[i..]`, ending in the source `src`.
pub open spec fn fresh_chain(t: RssTree, levels: Seq<Seq<char>>, i: int, src: RssSource) -> bool
    decreases levels.len() - i,
{
    if i < 0 || i >= levels.len() {
        false
    } else {
        &&& t.children@.len() == 1
        &&& t.children@[0].0@ == levels[i]
        &&& if i == levels.len() - 1 {
            t.children@[0].1 matches RssNode::Leaf(b) && *b == src
        } else {
            t.children@[0].1 matches RssNode::Branch(b) && b.name@ == levels[i] && fresh_chain(
                *b,
                levels,
                i + 1,
                src,
            )
        }
    }
}

/// Whether the path `levels[i..]` runs through a source of `t` before its
/// last name.
#[verifier::opaque]
pub open spec fn insert_fails(t: RssTree, levels: Seq<Seq<char>>, i: int) -> bool
    decreases levels.len() - i,
{
    if i < 0 || i + 1 >= levels.len() {
        false
    } else {
        let ch = t.children@;
        let j = key_pos(ch, levels[i]);
        key_found(ch, levels[i]) && match ch[j].1 {
            RssNode::Leaf(_) => true,
            RssNode::Branch(b) => insert_fails(*b, levels, i + 1),
        }
    }
}

/// `new` is `old` with the source `src` put at the path `levels[i..]`:
/// missing groups on the way are created, and the last name gets the
/// source, in place of whatever it held.
#[verifier::opaque]
pub open spec fn inserted(old: RssTree, new: RssTree, levels: Seq<Seq<char>>, i: int, src: RssSource) -> bool
    decreases levels.len() - i,
{
    if i < 0 || i >= levels.len() {
        false
    } else {
        let ch = old.children@;
        let nch = new.children@;
        let key = levels[i];
        let j = key_pos(ch, key);
        let f = key_found(ch, key);
        &&& new.name == old.name
        &&& placed(ch, nch, j, f)
        &&& 0 <= j < nch.len()
        &&& nch[j].0@ == key
        &&& if i == levels.len() - 1 {
            nch[j].1 matches RssNode::Leaf(b) && *b == src
        } else if f {
            &&& ch[j].1 matches RssNode::Branch(ob)
            &&& nch[j].1 matches RssNode::Branch(nb)
            &&& nb.name == ob.name
            &&& inserted(*ob, *nb, levels, i + 1, src)
        } else {
            nch[j].1 matches RssNode::Branch(nb) && nb.name@ == key && fresh_chain(*nb, levels, i + 1, src)
        }
    }
}

pub open spec fn views(levels: Seq<String>) -> Seq<Seq<char>> {
    levels.map_values(|s: String| s@)
}

fn find_pos(ch: &Vec<(String, RssNode)>, key: &String) -> (r: usize)
    ensures
        r as int == key_pos(ch@, key@),
        r <= ch@.len(),
{
    let mut j: usize = 0;
    while j < ch.len() && name_lt(&ch[j].0, key)
        invariant
            0 <= j <= ch@.len(),
            pos_from(ch@, key@, 0) == pos_from(ch@, key@, j as int),
        decreases ch@.len() - j,
    {
        j = j + 1;
    }
    j
}

/// A group named `name` holding only the path `levels[i..]` to `src`.
fn fresh_path(name: String, levels: &Vec<String>, i: usize, src: RssSource) -> (r: RssTree)
    requires
        i < levels@.len(),
    ensures
        r.name == name,
        fresh_chain(r, views(levels@), i as int, src),
    decreases levels@.len() - i,
{
    let key = levels[i].clone();
    let node = if i == levels.len() - 1 {
        RssNode::Leaf(Box::new(src))
    } else {
        RssNode::Branch(Box::new(fresh_path(key.clone(), levels, i + 1, src)))
    };
    let mut children: Vec<(String, RssNode)> = Vec::new();
    children.push((key, node));
    RssTree { name, children }
}

fn insert_path(tree: RssTree, levels: &Vec<String>, i: usize, src: RssSource) -> (r: Option<RssTree>)
    requires
        i < levels@.len(),
    ensures
        r is None <==> insert_fails(tree, views(levels@), i as int),
        r matches Some(t) ==> inserted(tree, t, views(levels@), i as int, src),
    decreases levels@.len() - i,
{
    reveal(inserted);
    reveal(insert_fails);
    let ghost old_tree = tree;
    let ghost lv = views(levels@);
    let RssTree { name, mut children } = tree;
    let ghost ch = children@;
    let key = &levels[i];
    let j = find_pos(&children, key);
    let found = j < children.len() && children[j].0 == *key;
    if i == levels.len() - 1 {
        let entry = (key.clone(), RssNode::Leaf(Box::new(src)));
        if found {
            children[j] = entry;
        } else {
            children.insert(j, entry);
        }
        let t = RssTree { name, children };
        proof {
            assert(lv[i as int] == key@);
        }
        return Some(t);
    }
    if found {
        let (k, node) = children.remove(j);
        match node {
            RssNode::Leaf(_) => {
                proof {
                    assert(lv[i as int] == key@);
                }
                None
            },
            RssNode::Branch(b) => {
                match insert_path(*b, levels, i + 1, src) {
                    None => {
                        proof {
                            assert(lv[i as int] == key@);
                        }
                        None
                    },
                    Some(nb) => {
                        children.insert(j, (k, RssNode::Branch(Box::new(nb))));
                        let t = RssTree { name, children };
                        proof {
                            assert(lv[i as int] == key@);
                        }
                        Some(t)
                    },
                }
            },
        }
    } else {
        let nb = fresh_path(key.clone(), levels, i + 1, src);
        children.insert(j, (key.clone(), RssNode::Branch(Box::new(nb))));
        let t = RssTree { name, children };
        proof {
            assert(lv[i as int] == key@);
        }
        Some(t)
    }
}

/// The path of a source in the tree: its channel, then the parts of its
/// name between '|' separators.
pub open spec fn levels_of(src: RssSource) -> Seq<Seq<char>> {
    seq![src.channel@] + split_on(src.name@, '|')
}

/// `trees[k + 1]` is `trees[k]` with `sources[k]` put in, for each `k`
/// below `n`, starting from an empty root group.
pub open spec fn built_upto(sources: Seq<RssSource>, trees: Seq<RssTree>, n: int) -> bool {
    &&& 0 <= n <= sources.len()
    &&& trees.len() == n + 1
    &&& trees[0].children@.len() == 0
    &&& trees[0].name@ == seq!['r', 'o', 'o', 't']
    &&& forall|k: int| 0 <= k < n ==> inserted(#[trigger] trees[k], trees[k + 1], levels_of(sources[k]), 0, sources[k])
}

fn source_levels(src: &RssSource) -> (r: Vec<String>)
    ensures
        views(r@) == levels_of(*src),
        r@.len() >= 1,
{
    let mut levels: Vec<String> = Vec::new();
    levels.push(src.channel.clone());
    let parts = split_by(src.name.as_str(), '|');
    let mut k: usize = 0;
    let ghost target = seq![src.channel@] + split_on(src.name@, '|');
    while k < parts.len()
        invariant
            0 <= k <= parts@.len(),
            parts@.len() == split_on(src.name@, '|').len(),
            target == seq![src.channel@] + split_on(src.name@, '|'),
            forall|q: int| 0 <= q < parts@.len() ==> #[trigger] parts@[q]@ == split_on(src.name@, '|')[q],
            levels@.len() == k + 1,
            forall|q: int| 0 <= q < levels@.len() ==> #[trigger] levels@[q]@ == target[q],
        decreases parts@.len() - k,
    {
        levels.push(parts[k].clone());
        k = k + 1;
    }
    proof {
        assert(views(levels@) =~= target);
    }
    levels
}

/// Groups the sources into a tree: each source sits at the path made of
/// its channel and the '|'-separated parts of its name; groups on the way
/// are created as needed, and a source put at a path that is taken
/// replaces what was there. `None` when a source's path runs through
/// another source.
pub fn convert_to_tree(rss_sources: Vec<RssSource>) -> (r: Option<RssTree>)
    ensures
        r matches Some(t) ==> tree_wf(t),
        r matches Some(t) ==> exists|trees: Seq<RssTree>|
            built_upto(rss_sources@, trees, rss_sources@.len() as int) && #[trigger] trees.last() == t,
        r is None ==> exists|trees: Seq<RssTree>, k: int|
            built_upto(rss_sources@, trees, k) && k < rss_sources@.len() && #[trigger] insert_fails(
                trees[k],
                levels_of(rss_sources@[k]),
                0,
            ),
{
    let ghost all = rss_sources@;
    let total = rss_sources.len();
    let root_name = "root".to_owned();
    proof {
        reveal_strlit("root");
        assert(root_name@ =~= seq!['r', 'o', 'o', 't']);
    }
    let mut tree = RssTree { name: root_name, children: Vec::new() };
    let ghost mut trees: Seq<RssTree> = seq![tree];
    let mut rest = rss_sources;
    let mut n: usize = 0;
    while rest.len() > 0
        invariant
            rest@ == all.subrange(n as int, all.len() as int),
            n <= all.len(),
            all.len() == total,
            all == rss_sources@,
            tree_wf(tree),
            built_upto(all, trees, n as int),
            trees.last() == tree,
        decreases rest@.len(),
    {
        proof {
            assert(rest@.len() == all.len() - n);
        }
        let src = rest.remove(0);
        proof {
            assert(src == all[n as int]);
        }
        let levels = source_levels(&src);
        match insert_path(tree, &levels, 0, src) {
            None => {
                proof {
                    assert(views(levels@) == levels_of(all[n as int]));
                    assert(insert_fails(trees[n as int], levels_of(all[n as int]), 0));
                    assert(built_upto(rss_sources@, trees, n as int));
                }
                return None;
            },
            Some(t) => {
                proof {
                    lemma_inserted_wf(tree, t, levels_of(all[n as int]), 0, all[n as int]);
                    let prev = trees;
                    trees = trees.push(t);
                    assert forall|k: int| 0 <= k < n + 1 implies inserted(#[trigger] trees[k], trees[k + 1], levels_of(all[k]), 0, all[k]) by {
                        if k < n {
                            assert(trees[k] == prev[k]);
                            assert(trees[k + 1] == prev[k + 1]);
                        }
                    }
                }
                tree = t;
            },
        }
        n = n + 1;
        proof {
            assert(rest@ =~= all.subrange(n as int, all.len() as int));
        }
    }
    proof {
        assert(n == all.len());
    }
    Some(tree)
}

/// `vch` lists the children of `t` from position `j` on, in order: a
/// source as a node with that source and no children, a group as a node
/// with the group's children listed the same way.
pub open spec fn vec_children(t: RssTree, vch: Seq<RssTreeVec>, j: int) -> bool
    decreases t, t.children@.len() - j,
{
    if j < 0 || j >= t.children@.len() {
        true
    } else {
        let key = t.children@[j].0@;
        let c = vch[j];
        let ok = match t.children@[j].1 {
            RssNode::Leaf(b) => c.name@ == key && c.data == Some(*b) && c.children@.len() == 0,
            RssNode::Branch(b) => c.name@ == key && c.data is None && c.children@.len()
                == b.children@.len() && vec_children(*b, c.children@, 0),
        };
        ok && vec_children(t, vch, j + 1)
    }
}

fn copy_text(s: &Option<String>) -> (r: Option<String>)
    ensures
        r == *s,
{
    match s {
        Some(x) => Some(x.clone()),
        None => None,
    }
}

fn copy_source(s: &RssSource) -> (r: RssSource)
    ensures
        r == *s,
{
    RssSource {
        id: s.id,
        channel: s.channel.clone(),
        name: s.name.clone(),
        url: s.url.clone(),
        description: copy_text(&s.description),
        logo_img: copy_text(&s.logo_img),
        background_img: copy_text(&s.background_img),
    }
}

fn list_children(t: &RssTree) -> (r: Vec<RssTreeVec>)
    ensures
        r@.len() == t.children@.len(),
        vec_children(*t, r@, 0),
    decreases t,
{
    let mut out: Vec<RssTreeVec> = Vec::new();
    let mut k: usize = 0;
    while k < t.children.len()
        invariant
            0 <= k <= t.children@.len(),
            out@.len() == k,
            forall|q: int| 0 <= q < k ==> #[trigger] child_listed(*t, out@[q], q),
        decreases t.children@.len() - k,
    {
        let key = t.children[k].0.clone();
        let child = match &t.children[k].1 {
            RssNode::Leaf(b) => RssTreeVec { name: key, children: Vec::new(), data: Some(copy_source(b)) },
            RssNode::Branch(b) => {
                proof {
                    assert(decreases_to!(t.children => t.children@[k as int]));
                }
                let sub = list_children(b);
                RssTreeVec { name: key, children: sub, data: None }
            },
        };
        out.push(child);
        proof {
            assert forall|q: int| 0 <= q < k + 1 implies #[trigger] child_listed(*t, out@[q], q) by {}
        }
        k = k + 1;
    }
    proof {
        lemma_vec_children(*t, out@, 0);
    }
    out
}

/// Lists the tree as nested nodes named by their keys, children in the
/// tree's order; sources become nodes with `data` and no children.
pub fn convert_btreemap_to_vec(tree: RssTree) -> (r: RssTreeVec)
    ensures
        r.name == tree.name,
        r.data is None,
        r.children@.len() == tree.children@.len(),
        vec_children(tree, r.children@, 0),
{
    let children = list_children(&tree);
    RssTreeVec { name: tree.name, children, data: None }
}

/// Child `j` of `t` is listed as `c`.
pub open spec fn child_listed(t: RssTree, c: RssTreeVec, j: int) -> bool {
    let key = t.children@[j].0@;
    match t.children@[j].1 {
        RssNode::Leaf(b) => c.name@ == key && c.data == Some(*b) && c.children@.len() == 0,
        RssNode::Branch(b) => c.name@ == key && c.data is None && c.children@.len() == b.children@.len()
            && vec_children(*b, c.children@, 0),
    }
}

proof fn lemma_vec_children(t: RssTree, vch: Seq<RssTreeVec>, j: int)
    requires
        0 <= j,
        vch.len() == t.children@.len(),
        forall|k: int| j <= k < vch.len() ==> #[trigger] child_listed(t, vch[k], k),
    ensures
        vec_children(t, vch, j),
    decreases t.children@.len() - j,
{
    if j < t.children@.len() {
        assert(child_listed(t, vch[j], j));
        lemma_vec_children(t, vch, j + 1);
    }
}

/// Child `k` of `t` is well formed (a group named after its key and
/// well formed itself, or a source).
pub open spec fn child_ok(t: RssTree, k: int) -> bool {
    match t.children@[k].1 {
        RssNode::Leaf(_) => true,
        RssNode::Branch(b) => b.name@ == t.children@[k].0@ && tree_wf(*b),
    }
}

proof fn lemma_children_wf(t: RssTree, j: int)
    requires
        0 <= j,
    ensures
        children_wf(t, j) <==> forall|k: int| j <= k < t.children@.len() ==> #[trigger] child_ok(t, k),
    decreases t.children@.len() - j,
{
    if j < t.children@.len() {
        lemma_children_wf(t, j + 1);
        if children_wf(t, j + 1) && child_ok(t, j) {
            assert forall|k: int| j <= k < t.children@.len() implies #[trigger] child_ok(t, k) by {
                if k > j {
                }
            }
        }
    }
}

proof fn lemma_pos(ch: Seq<(String, RssNode)>, key: Seq<char>, j: int)
    requires
        0 <= j <= ch.len(),
    ensures
        j <= pos_from(ch, key, j) <= ch.len(),
        forall|k: int| j <= k < pos_from(ch, key, j) ==> chars_lt(#[trigger] ch[k].0@, key),
        pos_from(ch, key, j) < ch.len() ==> !chars_lt(ch[pos_from(ch, key, j)].0@, key),
    decreases ch.len() - j,
{
    if j < ch.len() && chars_lt(ch[j].0@, key) {
        lemma_pos(ch, key, j + 1);
    }
}

proof fn lemma_fresh_wf(t: RssTree, levels: Seq<Seq<char>>, i: int, src: RssSource)
    requires
        fresh_chain(t, levels, i, src),
    ensures
        tree_wf(t),
    decreases levels.len() - i,
{
    lemma_children_wf(t, 0);
    if i < levels.len() - 1 {
        if let RssNode::Branch(b) = t.children@[0].1 {
            lemma_fresh_wf(*b, levels, i + 1, src);
        }
    }
    assert(child_ok(t, 0));
}

/// Putting a source in keeps every group's children in ascending name
/// order, each group named after its key.
pub proof fn lemma_inserted_wf(old: RssTree, new: RssTree, levels: Seq<Seq<char>>, i: int, src: RssSource)
    requires
        tree_wf(old),
        inserted(old, new, levels, i, src),
    ensures
        tree_wf(new),
    decreases levels.len() - i,
{
    reveal(inserted);
    let ch = old.children@;
    let nch = new.children@;
    let key = levels[i];
    let j = key_pos(ch, key);
    let f = key_found(ch, key);
    lemma_pos(ch, key, 0);
    lemma_children_wf(old, 0);
    lemma_children_wf(new, 0);
    if !f && j < ch.len() {
        lemma_chars_lt_total(ch[j].0@, key);
    }
    // the new key sits strictly between its neighbours
    assert forall|k: int| 0 <= k < nch.len() && k != j implies (k < j ==> chars_lt(#[trigger] nch[k].0@, key)) && (k > j
        ==> chars_lt(key, nch[k].0@)) by {
        if k < j {
            assert(nch[k] == ch[k]);
        } else {
            let ok = if f { k } else { k - 1 };
            assert(nch[k] == ch[ok]);
            if f {
                assert(ch[j].0@ == key);
                assert(chars_lt(ch[j].0@, ch[k].0@));
            } else if ok > j {
                assert(chars_lt(ch[j].0@, ch[ok].0@));
                lemma_chars_lt_transitive(key, ch[j].0@, ch[ok].0@);
            }
        }
    }
    assert forall|a: int, b: int| 0 <= a < b < nch.len() implies chars_lt(#[trigger] nch[a].0@, #[trigger] nch[b].0@) by {
        if a == j {
        } else if b == j {
        } else {
            let oa = if a < j || f { a } else { a - 1 };
            let ob = if b < j || f { b } else { b - 1 };
            assert(nch[a] == ch[oa]);
            assert(nch[b] == ch[ob]);
            if a < j && b > j {
                lemma_chars_lt_transitive(nch[a].0@, key, nch[b].0@);
            }
        }
    }
    assert forall|k: int| 0 <= k < nch.len() implies #[trigger] child_ok(new, k) by {
        if k != j {
            let ok = if k < j || f { k } else { k - 1 };
            assert(nch[k] == ch[ok]);
            assert(child_ok(old, ok));
        } else if i < levels.len() - 1 {
            if f {
                assert(child_ok(old, j));
                if let RssNode::Branch(ob) = ch[j].1 {
                    if let RssNode::Branch(nb) = nch[j].1 {
                        lemma_inserted_wf(*ob, *nb, levels, i + 1, src);
                    }
                }
            } else {
                if let RssNode::Branch(nb) = nch[j].1 {
                    lemma_fresh_wf(*nb, levels, i + 1, src);
                }
            }
        }
    }
}

} // verus!
