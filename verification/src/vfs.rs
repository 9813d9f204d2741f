//! An in-memory hierarchical file system and the path arithmetic around it.
use vstd::prelude::*;
use crate::text::{chars_of, chars_eq, str_eq_chars, string_from_chars, string_from_utf8};
use vstd::string::StringSliceAdditionalSpecFns;

verus! {

/// A node of the file tree: a file with its bytes, or a directory with its
/// children in insertion order.
pub enum VfsNode {
    File { name: String, content: Vec<u8> },
    Directory { name: String, children: Vec<VfsNode> },
}

/// The mathematical value of a node: names as character sequences,
/// contents as byte sequences, children as a sequence of values.
pub enum NodeView {
    File { name: Seq<char>, content: Seq<u8> },
    Dir { name: Seq<char>, children: Seq<NodeView> },
}

/// The value of a node.
pub open spec fn node_view(n: VfsNode) -> NodeView
    decreases n,
{
    match n {
        VfsNode::File { name, content } => NodeView::File { name: name@, content: content@ },
        VfsNode::Directory { name, children } => NodeView::Dir {
            name: name@,
            children: nodes_view(children@),
        },
    }
}

/// The values of a sequence of nodes.
pub open spec fn nodes_view(s: Seq<VfsNode>) -> Seq<NodeView>
    decreases s,
{
    if s.len() == 0 {
        Seq::empty()
    } else {
        nodes_view(s.drop_last()).push(node_view(s.last()))
    }
}

/// The values of a sequence of nodes, element by element.
pub proof fn lemma_nodes_view(s: Seq<VfsNode>)
    ensures
        nodes_view(s).len() == s.len(),
        forall|i: int| 0 <= i < s.len() ==> #[trigger] nodes_view(s)[i] == node_view(s[i]),
    decreases s.len(),
{
    if s.len() > 0 {
        lemma_nodes_view(s.drop_last());
    }
}

/// The name of a node value.
pub open spec fn view_name(t: NodeView) -> Seq<char> {
    match t {
        NodeView::File { name, .. } => name,
        NodeView::Dir { name, .. } => name,
    }
}

/// Index of the first child called `name`, or -1 when there is none.
pub open spec fn find_child(cs: Seq<NodeView>, name: Seq<char>) -> int
    decreases cs.len(),
{
    if cs.len() == 0 {
        -1
    } else {
        let r = find_child(cs.drop_last(), name);
        if r >= 0 {
            r
        } else if view_name(cs.last()) == name {
            cs.len() - 1
        } else {
            -1
        }
    }
}

/// `find_child` finds the first child of that name, or reports that none has it.
pub proof fn lemma_find_child(cs: Seq<NodeView>, name: Seq<char>)
    ensures
        -1 <= find_child(cs, name) < cs.len(),
        find_child(cs, name) >= 0 ==> view_name(cs[find_child(cs, name)]) == name,
        forall|j: int|
            0 <= j < cs.len() && (find_child(cs, name) < 0 || j < find_child(cs, name))
                ==> view_name(#[trigger] cs[j]) != name,
    decreases cs.len(),
{
    if cs.len() > 0 {
        lemma_find_child(cs.drop_last(), name);
        let fc = find_child(cs, name);
        assert forall|j: int|
            0 <= j < cs.len() && (fc < 0 || j < fc) implies view_name(#[trigger] cs[j]) != name by {
            if j < cs.len() - 1 {
                assert(cs.drop_last()[j] == cs[j]);
            }
        }
    }
}

proof fn lemma_find_child_is(cs: Seq<NodeView>, name: Seq<char>, k: int)
    requires
        -1 <= k < cs.len(),
        k >= 0 ==> view_name(cs[k]) == name,
        forall|j: int| 0 <= j < cs.len() && (k < 0 || j < k) ==> view_name(#[trigger] cs[j]) != name,
    ensures
        find_child(cs, name) == k,
{
    lemma_find_child(cs, name);
    let f = find_child(cs, name);
    if f >= 0 && k >= 0 && f < k {
        assert(view_name(cs[f]) != name);
    }
    if f >= 0 && k >= 0 && k < f {
        assert(view_name(cs[k]) != name);
    }
    if f >= 0 && k < 0 {
        assert(view_name(cs[f]) != name);
    }
    if f < 0 && k >= 0 {
        assert(view_name(cs[k]) != name);
    }
}

/// The node reached by following `ps` from `t`, one child name per step.
pub open spec fn lookup(t: NodeView, ps: Seq<Seq<char>>) -> Option<NodeView>
    decreases ps.len(),
{
    if ps.len() == 0 {
        Some(t)
    } else {
        match t {
            NodeView::File { .. } => None,
            NodeView::Dir { children, .. } => {
                let i = find_child(children, ps[0]);
                if i < 0 {
                    None
                } else {
                    lookup(children[i], ps.drop_first())
                }
            },
        }
    }
}

/// A change to the tree, applied in the directory that holds its target.
pub enum EditView {
    Write(Seq<u8>),
    Mkdir,
    Remove,
}

/// The children of a directory after the change to the entry `name`,
/// or `None` when the change is refused.
pub open spec fn edit_children(cs: Seq<NodeView>, name: Seq<char>, op: EditView) -> Option<
    Seq<NodeView>,
> {
    let i = find_child(cs, name);
    match op {
        EditView::Write(data) => if i < 0 {
            Some(cs.push(NodeView::File { name, content: data }))
        } else if cs[i] is File {
            Some(cs.update(i, NodeView::File { name, content: data }))
        } else {
            None
        },
        EditView::Mkdir => if i < 0 {
            Some(cs.push(NodeView::Dir { name, children: Seq::empty() }))
        } else {
            None
        },
        EditView::Remove => if i < 0 {
            None
        } else {
            Some(cs.remove(i))
        },
    }
}

/// The tree after applying `op` to the entry at path `ps`, or `None` when the
/// path is empty, runs through a file or a missing entry, or `op` is refused.
pub open spec fn edit(t: NodeView, ps: Seq<Seq<char>>, op: EditView) -> Option<NodeView>
    decreases ps.len(),
{
    if ps.len() == 0 {
        None
    } else {
        match t {
            NodeView::File { .. } => None,
            NodeView::Dir { name, children } => if ps.len() == 1 {
                match edit_children(children, ps[0], op) {
                    Some(c2) => Some(NodeView::Dir { name, children: c2 }),
                    None => None,
                }
            } else {
                let i = find_child(children, ps[0]);
                if i < 0 {
                    None
                } else {
                    match edit(children[i], ps.drop_first(), op) {
                        Some(c) => Some(NodeView::Dir { name, children: children.update(i, c) }),
                        None => None,
                    }
                }
            },
        }
    }
}

/// Splits `p` at `/`: the complete non-empty segments so far, and the segment
/// being read.
pub open spec fn split_fold(p: Seq<char>) -> (Seq<Seq<char>>, Seq<char>)
    decreases p.len(),
{
    if p.len() == 0 {
        (Seq::empty(), Seq::empty())
    } else {
        let (done, cur) = split_fold(p.drop_last());
        if p.last() == '/' {
            if cur.len() > 0 {
                (done.push(cur), Seq::empty())
            } else {
                (done, Seq::empty())
            }
        } else {
            (done, cur.push(p.last()))
        }
    }
}

/// The non-empty `/`-separated segments of a path, in order.
pub open spec fn path_parts(p: Seq<char>) -> Seq<Seq<char>> {
    let (done, cur) = split_fold(p);
    if cur.len() > 0 {
        done.push(cur)
    } else {
        done
    }
}

/// The characters of each path segment.
pub open spec fn parts_view(ps: Seq<Vec<char>>) -> Seq<Seq<char>> {
    ps.map_values(|v: Vec<char>| v@)
}

impl VfsNode {
    /// The node's name.
    pub open spec fn spec_name(&self) -> Seq<char> {
        view_name(node_view(*self))
    }

    /// The node's own name.
    pub fn name(&self) -> (r: &str)
        ensures
            r@ == self.spec_name(),
    {
        match self {
            VfsNode::File { name, .. } => name.as_str(),
            VfsNode::Directory { name, .. } => name.as_str(),
        }
    }
}

/// Index of the first child called `target`.
fn find_child_index(children: &Vec<VfsNode>, target: &Vec<char>) -> (r: Option<usize>)
    ensures
        r is None <==> find_child(nodes_view(children@), target@) < 0,
        r matches Some(i) ==> i == find_child(nodes_view(children@), target@) && i < children@.len(),
{
    let ghost cs = nodes_view(children@);
    proof {
        lemma_nodes_view(children@);
    }
    let mut i: usize = 0;
    while i < children.len()
        invariant
            i <= children@.len(),
            cs == nodes_view(children@),
            cs.len() == children@.len(),
            forall|k: int| 0 <= k < children@.len() ==> #[trigger] cs[k] == node_view(children@[k]),
            find_child(cs.take(i as int), target@) == -1,
        decreases children@.len() - i,
    {
        let same = str_eq_chars(children[i].name(), target.as_slice());
        assert(cs.take(i as int + 1).drop_last() =~= cs.take(i as int));
        if same {
            proof {
                assert(cs.take(i as int + 1).last() == cs[i as int]);
                assert(find_child(cs.take(i as int + 1), target@) == i);
                lemma_find_child_prefix(cs, target@, i as int + 1);
            }
            return Some(i);
        }
        i += 1;
    }
    assert(cs.take(i as int) =~= cs);
    None
}

proof fn lemma_find_child_prefix(cs: Seq<NodeView>, name: Seq<char>, n: int)
    requires
        0 <= n <= cs.len(),
        find_child(cs.take(n), name) >= 0,
    ensures
        find_child(cs, name) == find_child(cs.take(n), name),
    decreases cs.len() - n,
{
    if n < cs.len() {
        assert(cs.take(n + 1).drop_last() =~= cs.take(n));
        lemma_find_child_prefix(cs, name, n + 1);
    } else {
        assert(cs.take(n) =~= cs);
    }
}


proof fn lemma_nodes_view_is(a: Seq<VfsNode>, b: Seq<NodeView>)
    requires
        a.len() == b.len(),
        forall|i: int| 0 <= i < a.len() ==> node_view(#[trigger] a[i]) == b[i],
    ensures
        nodes_view(a) == b,
{
    lemma_nodes_view(a);
    assert(nodes_view(a) =~= b);
}

impl VfsNode {
    /// Whether the node is a file.
    pub fn is_file(&self) -> (r: bool)
        ensures
            r == (node_view(*self) is File),
    {
        match self {
            VfsNode::File { .. } => true,
            VfsNode::Directory { .. } => false,
        }
    }
}

/// The non-empty `/`-separated segments of `p`, in order.
pub fn split_path(p: &str) -> (ps: Vec<Vec<char>>)
    ensures
        parts_view(ps@) == path_parts(p@),
{
    let cs = chars_of(p);
    let mut done: Vec<Vec<char>> = Vec::new();
    let mut cur: Vec<char> = Vec::new();
    let mut i: usize = 0;
    while i < cs.len()
        invariant
            i <= cs@.len(),
            cs@ == p@,
            (parts_view(done@), cur@) == split_fold(cs@.take(i as int)),
        decreases cs@.len() - i,
    {
        let c = cs[i];
        let ghost old_done = done@;
        assert(cs@.take(i as int + 1).drop_last() =~= cs@.take(i as int));
        if c == '/' {
            if cur.len() > 0 {
                let ghost oc = cur@;
                done.push(cur);
                cur = Vec::new();
                assert(parts_view(done@) =~= parts_view(old_done).push(oc));
            }
        } else {
            cur.push(c);
        }
        i += 1;
    }
    assert(cs@.take(cs@.len() as int) =~= cs@);
    if cur.len() > 0 {
        let ghost old_done = done@;
        let ghost c = cur@;
        done.push(cur);
        assert(parts_view(done@) =~= parts_view(old_done).push(c));
    }
    done
}


/// The node at `ps[depth..]` below `node`, if every step names an existing
/// child of a directory.
fn find_node<'a>(node: &'a VfsNode, ps: &Vec<Vec<char>>, depth: usize) -> (r: Option<&'a VfsNode>)
    requires
        depth <= ps@.len(),
    ensures
        match lookup(node_view(*node), parts_view(ps@).skip(depth as int)) {
            Some(t) => r matches Some(n) && node_view(*n) == t,
            None => r is None,
        },
    decreases ps@.len() - depth,
{
    if depth == ps.len() {
        return Some(node);
    }
    let ghost rest = parts_view(ps@).skip(depth as int);
    assert(rest[0] == ps@[depth as int]@);
    assert(rest.drop_first() =~= parts_view(ps@).skip(depth as int + 1));
    match node {
        VfsNode::File { .. } => None,
        VfsNode::Directory { children, .. } => {
            proof {
                lemma_nodes_view(children@);
            }
            match find_child_index(children, &ps[depth]) {
                None => None,
                Some(i) => find_node(&children[i], ps, depth + 1),
            }
        },
    }
}

/// A change to the tree, as the operations of [`FileSystem`] request it.
pub enum EditOp<'a> {
    Write(&'a [u8]),
    Mkdir,
    Remove,
}

impl<'a> EditOp<'a> {
    /// The change, with the data to write as a byte sequence.
    pub open spec fn view(&self) -> EditView {
        match self {
            EditOp::Write(data) => EditView::Write(data@),
            EditOp::Mkdir => EditView::Mkdir,
            EditOp::Remove => EditView::Remove,
        }
    }
}

/// Applies `op` to the entry at `ps[depth..]` below `node`.
fn edit_node(node: &mut VfsNode, ps: &Vec<Vec<char>>, depth: usize, op: &EditOp) -> (ok: bool)
    requires
        depth < ps@.len(),
    ensures
        match edit(node_view(*old(node)), parts_view(ps@).skip(depth as int), op.view()) {
            Some(t) => ok && node_view(*final(node)) == t,
            None => !ok && node_view(*final(node)) == node_view(*old(node)),
        },
    decreases ps@.len() - depth,
{
    let ghost rest = parts_view(ps@).skip(depth as int);
    assert(rest[0] == ps@[depth as int]@);
    assert(rest.drop_first() =~= parts_view(ps@).skip(depth as int + 1));
    match node {
        VfsNode::File { .. } => false,
        VfsNode::Directory { name: _, children } => {
            let ghost old_children = children@;
            let ghost cs = nodes_view(children@);
            proof {
                lemma_nodes_view(children@);
            }
            let target = &ps[depth];
            let found = find_child_index(children, target);
            if depth == ps.len() - 1 {
                match op {
                    EditOp::Write(data) => match found {
                        None => {
                            let leaf = VfsNode::File {
                                name: string_from_chars(target.as_slice()),
                                content: vstd::slice::slice_to_vec(data),
                            };
                            children.push(leaf);
                            proof {
                                lemma_nodes_view_is(
                                    children@,
                                    cs.push(NodeView::File { name: target@, content: data@ }),
                                );
                            }
                            true
                        },
                        Some(i) => {
                            if children[i].is_file() {
                                let leaf = VfsNode::File {
                                    name: string_from_chars(target.as_slice()),
                                    content: vstd::slice::slice_to_vec(data),
                                };
                                children[i] = leaf;
                                proof {
                                    lemma_nodes_view_is(
                                        children@,
                                        cs.update(
                                            i as int,
                                            NodeView::File { name: target@, content: data@ },
                                        ),
                                    );
                                }
                                true
                            } else {
                                false
                            }
                        },
                    },
                    EditOp::Mkdir => match found {
                        None => {
                            let leaf = VfsNode::Directory {
                                name: string_from_chars(target.as_slice()),
                                children: Vec::new(),
                            };
                            children.push(leaf);
                            proof {
                                assert(nodes_view(Seq::<VfsNode>::empty()) =~= Seq::empty());
                                lemma_nodes_view_is(
                                    children@,
                                    cs.push(NodeView::Dir { name: target@, children: Seq::empty() }),
                                );
                            }
                            true
                        },
                        Some(_) => false,
                    },
                    EditOp::Remove => match found {
                        None => false,
                        Some(i) => {
                            children.remove(i);
                            proof {
                                lemma_nodes_view_is(children@, cs.remove(i as int));
                            }
                            true
                        },
                    },
                }
            } else {
                match found {
                    None => false,
                    Some(i) => {
                        let ok = edit_node(&mut children[i], ps, depth + 1, op);
                        proof {
                            if ok {
                                let t = edit(cs[i as int], rest.drop_first(), op.view());
                                lemma_nodes_view_is(children@, cs.update(i as int, t->0));
                            } else {
                                lemma_nodes_view_is(children@, cs);
                            }
                        }
                        ok
                    },
                }
            }
        },
    }
}


/// Contents of `config/system.conf` in a new file system.
pub const SYSTEM_CONF: &'static str = "[system]\nos_name = open_kernel\nversion = 0.1.0\narch = x86_64\n";

/// Contents of `readme.txt` in a new file system.
pub const README_TXT: &'static str = "Welcome to open_kernel OS in-memory VFS!\n";

/// Contents of `bin/init` in a new file system.
pub const BIN_INIT: &'static str = "#!/bin/sh\necho booting open_kernel...\n";

/// The tree of a new file system.
pub open spec fn default_tree() -> NodeView {
    NodeView::Dir {
        name: "/"@,
        children: seq![
            NodeView::Dir {
                name: "config"@,
                children: seq![NodeView::File { name: "system.conf"@, content: SYSTEM_CONF.spec_bytes() }],
            },
            NodeView::Dir {
                name: "bin"@,
                children: seq![NodeView::File { name: "init"@, content: BIN_INIT.spec_bytes() }],
            },
            NodeView::Dir { name: "home"@, children: Seq::empty() },
            NodeView::File { name: "readme.txt"@, content: README_TXT.spec_bytes() },
        ],
    }
}

/// The entries of a directory listing: each child's name and whether it is
/// a directory.
pub open spec fn listing(children: Seq<NodeView>) -> Seq<(Seq<char>, bool)> {
    children.map_values(|c: NodeView| (view_name(c), c is Dir))
}

/// The characters of each listed name, with its directory flag.
pub open spec fn listing_view(v: Seq<(String, bool)>) -> Seq<(Seq<char>, bool)> {
    v.map_values(|e: (String, bool)| (e.0@, e.1))
}

/// An in-memory file system: one tree whose root is the directory `/`.
pub struct FileSystem {
    root: VfsNode,
}

impl View for FileSystem {
    type V = NodeView;

    closed spec fn view(&self) -> NodeView {
        node_view(self.root)
    }
}

impl FileSystem {
    /// A file system whose root is a directory (what every operation keeps).
    pub open spec fn wf(&self) -> bool {
        self@ is Dir
    }

    /// The file system every boot starts from: `config/system.conf`,
    /// `bin/init`, an empty `home` and `readme.txt`.
    pub fn new() -> (fs: Self)
        ensures
            fs.wf(),
            fs@ == default_tree(),
    {
        let mut fs = FileSystem {
            root: VfsNode::Directory { name: string_from_chars(chars_of("/").as_slice()), children: Vec::new() },
        };
        proof {
            assert(nodes_view(Seq::<VfsNode>::empty()) =~= Seq::empty());
        }
        fs.init_default_structure();
        fs
    }

    fn init_default_structure(&mut self)
        requires
            old(self)@ == (NodeView::Dir { name: "/"@, children: Seq::empty() }),
        ensures
            final(self)@ == default_tree(),
    {
        proof {
            reveal_strlit("config");
            reveal_strlit("bin");
            reveal_strlit("home");
            reveal_strlit("system.conf");
            reveal_strlit("readme.txt");
            reveal_strlit("init");
        }
        let config = chars_of("config");
        let bin = chars_of("bin");
        let home = chars_of("home");
        let sys = chars_of("system.conf");
        let readme = chars_of("readme.txt");
        let init = chars_of("init");
        let ghost empty = Seq::<NodeView>::empty();
        let ghost d_config = NodeView::Dir { name: "config"@, children: empty };
        let ghost d_bin = NodeView::Dir { name: "bin"@, children: empty };
        let ghost d_home = NodeView::Dir { name: "home"@, children: empty };
        let ghost f_sys = NodeView::File { name: "system.conf"@, content: SYSTEM_CONF.spec_bytes() };
        let ghost f_readme = NodeView::File { name: "readme.txt"@, content: README_TXT.spec_bytes() };
        let ghost f_init = NodeView::File { name: "init"@, content: BIN_INIT.spec_bytes() };

        let p1 = vec![config.clone()];
        assert(parts_view(p1@) =~= seq!["config"@]);
        self.edit_at(&p1, &EditOp::Mkdir);
        assert(self@ == (NodeView::Dir { name: "/"@, children: seq![d_config] }));

        let p2 = vec![bin.clone()];
        assert(parts_view(p2@) =~= seq!["bin"@]);
        assert("config"@.len() != "bin"@.len());
        assert("config"@.len() != "home"@.len());
        assert("bin"@.len() != "home"@.len());
        assert("config"@.len() != "readme.txt"@.len());
        assert("bin"@.len() != "readme.txt"@.len());
        assert("home"@.len() != "readme.txt"@.len());
        proof {
            lemma_find_child_is(seq![d_config], "bin"@, -1);
        }
        self.edit_at(&p2, &EditOp::Mkdir);
        assert(seq![d_config].push(d_bin) =~= seq![d_config, d_bin]);
        assert(self@ == (NodeView::Dir { name: "/"@, children: seq![d_config, d_bin] }));

        let p3 = vec![home];
        assert(parts_view(p3@) =~= seq!["home"@]);
        proof {
            lemma_find_child_is(seq![d_config, d_bin], "home"@, -1);
        }
        self.edit_at(&p3, &EditOp::Mkdir);
        let ghost top3 = seq![d_config, d_bin, d_home];
        assert(seq![d_config, d_bin].push(d_home) =~= top3);
        assert(self@ == (NodeView::Dir { name: "/"@, children: top3 }));

        let p4 = vec![config, sys];
        assert(parts_view(p4@) =~= seq!["config"@, "system.conf"@]);
        proof {
            lemma_find_child_is(top3, "config"@, 0);
            lemma_find_child_is(empty, "system.conf"@, -1);
        }
        assert(parts_view(p4@).drop_first() =~= seq!["system.conf"@]);
        self.edit_at(&p4, &EditOp::Write(SYSTEM_CONF.as_bytes()));
        let ghost d_config2 = NodeView::Dir { name: "config"@, children: seq![f_sys] };
        let ghost top3b = seq![d_config2, d_bin, d_home];
        assert(empty.push(f_sys) =~= seq![f_sys]);
        assert(edit(d_config, seq!["system.conf"@], EditView::Write(SYSTEM_CONF.spec_bytes()))
            == Some(d_config2));
        assert(top3.update(0, d_config2) =~= top3b);
        assert(self@ == (NodeView::Dir { name: "/"@, children: top3b }));

        let p5 = vec![readme];
        assert(parts_view(p5@) =~= seq!["readme.txt"@]);
        proof {
            lemma_find_child_is(top3b, "readme.txt"@, -1);
        }
        self.edit_at(&p5, &EditOp::Write(README_TXT.as_bytes()));
        let ghost top4 = seq![d_config2, d_bin, d_home, f_readme];
        assert(top3b.push(f_readme) =~= top4);
        assert(self@ == (NodeView::Dir { name: "/"@, children: top4 }));

        let p6 = vec![bin, init];
        assert(parts_view(p6@) =~= seq!["bin"@, "init"@]);
        proof {
            lemma_find_child_is(top4, "bin"@, 1);
            lemma_find_child_is(empty, "init"@, -1);
        }
        assert(parts_view(p6@).drop_first() =~= seq!["init"@]);
        self.edit_at(&p6, &EditOp::Write(BIN_INIT.as_bytes()));
        let ghost d_bin2 = NodeView::Dir { name: "bin"@, children: seq![f_init] };
        assert(empty.push(f_init) =~= seq![f_init]);
        assert(edit(d_bin, seq!["init"@], EditView::Write(BIN_INIT.spec_bytes())) == Some(d_bin2));
        assert(top4.update(1, d_bin2) =~= seq![d_config2, d_bin2, d_home, f_readme]);
        assert(self@ =~= default_tree());
    }

    /// The entries of the directory at `path`: each child's name and whether
    /// it is a directory, in order; `None` when `path` names no directory.
    pub fn list_directory(&mut self, path: &str) -> (r: Option<Vec<(String, bool)>>)
        ensures
            *final(self) == *old(self),
            match lookup(old(self)@, path_parts(path@)) {
                Some(NodeView::Dir { children, .. }) => r matches Some(v) && listing_view(v@)
                    == listing(children),
                _ => r is None,
            },
    {
        let ps = split_path(path);
        assert(parts_view(ps@).skip(0) =~= parts_view(ps@));
        match find_node(&self.root, &ps, 0) {
            Some(VfsNode::Directory { children, .. }) => {
                let ghost cs = nodes_view(children@);
                proof {
                    lemma_nodes_view(children@);
                }
                let mut res: Vec<(String, bool)> = Vec::new();
                let mut i: usize = 0;
                while i < children.len()
                    invariant
                        i <= children@.len(),
                        cs.len() == children@.len(),
                        forall|k: int| 0 <= k < children@.len() ==> #[trigger] cs[k] == node_view(children@[k]),
                        listing_view(res@) =~= listing(cs.take(i as int)),
                    decreases children@.len() - i,
                {
                    let child = &children[i];
                    let entry = (child.name().to_owned(), !child.is_file());
                    let ghost old_res = res@;
                    let ghost e = (entry.0@, entry.1);
                    res.push(entry);
                    assert(listing_view(res@) =~= listing_view(old_res).push(e));
                    assert(cs.take(i as int + 1) =~= cs.take(i as int).push(cs[i as int]));
                    assert(listing(cs.take(i as int + 1)) =~= listing(cs.take(i as int)).push(
                        (view_name(cs[i as int]), cs[i as int] is Dir),
                    ));
                    i += 1;
                }
                assert(cs.take(cs.len() as int) =~= cs);
                Some(res)
            },
            _ => None,
        }
    }

    /// The contents of the file at `path`; `None` when `path` names no file.
    pub fn read_file(&mut self, path: &str) -> (r: Option<Vec<u8>>)
        ensures
            *final(self) == *old(self),
            match lookup(old(self)@, path_parts(path@)) {
                Some(NodeView::File { content, .. }) => r matches Some(v) && v@ == content,
                _ => r is None,
            },
    {
        let ps = split_path(path);
        assert(parts_view(ps@).skip(0) =~= parts_view(ps@));
        match find_node(&self.root, &ps, 0) {
            Some(VfsNode::File { content, .. }) => Some(content.clone()),
            _ => None,
        }
    }

    /// Creates the file at `path` with `data`, or replaces the contents of the
    /// file already there. Refused (and nothing changes) when the path is empty,
    /// its parent is not an existing directory, or a directory of that name
    /// is already there.
    pub fn write_file(&mut self, path: &str, data: &[u8]) -> (ok: bool)
        ensures
            match edit(old(self)@, path_parts(path@), EditView::Write(data@)) {
                Some(t) => ok && final(self)@ == t,
                None => !ok && final(self)@ == old(self)@,
            },
            old(self).wf() ==> final(self).wf(),
    {
        let ps = split_path(path);
        self.edit_at(&ps, &EditOp::Write(data))
    }

    /// Creates an empty directory at `path`. Refused (and nothing changes)
    /// when the path is empty, its parent is not an existing directory, or an
    /// entry of that name is already there.
    pub fn mkdir(&mut self, path: &str) -> (ok: bool)
        ensures
            match edit(old(self)@, path_parts(path@), EditView::Mkdir) {
                Some(t) => ok && final(self)@ == t,
                None => !ok && final(self)@ == old(self)@,
            },
            old(self).wf() ==> final(self).wf(),
    {
        let ps = split_path(path);
        self.edit_at(&ps, &EditOp::Mkdir)
    }

    /// Removes the entry at `path`, with everything below it. Refused (and
    /// nothing changes) when the path is empty or names nothing.
    pub fn remove(&mut self, path: &str) -> (ok: bool)
        ensures
            match edit(old(self)@, path_parts(path@), EditView::Remove) {
                Some(t) => ok && final(self)@ == t,
                None => !ok && final(self)@ == old(self)@,
            },
            old(self).wf() ==> final(self).wf(),
    {
        let ps = split_path(path);
        self.edit_at(&ps, &EditOp::Remove)
    }

    /// Applies `op` to the entry named by the segments `ps`.
    fn edit_at(&mut self, ps: &Vec<Vec<char>>, op: &EditOp) -> (ok: bool)
        ensures
            match edit(old(self)@, parts_view(ps@), op.view()) {
                Some(t) => ok && final(self)@ == t,
                None => !ok && final(self)@ == old(self)@,
            },
            ok ==> final(self).wf(),
    {
        if ps.len() == 0 {
            return false;
        }
        assert(parts_view(ps@).skip(0) =~= parts_view(ps@));
        edit_node(&mut self.root, ps, 0, op)
    }
}


/// One `/`-separated segment applied to the stack of directory names:
/// empty segments and `.` change nothing, `..` drops the last name (if any),
/// any other segment is pushed.
pub open spec fn step_segment(stack: Seq<Seq<char>>, seg: Seq<char>) -> Seq<Seq<char>> {
    if seg.len() == 0 || seg == seq!['.'] {
        stack
    } else if seg == seq!['.', '.'] {
        if stack.len() > 0 {
            stack.drop_last()
        } else {
            stack
        }
    } else {
        stack.push(seg)
    }
}

/// The stack after the complete segments of `p`, and the segment being read.
pub open spec fn resolve_fold(p: Seq<char>) -> (Seq<Seq<char>>, Seq<char>)
    decreases p.len(),
{
    if p.len() == 0 {
        (Seq::empty(), Seq::empty())
    } else {
        let (stack, cur) = resolve_fold(p.drop_last());
        if p.last() == '/' {
            (step_segment(stack, cur), Seq::empty())
        } else {
            (stack, cur.push(p.last()))
        }
    }
}

/// The directory names that the path `p` comes to, from the root.
pub open spec fn resolved_segments(p: Seq<char>) -> Seq<Seq<char>> {
    let (stack, cur) = resolve_fold(p);
    step_segment(stack, cur)
}

/// `/a/b/c` for the names `a`, `b`, `c` (the empty sequence for none).
pub open spec fn join_absolute(ps: Seq<Seq<char>>) -> Seq<char>
    decreases ps.len(),
{
    if ps.len() == 0 {
        Seq::empty()
    } else {
        join_absolute(ps.drop_last()) + seq!['/'] + ps.last()
    }
}

/// The absolute, normalised form of `input`, read relative to `cwd` unless
/// it starts with `/`.
pub open spec fn resolve(input: Seq<char>, cwd: Seq<char>) -> Seq<char> {
    let base = if input.len() > 0 && input[0] == '/' {
        seq!['/']
    } else {
        cwd
    };
    let segs = resolved_segments(base + seq!['/'] + input);
    if segs.len() == 0 {
        seq!['/']
    } else {
        join_absolute(segs)
    }
}

fn step_segment_exec(stack: &mut Vec<Vec<char>>, seg: Vec<char>)
    ensures
        parts_view(final(stack)@) == step_segment(parts_view(old(stack)@), seg@),
{
    let ghost old_stack = stack@;
    let n = seg.len();
    if n == 0 || (n == 1 && seg[0] == '.') {
        assert(n == 1 ==> seg@ =~= seq!['.']);
    } else if n == 2 && seg[0] == '.' && seg[1] == '.' {
        assert(seg@ =~= seq!['.', '.']);
        if stack.len() > 0 {
            stack.pop();
            assert(parts_view(stack@) =~= parts_view(old_stack).drop_last());
        }
    } else {
        assert(seg@ != seq!['.'] && seg@ != seq!['.', '.']) by {
            if seg@ == seq!['.'] {
                assert(seg@.len() == 1);
            }
            if seg@ == seq!['.', '.'] {
                assert(seg@.len() == 2);
                assert(seg@[0] == '.' && seg@[1] == '.');
            }
        }
        let ghost sv = seg@;
        stack.push(seg);
        assert(parts_view(stack@) =~= parts_view(old_stack).push(sv));
    }
}

/// The absolute, normalised form of `input_path`, read relative to the
/// current directory `cwd` unless it starts with `/`: empty segments and `.`
/// are dropped and `..` goes up one level (never above the root).
pub fn resolve_path(input_path: &str, cwd: &str) -> (r: String)
    ensures
        r@ == resolve(input_path@, cwd@),
{
    let input = chars_of(input_path);
    let mut all: Vec<char> = if input.len() > 0 && input[0] == '/' {
        vec!['/']
    } else {
        chars_of(cwd)
    };
    all.push('/');
    let mut k: usize = 0;
    let ghost base = all@;
    while k < input.len()
        invariant
            k <= input@.len(),
            all@ == base + input@.take(k as int),
        decreases input@.len() - k,
    {
        all.push(input[k]);
        assert(input@.take(k as int + 1) =~= input@.take(k as int).push(input@[k as int]));
        k += 1;
    }
    assert(input@.take(input@.len() as int) =~= input@);
    assert(all@ =~= (if input_path@.len() > 0 && input_path@[0] == '/' {
        seq!['/']
    } else {
        cwd@
    }) + seq!['/'] + input_path@);
    let mut stack: Vec<Vec<char>> = Vec::new();
    let mut cur: Vec<char> = Vec::new();
    let mut i: usize = 0;
    while i < all.len()
        invariant
            i <= all@.len(),
            (parts_view(stack@), cur@) == resolve_fold(all@.take(i as int)),
        decreases all@.len() - i,
    {
        let c = all[i];
        assert(all@.take(i as int + 1).drop_last() =~= all@.take(i as int));
        if c == '/' {
            let seg = cur;
            cur = Vec::new();
            step_segment_exec(&mut stack, seg);
        } else {
            cur.push(c);
        }
        i += 1;
    }
    assert(all@.take(all@.len() as int) =~= all@);
    step_segment_exec(&mut stack, cur);
    let mut res = String::new();
    if stack.len() == 0 {
        crate::text::string_push(&mut res, '/');
        assert(res@ =~= seq!['/']);
        return res;
    }
    let mut j: usize = 0;
    while j < stack.len()
        invariant
            j <= stack@.len(),
            res@ == join_absolute(parts_view(stack@).take(j as int)),
        decreases stack@.len() - j,
    {
        let ghost before = res@;
        crate::text::string_push(&mut res, '/');
        let part = &stack[j];
        let mut q: usize = 0;
        while q < part.len()
            invariant
                q <= part@.len(),
                res@ == before + seq!['/'] + part@.take(q as int),
            decreases part@.len() - q,
        {
            crate::text::string_push(&mut res, part[q]);
            assert(part@.take(q as int + 1) =~= part@.take(q as int).push(part@[q as int]));
            q += 1;
        }
        assert(part@.take(part@.len() as int) =~= part@);
        assert(parts_view(stack@).take(j as int + 1).drop_last() =~= parts_view(stack@).take(j as int));
        assert(res@ =~= join_absolute(parts_view(stack@).take(j as int + 1)));
        j += 1;
    }
    assert(parts_view(stack@).take(stack@.len() as int) =~= parts_view(stack@));
    res
}

/// A copy of the current directory's path.
pub fn get_current_directory(cwd: &String) -> (r: String)
    ensures
        r@ == cwd@,
{
    cwd.clone()
}

/// Makes `path` (resolved against `cwd`) the current directory when it names
/// a directory; tells whether it did.
pub fn change_directory(fs: &FileSystem, cwd: &mut String, path: &str) -> (ok: bool)
    ensures
        ok == (resolve(path@, old(cwd)@) == seq!['/'] || lookup(
            fs@,
            path_parts(resolve(path@, old(cwd)@)),
        ) matches Some(NodeView::Dir { .. })),
        ok ==> final(cwd)@ == resolve(path@, old(cwd)@),
        !ok ==> final(cwd)@ == old(cwd)@,
{
    let resolved = resolve_path(path, cwd.as_str());
    let rc = chars_of(resolved.as_str());
    if rc.len() == 1 && rc[0] == '/' {
        assert(rc@ =~= seq!['/']);
        *cwd = resolved;
        return true;
    }
    assert(resolved@ != seq!['/']) by {
        if resolved@ == seq!['/'] {
            assert(rc@.len() == 1 && rc@[0] == '/');
        }
    }
    let ps = split_path(resolved.as_str());
    assert(parts_view(ps@).skip(0) =~= parts_view(ps@));
    let is_dir = match find_node(&fs.root, &ps, 0) {
        Some(VfsNode::Directory { .. }) => true,
        _ => false,
    };
    if is_dir {
        *cwd = resolved;
    }
    is_dir
}

/// What `ls path` lists: the directory it names (the current directory for
/// an empty `path`, otherwise `path` resolved against `cwd`) and that
/// directory's entries; `None` when it names no directory.
pub fn list_directory(fs: &mut FileSystem, cwd: &str, path: &str) -> (r: (
    String,
    Option<Vec<(String, bool)>>,
))
    ensures
        *final(fs) == *old(fs),
        r.0@ == (if path@.len() == 0 {
            cwd@
        } else {
            resolve(path@, cwd@)
        }),
        match lookup(old(fs)@, path_parts(r.0@)) {
            Some(NodeView::Dir { children, .. }) => r.1 matches Some(v) && listing_view(v@)
                == listing(children),
            _ => r.1 is None,
        },
{
    let target = if chars_of(path).len() == 0 {
        string_from_chars(chars_of(cwd).as_slice())
    } else {
        resolve_path(path, cwd)
    };
    let entries = fs.list_directory(target.as_str());
    (target, entries)
}

/// The contents of the file at `path` (resolved against `cwd`) as text;
/// `None` when there is no such file or its bytes are not UTF-8.
pub fn read_file_string(fs: &mut FileSystem, cwd: &str, path: &str) -> (r: Option<String>)
    ensures
        *final(fs) == *old(fs),
        match lookup(old(fs)@, path_parts(resolve(path@, cwd@))) {
            Some(NodeView::File { content, .. }) => if vstd::utf8::valid_utf8(content) {
                r matches Some(s) && s@ == vstd::utf8::decode_utf8(content)
            } else {
                r is None
            },
            _ => r is None,
        },
{
    let resolved = resolve_path(path, cwd);
    match fs.read_file(resolved.as_str()) {
        Some(bytes) => string_from_utf8(bytes),
        None => None,
    }
}

/// Writes the UTF-8 bytes of `content` to the file at `path` (resolved
/// against `cwd`), as [`FileSystem::write_file`] does.
pub fn write_file_string(fs: &mut FileSystem, cwd: &str, path: &str, content: &str) -> (ok: bool)
    ensures
        match edit(
            old(fs)@,
            path_parts(resolve(path@, cwd@)),
            EditView::Write(content.spec_bytes()),
        ) {
            Some(t) => ok && final(fs)@ == t,
            None => !ok && final(fs)@ == old(fs)@,
        },
        old(fs).wf() ==> final(fs).wf(),
{
    let resolved = resolve_path(path, cwd);
    fs.write_file(resolved.as_str(), content.as_bytes())
}

/// Creates the directory at `path` (resolved against `cwd`), as
/// [`FileSystem::mkdir`] does.
pub fn create_dir(fs: &mut FileSystem, cwd: &str, path: &str) -> (ok: bool)
    ensures
        match edit(old(fs)@, path_parts(resolve(path@, cwd@)), EditView::Mkdir) {
            Some(t) => ok && final(fs)@ == t,
            None => !ok && final(fs)@ == old(fs)@,
        },
        old(fs).wf() ==> final(fs).wf(),
{
    let resolved = resolve_path(path, cwd);
    fs.mkdir(resolved.as_str())
}

/// Removes the entry at `path` (resolved against `cwd`), as
/// [`FileSystem::remove`] does.
pub fn remove_node(fs: &mut FileSystem, cwd: &str, path: &str) -> (ok: bool)
    ensures
        match edit(old(fs)@, path_parts(resolve(path@, cwd@)), EditView::Remove) {
            Some(t) => ok && final(fs)@ == t,
            None => !ok && final(fs)@ == old(fs)@,
        },
        old(fs).wf() ==> final(fs).wf(),
{
    let resolved = resolve_path(path, cwd);
    fs.remove(resolved.as_str())
}


proof fn lemma_edit_keeps_name(t: NodeView, ps: Seq<Seq<char>>, op: EditView)
    requires
        edit(t, ps, op) is Some,
    ensures
        view_name(edit(t, ps, op)->0) == view_name(t),
        edit(t, ps, op)->0 is Dir,
{
}

/// The entry that a successful edit leaves at its path, whatever stood there
/// before: the written file, the new empty directory (removal: see
/// [`lemma_remove_then_lookup`]).
pub open spec fn edit_result_at(name: Seq<char>, op: EditView) -> Option<NodeView> {
    match op {
        EditView::Write(data) => Some(NodeView::File { name, content: data }),
        EditView::Mkdir => Some(NodeView::Dir { name, children: Seq::empty() }),
        EditView::Remove => None,
    }
}

/// Reading back what was just written: after a successful write of `data`
/// (or `mkdir`) at a path, looking that path up gives the file holding
/// exactly `data` (or an empty directory).
pub proof fn lemma_edit_then_lookup(t: NodeView, ps: Seq<Seq<char>>, op: EditView)
    requires
        edit(t, ps, op) is Some,
        !(op is Remove),
    ensures
        lookup(edit(t, ps, op)->0, ps) == edit_result_at(ps.last(), op),
    decreases ps.len(),
{
    let t2 = edit(t, ps, op)->0;
    match t {
        NodeView::Dir { name, children } => {
            let i = find_child(children, ps[0]);
            lemma_find_child(children, ps[0]);
            if ps.len() == 1 {
                let c2 = edit_children(children, ps[0], op)->0;
                let k = if i < 0 { children.len() as int } else { i };
                assert(forall|j: int| 0 <= j < children.len() && j != k ==> #[trigger] c2[j] == children[j]);
                lemma_find_child_is(c2, ps[0], k);
                assert(ps.drop_first().len() == 0);
                assert(Some(c2[k]) == edit_result_at(ps.last(), op));
                assert(t2 == NodeView::Dir { name, children: c2 });
                assert(lookup(t2, ps) == lookup(c2[k], ps.drop_first()));
            } else {
                let c = edit(children[i], ps.drop_first(), op)->0;
                lemma_edit_keeps_name(children[i], ps.drop_first(), op);
                let c2 = children.update(i, c);
                assert(forall|j: int| 0 <= j < children.len() && j != i ==> #[trigger] c2[j] == children[j]);
                lemma_find_child_is(c2, ps[0], i);
                lemma_edit_then_lookup(children[i], ps.drop_first(), op);
                assert(lookup(t2, ps) == lookup(c2[i], ps.drop_first()));
                assert(ps.drop_first().last() == ps.last());
            }
        },
        NodeView::File { .. } => {},
    }
}


proof fn lemma_find_child_same_names(cs: Seq<NodeView>, c2: Seq<NodeView>, m: Seq<char>)
    requires
        c2.len() == cs.len(),
        forall|l: int| 0 <= l < cs.len() ==> view_name(#[trigger] c2[l]) == view_name(cs[l]),
    ensures
        find_child(c2, m) == find_child(cs, m),
{
    lemma_find_child(cs, m);
    let j = find_child(cs, m);
    assert forall|l: int| 0 <= l < c2.len() && (j < 0 || l < j) implies view_name(#[trigger] c2[l]) != m by {
        assert(view_name(c2[l]) == view_name(cs[l]));
    }
    lemma_find_child_is(c2, m, j);
}

/// Whether the paths `ps` and `qs` part ways: at some depth both have a
/// segment, and the two differ.
pub open spec fn paths_diverge(ps: Seq<Seq<char>>, qs: Seq<Seq<char>>) -> bool {
    exists|k: int| 0 <= k < ps.len() && k < qs.len() && ps[k] != qs[k]
}

/// Other entries are left alone: after an edit (write, `mkdir` or removal)
/// at `ps`, every path that parts ways with `ps` leads where it led before.
pub proof fn lemma_edit_keeps_other_paths(t: NodeView, ps: Seq<Seq<char>>, op: EditView, qs: Seq<Seq<char>>)
    requires
        edit(t, ps, op) is Some,
        paths_diverge(ps, qs),
    ensures
        lookup(edit(t, ps, op)->0, qs) == lookup(t, qs),
    decreases ps.len(),
{
    let k = choose|k: int| 0 <= k < ps.len() && k < qs.len() && ps[k] != qs[k];
    let t2 = edit(t, ps, op)->0;
    match t {
        NodeView::Dir { name, children } => {
            let i = find_child(children, ps[0]);
            lemma_find_child(children, ps[0]);
            let m = qs[0];
            let j = find_child(children, m);
            lemma_find_child(children, m);
            if ps[0] != m {
                if ps.len() == 1 {
                    let c2 = edit_children(children, ps[0], op)->0;
                    assert(t2 == NodeView::Dir { name, children: c2 });
                    if i < 0 {
                        // A new entry named `ps[0]` was appended.
                        assert forall|l: int| 0 <= l < c2.len() && (j < 0 || l < j) implies view_name(
                            #[trigger] c2[l],
                        ) != m by {
                            if l < children.len() {
                                assert(c2[l] == children[l]);
                            }
                        }
                        lemma_find_child_is(c2, m, j);
                        if j >= 0 {
                            assert(c2[j] == children[j]);
                        }
                    } else if op is Remove {
                        let c3 = children.remove(i);
                        assert(c2 == c3);
                        if j < 0 || j < i {
                            assert forall|l: int| 0 <= l < c2.len() && (j < 0 || l < j) implies view_name(
                                #[trigger] c2[l],
                            ) != m by {
                                if l < i {
                                    assert(c2[l] == children[l]);
                                } else {
                                    assert(c2[l] == children[l + 1]);
                                }
                            }
                            lemma_find_child_is(c2, m, j);
                            if j >= 0 {
                                assert(c2[j] == children[j]);
                            }
                        } else {
                            assert(j != i);
                            assert forall|l: int| 0 <= l < c2.len() && l < j - 1 implies view_name(
                                #[trigger] c2[l],
                            ) != m by {
                                if l < i {
                                    assert(c2[l] == children[l]);
                                } else {
                                    assert(c2[l] == children[l + 1]);
                                }
                            }
                            assert(c2[j - 1] == children[j]);
                            lemma_find_child_is(c2, m, j - 1);
                        }
                    } else {
                        // The file named `ps[0]` was rewritten in place.
                        assert forall|l: int| 0 <= l < children.len() implies view_name(
                            #[trigger] c2[l],
                        ) == view_name(children[l]) by {
                            if l != i {
                                assert(c2[l] == children[l]);
                            }
                        }
                        lemma_find_child_same_names(children, c2, m);
                        if j >= 0 {
                            assert(j != i);
                            assert(c2[j] == children[j]);
                        }
                    }
                } else {
                    let c = edit(children[i], ps.drop_first(), op)->0;
                    lemma_edit_keeps_name(children[i], ps.drop_first(), op);
                    let c2 = children.update(i, c);
                    assert(t2 == NodeView::Dir { name, children: c2 });
                    assert forall|l: int| 0 <= l < children.len() implies view_name(#[trigger] c2[l])
                        == view_name(children[l]) by {
                        if l != i {
                            assert(c2[l] == children[l]);
                        }
                    }
                    lemma_find_child_same_names(children, c2, m);
                    if j >= 0 {
                        assert(j != i);
                        assert(c2[j] == children[j]);
                    }
                }
            } else {
                assert(k >= 1);
                let c = edit(children[i], ps.drop_first(), op)->0;
                lemma_edit_keeps_name(children[i], ps.drop_first(), op);
                let c2 = children.update(i, c);
                assert(t2 == NodeView::Dir { name, children: c2 });
                assert forall|l: int| 0 <= l < children.len() implies view_name(#[trigger] c2[l])
                    == view_name(children[l]) by {
                    if l != i {
                        assert(c2[l] == children[l]);
                    }
                }
                lemma_find_child_same_names(children, c2, m);
                assert(ps.drop_first()[k - 1] == ps[k]);
                assert(qs.drop_first()[k - 1] == qs[k]);
                lemma_edit_keeps_other_paths(children[i], ps.drop_first(), op, qs.drop_first());
            }
        },
        NodeView::File { .. } => {},
    }
}

/// When an edit succeeds: the path is not empty and its parent is a
/// directory; a write also needs that no directory stands at the path, a
/// `mkdir` that nothing does, a removal that something does.
pub proof fn lemma_edit_succeeds_iff(t: NodeView, ps: Seq<Seq<char>>, op: EditView)
    ensures
        edit(t, ps, op) is Some <==> {
            &&& ps.len() > 0
            &&& lookup(t, ps.drop_last()) matches Some(NodeView::Dir { .. })
            &&& match op {
                EditView::Write(_) => !(lookup(t, ps) matches Some(NodeView::Dir { .. })),
                EditView::Mkdir => lookup(t, ps) is None,
                EditView::Remove => lookup(t, ps) is Some,
            }
        },
    decreases ps.len(),
{
    if ps.len() > 0 {
        match t {
            NodeView::Dir { name, children } => {
                let i = find_child(children, ps[0]);
                lemma_find_child(children, ps[0]);
                if ps.len() == 1 {
                    assert(ps.drop_last().len() == 0);
                    assert(ps.drop_first().len() == 0);
                } else {
                    assert(ps.drop_last()[0] == ps[0]);
                    assert(ps.drop_last().drop_first() =~= ps.drop_first().drop_last());
                    if i >= 0 {
                        lemma_edit_succeeds_iff(children[i], ps.drop_first(), op);
                    }
                }
            },
            NodeView::File { .. } => {
                if ps.len() > 1 {
                    assert(ps.drop_last().len() > 0);
                }
            },
        }
    }
}

/// Removing what was just created undoes the creation: after a `mkdir` or
/// a write at a path where nothing stood, removing that path gives back
/// the tree as it was.
pub proof fn lemma_remove_undoes_create(t: NodeView, ps: Seq<Seq<char>>, op: EditView)
    requires
        !(op is Remove),
        lookup(t, ps) is None,
        edit(t, ps, op) is Some,
    ensures
        edit(edit(t, ps, op)->0, ps, EditView::Remove) == Some(t),
    decreases ps.len(),
{
    match t {
        NodeView::Dir { name, children } => {
            let i = find_child(children, ps[0]);
            lemma_find_child(children, ps[0]);
            let t2 = edit(t, ps, op)->0;
            if ps.len() == 1 {
                assert(ps.drop_first().len() == 0);
                if i >= 0 {
                    assert(lookup(children[i], ps.drop_first()) == Some(children[i]));
                }
                assert(i < 0);
                let c2 = edit_children(children, ps[0], op)->0;
                assert(t2 == NodeView::Dir { name, children: c2 });
                let k = children.len() as int;
                assert(c2 == children.push(c2[k]));
                assert(view_name(c2[k]) == ps[0]);
                assert forall|j: int| 0 <= j < c2.len() && j < k implies view_name(#[trigger] c2[j])
                    != ps[0] by {
                    assert(c2[j] == children[j]);
                }
                lemma_find_child_is(c2, ps[0], k);
                assert(c2.remove(k) =~= children);
            } else {
                let c = edit(children[i], ps.drop_first(), op)->0;
                lemma_edit_keeps_name(children[i], ps.drop_first(), op);
                let c2 = children.update(i, c);
                assert(t2 == NodeView::Dir { name, children: c2 });
                assert forall|l: int| 0 <= l < children.len() implies view_name(#[trigger] c2[l])
                    == view_name(children[l]) by {
                    if l != i {
                        assert(c2[l] == children[l]);
                    }
                }
                lemma_find_child_same_names(children, c2, ps[0]);
                lemma_remove_undoes_create(children[i], ps.drop_first(), op);
                assert(c2.update(i, children[i]) =~= children);
            }
        },
        NodeView::File { .. } => {},
    }
}

/// No two entries of one directory share a name.
pub open spec fn names_unique(cs: Seq<NodeView>) -> bool {
    forall|i: int, j: int|
        0 <= i < j < cs.len() ==> view_name(#[trigger] cs[i]) != view_name(#[trigger] cs[j])
}

/// In every directory of the tree, no two entries share a name.
pub open spec fn well_named(t: NodeView) -> bool
    decreases t,
{
    match t {
        NodeView::File { .. } => true,
        NodeView::Dir { children, .. } => names_unique(children) && forall|i: int|
            0 <= i < children.len() ==> well_named(#[trigger] children[i]),
    }
}

proof fn lemma_unique_find(cs: Seq<NodeView>, name: Seq<char>, k: int)
    requires
        names_unique(cs),
        0 <= k < cs.len(),
        view_name(cs[k]) == name,
    ensures
        find_child(cs, name) == k,
{
    assert forall|j: int| 0 <= j < cs.len() && j < k implies view_name(#[trigger] cs[j]) != name by {
        assert(view_name(cs[j]) != view_name(cs[k]));
    }
    lemma_find_child_is(cs, name, k);
}

/// Every edit keeps entry names unique within each directory: `write_file`
/// and `mkdir` never add a second entry of a name, `remove` only drops one.
pub proof fn lemma_edit_keeps_well_named(t: NodeView, ps: Seq<Seq<char>>, op: EditView)
    requires
        well_named(t),
        edit(t, ps, op) is Some,
    ensures
        well_named(edit(t, ps, op)->0),
    decreases ps.len(),
{
    match t {
        NodeView::Dir { name, children } => {
            let i = find_child(children, ps[0]);
            lemma_find_child(children, ps[0]);
            let t2 = edit(t, ps, op)->0;
            if ps.len() == 1 {
                let c2 = edit_children(children, ps[0], op)->0;
                match op {
                    EditView::Remove => {
                        assert forall|a: int, b: int| 0 <= a < b < c2.len() implies view_name(
                            #[trigger] c2[a],
                        ) != view_name(#[trigger] c2[b]) by {
                            let a0 = if a < i { a } else { a + 1 };
                            let b0 = if b < i { b } else { b + 1 };
                            assert(c2[a] == children[a0]);
                            assert(c2[b] == children[b0]);
                            assert(view_name(children[a0]) != view_name(children[b0]));
                        }
                        assert forall|a: int| 0 <= a < c2.len() implies well_named(#[trigger] c2[a]) by {
                            let a0 = if a < i { a } else { a + 1 };
                            assert(c2[a] == children[a0]);
                        }
                    },
                    _ => {
                        let k = if i < 0 { children.len() as int } else { i };
                        assert(forall|j: int| 0 <= j < children.len() && j != k ==> #[trigger] c2[j] == children[j]);
                        assert forall|a: int, b: int| 0 <= a < b < c2.len() implies view_name(
                            #[trigger] c2[a],
                        ) != view_name(#[trigger] c2[b]) by {
                            if b == k {
                                if i < 0 {
                                    assert(view_name(children[a]) != ps[0]);
                                } else {
                                    assert(view_name(children[a]) != view_name(children[i]));
                                }
                            } else if a == k {
                                assert(view_name(children[a]) != view_name(children[b]));
                            } else {
                                assert(view_name(children[a]) != view_name(children[b]));
                            }
                        }
                        assert(well_named(c2[k]));
                        assert forall|a: int| 0 <= a < c2.len() implies well_named(#[trigger] c2[a]) by {
                            if a != k {
                                assert(c2[a] == children[a]);
                            }
                        }
                    },
                }
                assert(t2 == NodeView::Dir { name, children: c2 });
            } else {
                let c = edit(children[i], ps.drop_first(), op)->0;
                lemma_edit_keeps_name(children[i], ps.drop_first(), op);
                lemma_edit_keeps_well_named(children[i], ps.drop_first(), op);
                let c2 = children.update(i, c);
                assert forall|a: int, b: int| 0 <= a < b < c2.len() implies view_name(
                    #[trigger] c2[a],
                ) != view_name(#[trigger] c2[b]) by {
                    assert(view_name(c2[a]) == view_name(children[a]));
                    assert(view_name(c2[b]) == view_name(children[b]));
                    assert(view_name(children[a]) != view_name(children[b]));
                }
                assert forall|a: int| 0 <= a < c2.len() implies well_named(#[trigger] c2[a]) by {
                    if a != i {
                        assert(c2[a] == children[a]);
                    }
                }
                assert(t2 == NodeView::Dir { name, children: c2 });
            }
        },
        NodeView::File { .. } => {},
    }
}

/// Once `remove` has succeeded at a path, nothing is found there any more
/// (in a tree whose directories hold each name once).
pub proof fn lemma_remove_then_lookup(t: NodeView, ps: Seq<Seq<char>>)
    requires
        well_named(t),
        edit(t, ps, EditView::Remove) is Some,
    ensures
        lookup(edit(t, ps, EditView::Remove)->0, ps) is None,
    decreases ps.len(),
{
    match t {
        NodeView::Dir { name, children } => {
            let i = find_child(children, ps[0]);
            lemma_find_child(children, ps[0]);
            let t2 = edit(t, ps, EditView::Remove)->0;
            if ps.len() == 1 {
                let c2 = children.remove(i);
                assert forall|j: int| 0 <= j < c2.len() implies view_name(#[trigger] c2[j]) != ps[0] by {
                    let j0 = if j < i { j } else { j + 1 };
                    assert(c2[j] == children[j0]);
                    if j0 < i {
                        assert(view_name(children[j0]) != view_name(children[i]));
                    } else {
                        assert(view_name(children[i]) != view_name(children[j0]));
                    }
                }
                lemma_find_child_is(c2, ps[0], -1);
                assert(t2 == NodeView::Dir { name, children: c2 });
            } else {
                let c = edit(children[i], ps.drop_first(), EditView::Remove)->0;
                lemma_edit_keeps_name(children[i], ps.drop_first(), EditView::Remove);
                lemma_remove_then_lookup(children[i], ps.drop_first());
                let c2 = children.update(i, c);
                assert forall|a: int, b: int| 0 <= a < b < c2.len() implies view_name(
                    #[trigger] c2[a],
                ) != view_name(#[trigger] c2[b]) by {
                    assert(view_name(c2[a]) == view_name(children[a]));
                    assert(view_name(c2[b]) == view_name(children[b]));
                }
                lemma_unique_find(c2, ps[0], i);
                assert(t2 == NodeView::Dir { name, children: c2 });
                assert(lookup(t2, ps) == lookup(c2[i], ps.drop_first()));
            }
        },
        NodeView::File { .. } => {},
    }
}

/// A new file system holds each name at most once per directory.
pub proof fn lemma_default_tree_well_named()
    ensures
        well_named(default_tree()),
{
    reveal_strlit("config");
    reveal_strlit("bin");
    reveal_strlit("home");
    reveal_strlit("readme.txt");
    assert("config"@.len() != "bin"@.len());
    assert("config"@.len() != "home"@.len());
    assert("bin"@.len() != "home"@.len());
    assert("config"@.len() != "readme.txt"@.len());
    assert("bin"@.len() != "readme.txt"@.len());
    assert("home"@.len() != "readme.txt"@.len());
    let children = default_tree()->Dir_children;
    let f_sys = NodeView::File { name: "system.conf"@, content: SYSTEM_CONF.spec_bytes() };
    let f_init = NodeView::File { name: "init"@, content: BIN_INIT.spec_bytes() };
    assert(well_named(f_sys));
    assert(well_named(f_init));
    assert(well_named(children[0]));
    assert(well_named(children[1]));
    assert(well_named(children[2]));
    assert(well_named(children[3]));
}


/// A segment that normalisation keeps as it is: non-empty, not `.` or
/// `..`, without `/`.
pub open spec fn clean_segment(s: Seq<char>) -> bool {
    s.len() > 0 && s != seq!['.'] && s != seq!['.', '.'] && !s.contains('/')
}

proof fn lemma_fold_no_slash(p: Seq<char>, q: Seq<char>)
    requires
        !q.contains('/'),
    ensures
        resolve_fold(p + q) == (resolve_fold(p).0, resolve_fold(p).1 + q),
    decreases q.len(),
{
    if q.len() == 0 {
        assert(p + q =~= p);
        assert(resolve_fold(p).1 + q =~= resolve_fold(p).1);
    } else {
        let q0 = q.drop_last();
        assert(!q0.contains('/')) by {
            if q0.contains('/') {
                let k = choose|k: int| 0 <= k < q0.len() && q0[k] == '/';
                assert(q[k] == '/');
            }
        }
        lemma_fold_no_slash(p, q0);
        assert((p + q).drop_last() =~= p + q0);
        assert((p + q).last() == q.last());
        assert(q.last() != '/') by {
            assert(q[q.len() - 1] == q.last());
        }
        assert(resolve_fold(p).1 + q0 + seq![q.last()] =~= resolve_fold(p).1 + q);
    }
}

proof fn lemma_fold_slash(p: Seq<char>)
    ensures
        resolve_fold(p + seq!['/']) == (step_segment(resolve_fold(p).0, resolve_fold(p).1), Seq::<char>::empty()),
{
    assert((p + seq!['/']).drop_last() =~= p);
}

proof fn lemma_segments_after(p: Seq<char>, s: Seq<char>)
    requires
        clean_segment(s),
    ensures
        resolved_segments(p + seq!['/'] + s) == resolved_segments(p).push(s),
{
    lemma_fold_slash(p);
    lemma_fold_no_slash(p + seq!['/'], s);
    assert(Seq::<char>::empty() + s =~= s);
    let (st, cur) = resolve_fold(p);
    assert(resolved_segments(p) == step_segment(st, cur));
}

proof fn lemma_join_resolves(segs: Seq<Seq<char>>)
    requires
        forall|i: int| 0 <= i < segs.len() ==> clean_segment(#[trigger] segs[i]),
    ensures
        resolved_segments(seq!['/', '/'] + join_absolute(segs)) == segs,
    decreases segs.len(),
{
    if segs.len() == 0 {
        assert(seq!['/', '/'] + join_absolute(segs) =~= seq!['/', '/']);
        lemma_slashes_resolve_to_root();
    } else {
        let init = segs.drop_last();
        assert forall|i: int| 0 <= i < init.len() implies clean_segment(#[trigger] init[i]) by {
            assert(init[i] == segs[i]);
        }
        lemma_join_resolves(init);
        assert(clean_segment(segs.last())) by {
            assert(segs[segs.len() - 1] == segs.last());
        }
        lemma_segments_after(seq!['/', '/'] + join_absolute(init), segs.last());
        assert(seq!['/', '/'] + join_absolute(segs) =~= seq!['/', '/'] + join_absolute(init)
            + seq!['/'] + segs.last());
        assert(init.push(segs.last()) =~= segs);
    }
}

proof fn lemma_step_keeps_clean(stack: Seq<Seq<char>>, seg: Seq<char>)
    requires
        forall|i: int| 0 <= i < stack.len() ==> clean_segment(#[trigger] stack[i]),
        !seg.contains('/'),
    ensures
        forall|i: int|
            0 <= i < step_segment(stack, seg).len() ==> clean_segment(#[trigger] step_segment(stack, seg)[i]),
{
    let r = step_segment(stack, seg);
    assert forall|i: int| 0 <= i < r.len() implies clean_segment(#[trigger] r[i]) by {
        if i < stack.len() {
            assert(r[i] == stack[i]);
        }
    }
}

proof fn lemma_fold_clean(p: Seq<char>)
    ensures
        forall|i: int|
            0 <= i < resolve_fold(p).0.len() ==> clean_segment(#[trigger] resolve_fold(p).0[i]),
        !resolve_fold(p).1.contains('/'),
    decreases p.len(),
{
    if p.len() > 0 {
        lemma_fold_clean(p.drop_last());
        let (st, cur) = resolve_fold(p.drop_last());
        if p.last() == '/' {
            lemma_step_keeps_clean(st, cur);
        } else {
            assert(!cur.push(p.last()).contains('/')) by {
                if cur.push(p.last()).contains('/') {
                    let k = choose|k: int| 0 <= k < cur.push(p.last()).len() && cur.push(p.last())[k] == '/';
                    if k < cur.len() {
                        assert(cur[k] == '/');
                    }
                }
            }
        }
    }
}

/// Resolving is idempotent: a resolved path is absolute and normal (no
/// empty, `.` or `..` segments), so resolving it again, against any
/// current directory, gives it back unchanged.
pub proof fn lemma_resolve_idempotent(input: Seq<char>, cwd: Seq<char>, cwd2: Seq<char>)
    ensures
        resolve(resolve(input, cwd), cwd2) == resolve(input, cwd),
{
    let base = if input.len() > 0 && input[0] == '/' { seq!['/'] } else { cwd };
    let p = base + seq!['/'] + input;
    let segs = resolved_segments(p);
    lemma_fold_clean(p);
    let (st, cur) = resolve_fold(p);
    lemma_step_keeps_clean(st, cur);
    let r = resolve(input, cwd);
    if segs.len() == 0 {
        assert(r == seq!['/']);
        assert(seq!['/'] + seq!['/'] + r =~= seq!['/', '/', '/']);
        lemma_slashes_resolve_to_root();
    } else {
        assert(r == join_absolute(segs));
        lemma_join_starts_with_slash(segs);
        assert(seq!['/'] + seq!['/'] + r =~= seq!['/', '/'] + join_absolute(segs));
        lemma_join_resolves(segs);
    }
}

/// A resolved path is absolute and normal: it is `/`, or `/` followed by
/// non-empty segments, none of them `.` or `..` and none holding `/`,
/// joined by single slashes (so it does not end with `/`). An absolute input
/// resolves the same against any current directory.
pub proof fn lemma_resolve_is_normal(input: Seq<char>, cwd: Seq<char>, cwd2: Seq<char>)
    ensures
        resolve(input, cwd).len() > 0,
        resolve(input, cwd)[0] == '/',
        resolve(input, cwd) == seq!['/'] || exists|segs: Seq<Seq<char>>|
            segs.len() > 0 && (forall|i: int| 0 <= i < segs.len() ==> clean_segment(#[trigger] segs[i]))
                && resolve(input, cwd) == #[trigger] join_absolute(segs),
        input.len() > 0 && input[0] == '/' ==> resolve(input, cwd2) == resolve(input, cwd),
{
    let base = if input.len() > 0 && input[0] == '/' { seq!['/'] } else { cwd };
    let p = base + seq!['/'] + input;
    let segs = resolved_segments(p);
    lemma_fold_clean(p);
    let (st, cur) = resolve_fold(p);
    lemma_step_keeps_clean(st, cur);
    if segs.len() > 0 {
        lemma_join_starts_with_slash(segs);
        assert(resolve(input, cwd) == join_absolute(segs));
    }
}

proof fn lemma_join_starts_with_slash(segs: Seq<Seq<char>>)
    requires
        segs.len() > 0,
    ensures
        join_absolute(segs).len() > 0,
        join_absolute(segs)[0] == '/',
    decreases segs.len(),
{
    let j0 = join_absolute(segs.drop_last());
    assert(join_absolute(segs) == j0 + seq!['/'] + segs.last());
    if segs.len() > 1 {
        lemma_join_starts_with_slash(segs.drop_last());
        assert((j0 + seq!['/'] + segs.last())[0] == j0[0]);
    } else {
        assert(j0 == Seq::<char>::empty());
        assert((j0 + seq!['/'] + segs.last())[0] == '/');
    }
}

proof fn lemma_slashes_resolve_to_root()
    ensures
        resolved_segments(seq!['/', '/']) == Seq::<Seq<char>>::empty(),
        resolved_segments(seq!['/', '/', '/']) == Seq::<Seq<char>>::empty(),
{
    let e = Seq::<char>::empty();
    let es = Seq::<Seq<char>>::empty();
    assert(resolve_fold(e) == (es, e));
    lemma_fold_slash(e);
    assert(e + seq!['/'] =~= seq!['/']);
    lemma_fold_slash(seq!['/']);
    assert(seq!['/'] + seq!['/'] =~= seq!['/', '/']);
    lemma_fold_slash(seq!['/', '/']);
    assert(seq!['/', '/'] + seq!['/'] =~= seq!['/', '/', '/']);
}

} // verus!
