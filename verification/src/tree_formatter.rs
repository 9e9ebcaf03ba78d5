use vstd::prelude::*;

verus! {

/// A labelled node of a printable tree.
#[derive(Debug)]
pub struct TreeNode {
    pub label: String,
    pub children: Vec<TreeNode>,
}

impl TreeNode {
    pub fn node(label: String, children: Vec<TreeNode>) -> (n: Self)
        ensures
            n.label@ == label@,
            n.children@ == children@,
    {
        TreeNode { label, children }
    }

    pub fn leaf(label: String) -> (n: Self)
        ensures
            n.label@ == label@,
            n.children@.len() == 0,
    {
        TreeNode { label, children: Vec::new() }
    }
}

/// What a node of a printed syntax tree holds: a label with given children,
/// or the tree of a statement or expression of the syntax tree, by ID.
pub enum Shape {
    /// A node with this label and no children.
    Leaf(Seq<char>),
    /// A node with this label whose children hold these shapes, in order.
    Node(Seq<char>, Seq<Shape>),
    /// The tree of the statement with this ID.
    Stmt(usize),
    /// The tree of the expression with this ID.
    Expr(usize),
}

/// Types that can be shown as a tree.
pub trait AsTree {
    /// Everything the value refers to is there to be drawn.
    spec fn drawable(&self) -> bool;

    /// `ts` are the trees that show the value, in order.
    spec fn trees_are(&self, ts: Seq<TreeNode>) -> bool;

    fn as_tree(&self) -> (ts: Vec<TreeNode>)
        requires
            self.drawable(),
        ensures
            self.trees_are(ts@),
    ;

    /// The trees of the value, drawn as text.
    fn format_tree(&self) -> (s: String)
        requires
            self.drawable(),
        ensures
            exists|ts: Seq<TreeNode>| #[trigger] self.trees_are(ts) && s@ == tree_text(ts),
    {
        let ts = self.as_tree();
        print_tree(&ts)
    }
}

pub open spec fn branch_text(last: bool) -> Seq<char> {
    if last { "└─ "@ } else { "├─ "@ }
}

pub open spec fn indent_text(last: bool) -> Seq<char> {
    if last { "   "@ } else { "│  "@ }
}

/// The lines drawing `n` under `prefix`: its label after the branch mark,
/// then its children, indented.
pub open spec fn node_text(n: TreeNode, prefix: Seq<char>, last: bool) -> Seq<char>
    decreases n, 1nat, 0nat,
{
    prefix + branch_text(last) + n.label@ + seq!['\n'] + list_text(n.children@, prefix + indent_text(last), 0)
}

/// The lines drawing the nodes `ns[i..]` under `prefix`; the final node of
/// `ns` gets the closing branch mark.
pub open spec fn list_text(ns: Seq<TreeNode>, prefix: Seq<char>, i: nat) -> Seq<char>
    decreases ns, 0nat, ns.len() - i,
{
    if i >= ns.len() {
        Seq::empty()
    } else {
        node_text(ns[i as int], prefix, i + 1 == ns.len()) + list_text(ns, prefix, i + 1)
    }
}

/// The text drawing a forest of trees.
pub open spec fn tree_text(nodes: Seq<TreeNode>) -> Seq<char> {
    list_text(nodes, Seq::empty(), 0)
}

fn print_list(nodes: &Vec<TreeNode>, prefix: &String, out: &mut String)
    ensures
        final(out)@ == old(out)@ + list_text(nodes@, prefix@, 0),
    decreases nodes, 0nat, 0nat,
{
    let ghost start = out@;
    let mut i: usize = 0;
    while i < nodes.len()
        invariant
            i <= nodes@.len(),
            out@ + list_text(nodes@, prefix@, i as nat) == start + list_text(nodes@, prefix@, 0),
        decreases nodes@.len() - i,
    {
        let ghost before = out@;
        let last = i + 1 == nodes.len();
        print_node(&nodes[i], prefix, last, out);
        proof {
            assert(list_text(nodes@, prefix@, i as nat)
                == node_text(nodes@[i as int], prefix@, last) + list_text(nodes@, prefix@, (i + 1) as nat));
            assert(out@ + list_text(nodes@, prefix@, (i + 1) as nat)
                =~= before + list_text(nodes@, prefix@, i as nat));
        }
        i = i + 1;
    }
    proof { assert(list_text(nodes@, prefix@, i as nat) =~= Seq::<char>::empty()); }
}

fn print_node(node: &TreeNode, prefix: &String, last: bool, out: &mut String)
    ensures
        final(out)@ == old(out)@ + node_text(*node, prefix@, last),
    decreases node, 1nat, 0nat,
{
    let ghost start = out@;
    out.append(prefix.as_str());
    let branch = if last { "└─ " } else { "├─ " };
    out.append(branch);
    out.append(node.label.as_str());
    out.append("\n");
    let indent = if last { "   " } else { "│  " };
    let mut new_prefix = prefix.clone();
    new_prefix.append(indent);
    print_list(&node.children, &new_prefix, out);
    proof {
        reveal_strlit("\n");
        assert("\n"@ =~= seq!['\n']);
        assert(out@ =~= start + node_text(*node, prefix@, last));
    }
}

/// Draws the trees: one line per node, with `├─ ` / `└─ ` branch marks and
/// `│  ` / `   ` indentation for the children.
pub fn print_tree(nodes: &Vec<TreeNode>) -> (s: String)
    ensures
        s@ == tree_text(nodes@),
{
    let mut out = String::new();
    let prefix = String::new();
    print_list(nodes, &prefix, &mut out);
    proof { assert(out@ =~= tree_text(nodes@)); }
    out
}

} // verus!
