//! The text of the fork-tree printout: the branch drawn before each process
//! and the name of its state.
use vstd::prelude::*;
use vstd::string::StringExecFns;
use crate::task::task::TaskStatus;

verus! {

/// The indentation one ancestor contributes: blank below a last child, a
/// vertical line below one with siblings after it.
pub open spec fn indent_spec(last: bool) -> Seq<char> {
    if last {
        seq![' ', ' ', ' ', ' ']
    } else {
        seq!['│', ' ', ' ', ' ']
    }
}

/// The indentation for the ancestors in `a`, outermost first.
pub open spec fn indents_spec(a: Seq<bool>) -> Seq<char>
    decreases a.len(),
{
    if a.len() == 0 {
        Seq::empty()
    } else {
        indents_spec(a.drop_last()) + indent_spec(a.last())
    }
}

/// The branch drawn before a node: a corner for the last child, a tee for
/// one with siblings after it.
pub open spec fn branch_spec(last: bool) -> Seq<char> {
    if last {
        seq!['└', '─', '─', ' ']
    } else {
        seq!['├', '─', '─', ' ']
    }
}

/// The prefix printed before a node whose path from the root is described
/// by `a` (for each level, whether the node there is the last child): nothing
/// for the root; otherwise the indentation of the levels above, then the
/// branch of its own level.
pub open spec fn prefix_spec(a: Seq<bool>) -> Seq<char> {
    if a.len() == 0 {
        Seq::empty()
    } else {
        indents_spec(a.drop_last()) + branch_spec(a.last())
    }
}

/// The prefix printed before a node, `ancestors_last` telling for each level
/// from the root down whether the node on the path there is a last child.
pub fn tree_prefix(ancestors_last: &Vec<bool>) -> (r: String)
    ensures
        r@ == prefix_spec(ancestors_last@),
{
    let mut prefix = String::new();
    let n = ancestors_last.len();
    if n == 0 {
        return prefix;
    }
    let blank = "    ";
    let bar = "│   ";
    let corner = "└── ";
    let tee = "├── ";
    proof {
        reveal_strlit("    ");
        reveal_strlit("│   ");
        reveal_strlit("└── ");
        reveal_strlit("├── ");
        assert(blank@ =~= indent_spec(true));
        assert(bar@ =~= indent_spec(false));
        assert(corner@ =~= branch_spec(true));
        assert(tee@ =~= branch_spec(false));
    }
    let mut i: usize = 0;
    while i < n - 1
        invariant
            n == ancestors_last@.len(),
            n > 0,
            i <= n - 1,
            prefix@ == indents_spec(ancestors_last@.take(i as int)),
            blank@ == indent_spec(true),
            bar@ == indent_spec(false),
        decreases n - 1 - i,
    {
        if ancestors_last[i] {
            prefix.append(blank);
        } else {
            prefix.append(bar);
        }
        assert(ancestors_last@.take(i + 1).drop_last() =~= ancestors_last@.take(i as int));
        i = i + 1;
    }
    assert(ancestors_last@.take(i as int) =~= ancestors_last@.drop_last());
    if ancestors_last[n - 1] {
        prefix.append(corner);
    } else {
        prefix.append(tee);
    }
    prefix
}

/// The name shown for a task state.
pub open spec fn status_name_spec(s: TaskStatus) -> Seq<char> {
    match s {
        TaskStatus::UnInit => seq!['U', 'n', 'I', 'n', 'i', 't'],
        TaskStatus::Ready => seq!['R', 'e', 'a', 'd', 'y'],
        TaskStatus::Running => seq!['R', 'u', 'n', 'n', 'i', 'n', 'g'],
        TaskStatus::Zombie => seq!['Z', 'o', 'm', 'b', 'i', 'e'],
    }
}

/// The name shown for a task state.
pub fn status_name(s: TaskStatus) -> (r: &'static str)
    ensures
        r@ == status_name_spec(s),
{
    match s {
        TaskStatus::UnInit => {
            let t = "UnInit";
            proof {
                reveal_strlit("UnInit");
                assert(t@ =~= status_name_spec(s));
            }
            t
        },
        TaskStatus::Ready => {
            let t = "Ready";
            proof {
                reveal_strlit("Ready");
                assert(t@ =~= status_name_spec(s));
            }
            t
        },
        TaskStatus::Running => {
            let t = "Running";
            proof {
                reveal_strlit("Running");
                assert(t@ =~= status_name_spec(s));
            }
            t
        },
        TaskStatus::Zombie => {
            let t = "Zombie";
            proof {
                reveal_strlit("Zombie");
                assert(t@ =~= status_name_spec(s));
            }
            t
        },
    }
}

/// The nodes of a fork tree in the order they are printed, each with its
/// path (for each level below the root, whether the node on the path there
/// is a last child): the node, then its children's subtrees in order.
/// `tree[n]` lists the children of node `n`; `fuel` bounds the depth.
pub open spec fn walk_spec(tree: Seq<Seq<usize>>, node: int, path: Seq<bool>, fuel: nat) -> Seq<(usize, Seq<bool>)>
    decreases fuel, 0int,
{
    if fuel == 0 {
        Seq::empty()
    } else {
        seq![(node as usize, path)] + walk_children_spec(tree, tree[node], 0, path, (fuel - 1) as nat)
    }
}

/// The subtrees of the children `kids[i..]` of a node with path `path`.
pub open spec fn walk_children_spec(
    tree: Seq<Seq<usize>>,
    kids: Seq<usize>,
    i: int,
    path: Seq<bool>,
    fuel: nat,
) -> Seq<(usize, Seq<bool>)>
    decreases fuel, kids.len() - i + 1,
{
    if i < 0 || i >= kids.len() {
        Seq::empty()
    } else {
        walk_spec(tree, kids[i] as int, path.push(i == kids.len() - 1), fuel)
            + walk_children_spec(tree, kids, i + 1, path, fuel)
    }
}

/// Every child a node lists is a node of the tree.
pub open spec fn tree_ok(tree: Seq<Seq<usize>>) -> bool {
    forall|n: int, j: int| 0 <= n < tree.len() && 0 <= j < tree[n].len() ==> #[trigger] tree[n][j] < tree.len()
}

/// Appends the nodes of the subtree of `node` to `out`, in print order.
fn walk_tree(tree: &Vec<Vec<usize>>, node: usize, path: &Vec<bool>, fuel: usize, out: &mut Vec<(usize, Vec<bool>)>)
    requires
        tree_ok(tree@.map_values(|v: Vec<usize>| v@)),
        node < tree@.len(),
    ensures
        final(out)@.map_values(|e: (usize, Vec<bool>)| (e.0, e.1@)) == old(out)@.map_values(
            |e: (usize, Vec<bool>)| (e.0, e.1@),
        ) + walk_spec(tree@.map_values(|v: Vec<usize>| v@), node as int, path@, fuel as nat),
    decreases fuel, 0int,
{
    let ghost t = tree@.map_values(|v: Vec<usize>| v@);
    if fuel == 0 {
        assert(out@.map_values(|e: (usize, Vec<bool>)| (e.0, e.1@)) =~= old(out)@.map_values(
            |e: (usize, Vec<bool>)| (e.0, e.1@),
        ) + walk_spec(t, node as int, path@, fuel as nat));
        return;
    }
    let ghost before = out@.map_values(|e: (usize, Vec<bool>)| (e.0, e.1@));
    let here = path.clone();
    proof {
        assert(here@ =~= path@);
    }
    out.push((node, here));
    assert(out@.map_values(|e: (usize, Vec<bool>)| (e.0, e.1@)) =~= before + seq![(node, path@)]);
    assert(t[node as int] == tree@[node as int]@);
    walk_children(tree, &tree[node], 0, path, fuel - 1, out);
    assert(seq![(node, path@)] + walk_children_spec(t, t[node as int], 0, path@, (fuel - 1) as nat)
        == walk_spec(t, node as int, path@, fuel as nat));
}

/// Appends the subtrees of the children `kids[i..]` to `out`, in print order.
fn walk_children(
    tree: &Vec<Vec<usize>>,
    kids: &Vec<usize>,
    i: usize,
    path: &Vec<bool>,
    fuel: usize,
    out: &mut Vec<(usize, Vec<bool>)>,
)
    requires
        tree_ok(tree@.map_values(|v: Vec<usize>| v@)),
        forall|j: int| 0 <= j < kids@.len() ==> #[trigger] kids@[j] < tree@.len(),
        i <= kids@.len(),
    ensures
        final(out)@.map_values(|e: (usize, Vec<bool>)| (e.0, e.1@)) == old(out)@.map_values(
            |e: (usize, Vec<bool>)| (e.0, e.1@),
        ) + walk_children_spec(tree@.map_values(|v: Vec<usize>| v@), kids@, i as int, path@, fuel as nat),
    decreases fuel, kids@.len() - i + 1,
{
    let ghost t = tree@.map_values(|v: Vec<usize>| v@);
    let ghost before = out@.map_values(|e: (usize, Vec<bool>)| (e.0, e.1@));
    if i >= kids.len() {
        assert(out@.map_values(|e: (usize, Vec<bool>)| (e.0, e.1@)) =~= before
            + walk_children_spec(t, kids@, i as int, path@, fuel as nat));
        return;
    }
    let mut child_path = path.clone();
    proof {
        assert(child_path@ =~= path@);
    }
    child_path.push(i + 1 == kids.len());
    walk_tree(tree, kids[i], &child_path, fuel, out);
    let ghost mid = out@.map_values(|e: (usize, Vec<bool>)| (e.0, e.1@));
    walk_children(tree, kids, i + 1, path, fuel, out);
    assert(out@.map_values(|e: (usize, Vec<bool>)| (e.0, e.1@)) =~= before
        + walk_children_spec(t, kids@, i as int, path@, fuel as nat));
}

/// The lines of the fork-tree printout for the tree below `root`: for each
/// node, in print order, the node and the prefix drawn before it.
/// `tree[n]` lists the children of node `n`; nodes deeper than the number
/// of nodes are left out, so a tree with a cycle still gives a finite list.
pub fn fork_tree_lines(tree: &Vec<Vec<usize>>, root: usize) -> (r: Vec<(usize, String)>)
    requires
        tree_ok(tree@.map_values(|v: Vec<usize>| v@)),
        root < tree@.len(),
    ensures
        ({
            let w = walk_spec(tree@.map_values(|v: Vec<usize>| v@), root as int, Seq::empty(), tree@.len());
            &&& r@.len() == w.len()
            &&& forall|i: int| 0 <= i < w.len() ==> (#[trigger] r@[i]).0 == w[i].0 && r@[i].1@ == prefix_spec(w[i].1)
        }),
{
    let mut nodes: Vec<(usize, Vec<bool>)> = Vec::new();
    let empty: Vec<bool> = Vec::new();
    walk_tree(tree, root, &empty, tree.len(), &mut nodes);
    let ghost w = walk_spec(tree@.map_values(|v: Vec<usize>| v@), root as int, Seq::empty(), tree@.len() as nat);
    assert(empty@ =~= Seq::<bool>::empty());
    let mut lines: Vec<(usize, String)> = Vec::new();
    let mut i: usize = 0;
    while i < nodes.len()
        invariant
            i <= nodes@.len(),
            nodes@.map_values(|e: (usize, Vec<bool>)| (e.0, e.1@)) == Seq::<(usize, Seq<bool>)>::empty() + w,
            lines@.len() == i,
            forall|j: int| 0 <= j < i ==> (#[trigger] lines@[j]).0 == w[j].0 && lines@[j].1@ == prefix_spec(w[j].1),
        decreases nodes@.len() - i,
    {
        let prefix = tree_prefix(&nodes[i].1);
        proof {
            assert(nodes@.map_values(|e: (usize, Vec<bool>)| (e.0, e.1@))[i as int] == w[i as int]);
        }
        lines.push((nodes[i].0, prefix));
        i = i + 1;
    }
    assert(nodes@.map_values(|e: (usize, Vec<bool>)| (e.0, e.1@)).len() == w.len());
    lines
}

} // verus!
