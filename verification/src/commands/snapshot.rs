//! The text rendering of a page's accessibility tree.
use crate::text::{chars_of, push_str, str_eq, string_from_chars};
use vstd::prelude::*;

verus! {

/// One node of the accessibility tree as the listing uses it.
pub struct AxNode {
    pub role: String,
    pub name: String,
    pub node_id: String,
    pub depth: u64,
}

/// Roles that carry no meaning of their own and are left out of the listing.
pub open spec fn hidden_role(role: Seq<char>) -> bool {
    role == "none"@ || role == "generic"@ || role == "Ignored"@
}

/// Two spaces per level of depth.
pub open spec fn indent(depth: nat) -> Seq<char>
    decreases depth,
{
    if depth == 0 {
        Seq::empty()
    } else {
        indent((depth - 1) as nat) + "  "@
    }
}

/// The line of one node: `[role] "name" #id`, or `[role] #id` without a name.
pub open spec fn ax_line(n: AxNode) -> Seq<char> {
    indent(n.depth as nat) + "["@ + n.role@ + "]"@ + if n.name@.len() == 0 {
        " #"@ + n.node_id@ + "\n"@
    } else {
        " \""@ + n.name@ + "\" #"@ + n.node_id@ + "\n"@
    }
}

/// The listing of the first `k` nodes.
pub open spec fn ax_lines(nodes: Seq<AxNode>, k: nat) -> Seq<char>
    decreases k,
{
    if k == 0 {
        Seq::empty()
    } else {
        ax_lines(nodes, (k - 1) as nat) + if hidden_role(nodes[k - 1].role@) {
            Seq::empty()
        } else {
            ax_line(nodes[k - 1])
        }
    }
}

fn push_indent(out: &mut Vec<char>, depth: u64)
    ensures
        final(out)@ == old(out)@ + indent(depth as nat),
{
    let mut k: u64 = 0;
    while k < depth
        invariant
            0 <= k <= depth,
            out@ == old(out)@ + indent(k as nat),
        decreases depth - k,
    {
        push_str(out, "  ");
        k = k + 1;
    }
}

/// Renders the accessibility tree, one line per meaningful node, indented by
/// its depth (see `ax_lines`).
pub fn ax_tree_text(nodes: &Vec<AxNode>) -> (r: String)
    ensures
        r@ == ax_lines(nodes@, nodes@.len()),
{
    let mut out: Vec<char> = Vec::new();
    let mut i: usize = 0;
    while i < nodes.len()
        invariant
            0 <= i <= nodes@.len(),
            out@ == ax_lines(nodes@, i as nat),
        decreases nodes@.len() - i,
    {
        let n = &nodes[i];
        let role = n.role.as_str();
        if str_eq(role, "none") || str_eq(role, "generic") || str_eq(role, "Ignored") {
            proof {
                assert(out@ + Seq::<char>::empty() =~= out@);
            }
        } else {
            let ghost before = out@;
            push_indent(&mut out, n.depth);
            push_str(&mut out, "[");
            push_str(&mut out, role);
            push_str(&mut out, "]");
            let name_chars = chars_of(n.name.as_str());
            if name_chars.len() == 0 {
                push_str(&mut out, " #");
                push_str(&mut out, n.node_id.as_str());
                push_str(&mut out, "\n");
            } else {
                push_str(&mut out, " \"");
                push_str(&mut out, n.name.as_str());
                push_str(&mut out, "\" #");
                push_str(&mut out, n.node_id.as_str());
                push_str(&mut out, "\n");
            }
            proof {
                assert(out@ =~= before + ax_line(nodes@[i as int]));
            }
        }
        i = i + 1;
    }
    string_from_chars(out.as_slice())
}

} // verus!
