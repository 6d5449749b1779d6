//! The graph as text, in the DOT language, for inspection.

use vstd::prelude::*;
use crate::graph::{DepGraph, GraphView};
use crate::text::push_char;

verus! {

/// The digit of a number below ten.
pub open spec fn digit(d: nat) -> char {
    if d == 0 {
        '0'
    } else if d == 1 {
        '1'
    } else if d == 2 {
        '2'
    } else if d == 3 {
        '3'
    } else if d == 4 {
        '4'
    } else if d == 5 {
        '5'
    } else if d == 6 {
        '6'
    } else if d == 7 {
        '7'
    } else if d == 8 {
        '8'
    } else {
        '9'
    }
}

/// A number in decimal digits.
pub open spec fn decimal(n: nat) -> Seq<char>
    decreases n,
{
    if n < 10 {
        seq![digit(n)]
    } else {
        decimal(n / 10).push(digit(n % 10))
    }
}

fn digit_char(d: usize) -> (out: char)
    requires
        d < 10,
    ensures
        out == digit(d as nat),
{
    if d == 0 {
        '0'
    } else if d == 1 {
        '1'
    } else if d == 2 {
        '2'
    } else if d == 3 {
        '3'
    } else if d == 4 {
        '4'
    } else if d == 5 {
        '5'
    } else if d == 6 {
        '6'
    } else if d == 7 {
        '7'
    } else if d == 8 {
        '8'
    } else {
        '9'
    }
}

/// A number in decimal digits.
pub fn decimal_text(n: usize) -> (out: String)
    ensures
        out@ == decimal(n as nat),
    decreases n,
{
    if n < 10 {
        let mut out = String::new();
        push_char(&mut out, digit_char(n));
        assert(out@ =~= seq![digit(n as nat)]);
        out
    } else {
        let mut out = decimal_text(n / 10);
        push_char(&mut out, digit_char(n % 10));
        out
    }
}

/// The text with a backslash before every double quote and every
/// backslash.
pub open spec fn escaped(text: Seq<char>) -> Seq<char>
    decreases text.len(),
{
    if text.len() == 0 {
        Seq::empty()
    } else if text.last() == '"' || text.last() == '\\' {
        escaped(text.drop_last()).push('\\').push(text.last())
    } else {
        escaped(text.drop_last()).push(text.last())
    }
}

fn append_escaped(out: &mut String, text: &str)
    ensures
        final(out)@ == old(out)@ + escaped(text@),
{
    let ghost before = out@;
    let ghost all = text@;
    assert(all.take(0) =~= Seq::<char>::empty());
    assert(out@ =~= before + escaped(all.take(0)));
    for c in it: text.chars()
        invariant
            it.seq() == all,
            out@ == before + escaped(all.take(it.index() as int)),
    {
        let ghost i = it.index() as int;
        let ghost had = out@;
        assert(all.take(i + 1).drop_last() =~= all.take(i));
        assert(all.take(i + 1).last() == c);
        if c == '"' || c == '\\' {
            push_char(out, '\\');
        }
        push_char(out, c);
        assert(out@ =~= before + escaped(all.take(i + 1)));
    }
    assert(all.take(all.len() as int) =~= all);
}

impl GraphView {
    /// The line of node `i`: its index, and its label between quotes.
    pub open spec fn node_line(self, i: int) -> Seq<char> {
        "    "@ + decimal(i as nat) + " [ label=\""@ + escaped(self.nodes[i].label()) + "\" ]\n"@
    }

    /// The line of edge `k`: the index of the node that comes first, an
    /// arrow, and the index of the node that waits for it.
    pub open spec fn edge_line(self, k: int) -> Seq<char> {
        "    "@ + decimal(self.edges[k].0 as nat) + " -> "@ + decimal(self.edges[k].1 as nat)
            + "\n"@
    }

    /// The lines of the first `upto` nodes.
    pub open spec fn node_lines(self, upto: int) -> Seq<char>
        decreases upto,
    {
        if upto <= 0 {
            Seq::empty()
        } else {
            self.node_lines(upto - 1) + self.node_line(upto - 1)
        }
    }

    /// The lines of the first `upto` edges.
    pub open spec fn edge_lines(self, upto: int) -> Seq<char>
        decreases upto,
    {
        if upto <= 0 {
            Seq::empty()
        } else {
            self.edge_lines(upto - 1) + self.edge_line(upto - 1)
        }
    }

    /// The graph in the DOT language: a line for each node, then a line
    /// for each edge.
    pub open spec fn dot(self) -> Seq<char> {
        "digraph {\n"@ + self.node_lines(self.nodes.len() as int) + self.edge_lines(
            self.edges.len() as int,
        ) + "}\n"@
    }
}

impl DepGraph {
    /// The graph in the DOT language.
    pub fn to_dot(&self) -> (out: String)
        ensures
            out@ == self@.dot(),
    {
        let ghost g = self@;
        let n = self.node_count();
        let m = self.edge_count();
        let mut out = "digraph {\n".to_owned();
        let mut i: usize = 0;
        assert(out@ =~= "digraph {\n"@ + g.node_lines(0));
        while i < n
            invariant
                i <= n,
                g == self@,
                n == g.nodes.len(),
                out@ == "digraph {\n"@ + g.node_lines(i as int),
            decreases n - i,
        {
            let ghost before = out@;
            out.append("    ");
            out.append(decimal_text(i).as_str());
            out.append(" [ label=\"");
            append_escaped(&mut out, self.node(i).label().as_str());
            out.append("\" ]\n");
            assert(out@ =~= before + g.node_line(i as int));
            assert(out@ =~= "digraph {\n"@ + g.node_lines(i as int + 1));
            i += 1;
        }
        let ghost head = out@;
        let mut k: usize = 0;
        assert(out@ =~= head + g.edge_lines(0));
        while k < m
            invariant
                k <= m,
                g == self@,
                m == g.edges.len(),
                out@ == head + g.edge_lines(k as int),
            decreases m - k,
        {
            let ghost before = out@;
            let e = self.edge(k);
            out.append("    ");
            out.append(decimal_text(e.0).as_str());
            out.append(" -> ");
            out.append(decimal_text(e.1).as_str());
            out.append("\n");
            assert(out@ =~= before + g.edge_line(k as int));
            assert(out@ =~= head + g.edge_lines(k as int + 1));
            k += 1;
        }
        out.append("}\n");
        out
    }
}

} // verus!
