//! Syntax trees as plain values, and what the symbol rules read off them.

use crate::text::texts;
use vstd::prelude::*;

verus! {

/// A node of a concrete syntax tree.
#[derive(Debug)]
pub struct SyntaxNode {
    /// The grammar's name for this kind of node.
    pub kind: String,
    /// The field name under which the node hangs in its parent, if any.
    pub field: Option<String>,
    /// The source text that the node spans.
    pub text: String,
    /// The zero-based row on which the node starts.
    pub start_row: usize,
    /// The zero-based row on which the node ends.
    pub end_row: usize,
    /// The node's children, in source order.
    pub children: Vec<SyntaxNode>,
}

/// Whether a node hangs in its parent under the field `name`.
pub open spec fn has_field(node: SyntaxNode, name: Seq<char>) -> bool {
    match node.field {
        Some(f) => f@ == name,
        None => false,
    }
}

/// The first of `children` that hangs under the field `name`.
pub open spec fn field_child(children: Seq<SyntaxNode>, name: Seq<char>) -> Option<SyntaxNode>
    decreases children.len(),
{
    if children.len() == 0 {
        None
    } else if has_field(children[0], name) {
        Some(children[0])
    } else {
        field_child(children.drop_first(), name)
    }
}

/// The first of `children` that is of the kind `kind`.
pub open spec fn kind_child(children: Seq<SyntaxNode>, kind: Seq<char>) -> Option<SyntaxNode>
    decreases children.len(),
{
    if children.len() == 0 {
        None
    } else if children[0].kind@ == kind {
        Some(children[0])
    } else {
        kind_child(children.drop_first(), kind)
    }
}

/// The texts of a list of nodes.
pub open spec fn node_texts(nodes: Seq<SyntaxNode>) -> Seq<Seq<char>> {
    nodes.map_values(|n: SyntaxNode| n.text@)
}

/// The one-based line of a zero-based row, held at the largest `u32` for
/// rows beyond it.
pub open spec fn line_of(row: usize) -> u32 {
    if row < u32::MAX {
        (row + 1) as u32
    } else {
        u32::MAX
    }
}

/// The line on which a node starts.
pub open spec fn start_line_of(node: SyntaxNode) -> u32 {
    line_of(node.start_row)
}

/// The line on which a node ends; never before the line on which it starts.
pub open spec fn end_line_of(node: SyntaxNode) -> u32 {
    if line_of(node.end_row) < line_of(node.start_row) {
        line_of(node.start_row)
    } else {
        line_of(node.end_row)
    }
}

/// The one-based line of a zero-based row.
pub fn line_number(row: usize) -> (line: u32)
    ensures
        line == line_of(row),
{
    if row < 0xFFFF_FFFF {
        (row + 1) as u32
    } else {
        0xFFFF_FFFF
    }
}

impl SyntaxNode {
    /// A node without children.
    pub fn leaf(kind: &str, text: &str, start_row: usize, end_row: usize) -> (n: Self)
        ensures
            n.kind@ == kind@,
            n.text@ == text@,
            n.field is None,
            n.start_row == start_row,
            n.end_row == end_row,
            n.children@.len() == 0,
    {
        SyntaxNode {
            kind: kind.to_string(),
            field: None,
            text: text.to_string(),
            start_row,
            end_row,
            children: Vec::new(),
        }
    }

    /// The same node hanging under the field `name`.
    pub fn in_field(self, name: &str) -> (n: Self)
        ensures
            n.field is Some,
            n.field->0@ == name@,
            n.kind == self.kind,
            n.text == self.text,
            n.start_row == self.start_row,
            n.end_row == self.end_row,
            n.children == self.children,
    {
        let mut n = self;
        n.field = Some(name.to_string());
        n
    }

    /// The same node with the given children.
    pub fn with_children(self, children: Vec<SyntaxNode>) -> (n: Self)
        ensures
            n.children == children,
            n.kind == self.kind,
            n.text == self.text,
            n.field == self.field,
            n.start_row == self.start_row,
            n.end_row == self.end_row,
    {
        let mut n = self;
        n.children = children;
        n
    }

    /// Whether the node is of the kind `kind`.
    pub fn is_kind(&self, kind: &str) -> (r: bool)
        ensures
            r == (self.kind@ == kind@),
    {
        self.kind.as_str().eq(kind)
    }

    /// The first child that hangs under the field `name`.
    pub fn child_by_field_name(&self, name: &str) -> (r: Option<&SyntaxNode>)
        ensures
            match r {
                Some(c) => field_child(self.children@, name@) == Some(*c),
                None => field_child(self.children@, name@) is None,
            },
    {
        let mut i: usize = 0;
        proof {
            assert(self.children@.skip(0) =~= self.children@);
        }
        while i < self.children.len()
            invariant
                i <= self.children.len(),
                field_child(self.children@, name@) == field_child(
                    self.children@.skip(i as int),
                    name@,
                ),
            decreases self.children.len() - i,
        {
            let c = &self.children[i];
            proof {
                assert(self.children@.skip(i as int)[0] == *c);
                assert(self.children@.skip(i as int).drop_first() =~= self.children@.skip(i + 1));
            }
            let hit = match &c.field {
                Some(f) => f.as_str().eq(name),
                None => false,
            };
            if hit {
                return Some(c);
            }
            i += 1;
        }
        None
    }

    /// The first child of the kind `kind`.
    pub fn child_by_kind(&self, kind: &str) -> (r: Option<&SyntaxNode>)
        ensures
            match r {
                Some(c) => kind_child(self.children@, kind@) == Some(*c),
                None => kind_child(self.children@, kind@) is None,
            },
    {
        let mut i: usize = 0;
        proof {
            assert(self.children@.skip(0) =~= self.children@);
        }
        while i < self.children.len()
            invariant
                i <= self.children.len(),
                kind_child(self.children@, kind@) == kind_child(self.children@.skip(i as int), kind@),
            decreases self.children.len() - i,
        {
            let c = &self.children[i];
            proof {
                assert(self.children@.skip(i as int)[0] == *c);
                assert(self.children@.skip(i as int).drop_first() =~= self.children@.skip(i + 1));
            }
            if c.is_kind(kind) {
                return Some(c);
            }
            i += 1;
        }
        None
    }

    /// The line on which the node starts.
    pub fn start_line(&self) -> (line: u32)
        ensures
            line == start_line_of(*self),
    {
        line_number(self.start_row)
    }

    /// The line on which the node ends.
    pub fn end_line(&self) -> (line: u32)
        ensures
            line == end_line_of(*self),
            line >= start_line_of(*self),
    {
        let a = line_number(self.start_row);
        let b = line_number(self.end_row);
        if b < a {
            a
        } else {
            b
        }
    }

    /// The texts of the node's children, in order.
    pub fn child_texts(&self) -> (r: Vec<String>)
        ensures
            texts(r@) == node_texts(self.children@),
    {
        let mut r: Vec<String> = Vec::new();
        let mut i: usize = 0;
        while i < self.children.len()
            invariant
                i <= self.children.len(),
                texts(r@) == node_texts(self.children@).take(i as int),
            decreases self.children.len() - i,
        {
            let ghost before = texts(r@);
            let t = self.children[i].text.clone();
            r.push(t);
            proof {
                assert(texts(r@) =~= before.push(t@));
                assert(node_texts(self.children@).take(i as int).push(t@) =~= node_texts(
                    self.children@,
                ).take(i + 1));
            }
            i += 1;
        }
        proof {
            assert(node_texts(self.children@).take(self.children.len() as int) =~= node_texts(
                self.children@,
            ));
        }
        r
    }
}

} // verus!
