use vstd::prelude::*;

verus! {

/// The grammar production that a node of the parse tree stands for.
#[derive(Clone, Copy, Debug, PartialEq, Eq, Structural)]
pub enum Rule {
    Grammar,
    Package,
    ImportModel,
    ImportNamespace,
    Interface,
    TypeCollection,
    Comment,
    MultilineComment,
    Version,
    Major,
    Minor,
    Typedef,
    Method,
    Attribute,
    Structure,
    Enumeration,
    EnumValue,
    AnnotationBlock,
    Annotation,
    AnnotationName,
    AnnotationContent,
    InputParams,
    OutputParams,
    VariableDeclaration,
    TypeRef,
    VariableName,
    TypeDec,
    Digits,
    Number,
    FilePath,
    Wildcard,
    OpenBracket,
    CloseBracket,
}

/// One node of the parse tree: its production, the span of source characters
/// it covers (`start..end`, counted in `char`s), and the keys of its children
/// in document order.
pub struct Node {
    pub rule: Rule,
    pub start: usize,
    pub end: usize,
    pub children: Vec<usize>,
}

/// An arena of nodes addressed by their index; the root is at key 0.
pub struct Tree {
    pub nodes: Vec<Node>,
}

impl Tree {
    /// Every span lies inside a source of `len` characters and every child
    /// key addresses a node of the arena.
    pub open spec fn wf(&self, len: nat) -> bool {
        forall|k: int|
            0 <= k < self.nodes@.len() ==> #[trigger] self.node_wf(k, len)
    }

    pub open spec fn node_wf(&self, k: int, len: nat) -> bool {
        let n = self.nodes@[k];
        &&& n.start <= n.end <= len
        &&& forall|j: int|
            0 <= j < n.children@.len() ==> #[trigger] n.children@[j] < self.nodes@.len()
    }

    pub open spec fn rule_of(&self, k: int) -> Rule {
        self.nodes@[k].rule
    }

    pub open spec fn kids(&self, k: int) -> Seq<usize> {
        self.nodes@[k].children@
    }

    /// The source characters that node `k` covers.
    pub open spec fn text(&self, s: Seq<char>, k: int) -> Seq<char> {
        s.subrange(self.nodes@[k].start as int, self.nodes@[k].end as int)
    }

    /// Checks `wf` for a source of `len` characters.
    pub fn is_wf(&self, len: usize) -> (b: bool)
        ensures
            b == self.wf(len as nat),
    {
        let n = self.nodes.len();
        let mut k: usize = 0;
        while k < n
            invariant
                n == self.nodes@.len(),
                k <= n,
                forall|i: int| 0 <= i < k ==> #[trigger] self.node_wf(i, len as nat),
            decreases n - k,
        {
            let node = &self.nodes[k];
            if !(node.start <= node.end && node.end <= len) {
                assert(!self.node_wf(k as int, len as nat));
                return false;
            }
            let m = node.children.len();
            let mut j: usize = 0;
            while j < m
                invariant
                    n == self.nodes@.len(),
                    k < n,
                    node == self.nodes@[k as int],
                    m == node.children@.len(),
                    j <= m,
                    forall|i: int| 0 <= i < j ==> #[trigger] node.children@[i] < n,
                decreases m - j,
            {
                if node.children[j] >= n {
                    assert(!self.node_wf(k as int, len as nat));
                    return false;
                }
                j += 1;
            }
            assert(self.node_wf(k as int, len as nat));
            k += 1;
        }
        true
    }
}

} // verus!
