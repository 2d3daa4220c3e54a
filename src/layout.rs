//! What the formatter produces for each construct, stated over the tree, the
//! source characters and the mathematical value of lines.
use vstd::prelude::*;
use crate::indented_string::{all_deeper, deeper, line, merge, render_all, LineV};
use crate::text::{inner, skip, split_lines, trim, trim_start, without_blanks, without_cr};
use crate::tree::{Rule, Tree};

verus! {

/// Why a tree could not be formatted.
#[derive(Clone, Copy, Debug, PartialEq, Eq, Structural)]
pub enum FormatterError {
    /// A span reaches past the end of the source, a child key lies outside
    /// the arena, or the root is not a `Grammar` node with exactly one child.
    MalformedTree,
    /// A child with the first rule stands where the construct of the second
    /// rule has no place for it.
    UnexpectedNode(Rule, Rule),
    /// A construct of this rule lacks a part that its production always has
    /// (a closing bracket with no header before it, a version number without
    /// its digits).
    IncompleteNode(Rule),
}

/// The state of a bracketed construct while its children are read: the lines
/// so far, whether the opening and the closing bracket have been seen,
/// whether the header has been written (for the constructs that write it on
/// demand), and a comment after the opening bracket whose place depends on
/// what follows it.
pub struct Block {
    pub lines: Seq<LineV>,
    pub open: bool,
    pub close: bool,
    pub started: bool,
    pub pending: Option<usize>,
}

pub open spec fn block(lines: Seq<LineV>, started: bool) -> Block {
    Block { lines, open: false, close: false, started, pending: None }
}

/// Reads the children `kids[0..n]` in order with `step`, stopping at the
/// first error.
pub open spec fn fold_kids<S, E>(
    kids: Seq<usize>,
    n: nat,
    init: S,
    step: spec_fn(S, usize) -> Result<S, E>,
) -> Result<S, E>
    decreases n,
{
    if n == 0 {
        Ok(init)
    } else {
        match fold_kids(kids, (n - 1) as nat, init, step) {
            Ok(st) => step(st, kids[n - 1]),
            Err(e) => Err(e),
        }
    }
}

pub proof fn lemma_fold_next<S, E>(
    kids: Seq<usize>,
    n: nat,
    init: S,
    step: spec_fn(S, usize) -> Result<S, E>,
)
    ensures
        fold_kids(kids, n + 1, init, step) == match fold_kids(kids, n, init, step) {
            Ok(st) => step(st, kids[n as int]),
            Err(e) => Err(e),
        },
{
    assert((n + 1 - 1) as nat == n);
}

pub proof fn lemma_fold_stops<S, E>(
    kids: Seq<usize>,
    n: nat,
    m: nat,
    init: S,
    step: spec_fn(S, usize) -> Result<S, E>,
)
    requires
        n <= m,
        fold_kids(kids, n, init, step) is Err,
    ensures
        fold_kids(kids, m, init, step) == fold_kids(kids, n, init, step),
    decreases m - n,
{
    if m > n {
        lemma_fold_stops(kids, n, (m - 1) as nat, init, step);
    }
}

/// All children of node `k`, read with `step`.
pub open spec fn fold_all<S, E>(
    t: Tree,
    k: int,
    init: S,
    step: spec_fn(S, usize) -> Result<S, E>,
) -> Result<S, E> {
    fold_kids(t.kids(k), t.kids(k).len(), init, step)
}

pub open spec fn blank() -> LineV {
    line(0, Seq::empty())
}

/// A header line that is marked with the rule of its construct.
pub open spec fn header(text: Seq<char>, rule: Rule) -> LineV {
    LineV { rule, ..line(0, text) }
}

// ---- terminals ----

/// Type references and type declarations lose every blank.
pub open spec fn type_text(t: Tree, s: Seq<char>, k: int) -> Seq<char> {
    without_blanks(t.text(s, k))
}

pub open spec fn var_name(t: Tree, s: Seq<char>, k: int) -> Seq<char> {
    trim(t.text(s, k))
}

/// `// text`, the text being the comment without its two-character marker,
/// trimmed; with a leading space when it trails other text.
pub open spec fn comment_line(t: Tree, s: Seq<char>, k: int, leading_space: bool) -> LineV {
    LineV {
        commented: true,
        ..line(
            0,
            (if leading_space {
                " // "@
            } else {
                "// "@
            }) + trim(skip(t.text(s, k), 2)),
        )
    }
}

/// The lines of a multi-line comment body, each trimmed.
pub open spec fn ml_pieces(t: Tree, s: Seq<char>, k: int) -> Seq<Seq<char>> {
    split_lines(trim(without_cr(inner(t.text(s, k), 3)))).map_values(|p: Seq<char>| trim(p))
}

/// A one-line body stays on one line between the markers; a longer one is
/// written between marker lines, one level deeper.
pub open spec fn ml_lines(t: Tree, s: Seq<char>, k: int) -> Seq<LineV> {
    let p = ml_pieces(t, s, k);
    if p.len() == 1 {
        seq![line(0, "/** "@ + p[0] + " **/"@)]
    } else {
        seq![line(0, "/**"@)] + p.map_values(|x: Seq<char>| line(1, x)) + seq![line(0, "**/"@)]
    }
}

pub open spec fn content_lines(t: Tree, s: Seq<char>, k: int) -> Seq<LineV> {
    split_lines(without_cr(trim(t.text(s, k)))).map_values(|p: Seq<char>| line(0, trim(p)))
}

// ---- trivia inside bracketed constructs ----

/// A comment before the opening bracket trails the last line written (the
/// header), or gets a line of its own when there is none yet; after the
/// closing bracket it trails the last line.
pub open spec fn comment_into(
    t: Tree,
    s: Seq<char>,
    ls: Seq<LineV>,
    c: int,
    open: bool,
    close: bool,
    parent: Rule,
) -> Result<Seq<LineV>, FormatterError> {
    if ls.len() == 0 {
        if !open && !close {
            Ok(ls.push(comment_line(t, s, c, false)))
        } else {
            Err(FormatterError::IncompleteNode(parent))
        }
    } else {
        Ok(ls.drop_last().push(merge(ls.last(), comment_line(t, s, c, true))))
    }
}

/// A comment inside the brackets waits for the next child: before the closing
/// bracket it trails the last line, otherwise it gets a line of its own one
/// level deeper.
pub open spec fn comment_step(
    t: Tree,
    s: Seq<char>,
    st: Block,
    c: int,
    parent: Rule,
) -> Result<Block, FormatterError> {
    if st.open && !st.close {
        Ok(Block { pending: Some(c as usize), ..st })
    } else {
        match comment_into(t, s, st.lines, c, st.open, st.close, parent) {
            Ok(ls) => Ok(Block { lines: ls, ..st }),
            Err(e) => Err(e),
        }
    }
}

/// A waiting comment that no closing bracket follows: a line of its own, one
/// level deeper.
pub open spec fn flush(t: Tree, s: Seq<char>, st: Block) -> Block {
    match st.pending {
        Some(c) => Block {
            lines: st.lines.push(deeper(comment_line(t, s, c as int, false))),
            pending: None,
            ..st
        },
        None => st,
    }
}

/// `inner`, with a waiting comment written before any child but the closing
/// bracket.
pub open spec fn with_pending(
    t: Tree,
    s: Seq<char>,
    inner: spec_fn(Block, usize) -> Result<Block, FormatterError>,
) -> spec_fn(Block, usize) -> Result<Block, FormatterError> {
    |st: Block, c: usize|
        if t.rule_of(c as int) == Rule::CloseBracket {
            inner(st, c)
        } else {
            inner(flush(t, s, st), c)
        }
}

/// An annotation block: inside the brackets one level deeper.
pub open spec fn annotations_into(
    st: Block,
    r: Result<Seq<LineV>, FormatterError>,
) -> Result<Block, FormatterError> {
    match r {
        Ok(a) => Ok(
            Block {
                lines: if st.open && !st.close {
                    st.lines + all_deeper(a)
                } else {
                    st.lines + a
                },
                ..st
            },
        ),
        Err(e) => Err(e),
    }
}

pub open spec fn ml_into(
    t: Tree,
    s: Seq<char>,
    ls: Seq<LineV>,
    c: int,
    open: bool,
    close: bool,
) -> Seq<LineV> {
    if open && !close {
        ls + all_deeper(ml_lines(t, s, c))
    } else {
        ls + ml_lines(t, s, c)
    }
}

pub open spec fn brace() -> LineV {
    line(0, "}"@)
}

/// The closing bracket. A trailing blank separator is dropped first. When the
/// last line is the construct's own header (the block is empty) and carries
/// no comment, `}` joins it; otherwise `}` gets a line of its own. A comment
/// waiting before the bracket trails the header after `}` in an empty block,
/// and else trails the last line.
pub open spec fn close_block(
    t: Tree,
    s: Seq<char>,
    ls: Seq<LineV>,
    pending: Option<usize>,
    parent: Rule,
) -> Result<Seq<LineV>, FormatterError> {
    let ls1 = if ls.len() > 0 && ls.last() == blank() {
        ls.drop_last()
    } else {
        ls
    };
    if ls1.len() == 0 {
        Err(FormatterError::IncompleteNode(parent))
    } else {
        let last = ls1.last();
        let rest = ls1.drop_last();
        let empty = last.rule == parent && !last.commented;
        match pending {
            None => if empty {
                Ok(rest.push(merge(last, brace())))
            } else {
                Ok(ls1.push(brace()))
            },
            Some(c) => if empty {
                Ok(rest.push(merge(merge(last, brace()), comment_line(t, s, c as int, true))))
            } else {
                Ok(rest.push(merge(last, comment_line(t, s, c as int, true))).push(brace()))
            },
        }
    }
}

/// Drops a trailing blank separator line, unless it is the only line.
pub open spec fn without_trailing_blank(ls: Seq<LineV>) -> Seq<LineV> {
    if ls.len() > 1 && ls.last() == blank() {
        ls.drop_last()
    } else {
        ls
    }
}

// ---- annotations ----

pub struct AnnSt {
    pub lines: Seq<LineV>,
    pub name: Seq<char>,
}

pub open spec fn annotation_step(
    t: Tree,
    s: Seq<char>,
) -> spec_fn(AnnSt, usize) -> Result<AnnSt, FormatterError> {
    |st: AnnSt, c: usize|
        match t.rule_of(c as int) {
            Rule::AnnotationName => Ok(AnnSt { name: trim_start(t.text(s, c as int)), ..st }),
            Rule::AnnotationContent => {
                let cl = content_lines(t, s, c as int);
                if cl.len() == 1 {
                    Ok(AnnSt { lines: st.lines.push(line(0, "@"@ + st.name + ": "@ + cl[0].text)), ..st })
                } else {
                    Ok(AnnSt { lines: st.lines.push(line(0, "@"@ + st.name + ":"@)) + all_deeper(cl), ..st })
                }
            },
            r => Err(FormatterError::UnexpectedNode(r, Rule::Annotation)),
        }
}

/// `@name: content` on one line when the content has one line; otherwise
/// `@name:` followed by the content lines one level deeper.
pub open spec fn annotation_lines(
    t: Tree,
    s: Seq<char>,
    k: int,
) -> Result<Seq<LineV>, FormatterError> {
    match fold_all(t, k, AnnSt { lines: Seq::empty(), name: Seq::empty() }, annotation_step(t, s)) {
        Ok(st) => Ok(st.lines),
        Err(e) => Err(e),
    }
}

pub struct AnnBlockSt {
    pub count: nat,
    pub lines: Seq<LineV>,
    pub comments: Seq<LineV>,
}

pub open spec fn annotation_block_step(
    t: Tree,
    s: Seq<char>,
) -> spec_fn(AnnBlockSt, usize) -> Result<AnnBlockSt, FormatterError> {
    |st: AnnBlockSt, c: usize|
        match t.rule_of(c as int) {
            Rule::Annotation => match annotation_lines(t, s, c as int) {
                Ok(a) => Ok(AnnBlockSt { count: st.count + 1, lines: st.lines + a, ..st }),
                Err(e) => Err(e),
            },
            Rule::Comment => Ok(AnnBlockSt { comments: st.comments.push(comment_line(t, s, c as int, false)), ..st }),
            Rule::MultilineComment => Ok(AnnBlockSt { comments: st.comments + ml_lines(t, s, c as int), ..st }),
            r => Err(FormatterError::UnexpectedNode(r, Rule::AnnotationBlock)),
        }
}

/// One annotation of one line collapses to `<** @name: content **>`; anything
/// else is written between `<**` and `**>`, one level deeper. Comments of the
/// block follow it.
pub open spec fn annotation_block_lines(
    t: Tree,
    s: Seq<char>,
    k: int,
) -> Result<Seq<LineV>, FormatterError> {
    match fold_all(t, k, AnnBlockSt { count: 0, lines: Seq::empty(), comments: Seq::empty() }, annotation_block_step(t, s)) {
        Ok(st) => if st.count == 1 && st.lines.len() == 1 {
            Ok(seq![line(0, "<** "@ + st.lines[0].text + " **>"@)] + st.comments)
        } else {
            Ok(seq![line(0, "<**"@)] + all_deeper(st.lines) + seq![line(0, "**>"@)] + st.comments)
        },
        Err(e) => Err(e),
    }
}

// ---- members ----

pub struct EnumValueSt {
    pub lines: Seq<LineV>,
    pub name: Seq<char>,
    pub number: Option<Seq<char>>,
    pub comment: LineV,
}

pub open spec fn enum_value_step(
    t: Tree,
    s: Seq<char>,
) -> spec_fn(EnumValueSt, usize) -> Result<EnumValueSt, FormatterError> {
    |st: EnumValueSt, c: usize|
        match t.rule_of(c as int) {
            Rule::AnnotationBlock => match annotation_block_lines(t, s, c as int) {
                Ok(a) => Ok(EnumValueSt { lines: st.lines + a, ..st }),
                Err(e) => Err(e),
            },
            Rule::Comment => Ok(
                EnumValueSt { comment: merge(st.comment, comment_line(t, s, c as int, true)), ..st },
            ),
            Rule::MultilineComment => Ok(EnumValueSt { lines: st.lines + ml_lines(t, s, c as int), ..st }),
            Rule::VariableName => Ok(EnumValueSt { name: var_name(t, s, c as int), ..st }),
            Rule::Number => Ok(EnumValueSt { number: Some(t.text(s, c as int)), ..st }),
            r => Err(FormatterError::UnexpectedNode(r, Rule::EnumValue)),
        }
}

/// `name` or `name = number`, the number as written, with its comments
/// trailing on the same line.
pub open spec fn enum_value_lines(
    t: Tree,
    s: Seq<char>,
    k: int,
) -> Result<Seq<LineV>, FormatterError> {
    let init = EnumValueSt { lines: Seq::empty(), name: Seq::empty(), number: None, comment: blank() };
    match fold_all(t, k, init, enum_value_step(t, s)) {
        Ok(st) => {
            let text = match st.number {
                None => st.name,
                Some(n) => st.name + " = "@ + n,
            };
            Ok(st.lines.push(merge(line(0, text), st.comment)))
        },
        Err(e) => Err(e),
    }
}

pub struct TypedefSt {
    pub lines: Seq<LineV>,
    pub type_dec: Seq<char>,
    pub seen_type: bool,
}

pub open spec fn typedef_step(
    t: Tree,
    s: Seq<char>,
) -> spec_fn(TypedefSt, usize) -> Result<TypedefSt, FormatterError> {
    |st: TypedefSt, c: usize|
        match t.rule_of(c as int) {
            Rule::AnnotationBlock => match annotation_block_lines(t, s, c as int) {
                Ok(a) => Ok(TypedefSt { lines: st.lines + a, ..st }),
                Err(e) => Err(e),
            },
            Rule::MultilineComment => Ok(TypedefSt { lines: st.lines + ml_lines(t, s, c as int), ..st }),
            Rule::Comment => if st.seen_type {
                if st.lines.len() == 0 {
                    Err(FormatterError::IncompleteNode(Rule::Typedef))
                } else {
                    Ok(TypedefSt { lines: st.lines.drop_last().push(merge(st.lines.last(), comment_line(t, s, c as int, true))), ..st })
                }
            } else {
                Ok(TypedefSt { lines: st.lines.push(comment_line(t, s, c as int, false)), ..st })
            },
            Rule::TypeDec => Ok(TypedefSt { type_dec: type_text(t, s, c as int), ..st }),
            Rule::TypeRef => Ok(TypedefSt {
                lines: st.lines.push(line(0, "typedef "@ + st.type_dec + " is "@ + type_text(t, s, c as int))),
                seen_type: true,
                ..st
            }),
            r => Err(FormatterError::UnexpectedNode(r, Rule::Typedef)),
        }
}

/// `typedef <name> is <type>`; a comment after the type trails that line.
pub open spec fn typedef_lines(
    t: Tree,
    s: Seq<char>,
    k: int,
) -> Result<Seq<LineV>, FormatterError> {
    match fold_all(t, k, TypedefSt { lines: Seq::empty(), type_dec: Seq::empty(), seen_type: false }, typedef_step(t, s)) {
        Ok(st) => Ok(st.lines),
        Err(e) => Err(e),
    }
}

pub struct AttributeSt {
    pub lines: Seq<LineV>,
    pub type_ref: Seq<char>,
    pub named: bool,
}

pub open spec fn attribute_step(
    t: Tree,
    s: Seq<char>,
) -> spec_fn(AttributeSt, usize) -> Result<AttributeSt, FormatterError> {
    |st: AttributeSt, c: usize|
        match t.rule_of(c as int) {
            Rule::AnnotationBlock => match annotation_block_lines(t, s, c as int) {
                Ok(a) => Ok(AttributeSt { lines: st.lines + a, ..st }),
                Err(e) => Err(e),
            },
            Rule::TypeRef => Ok(AttributeSt { type_ref: type_text(t, s, c as int), ..st }),
            Rule::VariableName => Ok(AttributeSt {
                lines: st.lines.push(line(0, "attribute "@ + st.type_ref + " "@ + var_name(t, s, c as int))),
                named: true,
                ..st
            }),
            Rule::MultilineComment => Ok(AttributeSt { lines: st.lines + ml_lines(t, s, c as int), ..st }),
            Rule::Comment => if st.named && st.lines.len() > 0 {
                Ok(AttributeSt {
                    lines: st.lines.drop_last().push(merge(st.lines.last(), comment_line(t, s, c as int, true))),
                    ..st
                })
            } else {
                Ok(AttributeSt { lines: st.lines.push(comment_line(t, s, c as int, false)), ..st })
            },
            r => Err(FormatterError::UnexpectedNode(r, Rule::Attribute)),
        }
}

/// `attribute <type> <name>`; a comment after the name trails that line.
pub open spec fn attribute_lines(
    t: Tree,
    s: Seq<char>,
    k: int,
) -> Result<Seq<LineV>, FormatterError> {
    match fold_all(
        t,
        k,
        AttributeSt { lines: Seq::empty(), type_ref: Seq::empty(), named: false },
        attribute_step(t, s),
    ) {
        Ok(st) => Ok(st.lines),
        Err(e) => Err(e),
    }
}

pub struct VarDeclSt {
    pub lines: Seq<LineV>,
    pub type_ref: Seq<char>,
    pub last_comment: bool,
}

pub open spec fn variable_declaration_step(
    t: Tree,
    s: Seq<char>,
) -> spec_fn(VarDeclSt, usize) -> Result<VarDeclSt, FormatterError> {
    |st: VarDeclSt, c: usize|
        match t.rule_of(c as int) {
            Rule::AnnotationBlock => match annotation_block_lines(t, s, c as int) {
                Ok(a) => Ok(VarDeclSt { lines: st.lines + a, last_comment: false, ..st }),
                Err(e) => Err(e),
            },
            Rule::TypeRef => Ok(VarDeclSt { type_ref: type_text(t, s, c as int), last_comment: false, ..st }),
            Rule::VariableName => Ok(VarDeclSt {
                lines: st.lines.push(line(0, st.type_ref + " "@ + var_name(t, s, c as int))),
                last_comment: false,
                ..st
            }),
            Rule::Comment => Ok(VarDeclSt { lines: st.lines.push(comment_line(t, s, c as int, false)), last_comment: true, ..st }),
            r => Err(FormatterError::UnexpectedNode(r, Rule::VariableDeclaration)),
        }
}

/// `<type> <name>`; a comment that ends the declaration trails its line.
pub open spec fn variable_declaration_lines(
    t: Tree,
    s: Seq<char>,
    k: int,
) -> Result<Seq<LineV>, FormatterError> {
    match fold_all(t, k, VarDeclSt { lines: Seq::empty(), type_ref: Seq::empty(), last_comment: false }, variable_declaration_step(t, s)) {
        Ok(st) => if st.last_comment {
            let rest = st.lines.drop_last();
            if rest.len() == 0 {
                Err(FormatterError::IncompleteNode(Rule::VariableDeclaration))
            } else {
                Ok(rest.drop_last().push(merge(rest.last(), merge(line(0, " "@), st.lines.last()))))
            }
        } else {
            Ok(st.lines)
        },
        Err(e) => Err(e),
    }
}

/// `major <digits>` or `minor <digits>`, with an optional trailing comment.
pub open spec fn version_part_line(
    t: Tree,
    s: Seq<char>,
    k: int,
    word: Seq<char>,
    rule: Rule,
) -> Result<LineV, FormatterError> {
    let kids = t.kids(k);
    if kids.len() == 0 {
        Err(FormatterError::IncompleteNode(rule))
    } else if t.rule_of(kids[0] as int) != Rule::Digits {
        Err(FormatterError::UnexpectedNode(t.rule_of(kids[0] as int), rule))
    } else {
        let l = line(0, word + t.text(s, kids[0] as int));
        if kids.len() == 1 {
            Ok(l)
        } else if kids.len() == 2 {
            if t.rule_of(kids[1] as int) == Rule::Comment {
                Ok(merge(l, comment_line(t, s, kids[1] as int, true)))
            } else {
                Err(FormatterError::UnexpectedNode(t.rule_of(kids[1] as int), rule))
            }
        } else {
            Err(FormatterError::UnexpectedNode(t.rule_of(kids[2] as int), rule))
        }
    }
}

pub open spec fn version_step(
    t: Tree,
    s: Seq<char>,
) -> spec_fn(Block, usize) -> Result<Block, FormatterError> {
    with_pending(
        t,
        s,
        |st: Block, c: usize|
            match t.rule_of(c as int) {
                Rule::OpenBracket => Ok(Block { open: true, ..st }),
                Rule::CloseBracket => match close_block(t, s, st.lines, st.pending, Rule::Version) {
                    Ok(ls) => Ok(Block { lines: ls, close: true, pending: None, ..st }),
                    Err(e) => Err(e),
                },
                Rule::Comment => comment_step(t, s, st, c as int, Rule::Version),
                Rule::MultilineComment => Ok(Block { lines: ml_into(t, s, st.lines, c as int, st.open, st.close), ..st }),
                Rule::AnnotationBlock => annotations_into(st, annotation_block_lines(t, s, c as int)),
                Rule::Major => match version_part_line(t, s, c as int, "major "@, Rule::Major) {
                    Ok(l) => Ok(Block { lines: st.lines.push(deeper(l)), ..st }),
                    Err(e) => Err(e),
                },
                Rule::Minor => match version_part_line(t, s, c as int, "minor "@, Rule::Minor) {
                    Ok(l) => Ok(Block { lines: st.lines.push(deeper(l)), ..st }),
                    Err(e) => Err(e),
                },
                r => Err(FormatterError::UnexpectedNode(r, Rule::Version)),
            },
    )
}

/// `version {`, the major and minor lines one level deeper, `}`.
pub open spec fn version_lines(t: Tree, s: Seq<char>, k: int) -> Result<Seq<LineV>, FormatterError> {
    match fold_all(t, k, block(seq![header("version {"@, Rule::Version)], false), version_step(t, s)) {
        Ok(st) => Ok(flush(t, s, st).lines),
        Err(e) => Err(e),
    }
}

pub open spec fn structure_step(
    t: Tree,
    s: Seq<char>,
) -> spec_fn(Block, usize) -> Result<Block, FormatterError> {
    with_pending(
        t,
        s,
        |st: Block, c: usize|
            match t.rule_of(c as int) {
                Rule::OpenBracket => Ok(Block { open: true, ..st }),
                Rule::CloseBracket => match close_block(t, s, st.lines, st.pending, Rule::Structure) {
                    Ok(ls) => Ok(Block { lines: ls, close: true, pending: None, ..st }),
                    Err(e) => Err(e),
                },
                Rule::Comment => comment_step(t, s, st, c as int, Rule::Structure),
                Rule::MultilineComment => Ok(Block { lines: ml_into(t, s, st.lines, c as int, st.open, st.close), ..st }),
                Rule::AnnotationBlock => annotations_into(st, annotation_block_lines(t, s, c as int)),
                Rule::TypeDec => Ok(Block {
                    lines: st.lines.push(header("struct "@ + type_text(t, s, c as int) + " {"@, Rule::Structure)),
                    ..st
                }),
                Rule::VariableDeclaration => match variable_declaration_lines(t, s, c as int) {
                    Ok(v) => Ok(Block { lines: st.lines + all_deeper(v), ..st }),
                    Err(e) => Err(e),
                },
                r => Err(FormatterError::UnexpectedNode(r, Rule::Structure)),
            },
    )
}

/// `struct <name> {`, the fields one level deeper, `}`.
pub open spec fn structure_lines(t: Tree, s: Seq<char>, k: int) -> Result<Seq<LineV>, FormatterError> {
    match fold_all(t, k, block(Seq::empty(), false), structure_step(t, s)) {
        Ok(st) => Ok(flush(t, s, st).lines),
        Err(e) => Err(e),
    }
}

pub open spec fn enumeration_step(
    t: Tree,
    s: Seq<char>,
) -> spec_fn(Block, usize) -> Result<Block, FormatterError> {
    with_pending(
        t,
        s,
        |st: Block, c: usize|
            match t.rule_of(c as int) {
                Rule::OpenBracket => Ok(Block { open: true, ..st }),
                Rule::CloseBracket => match close_block(t, s, st.lines, st.pending, Rule::Enumeration) {
                    Ok(ls) => Ok(Block { lines: ls, close: true, pending: None, ..st }),
                    Err(e) => Err(e),
                },
                Rule::Comment => comment_step(t, s, st, c as int, Rule::Enumeration),
                Rule::MultilineComment => Ok(Block { lines: ml_into(t, s, st.lines, c as int, st.open, st.close), ..st }),
                Rule::AnnotationBlock => annotations_into(st, annotation_block_lines(t, s, c as int)),
                Rule::TypeDec => Ok(Block {
                    lines: st.lines.push(header("enumeration "@ + type_text(t, s, c as int) + " {"@, Rule::Enumeration)),
                    ..st
                }),
                Rule::EnumValue => match enum_value_lines(t, s, c as int) {
                    Ok(v) => Ok(Block { lines: st.lines + all_deeper(v), ..st }),
                    Err(e) => Err(e),
                },
                r => Err(FormatterError::UnexpectedNode(r, Rule::Enumeration)),
            },
    )
}

/// `enumeration <name> {`, the values one level deeper, `}`.
pub open spec fn enumeration_lines(t: Tree, s: Seq<char>, k: int) -> Result<Seq<LineV>, FormatterError> {
    match fold_all(t, k, block(Seq::empty(), false), enumeration_step(t, s)) {
        Ok(st) => Ok(flush(t, s, st).lines),
        Err(e) => Err(e),
    }
}

/// The header line of an input or output section, written before its first
/// content.
pub open spec fn with_header(st: Block, head: Seq<char>, rule: Rule) -> Block {
    if st.started {
        st
    } else {
        Block { lines: st.lines.push(header(head, rule)), started: true, ..st }
    }
}

pub open spec fn params_step(
    t: Tree,
    s: Seq<char>,
    head: Seq<char>,
    rule: Rule,
) -> spec_fn(Block, usize) -> Result<Block, FormatterError> {
    with_pending(
        t,
        s,
        |st: Block, c: usize|
            match t.rule_of(c as int) {
                Rule::OpenBracket => Ok(Block { open: true, ..st }),
                Rule::CloseBracket => if st.lines.len() == 0 && st.pending is None {
                    Ok(Block { close: true, ..st })
                } else {
                    match close_block(t, s, st.lines, st.pending, rule) {
                        Ok(ls) => Ok(Block { lines: ls, close: true, pending: None, ..st }),
                        Err(e) => Err(e),
                    }
                },
                Rule::Comment => comment_step(t, s, with_header(st, head, rule), c as int, rule),
                Rule::MultilineComment => {
                    let st2 = with_header(st, head, rule);
                    Ok(Block { lines: ml_into(t, s, st2.lines, c as int, st2.open, st2.close), ..st2 })
                },
                Rule::AnnotationBlock => annotations_into(st, annotation_block_lines(t, s, c as int)),
                Rule::VariableDeclaration => match variable_declaration_lines(t, s, c as int) {
                    Ok(v) => {
                        let st2 = with_header(st, head, rule);
                        Ok(Block { lines: st2.lines + all_deeper(v), ..st2 })
                    },
                    Err(e) => Err(e),
                },
                r => Err(FormatterError::UnexpectedNode(r, rule)),
            },
    )
}

/// `in {` or `out {` (the header `head`), the parameters one level deeper,
/// `}`; a section with nothing in it writes nothing at all.
pub open spec fn params_lines(
    t: Tree,
    s: Seq<char>,
    k: int,
    head: Seq<char>,
    rule: Rule,
) -> Result<Seq<LineV>, FormatterError> {
    match fold_all(t, k, block(Seq::empty(), false), params_step(t, s, head, rule)) {
        Ok(st) => Ok(flush(t, s, st).lines),
        Err(e) => Err(e),
    }
}

pub open spec fn method_step(
    t: Tree,
    s: Seq<char>,
) -> spec_fn(Block, usize) -> Result<Block, FormatterError> {
    with_pending(
        t,
        s,
        |st: Block, c: usize|
            match t.rule_of(c as int) {
                Rule::OpenBracket => Ok(Block { open: true, ..st }),
                Rule::CloseBracket => match close_block(t, s, st.lines, st.pending, Rule::Method) {
                    Ok(ls) => Ok(Block { lines: ls, close: true, pending: None, ..st }),
                    Err(e) => Err(e),
                },
                Rule::Comment => comment_step(t, s, st, c as int, Rule::Method),
                Rule::MultilineComment => Ok(Block { lines: ml_into(t, s, st.lines, c as int, st.open, st.close), ..st }),
                Rule::AnnotationBlock => annotations_into(st, annotation_block_lines(t, s, c as int)),
                Rule::VariableName => Ok(Block {
                    lines: st.lines.push(header("method "@ + var_name(t, s, c as int) + " {"@, Rule::Method)),
                    ..st
                }),
                Rule::InputParams => match params_lines(t, s, c as int, "in {"@, Rule::InputParams) {
                    Ok(v) => Ok(Block { lines: st.lines + all_deeper(v), ..st }),
                    Err(e) => Err(e),
                },
                Rule::OutputParams => match params_lines(t, s, c as int, "out {"@, Rule::OutputParams) {
                    Ok(v) => Ok(Block { lines: st.lines + all_deeper(v), ..st }),
                    Err(e) => Err(e),
                },
                r => Err(FormatterError::UnexpectedNode(r, Rule::Method)),
            },
    )
}

/// `method <name> {`, the sections one level deeper, `}`.
pub open spec fn method_lines(t: Tree, s: Seq<char>, k: int) -> Result<Seq<LineV>, FormatterError> {
    match fold_all(t, k, block(Seq::empty(), false), method_step(t, s)) {
        Ok(st) => Ok(flush(t, s, st).lines),
        Err(e) => Err(e),
    }
}

// ---- top-level blocks ----

/// Lines of a member, one level deeper, then a blank separator line.
pub open spec fn member(st: Block, r: Result<Seq<LineV>, FormatterError>) -> Result<Block, FormatterError> {
    match r {
        Ok(v) => Ok(Block { lines: (st.lines + all_deeper(v)).push(blank()), ..st }),
        Err(e) => Err(e),
    }
}

pub open spec fn interface_step(
    t: Tree,
    s: Seq<char>,
) -> spec_fn(Block, usize) -> Result<Block, FormatterError> {
    with_pending(
        t,
        s,
        |st: Block, c: usize|
            match t.rule_of(c as int) {
                Rule::OpenBracket => Ok(Block { open: true, ..st }),
                Rule::CloseBracket => match close_block(t, s, st.lines, st.pending, Rule::Interface) {
                    Ok(ls) => Ok(Block { lines: ls, close: true, pending: None, ..st }),
                    Err(e) => Err(e),
                },
                Rule::Comment => comment_step(t, s, st, c as int, Rule::Interface),
                Rule::MultilineComment => Ok(Block { lines: ml_into(t, s, st.lines, c as int, st.open, st.close), ..st }),
                Rule::AnnotationBlock => annotations_into(st, annotation_block_lines(t, s, c as int)),
                Rule::VariableName => Ok(Block {
                    lines: st.lines.push(header("interface "@ + var_name(t, s, c as int) + " {"@, Rule::Interface)),
                    ..st
                }),
                Rule::Version => member(st, version_lines(t, s, c as int)),
                Rule::Typedef => member(st, typedef_lines(t, s, c as int)),
                Rule::Method => member(st, method_lines(t, s, c as int)),
                Rule::Attribute => member(st, attribute_lines(t, s, c as int)),
                Rule::Structure => member(st, structure_lines(t, s, c as int)),
                Rule::Enumeration => member(st, enumeration_lines(t, s, c as int)),
                r => Err(FormatterError::UnexpectedNode(r, Rule::Interface)),
            },
    )
}

/// `interface <name> {`, the members one level deeper and separated by
/// blank lines, `}`; an empty interface is `interface <name> {}`.
pub open spec fn interface_lines(t: Tree, s: Seq<char>, k: int) -> Result<Seq<LineV>, FormatterError> {
    match fold_all(t, k, block(Seq::empty(), false), interface_step(t, s)) {
        Ok(st) => Ok(without_trailing_blank(flush(t, s, st).lines)),
        Err(e) => Err(e),
    }
}

/// The header of a type collection whose name has not been read: written
/// before its opening bracket or first member.
pub open spec fn tc_started(st: Block) -> Block {
    if st.started {
        st
    } else {
        Block { lines: st.lines.push(header("typeCollection {"@, Rule::TypeCollection)), started: true, ..st }
    }
}

pub open spec fn type_collection_step(
    t: Tree,
    s: Seq<char>,
) -> spec_fn(Block, usize) -> Result<Block, FormatterError> {
    with_pending(
        t,
        s,
        |st: Block, c: usize|
            match t.rule_of(c as int) {
                Rule::OpenBracket => Ok(Block { open: true, ..tc_started(st) }),
                Rule::CloseBracket => match close_block(t, s, st.lines, st.pending, Rule::TypeCollection) {
                    Ok(ls) => Ok(Block { lines: ls, close: true, pending: None, ..st }),
                    Err(e) => Err(e),
                },
                Rule::Comment => comment_step(t, s, tc_started(st), c as int, Rule::TypeCollection),
                Rule::MultilineComment => Ok(Block { lines: ml_into(t, s, st.lines, c as int, st.open, st.close), ..st }),
                Rule::VariableName => Ok(Block {
                    lines: st.lines.push(header("typeCollection "@ + var_name(t, s, c as int) + " {"@, Rule::TypeCollection)),
                    started: true,
                    ..st
                }),
                Rule::AnnotationBlock => annotations_into(st, annotation_block_lines(t, s, c as int)),
                Rule::Typedef => member(tc_started(st), typedef_lines(t, s, c as int)),
                Rule::Structure => member(tc_started(st), structure_lines(t, s, c as int)),
                Rule::Version => member(tc_started(st), version_lines(t, s, c as int)),
                Rule::Enumeration => member(tc_started(st), enumeration_lines(t, s, c as int)),
                r => Err(FormatterError::UnexpectedNode(r, Rule::TypeCollection)),
            },
    )
}

/// Like an interface; the name is optional, and a nameless type collection
/// writes `typeCollection {`.
pub open spec fn type_collection_lines(t: Tree, s: Seq<char>, k: int) -> Result<Seq<LineV>, FormatterError> {
    match fold_all(t, k, block(Seq::empty(), false), type_collection_step(t, s)) {
        Ok(st) => Ok(without_trailing_blank(flush(t, s, st).lines)),
        Err(e) => Err(e),
    }
}

// ---- file-level lines ----

pub open spec fn package_step(
    t: Tree,
    s: Seq<char>,
) -> spec_fn(LineV, usize) -> Result<LineV, FormatterError> {
    |st: LineV, c: usize|
        match t.rule_of(c as int) {
            Rule::TypeRef => Ok(LineV { newline: false, ..line(0, "package "@ + type_text(t, s, c as int)) }),
            Rule::Comment => Ok(merge(st, comment_line(t, s, c as int, true))),
            r => Err(FormatterError::UnexpectedNode(r, Rule::Package)),
        }
}

/// `package <name>` with its comment, on a line that the file step starts
/// only when other lines come before it.
pub open spec fn package_line(t: Tree, s: Seq<char>, k: int) -> Result<LineV, FormatterError> {
    fold_all(t, k, blank(), package_step(t, s))
}

pub open spec fn import_model_step(
    t: Tree,
    s: Seq<char>,
) -> spec_fn(LineV, usize) -> Result<LineV, FormatterError> {
    |st: LineV, c: usize|
        match t.rule_of(c as int) {
            Rule::FilePath => Ok(line(0, "import model "@ + t.text(s, c as int))),
            Rule::Comment => Ok(merge(st, comment_line(t, s, c as int, true))),
            r => Err(FormatterError::UnexpectedNode(r, Rule::ImportModel)),
        }
}

/// `import model "<path>"`, with its comment.
pub open spec fn import_model_line(t: Tree, s: Seq<char>, k: int) -> Result<LineV, FormatterError> {
    fold_all(t, k, blank(), import_model_step(t, s))
}

pub struct ImportSt {
    pub line: LineV,
    pub type_ref: Seq<char>,
    pub wildcard: Seq<char>,
}

pub open spec fn import_namespace_step(
    t: Tree,
    s: Seq<char>,
) -> spec_fn(ImportSt, usize) -> Result<ImportSt, FormatterError> {
    |st: ImportSt, c: usize|
        match t.rule_of(c as int) {
            Rule::TypeRef => Ok(ImportSt { type_ref: type_text(t, s, c as int), ..st }),
            Rule::Wildcard => Ok(ImportSt { wildcard: ".*"@, ..st }),
            Rule::FilePath => Ok(ImportSt {
                line: line(0, "import "@ + st.type_ref + st.wildcard + " from "@ + t.text(s, c as int)),
                ..st
            }),
            Rule::Comment => Ok(ImportSt { line: merge(st.line, comment_line(t, s, c as int, true)), ..st }),
            r => Err(FormatterError::UnexpectedNode(r, Rule::ImportNamespace)),
        }
}

/// `import <name>[.*] from "<path>"`, with its comment.
pub open spec fn import_namespace_line(
    t: Tree,
    s: Seq<char>,
    k: int,
) -> Result<LineV, FormatterError> {
    match fold_all(t, k, ImportSt { line: blank(), type_ref: Seq::empty(), wildcard: Seq::empty() }, import_namespace_step(t, s)) {
        Ok(st) => Ok(st.line),
        Err(e) => Err(e),
    }
}

pub open spec fn push_line(
    ls: Seq<LineV>,
    r: Result<LineV, FormatterError>,
) -> Result<Seq<LineV>, FormatterError> {
    match r {
        Ok(l) => Ok(ls.push(l)),
        Err(e) => Err(e),
    }
}

pub open spec fn push_lines(
    ls: Seq<LineV>,
    r: Result<Seq<LineV>, FormatterError>,
) -> Result<Seq<LineV>, FormatterError> {
    match r {
        Ok(v) => Ok(ls + v),
        Err(e) => Err(e),
    }
}

#[verifier::opaque]
pub open spec fn file_step(
    t: Tree,
    s: Seq<char>,
    top: Rule,
) -> spec_fn(Seq<LineV>, usize) -> Result<Seq<LineV>, FormatterError> {
    |ls: Seq<LineV>, c: usize|
        match t.rule_of(c as int) {
            Rule::Comment => Ok(ls.push(comment_line(t, s, c as int, false))),
            Rule::Package => match package_line(t, s, c as int) {
                Ok(l) => Ok(ls.push(LineV { newline: ls.len() > 0, ..l }).push(blank())),
                Err(e) => Err(e),
            },
            Rule::ImportModel => push_line(ls, import_model_line(t, s, c as int)),
            Rule::ImportNamespace => push_line(ls, import_namespace_line(t, s, c as int)),
            Rule::Interface => push_lines(ls, interface_lines(t, s, c as int)),
            Rule::TypeCollection => push_lines(ls, type_collection_lines(t, s, c as int)),
            Rule::MultilineComment => Ok(ls + ml_lines(t, s, c as int)),
            r => Err(FormatterError::UnexpectedNode(r, top)),
        }
}

/// The tree is well formed for a source of `len` characters and its root is a
/// `Grammar` node with exactly one child, the top production.
pub open spec fn tree_ok(t: Tree, len: nat) -> bool {
    &&& t.wf(len)
    &&& t.nodes@.len() > 0
    &&& t.rule_of(0) == Rule::Grammar
    &&& t.kids(0).len() == 1
}

/// The lines of the whole file: the children of the top production, in order.
pub open spec fn file_lines(t: Tree, s: Seq<char>) -> Result<Seq<LineV>, FormatterError> {
    let top = t.kids(0)[0] as int;
    fold_all(t, top, Seq::empty(), file_step(t, s, t.rule_of(top)))
}

/// The formatted text of the source `s` whose parse tree is `t`.
pub open spec fn formatted(t: Tree, s: Seq<char>) -> Result<Seq<char>, FormatterError> {
    if !tree_ok(t, s.len()) {
        Err(FormatterError::MalformedTree)
    } else {
        match file_lines(t, s) {
            Ok(ls) => Ok(render_all(ls)),
            Err(e) => Err(e),
        }
    }
}

} // verus!
