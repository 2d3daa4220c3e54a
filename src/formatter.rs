use vstd::prelude::*;
use vstd::string::StringExecFns;
use crate::indented_string::{
    all_deeper, bounded, line, lines_view, merge, push_all, push_deeper, push_one,
    render, render_all, IndentedString, LineV,
};
use crate::layout::{
    annotation_block_lines, annotation_block_step, annotation_lines, annotation_step,
    attribute_lines, attribute_step, blank, block, close_block, comment_into, comment_line,
    content_lines, enum_value_lines, enum_value_step, enumeration_lines,
    enumeration_step, file_step, fold_all, fold_kids, formatted, import_model_line,
    import_model_step, import_namespace_line, import_namespace_step, interface_lines,
    interface_step, lemma_fold_next, lemma_fold_stops, method_lines, method_step, ml_into, ml_lines,
    ml_pieces, package_line, package_step, params_lines, params_step, structure_lines,
    structure_step, type_collection_lines, type_collection_step, type_text, typedef_lines,
    typedef_step, var_name, variable_declaration_lines, variable_declaration_step, version_lines,
    version_part_line, version_step, AnnBlockSt, AnnSt, AttributeSt, Block, EnumValueSt,
    FormatterError, ImportSt, TypedefSt, VarDeclSt, header,
};
use crate::text::{
    chars_of, chars_without_cr, push_range, push_without_blanks, trim_bounds, trim_start_from,
    trimmed_lines, split_lines, trim, without_cr, inner, skip,
};
use crate::tree::{Rule, Tree};

verus! {

pub open spec fn res_lines(
    r: Result<Vec<IndentedString>, FormatterError>,
) -> Result<Seq<LineV>, FormatterError> {
    match r {
        Ok(v) => Ok(lines_view(v@)),
        Err(e) => Err(e),
    }
}

/// Renders a parse tree of a source text back into canonical source text.
pub struct Formatter<'a> {
    source: Vec<char>,
    tree: &'a Tree,
}

impl<'a> Formatter<'a> {
    pub closed spec fn chars(&self) -> Seq<char> {
        self.source@
    }

    pub closed spec fn tree(&self) -> Tree {
        *self.tree
    }

    pub open spec fn wf(&self) -> bool {
        self.tree().wf(self.chars().len())
    }

    pub fn new(source: &str, tree: &'a Tree) -> (r: Self)
        ensures
            r.chars() == source@,
            r.tree() == *tree,
    {
        Formatter { source: chars_of(source), tree }
    }

    fn span(&self, k: usize) -> (r: (usize, usize))
        requires
            self.wf(),
            k < self.tree().nodes@.len(),
        ensures
            r.0 == self.tree().nodes@[k as int].start,
            r.1 == self.tree().nodes@[k as int].end,
            r.0 <= r.1 <= self.chars().len(),
    {
        proof {
            assert(self.tree().node_wf(k as int, self.chars().len()));
        }
        let n = &self.tree.nodes[k];
        (n.start, n.end)
    }

    /// The source text of node `k` as it stands (numbers, digits, paths).
    fn raw_text(&self, k: usize) -> (r: String)
        requires
            self.wf(),
            k < self.tree().nodes@.len(),
        ensures
            r@ == self.tree().text(self.chars(), k as int),
    {
        let (a, b) = self.span(k);
        let mut out = String::new();
        push_range(&mut out, &self.source, a, b);
        assert(out@ =~= self.tree().text(self.chars(), k as int));
        out
    }

    fn type_ref(&self, k: usize) -> (r: String)
        requires
            self.wf(),
            k < self.tree().nodes@.len(),
        ensures
            r@ == type_text(self.tree(), self.chars(), k as int),
    {
        let (a, b) = self.span(k);
        let mut out = String::new();
        push_without_blanks(&mut out, &self.source, a, b);
        assert(out@ =~= type_text(self.tree(), self.chars(), k as int));
        out
    }

    fn variable_name(&self, k: usize) -> (r: String)
        requires
            self.wf(),
            k < self.tree().nodes@.len(),
        ensures
            r@ == var_name(self.tree(), self.chars(), k as int),
    {
        let (a, b) = self.span(k);
        let (x, y) = trim_bounds(&self.source, a, b);
        let mut out = String::new();
        push_range(&mut out, &self.source, x, y);
        assert(out@ =~= var_name(self.tree(), self.chars(), k as int));
        out
    }

    fn annotation_name(&self, k: usize) -> (r: String)
        requires
            self.wf(),
            k < self.tree().nodes@.len(),
        ensures
            r@ == crate::text::trim_start(self.tree().text(self.chars(), k as int)),
    {
        let (a, b) = self.span(k);
        let x = trim_start_from(&self.source, a, b);
        let mut out = String::new();
        push_range(&mut out, &self.source, x, b);
        assert(out@ =~= crate::text::trim_start(self.tree().text(self.chars(), k as int)));
        out
    }

    pub fn comment(&self, k: usize, leading_space: bool) -> (r: IndentedString)
        requires
            self.wf(),
            k < self.tree().nodes@.len(),
        ensures
            r@ == comment_line(self.tree(), self.chars(), k as int, leading_space),
    {
        let (a, b) = self.span(k);
        let lo = if b - a >= 2 {
            a + 2
        } else {
            b
        };
        assert(self.chars().subrange(lo as int, b as int) =~= skip(
            self.tree().text(self.chars(), k as int),
            2,
        ));
        let (x, y) = trim_bounds(&self.source, lo, b);
        let mut out = if leading_space {
            String::from_str(" // ")
        } else {
            String::from_str("// ")
        };
        push_range(&mut out, &self.source, x, y);
        let mut l = IndentedString::new(0, out);
        l.set_commented();
        l
    }

    pub fn multiline_comment(&self, k: usize) -> (r: Vec<IndentedString>)
        requires
            self.wf(),
            k < self.tree().nodes@.len(),
        ensures
            lines_view(r@) == ml_lines(self.tree(), self.chars(), k as int),
            bounded(lines_view(r@), 1),
    {
        let ghost t = self.tree();
        let ghost s = self.chars();
        let (a, b) = self.span(k);
        let (lo, hi) = if b - a >= 6 {
            (a + 3, b - 3)
        } else {
            (a, a)
        };
        assert(s.subrange(lo as int, hi as int) =~= inner(t.text(s, k as int), 3));
        let w = chars_without_cr(&self.source, lo, hi);
        let (x, y) = trim_bounds(&w, 0, w.len());
        assert(w@.subrange(0, w@.len() as int) =~= w@);
        let pieces = trimmed_lines(&w, x, y);
        let ghost p = ml_pieces(t, s, k as int);
        assert(pieces@.len() == p.len());
        assert(forall|j: int| 0 <= j < p.len() ==> #[trigger] pieces@[j]@ == p[j]);
        let mut ret: Vec<IndentedString> = Vec::new();
        if pieces.len() == 1 {
            let mut txt = String::from_str("/** ");
            txt.append(pieces[0].as_str());
            txt.append(" **/");
            ret.push(IndentedString::new(0, txt));
            assert(lines_view(ret@) =~= ml_lines(t, s, k as int));
        } else {
            ret.push(IndentedString::new(0, String::from_str("/**")));
            let mut j: usize = 0;
            while j < pieces.len()
                invariant
                    j <= pieces@.len(),
                    pieces@.len() == p.len(),
                    forall|i: int| 0 <= i < p.len() ==> #[trigger] pieces@[i]@ == p[i],
                    lines_view(ret@) == seq![line(0, "/**"@)] + p.take(j as int).map_values(
                        |x: Seq<char>| line(1, x),
                    ),
                    bounded(lines_view(ret@), 1),
                decreases pieces@.len() - j,
            {
                let ghost before = ret@;
                ret.push(IndentedString::new(1, pieces[j].clone()));
                proof {
                    crate::indented_string::lemma_lines_view_push(before, ret@.last());
                }
                assert(p.take(j + 1).map_values(|x: Seq<char>| line(1, x)) =~= p.take(
                    j as int,
                ).map_values(|x: Seq<char>| line(1, x)).push(line(1, p[j as int])));
                assert(lines_view(ret@) =~= seq![line(0, "/**"@)] + p.take(j + 1).map_values(
                    |x: Seq<char>| line(1, x),
                ));
                j += 1;
            }
            let ghost before = ret@;
            ret.push(IndentedString::new(0, String::from_str("**/")));
            proof {
                crate::indented_string::lemma_lines_view_push(before, ret@.last());
            }
            assert(p.take(p.len() as int) =~= p);
            assert(lines_view(ret@) =~= ml_lines(t, s, k as int));
        }
        ret
    }

    pub fn annotation_content(&self, k: usize) -> (r: Vec<IndentedString>)
        requires
            self.wf(),
            k < self.tree().nodes@.len(),
        ensures
            lines_view(r@) == content_lines(self.tree(), self.chars(), k as int),
            bounded(lines_view(r@), 0),
    {
        let ghost t = self.tree();
        let ghost s = self.chars();
        let (a, b) = self.span(k);
        let (x, y) = trim_bounds(&self.source, a, b);
        let w = chars_without_cr(&self.source, x, y);
        let pieces = trimmed_lines(&w, 0, w.len());
        assert(w@.subrange(0, w@.len() as int) =~= w@);
        let ghost p = split_lines(without_cr(trim(t.text(s, k as int))));
        let mut ret: Vec<IndentedString> = Vec::new();
        let mut j: usize = 0;
        while j < pieces.len()
            invariant
                j <= pieces@.len(),
                pieces@.len() == p.len(),
                forall|i: int| 0 <= i < p.len() ==> #[trigger] pieces@[i]@ == trim(p[i]),
                lines_view(ret@) == p.take(j as int).map_values(|x: Seq<char>| line(0, trim(x))),
                bounded(lines_view(ret@), 0),
            decreases pieces@.len() - j,
        {
            let ghost before = ret@;
            ret.push(IndentedString::new(0, pieces[j].clone()));
            proof {
                crate::indented_string::lemma_lines_view_push(before, ret@.last());
            }
            assert(p.take(j + 1).map_values(|x: Seq<char>| line(0, trim(x))) =~= p.take(
                j as int,
            ).map_values(|x: Seq<char>| line(0, trim(x))).push(line(0, trim(p[j as int]))));
            j += 1;
        }
        assert(p.take(p.len() as int) =~= p);
        ret
    }

    pub fn annotation(&self, k: usize) -> (r: Result<Vec<IndentedString>, FormatterError>)
        requires
            self.wf(),
            k < self.tree().nodes@.len(),
        ensures
            res_lines(r) == annotation_lines(self.tree(), self.chars(), k as int),
            r is Ok ==> bounded(lines_view(r->Ok_0@), 1),
    {
        let ghost t = self.tree();
        let ghost s = self.chars();
        let ghost init = AnnSt { lines: Seq::empty(), name: Seq::empty() };
        let ghost step = annotation_step(t, s);
        let node = &self.tree.nodes[k];
        let ghost kids = t.kids(k as int);
        proof {
            assert(t.node_wf(k as int, s.len()));
        }
        let mut ret: Vec<IndentedString> = Vec::new();
        let mut name = String::new();
        let mut i: usize = 0;
        assert(lines_view(ret@) =~= Seq::<LineV>::empty());
        while i < node.children.len()
            invariant
                self.wf(),
                t == self.tree(),
                s == self.chars(),
                step == annotation_step(t, s),
                init == (AnnSt { lines: Seq::empty(), name: Seq::empty() }),
                kids == node.children@,
                kids == t.kids(k as int),
                t.node_wf(k as int, s.len()),
                i <= kids.len(),
                fold_kids(kids, i as nat, init, step) == Ok::<AnnSt, FormatterError>(
                    AnnSt { lines: lines_view(ret@), name: name@ },
                ),
                bounded(lines_view(ret@), 1),
            decreases kids.len() - i,
        {
            let c = node.children[i];
            proof {
                lemma_fold_next(kids, i as nat, init, step);
            }
            let ghost before = ret@;
            match self.tree.nodes[c].rule {
                Rule::AnnotationName => {
                    name = self.annotation_name(c);
                },
                Rule::AnnotationContent => {
                    let content = self.annotation_content(c);
                    if content.len() == 1 {
                        let mut txt = String::from_str("@");
                        txt.append(name.as_str());
                        txt.append(": ");
                        txt.append(content[0].text().as_str());
                        ret.push(IndentedString::new(0, txt));
                        proof {
                            crate::indented_string::lemma_lines_view_push(before, ret@.last());
                        }
                    } else {
                        let mut txt = String::from_str("@");
                        txt.append(name.as_str());
                        txt.append(":");
                        ret.push(IndentedString::new(0, txt));
                        proof {
                            crate::indented_string::lemma_lines_view_push(before, ret@.last());
                        }
                        push_deeper(&mut ret, content, Ghost(0), Ghost(1));
                    }
                },
                r => {
                    proof {
                        lemma_fold_stops(kids, (i + 1) as nat, kids.len(), init, step);
                    }
                    return Err(FormatterError::UnexpectedNode(r, Rule::Annotation));
                },
            }
            i += 1;
        }
        Ok(ret)
    }

    pub fn annotation_block(&self, k: usize) -> (r: Result<Vec<IndentedString>, FormatterError>)
        requires
            self.wf(),
            k < self.tree().nodes@.len(),
        ensures
            res_lines(r) == annotation_block_lines(self.tree(), self.chars(), k as int),
            r is Ok ==> bounded(lines_view(r->Ok_0@), 2),
    {
        let ghost t = self.tree();
        let ghost s = self.chars();
        let ghost init = AnnBlockSt { count: 0, lines: Seq::empty(), comments: Seq::empty() };
        let ghost step = annotation_block_step(t, s);
        let node = &self.tree.nodes[k];
        let ghost kids = t.kids(k as int);
        proof {
            assert(t.node_wf(k as int, s.len()));
        }
        let mut annotations: Vec<IndentedString> = Vec::new();
        let mut count: usize = 0;
        let mut comments: Vec<IndentedString> = Vec::new();
        let mut i: usize = 0;
        assert(lines_view(annotations@) =~= Seq::<LineV>::empty());
        assert(lines_view(comments@) =~= Seq::<LineV>::empty());
        while i < node.children.len()
            invariant
                self.wf(),
                t == self.tree(),
                s == self.chars(),
                step == annotation_block_step(t, s),
                init == (AnnBlockSt { count: 0, lines: Seq::empty(), comments: Seq::empty() }),
                kids == node.children@,
                kids == t.kids(k as int),
                t.node_wf(k as int, s.len()),
                i <= kids.len(),
                count <= i,
                fold_kids(kids, i as nat, init, step) == Ok::<AnnBlockSt, FormatterError>(
                    AnnBlockSt {
                        count: count as nat,
                        lines: lines_view(annotations@),
                        comments: lines_view(comments@),
                    },
                ),
                bounded(lines_view(annotations@), 1),
                bounded(lines_view(comments@), 1),
            decreases kids.len() - i,
        {
            let c = node.children[i];
            proof {
                lemma_fold_next(kids, i as nat, init, step);
            }
            let ghost before = comments@;
            match self.tree.nodes[c].rule {
                Rule::Annotation => {
                    match self.annotation(c) {
                        Ok(lines) => {
                            push_all(&mut annotations, lines, Ghost(1));
                            count += 1;
                        },
                        Err(e) => {
                            proof {
                                lemma_fold_stops(kids, (i + 1) as nat, kids.len(), init, step);
                            }
                            return Err(e);
                        },
                    }
                },
                Rule::Comment => {
                    comments.push(self.comment(c, false));
                    proof {
                        crate::indented_string::lemma_lines_view_push(before, comments@.last());
                    }
                },
                Rule::MultilineComment => {
                    push_all(&mut comments, self.multiline_comment(c), Ghost(1));
                },
                r => {
                    proof {
                        lemma_fold_stops(kids, (i + 1) as nat, kids.len(), init, step);
                    }
                    return Err(FormatterError::UnexpectedNode(r, Rule::AnnotationBlock));
                },
            }
            i += 1;
        }
        let ghost al = lines_view(annotations@);
        let ghost cl = lines_view(comments@);
        let mut ret: Vec<IndentedString> = Vec::new();
        if count == 1 && annotations.len() == 1 {
            let mut txt = String::from_str("<** ");
            txt.append(annotations[0].text().as_str());
            txt.append(" **>");
            ret.push(IndentedString::new(0, txt));
            assert(lines_view(ret@) =~= seq![line(0, "<** "@ + al[0].text + " **>"@)]);
        } else {
            ret.push(IndentedString::new(0, String::from_str("<**")));
            assert(lines_view(ret@) =~= seq![line(0, "<**"@)]);
            push_deeper(&mut ret, annotations, Ghost(1), Ghost(2));
            let ghost before = ret@;
            ret.push(IndentedString::new(0, String::from_str("**>")));
            proof {
                crate::indented_string::lemma_lines_view_push(before, ret@.last());
            }
            assert(lines_view(ret@) =~= seq![line(0, "<**"@)] + all_deeper(al) + seq![line(0, "**>"@)]);
        }
        push_all(&mut ret, comments, Ghost(2));
        Ok(ret)
    }

    /// The closing bracket of a construct whose lines so far are `ret`, with
    /// the comment that waits before it, if any.
    fn after_bracket_helper(
        &self,
        ret: &mut Vec<IndentedString>,
        pending: Option<usize>,
        parent: Rule,
        Ghost(d): Ghost<nat>,
    ) -> (r: Result<(), FormatterError>)
        requires
            self.wf(),
            pending is Some ==> pending->0 < self.tree().nodes@.len(),
            bounded(lines_view(old(ret)@), d),
        ensures
            match close_block(self.tree(), self.chars(), lines_view(old(ret)@), pending, parent) {
                Ok(ls) => r is Ok && lines_view(final(ret)@) == ls,
                Err(e) => r == Err::<(), FormatterError>(e),
            },
            bounded(lines_view(final(ret)@), d),
    {
        let ghost l0 = lines_view(ret@);
        if ret.len() > 0 && ret[ret.len() - 1].is_blank_line() {
            ret.pop();
            assert(lines_view(ret@) =~= l0.drop_last());
        }
        let ghost l1 = lines_view(ret@);
        let last = match ret.pop() {
            Some(l) => l,
            None => {
                return Err(FormatterError::IncompleteNode(parent));
            },
        };
        assert(lines_view(ret@) =~= l1.drop_last());
        assert(last@ == l1.last());
        let empty = last.get_rule() == parent && !last.is_commented();
        let brace = IndentedString::new(0, String::from_str("}"));
        match pending {
            None => {
                if empty {
                    push_one(ret, last.merged(brace), Ghost(d));
                } else {
                    push_one(ret, last, Ghost(d));
                    assert(lines_view(ret@) =~= l1);
                    push_one(ret, brace, Ghost(d));
                }
            },
            Some(c) => {
                if empty {
                    push_one(ret, last.merged(brace).merged(self.comment(c, true)), Ghost(d));
                } else {
                    push_one(ret, last.merged(self.comment(c, true)), Ghost(d));
                    push_one(ret, brace, Ghost(d));
                }
            },
        }
        Ok(())
    }

    fn comment_helper(
        &self,
        ret: &mut Vec<IndentedString>,
        c: usize,
        open_bracket: bool,
        close_bracket: bool,
        parent: Rule,
        Ghost(d): Ghost<nat>,
    ) -> (r: Result<(), FormatterError>)
        requires
            self.wf(),
            c < self.tree().nodes@.len(),
            bounded(lines_view(old(ret)@), d),
        ensures
            match comment_into(
                self.tree(),
                self.chars(),
                lines_view(old(ret)@),
                c as int,
                open_bracket,
                close_bracket,
                parent,
            ) {
                Ok(ls) => r is Ok && lines_view(final(ret)@) == ls,
                Err(e) => r == Err::<(), FormatterError>(e),
            },
            bounded(lines_view(final(ret)@), d),
    {
        let ghost old_lines = lines_view(ret@);
        match ret.pop() {
            Some(last) => {
                assert(lines_view(ret@) =~= old_lines.drop_last());
                push_one(ret, last.merged(self.comment(c, true)), Ghost(d));
                Ok(())
            },
            None => {
                if !open_bracket && !close_bracket {
                    push_one(ret, self.comment(c, false), Ghost(d));
                    Ok(())
                } else {
                    Err(FormatterError::IncompleteNode(parent))
                }
            },
        }
    }

    fn multiline_comment_helper(
        &self,
        ret: &mut Vec<IndentedString>,
        c: usize,
        open_bracket: bool,
        close_bracket: bool,
        Ghost(d): Ghost<nat>,
    )
        requires
            self.wf(),
            c < self.tree().nodes@.len(),
            bounded(lines_view(old(ret)@), d),
            2 <= d <= 100,
        ensures
            lines_view(final(ret)@) == ml_into(
                self.tree(),
                self.chars(),
                lines_view(old(ret)@),
                c as int,
                open_bracket,
                close_bracket,
            ),
            bounded(lines_view(final(ret)@), d),
    {
        let comment = self.multiline_comment(c);
        if open_bracket && !close_bracket {
            push_deeper(ret, comment, Ghost(1), Ghost(d));
        } else {
            push_all(ret, comment, Ghost(d));
        }
    }

    pub fn enum_value(&self, k: usize) -> (r: Result<Vec<IndentedString>, FormatterError>)
        requires
            self.wf(),
            k < self.tree().nodes@.len(),
        ensures
            res_lines(r) == enum_value_lines(self.tree(), self.chars(), k as int),
            r is Ok ==> bounded(lines_view(r->Ok_0@), 2),
    {
        let ghost t = self.tree();
        let ghost s = self.chars();
        let ghost init = (EnumValueSt {
            lines: Seq::empty(),
            name: Seq::empty(),
            number: None,
            comment: blank(),
        });
        let ghost step = enum_value_step(t, s);
        let node = &self.tree.nodes[k];
        let ghost kids = t.kids(k as int);
        proof {
            assert(t.node_wf(k as int, s.len()));
        }
        let mut ret: Vec<IndentedString> = Vec::new();
        let mut var_name = String::new();
        let mut number: Option<String> = None;
        let mut comment = IndentedString::empty();
        let mut i: usize = 0;
        assert(lines_view(ret@) =~= Seq::<LineV>::empty());
        while i < node.children.len()
            invariant
                self.wf(),
                t == self.tree(),
                s == self.chars(),
                step == enum_value_step(t, s),
                init == (EnumValueSt {
                    lines: Seq::empty(),
                    name: Seq::empty(),
                    number: None,
                    comment: blank(),
                }),
                kids == node.children@,
                kids == t.kids(k as int),
                t.node_wf(k as int, s.len()),
                i <= kids.len(),
                fold_kids(kids, i as nat, init, step) == Ok::<EnumValueSt, FormatterError>(
                    EnumValueSt {
                        lines: lines_view(ret@),
                        name: var_name@,
                        number: opt_view(number),
                        comment: comment@,
                    },
                ),
                bounded(lines_view(ret@), 2),
                comment@.indent == 0,
            decreases kids.len() - i,
        {
            let c = node.children[i];
            proof {
                lemma_fold_next(kids, i as nat, init, step);
            }
            let res: Result<(), FormatterError> = match self.tree.nodes[c].rule {
                Rule::AnnotationBlock => match self.annotation_block(c) {
                    Ok(lines) => {
                        push_all(&mut ret, lines, Ghost(2));
                        Ok(())
                    },
                    Err(e) => Err(e),
                },
                Rule::Comment => {
                    comment = comment.merged(self.comment(c, true));
                    Ok(())
                },
                Rule::MultilineComment => {
                    push_all(&mut ret, self.multiline_comment(c), Ghost(2));
                    Ok(())
                },
                Rule::VariableName => {
                    var_name = self.variable_name(c);
                    Ok(())
                },
                Rule::Number => {
                    number = Some(self.raw_text(c));
                    Ok(())
                },
                r => Err(FormatterError::UnexpectedNode(r, Rule::EnumValue)),
            };
            match res {
                Ok(()) => {},
                Err(e) => {
                    proof {
                        lemma_fold_stops(kids, (i + 1) as nat, kids.len(), init, step);
                    }
                    return Err(e);
                },
            }
            i += 1;
        }
        let res_string = match number {
            None => var_name,
            Some(number) => {
                let mut txt = var_name;
                txt.append(" = ");
                txt.append(number.as_str());
                txt
            },
        };
        let res_string = IndentedString::new(0, res_string);
        push_one(&mut ret, res_string.merged(comment), Ghost(2));
        Ok(ret)
    }

    pub fn typedef(&self, k: usize) -> (r: Result<Vec<IndentedString>, FormatterError>)
        requires
            self.wf(),
            k < self.tree().nodes@.len(),
        ensures
            res_lines(r) == typedef_lines(self.tree(), self.chars(), k as int),
            r is Ok ==> bounded(lines_view(r->Ok_0@), 2),
    {
        let ghost t = self.tree();
        let ghost s = self.chars();
        let ghost init = (TypedefSt {
            lines: Seq::empty(),
            type_dec: Seq::empty(),
            seen_type: false,
        });
        let ghost step = typedef_step(t, s);
        let node = &self.tree.nodes[k];
        let ghost kids = t.kids(k as int);
        proof {
            assert(t.node_wf(k as int, s.len()));
        }
        let mut ret: Vec<IndentedString> = Vec::new();
        let mut type_dec = String::new();
        let mut type_ref_happened = false;
        let mut i: usize = 0;
        assert(lines_view(ret@) =~= Seq::<LineV>::empty());
        while i < node.children.len()
            invariant
                self.wf(),
                t == self.tree(),
                s == self.chars(),
                step == typedef_step(t, s),
                init == (TypedefSt {
                    lines: Seq::empty(),
                    type_dec: Seq::empty(),
                    seen_type: false,
                }),
                kids == node.children@,
                kids == t.kids(k as int),
                t.node_wf(k as int, s.len()),
                i <= kids.len(),
                fold_kids(kids, i as nat, init, step) == Ok::<TypedefSt, FormatterError>(
                    TypedefSt {
                        lines: lines_view(ret@),
                        type_dec: type_dec@,
                        seen_type: type_ref_happened,
                    },
                ),
                bounded(lines_view(ret@), 2),
            decreases kids.len() - i,
        {
            let c = node.children[i];
            proof {
                lemma_fold_next(kids, i as nat, init, step);
            }
            let res: Result<(), FormatterError> = match self.tree.nodes[c].rule {
                Rule::AnnotationBlock => match self.annotation_block(c) {
                    Ok(lines) => {
                        push_all(&mut ret, lines, Ghost(2));
                        Ok(())
                    },
                    Err(e) => Err(e),
                },
                Rule::MultilineComment => {
                    push_all(&mut ret, self.multiline_comment(c), Ghost(2));
                    Ok(())
                },
                Rule::Comment => {
                    if type_ref_happened {
                        let ghost old_lines = lines_view(ret@);
                        match ret.pop() {
                            Some(last) => {
                                assert(lines_view(ret@) =~= old_lines.drop_last());
                                push_one(&mut ret, last.merged(self.comment(c, true)), Ghost(2));
                                Ok(())
                            },
                            None => Err(FormatterError::IncompleteNode(Rule::Typedef)),
                        }
                    } else {
                        push_one(&mut ret, self.comment(c, false), Ghost(2));
                        Ok(())
                    }
                },
                Rule::TypeDec => {
                    type_dec = self.type_dec(c);
                    Ok(())
                },
                Rule::TypeRef => {
                    type_ref_happened = true;
                    let mut txt = String::from_str("typedef ");
                    txt.append(type_dec.as_str());
                    txt.append(" is ");
                    txt.append(self.type_ref(c).as_str());
                    push_one(&mut ret, IndentedString::new(0, txt), Ghost(2));
                    Ok(())
                },
                r => Err(FormatterError::UnexpectedNode(r, Rule::Typedef)),
            };
            match res {
                Ok(()) => {},
                Err(e) => {
                    proof {
                        lemma_fold_stops(kids, (i + 1) as nat, kids.len(), init, step);
                    }
                    return Err(e);
                },
            }
            i += 1;
        }
        Ok(ret)
    }

    pub fn attribute(&self, k: usize) -> (r: Result<Vec<IndentedString>, FormatterError>)
        requires
            self.wf(),
            k < self.tree().nodes@.len(),
        ensures
            res_lines(r) == attribute_lines(self.tree(), self.chars(), k as int),
            r is Ok ==> bounded(lines_view(r->Ok_0@), 2),
    {
        let ghost t = self.tree();
        let ghost s = self.chars();
        let ghost init = (AttributeSt {
            lines: Seq::empty(),
            type_ref: Seq::empty(),
            named: false,
        });
        let ghost step = attribute_step(t, s);
        let node = &self.tree.nodes[k];
        let ghost kids = t.kids(k as int);
        proof {
            assert(t.node_wf(k as int, s.len()));
        }
        let mut ret: Vec<IndentedString> = Vec::new();
        let mut type_ref = String::new();
        let mut named = false;
        let mut i: usize = 0;
        assert(lines_view(ret@) =~= Seq::<LineV>::empty());
        while i < node.children.len()
            invariant
                self.wf(),
                t == self.tree(),
                s == self.chars(),
                step == attribute_step(t, s),
                init == (AttributeSt { lines: Seq::empty(), type_ref: Seq::empty(), named: false }),
                kids == node.children@,
                kids == t.kids(k as int),
                t.node_wf(k as int, s.len()),
                i <= kids.len(),
                fold_kids(kids, i as nat, init, step) == Ok::<AttributeSt, FormatterError>(
                    AttributeSt {
                        lines: lines_view(ret@),
                        type_ref: type_ref@,
                        named,
                    },
                ),
                bounded(lines_view(ret@), 2),
            decreases kids.len() - i,
        {
            let c = node.children[i];
            proof {
                lemma_fold_next(kids, i as nat, init, step);
            }
            let res: Result<(), FormatterError> = match self.tree.nodes[c].rule {
                Rule::AnnotationBlock => match self.annotation_block(c) {
                    Ok(lines) => {
                        push_all(&mut ret, lines, Ghost(2));
                        Ok(())
                    },
                    Err(e) => Err(e),
                },
                Rule::TypeRef => {
                    type_ref = self.type_ref(c);
                    Ok(())
                },
                Rule::VariableName => {
                    let mut txt = String::from_str("attribute ");
                    txt.append(type_ref.as_str());
                    txt.append(" ");
                    txt.append(self.variable_name(c).as_str());
                    push_one(&mut ret, IndentedString::new(0, txt), Ghost(2));
                    named = true;
                    Ok(())
                },
                Rule::MultilineComment => {
                    push_all(&mut ret, self.multiline_comment(c), Ghost(2));
                    Ok(())
                },
                Rule::Comment => {
                    if named && ret.len() > 0 {
                        let ghost old_lines = lines_view(ret@);
                        let last = ret.pop().unwrap();
                        assert(lines_view(ret@) =~= old_lines.drop_last());
                        push_one(&mut ret, last.merged(self.comment(c, true)), Ghost(2));
                    } else {
                        push_one(&mut ret, self.comment(c, false), Ghost(2));
                    }
                    Ok(())
                },
                r => Err(FormatterError::UnexpectedNode(r, Rule::Attribute)),
            };
            match res {
                Ok(()) => {},
                Err(e) => {
                    proof {
                        lemma_fold_stops(kids, (i + 1) as nat, kids.len(), init, step);
                    }
                    return Err(e);
                },
            }
            i += 1;
        }
        Ok(ret)
    }

    pub fn variable_declaration(&self, k: usize) -> (r: Result<Vec<IndentedString>, FormatterError>)
        requires
            self.wf(),
            k < self.tree().nodes@.len(),
        ensures
            res_lines(r) == variable_declaration_lines(self.tree(), self.chars(), k as int),
            r is Ok ==> bounded(lines_view(r->Ok_0@), 2),
    {
        let ghost t = self.tree();
        let ghost s = self.chars();
        let ghost init = (VarDeclSt {
            lines: Seq::empty(),
            type_ref: Seq::empty(),
            last_comment: false,
        });
        let ghost step = variable_declaration_step(t, s);
        let node = &self.tree.nodes[k];
        let ghost kids = t.kids(k as int);
        proof {
            assert(t.node_wf(k as int, s.len()));
        }
        let mut ret: Vec<IndentedString> = Vec::new();
        let mut type_ref = String::new();
        let mut is_last_element_comment = false;
        let mut i: usize = 0;
        assert(lines_view(ret@) =~= Seq::<LineV>::empty());
        while i < node.children.len()
            invariant
                self.wf(),
                t == self.tree(),
                s == self.chars(),
                step == variable_declaration_step(t, s),
                init == (VarDeclSt {
                    lines: Seq::empty(),
                    type_ref: Seq::empty(),
                    last_comment: false,
                }),
                kids == node.children@,
                kids == t.kids(k as int),
                t.node_wf(k as int, s.len()),
                i <= kids.len(),
                fold_kids(kids, i as nat, init, step) == Ok::<VarDeclSt, FormatterError>(
                    VarDeclSt {
                        lines: lines_view(ret@),
                        type_ref: type_ref@,
                        last_comment: is_last_element_comment,
                    },
                ),
                bounded(lines_view(ret@), 2),
                is_last_element_comment ==> lines_view(ret@).len() > 0,
            decreases kids.len() - i,
        {
            let c = node.children[i];
            proof {
                lemma_fold_next(kids, i as nat, init, step);
            }
            let res: Result<(), FormatterError> = match self.tree.nodes[c].rule {
                Rule::AnnotationBlock => match self.annotation_block(c) {
                    Ok(lines) => {
                        push_all(&mut ret, lines, Ghost(2));
                        is_last_element_comment = false;
                        Ok(())
                    },
                    Err(e) => Err(e),
                },
                Rule::TypeRef => {
                    type_ref = self.type_ref(c);
                    is_last_element_comment = false;
                    Ok(())
                },
                Rule::VariableName => {
                    let mut txt = type_ref.clone();
                    txt.append(" ");
                    txt.append(self.variable_name(c).as_str());
                    push_one(&mut ret, IndentedString::new(0, txt), Ghost(2));
                    is_last_element_comment = false;
                    Ok(())
                },
                Rule::Comment => {
                    is_last_element_comment = true;
                    push_one(&mut ret, self.comment(c, false), Ghost(2));
                    Ok(())
                },
                r => Err(FormatterError::UnexpectedNode(r, Rule::VariableDeclaration)),
            };
            match res {
                Ok(()) => {},
                Err(e) => {
                    proof {
                        lemma_fold_stops(kids, (i + 1) as nat, kids.len(), init, step);
                    }
                    return Err(e);
                },
            }
            i += 1;
        }
        if is_last_element_comment {
            let ghost all = lines_view(ret@);
            let comment = ret.pop().unwrap();
            assert(comment@ == all.last());
            assert(lines_view(ret@) =~= all.drop_last());
            let ghost rest = lines_view(ret@);
            let new_comment = IndentedString::new(0, String::from_str(" ")).merged(comment);
            match ret.pop() {
                Some(prior) => {
                    assert(lines_view(ret@) =~= rest.drop_last());
                    push_one(&mut ret, prior.merged(new_comment), Ghost(2));
                },
                None => {
                    return Err(FormatterError::IncompleteNode(Rule::VariableDeclaration));
                },
            }
        }
        Ok(ret)
    }

    fn version_part(
        &self,
        k: usize,
        word: &str,
        rule: Rule,
    ) -> (r: Result<IndentedString, FormatterError>)
        requires
            self.wf(),
            k < self.tree().nodes@.len(),
        ensures
            match version_part_line(self.tree(), self.chars(), k as int, word@, rule) {
                Ok(l) => r is Ok && r->Ok_0@ == l,
                Err(e) => r == Err::<IndentedString, FormatterError>(e),
            },
    {
        let node = &self.tree.nodes[k];
        proof {
            assert(self.tree().node_wf(k as int, self.chars().len()));
        }
        let n = node.children.len();
        if n == 0 {
            return Err(FormatterError::IncompleteNode(rule));
        }
        let first = node.children[0];
        let first_rule = self.tree.nodes[first].rule;
        if !(first_rule == Rule::Digits) {
            return Err(FormatterError::UnexpectedNode(first_rule, rule));
        }
        let mut txt = String::from_str(word);
        txt.append(self.raw_text(first).as_str());
        let ret_str = IndentedString::new(0, txt);
        if n == 1 {
            Ok(ret_str)
        } else if n == 2 {
            let comment_child = node.children[1];
            let second_rule = self.tree.nodes[comment_child].rule;
            if second_rule == Rule::Comment {
                Ok(ret_str.merged(self.comment(comment_child, true)))
            } else {
                Err(FormatterError::UnexpectedNode(second_rule, rule))
            }
        } else {
            Err(FormatterError::UnexpectedNode(self.tree.nodes[node.children[2]].rule, rule))
        }
    }

    fn major(&self, k: usize) -> (r: Result<IndentedString, FormatterError>)
        requires
            self.wf(),
            k < self.tree().nodes@.len(),
        ensures
            match version_part_line(self.tree(), self.chars(), k as int, "major "@, Rule::Major) {
                Ok(l) => r is Ok && r->Ok_0@ == l,
                Err(e) => r == Err::<IndentedString, FormatterError>(e),
            },
    {
        self.version_part(k, "major ", Rule::Major)
    }

    fn minor(&self, k: usize) -> (r: Result<IndentedString, FormatterError>)
        requires
            self.wf(),
            k < self.tree().nodes@.len(),
        ensures
            match version_part_line(self.tree(), self.chars(), k as int, "minor "@, Rule::Minor) {
                Ok(l) => r is Ok && r->Ok_0@ == l,
                Err(e) => r == Err::<IndentedString, FormatterError>(e),
            },
    {
        self.version_part(k, "minor ", Rule::Minor)
    }

    pub fn input_params(&self, k: usize) -> (r: Result<Vec<IndentedString>, FormatterError>)
        requires
            self.wf(),
            k < self.tree().nodes@.len(),
        ensures
            res_lines(r) == params_lines(
                self.tree(),
                self.chars(),
                k as int,
                "in {"@, Rule::InputParams,
            ),
            r is Ok ==> bounded(lines_view(r->Ok_0@), 3),
    {
        self.params(k, "in {", Rule::InputParams)
    }

    pub fn output_params(&self, k: usize) -> (r: Result<Vec<IndentedString>, FormatterError>)
        requires
            self.wf(),
            k < self.tree().nodes@.len(),
        ensures
            res_lines(r) == params_lines(
                self.tree(),
                self.chars(),
                k as int,
                "out {"@, Rule::OutputParams,
            ),
            r is Ok ==> bounded(lines_view(r->Ok_0@), 3),
    {
        self.params(k, "out {", Rule::OutputParams)
    }

    pub fn version(&self, k: usize) -> (r: Result<Vec<IndentedString>, FormatterError>)
        requires
            self.wf(),
            k < self.tree().nodes@.len(),
        ensures
            res_lines(r) == version_lines(self.tree(), self.chars(), k as int),
            r is Ok ==> bounded(lines_view(r->Ok_0@), 3),
    {
        let ghost t = self.tree();
        let ghost s = self.chars();
        let ghost init = block(seq![header("version {"@, Rule::Version)], false);
        let ghost step = version_step(t, s);
        let node = &self.tree.nodes[k];
        let ghost kids = t.kids(k as int);
        proof {
            assert(t.node_wf(k as int, s.len()));
        }
        let mut ret: Vec<IndentedString> = Vec::new();
        let mut open_bracket: bool = false;
        let mut close_bracket: bool = false;
        let mut pending: Option<usize> = None;
        let mut head = IndentedString::new(0, String::from_str("version {"));
        head.set_rule(Rule::Version);
        push_one(&mut ret, head, Ghost(0));
        let mut i: usize = 0;
        assert(lines_view(ret@) =~= seq![header("version {"@, Rule::Version)]);
        while i < node.children.len()
            invariant
                self.wf(),
                t == self.tree(),
                s == self.chars(),
                step == version_step(t, s),
                init == block(seq![header("version {"@, Rule::Version)], false),
                kids == node.children@,
                kids == t.kids(k as int),
                t.node_wf(k as int, s.len()),
                i <= kids.len(),
                fold_kids(kids, i as nat, init, step) == Ok::<Block, FormatterError>(
                    Block {
                        lines: lines_view(ret@),
                        open: open_bracket,
                        close: close_bracket,
                        started: false,
                        pending,
                    },
                ),
                bounded(lines_view(ret@), 3),
                pending is Some ==> pending->0 < t.nodes@.len(),
            decreases kids.len() - i,
        {
            let c = node.children[i];
            proof {
                lemma_fold_next(kids, i as nat, init, step);
            }
            let rule_c = self.tree.nodes[c].rule;
            if !(rule_c == Rule::CloseBracket) {
                if let Some(p) = pending {
                    let mut l = self.comment(p, false);
                    l.indent();
                    push_one(&mut ret, l, Ghost(3));
                    pending = None;
                }
            }
            let res: Result<(), FormatterError> = match rule_c {
                Rule::OpenBracket => {
                    open_bracket = true;
                    Ok(())
                },
                Rule::CloseBracket => {
                    close_bracket = true;
                    let res = self.after_bracket_helper(&mut ret, pending, Rule::Version, Ghost(3));
                    pending = None;
                    res
                },
                Rule::Major => match self.major(c) {
                    Ok(mut l) => {
                        l.indent();
                        push_one(&mut ret, l, Ghost(3));
                        Ok(())
                    },
                    Err(e) => Err(e),
                },
                Rule::Minor => match self.minor(c) {
                    Ok(mut l) => {
                        l.indent();
                        push_one(&mut ret, l, Ghost(3));
                        Ok(())
                    },
                    Err(e) => Err(e),
                },
                Rule::Comment => {
                    if open_bracket && !close_bracket {
                        pending = Some(c);
                        Ok(())
                    } else {
                        self.comment_helper(&mut ret, c, open_bracket, close_bracket, Rule::Version, Ghost(3))
                    }
                },
                Rule::MultilineComment => {
                    self.multiline_comment_helper(&mut ret, c, open_bracket, close_bracket, Ghost(3));
                    Ok(())
                },
                Rule::AnnotationBlock => match self.annotation_block(c) {
                    Ok(lines) => {
                        if open_bracket && !close_bracket {
                            push_deeper(&mut ret, lines, Ghost(2), Ghost(3));
                        } else {
                            push_all(&mut ret, lines, Ghost(3));
                        }
                        Ok(())
                    },
                    Err(e) => Err(e),
                },
                r => Err(FormatterError::UnexpectedNode(r, Rule::Version)),
            };
            match res {
                Ok(()) => {},
                Err(e) => {
                    proof {
                        lemma_fold_stops(kids, (i + 1) as nat, kids.len(), init, step);
                    }
                    return Err(e);
                },
            }
            i += 1;
        }
        if let Some(p) = pending {
            let mut l = self.comment(p, false);
            l.indent();
            push_one(&mut ret, l, Ghost(3));
        }
        Ok(ret)
    }

    pub fn structure(&self, k: usize) -> (r: Result<Vec<IndentedString>, FormatterError>)
        requires
            self.wf(),
            k < self.tree().nodes@.len(),
        ensures
            res_lines(r) == structure_lines(self.tree(), self.chars(), k as int),
            r is Ok ==> bounded(lines_view(r->Ok_0@), 3),
    {
        let ghost t = self.tree();
        let ghost s = self.chars();
        let ghost init = block(Seq::empty(), false);
        let ghost step = structure_step(t, s);
        let node = &self.tree.nodes[k];
        let ghost kids = t.kids(k as int);
        proof {
            assert(t.node_wf(k as int, s.len()));
        }
        let mut ret: Vec<IndentedString> = Vec::new();
        let mut open_bracket: bool = false;
        let mut close_bracket: bool = false;
        let mut pending: Option<usize> = None;
        let mut i: usize = 0;
        assert(lines_view(ret@) =~= Seq::<LineV>::empty());
        while i < node.children.len()
            invariant
                self.wf(),
                t == self.tree(),
                s == self.chars(),
                step == structure_step(t, s),
                init == block(Seq::empty(), false),
                kids == node.children@,
                kids == t.kids(k as int),
                t.node_wf(k as int, s.len()),
                i <= kids.len(),
                fold_kids(kids, i as nat, init, step) == Ok::<Block, FormatterError>(
                    Block {
                        lines: lines_view(ret@),
                        open: open_bracket,
                        close: close_bracket,
                        started: false,
                        pending,
                    },
                ),
                bounded(lines_view(ret@), 3),
                pending is Some ==> pending->0 < t.nodes@.len(),
            decreases kids.len() - i,
        {
            let c = node.children[i];
            proof {
                lemma_fold_next(kids, i as nat, init, step);
            }
            let rule_c = self.tree.nodes[c].rule;
            if !(rule_c == Rule::CloseBracket) {
                if let Some(p) = pending {
                    let mut l = self.comment(p, false);
                    l.indent();
                    push_one(&mut ret, l, Ghost(3));
                    pending = None;
                }
            }
            let res: Result<(), FormatterError> = match rule_c {
                Rule::OpenBracket => {
                    open_bracket = true;
                    Ok(())
                },
                Rule::CloseBracket => {
                    close_bracket = true;
                    let res = self.after_bracket_helper(&mut ret, pending, Rule::Structure, Ghost(3));
                    pending = None;
                    res
                },
                Rule::AnnotationBlock => match self.annotation_block(c) {
                    Ok(lines) => {
                        if open_bracket && !close_bracket {
                            push_deeper(&mut ret, lines, Ghost(2), Ghost(3));
                        } else {
                            push_all(&mut ret, lines, Ghost(3));
                        }
                        Ok(())
                    },
                    Err(e) => Err(e),
                },
                Rule::MultilineComment => {
                    self.multiline_comment_helper(&mut ret, c, open_bracket, close_bracket, Ghost(3));
                    Ok(())
                },
                Rule::Comment => {
                    if open_bracket && !close_bracket {
                        pending = Some(c);
                        Ok(())
                    } else {
                        self.comment_helper(&mut ret, c, open_bracket, close_bracket, Rule::Structure, Ghost(3))
                    }
                },
                Rule::TypeDec => {
                    let mut txt = String::from_str("struct ");
                    txt.append(self.type_dec(c).as_str());
                    txt.append(" {");
                    let mut l = IndentedString::new(0, txt);
                    l.set_rule(Rule::Structure);
                    push_one(&mut ret, l, Ghost(3));
                    Ok(())
                },
                Rule::VariableDeclaration => match self.variable_declaration(c) {
                    Ok(lines) => {
                        push_deeper(&mut ret, lines, Ghost(2), Ghost(3));
                        Ok(())
                    },
                    Err(e) => Err(e),
                },
                r => Err(FormatterError::UnexpectedNode(r, Rule::Structure)),
            };
            match res {
                Ok(()) => {},
                Err(e) => {
                    proof {
                        lemma_fold_stops(kids, (i + 1) as nat, kids.len(), init, step);
                    }
                    return Err(e);
                },
            }
            i += 1;
        }
        if let Some(p) = pending {
            let mut l = self.comment(p, false);
            l.indent();
            push_one(&mut ret, l, Ghost(3));
        }
        Ok(ret)
    }

    pub fn enumeration(&self, k: usize) -> (r: Result<Vec<IndentedString>, FormatterError>)
        requires
            self.wf(),
            k < self.tree().nodes@.len(),
        ensures
            res_lines(r) == enumeration_lines(self.tree(), self.chars(), k as int),
            r is Ok ==> bounded(lines_view(r->Ok_0@), 3),
    {
        let ghost t = self.tree();
        let ghost s = self.chars();
        let ghost init = block(Seq::empty(), false);
        let ghost step = enumeration_step(t, s);
        let node = &self.tree.nodes[k];
        let ghost kids = t.kids(k as int);
        proof {
            assert(t.node_wf(k as int, s.len()));
        }
        let mut ret: Vec<IndentedString> = Vec::new();
        let mut open_bracket: bool = false;
        let mut close_bracket: bool = false;
        let mut pending: Option<usize> = None;
        let mut i: usize = 0;
        assert(lines_view(ret@) =~= Seq::<LineV>::empty());
        while i < node.children.len()
            invariant
                self.wf(),
                t == self.tree(),
                s == self.chars(),
                step == enumeration_step(t, s),
                init == block(Seq::empty(), false),
                kids == node.children@,
                kids == t.kids(k as int),
                t.node_wf(k as int, s.len()),
                i <= kids.len(),
                fold_kids(kids, i as nat, init, step) == Ok::<Block, FormatterError>(
                    Block {
                        lines: lines_view(ret@),
                        open: open_bracket,
                        close: close_bracket,
                        started: false,
                        pending,
                    },
                ),
                bounded(lines_view(ret@), 3),
                pending is Some ==> pending->0 < t.nodes@.len(),
            decreases kids.len() - i,
        {
            let c = node.children[i];
            proof {
                lemma_fold_next(kids, i as nat, init, step);
            }
            let rule_c = self.tree.nodes[c].rule;
            if !(rule_c == Rule::CloseBracket) {
                if let Some(p) = pending {
                    let mut l = self.comment(p, false);
                    l.indent();
                    push_one(&mut ret, l, Ghost(3));
                    pending = None;
                }
            }
            let res: Result<(), FormatterError> = match rule_c {
                Rule::OpenBracket => {
                    open_bracket = true;
                    Ok(())
                },
                Rule::CloseBracket => {
                    close_bracket = true;
                    let res = self.after_bracket_helper(&mut ret, pending, Rule::Enumeration, Ghost(3));
                    pending = None;
                    res
                },
                Rule::Comment => {
                    if open_bracket && !close_bracket {
                        pending = Some(c);
                        Ok(())
                    } else {
                        self.comment_helper(&mut ret, c, open_bracket, close_bracket, Rule::Enumeration, Ghost(3))
                    }
                },
                Rule::MultilineComment => {
                    self.multiline_comment_helper(&mut ret, c, open_bracket, close_bracket, Ghost(3));
                    Ok(())
                },
                Rule::AnnotationBlock => match self.annotation_block(c) {
                    Ok(lines) => {
                        if open_bracket && !close_bracket {
                            push_deeper(&mut ret, lines, Ghost(2), Ghost(3));
                        } else {
                            push_all(&mut ret, lines, Ghost(3));
                        }
                        Ok(())
                    },
                    Err(e) => Err(e),
                },
                Rule::TypeDec => {
                    let mut txt = String::from_str("enumeration ");
                    txt.append(self.type_dec(c).as_str());
                    txt.append(" {");
                    let mut l = IndentedString::new(0, txt);
                    l.set_rule(Rule::Enumeration);
                    push_one(&mut ret, l, Ghost(3));
                    Ok(())
                },
                Rule::EnumValue => match self.enum_value(c) {
                    Ok(lines) => {
                        push_deeper(&mut ret, lines, Ghost(2), Ghost(3));
                        Ok(())
                    },
                    Err(e) => Err(e),
                },
                r => Err(FormatterError::UnexpectedNode(r, Rule::Enumeration)),
            };
            match res {
                Ok(()) => {},
                Err(e) => {
                    proof {
                        lemma_fold_stops(kids, (i + 1) as nat, kids.len(), init, step);
                    }
                    return Err(e);
                },
            }
            i += 1;
        }
        if let Some(p) = pending {
            let mut l = self.comment(p, false);
            l.indent();
            push_one(&mut ret, l, Ghost(3));
        }
        Ok(ret)
    }

    /// An input or output section; `head` is its header line.
    fn params(
        &self,
        k: usize,
        head: &str,
        rule: Rule,
    ) -> (r: Result<Vec<IndentedString>, FormatterError>)
        requires
            self.wf(),
            k < self.tree().nodes@.len(),
        ensures
            res_lines(r) == params_lines(self.tree(), self.chars(), k as int, head@, rule),
            r is Ok ==> bounded(lines_view(r->Ok_0@), 3),
    {
        let ghost t = self.tree();
        let ghost s = self.chars();
        let ghost init = block(Seq::empty(), false);
        let ghost step = params_step(t, s, head@, rule);
        let node = &self.tree.nodes[k];
        let ghost kids = t.kids(k as int);
        proof {
            assert(t.node_wf(k as int, s.len()));
        }
        let mut ret: Vec<IndentedString> = Vec::new();
        let mut open_bracket: bool = false;
        let mut close_bracket: bool = false;
        let mut pending: Option<usize> = None;
        let mut already_there = false;
        let mut i: usize = 0;
        assert(lines_view(ret@) =~= Seq::<LineV>::empty());
        while i < node.children.len()
            invariant
                self.wf(),
                t == self.tree(),
                s == self.chars(),
                step == params_step(t, s, head@, rule),
                init == block(Seq::empty(), false),
                kids == node.children@,
                kids == t.kids(k as int),
                t.node_wf(k as int, s.len()),
                i <= kids.len(),
                fold_kids(kids, i as nat, init, step) == Ok::<Block, FormatterError>(
                    Block {
                        lines: lines_view(ret@),
                        open: open_bracket,
                        close: close_bracket,
                        started: already_there,
                        pending,
                    },
                ),
                bounded(lines_view(ret@), 3),
                pending is Some ==> pending->0 < t.nodes@.len(),
            decreases kids.len() - i,
        {
            let c = node.children[i];
            proof {
                lemma_fold_next(kids, i as nat, init, step);
            }
            let rule_c = self.tree.nodes[c].rule;
            if !(rule_c == Rule::CloseBracket) {
                if let Some(p) = pending {
                    let mut l = self.comment(p, false);
                    l.indent();
                    push_one(&mut ret, l, Ghost(3));
                    pending = None;
                }
            }
            let res: Result<(), FormatterError> = match rule_c {
                Rule::OpenBracket => {
                    open_bracket = true;
                    Ok(())
                },
                Rule::CloseBracket => {
                    close_bracket = true;
                    if ret.len() == 0 && pending.is_none() {
                        Ok(())
                    } else {
                        let res = self.after_bracket_helper(&mut ret, pending, rule, Ghost(3));
                        pending = None;
                        res
                    }
                },
                Rule::Comment => {
                    if !already_there {
                        let mut h = IndentedString::new(0, String::from_str(head));
                        h.set_rule(rule);
                        push_one(&mut ret, h, Ghost(3));
                        already_there = true;
                    }
                    if open_bracket && !close_bracket {
                        pending = Some(c);
                        Ok(())
                    } else {
                        self.comment_helper(&mut ret, c, open_bracket, close_bracket, rule, Ghost(3))
                    }
                },
                Rule::MultilineComment => {
                    if !already_there {
                        let mut h = IndentedString::new(0, String::from_str(head));
                        h.set_rule(rule);
                        push_one(&mut ret, h, Ghost(3));
                        already_there = true;
                    }
                    self.multiline_comment_helper(&mut ret, c, open_bracket, close_bracket, Ghost(3));
                    Ok(())
                },
                Rule::AnnotationBlock => match self.annotation_block(c) {
                    Ok(lines) => {
                        if open_bracket && !close_bracket {
                            push_deeper(&mut ret, lines, Ghost(2), Ghost(3));
                        } else {
                            push_all(&mut ret, lines, Ghost(3));
                        }
                        Ok(())
                    },
                    Err(e) => Err(e),
                },
                Rule::VariableDeclaration => match self.variable_declaration(c) {
                    Ok(lines) => {
                        if !already_there {
                            let mut h = IndentedString::new(0, String::from_str(head));
                            h.set_rule(rule);
                            push_one(&mut ret, h, Ghost(3));
                            already_there = true;
                        }
                        push_deeper(&mut ret, lines, Ghost(2), Ghost(3));
                        Ok(())
                    },
                    Err(e) => Err(e),
                },
                r => Err(FormatterError::UnexpectedNode(r, rule)),
            };
            match res {
                Ok(()) => {},
                Err(e) => {
                    proof {
                        lemma_fold_stops(kids, (i + 1) as nat, kids.len(), init, step);
                    }
                    return Err(e);
                },
            }
            i += 1;
        }
        if let Some(p) = pending {
            let mut l = self.comment(p, false);
            l.indent();
            push_one(&mut ret, l, Ghost(3));
        }
        Ok(ret)
    }

    #[verifier::rlimit(40)]
    pub fn method(&self, k: usize) -> (r: Result<Vec<IndentedString>, FormatterError>)
        requires
            self.wf(),
            k < self.tree().nodes@.len(),
        ensures
            res_lines(r) == method_lines(self.tree(), self.chars(), k as int),
            r is Ok ==> bounded(lines_view(r->Ok_0@), 4),
    {
        let ghost t = self.tree();
        let ghost s = self.chars();
        let ghost init = block(Seq::empty(), false);
        let ghost step = method_step(t, s);
        let node = &self.tree.nodes[k];
        let ghost kids = t.kids(k as int);
        proof {
            assert(t.node_wf(k as int, s.len()));
        }
        let mut ret: Vec<IndentedString> = Vec::new();
        let mut open_bracket: bool = false;
        let mut close_bracket: bool = false;
        let mut pending: Option<usize> = None;
        let mut i: usize = 0;
        assert(lines_view(ret@) =~= Seq::<LineV>::empty());
        while i < node.children.len()
            invariant
                self.wf(),
                t == self.tree(),
                s == self.chars(),
                step == method_step(t, s),
                init == block(Seq::empty(), false),
                kids == node.children@,
                kids == t.kids(k as int),
                t.node_wf(k as int, s.len()),
                i <= kids.len(),
                fold_kids(kids, i as nat, init, step) == Ok::<Block, FormatterError>(
                    Block {
                        lines: lines_view(ret@),
                        open: open_bracket,
                        close: close_bracket,
                        started: false,
                        pending,
                    },
                ),
                bounded(lines_view(ret@), 4),
                pending is Some ==> pending->0 < t.nodes@.len(),
            decreases kids.len() - i,
        {
            let c = node.children[i];
            proof {
                lemma_fold_next(kids, i as nat, init, step);
            }
            let rule_c = self.tree.nodes[c].rule;
            if !(rule_c == Rule::CloseBracket) {
                if let Some(p) = pending {
                    let mut l = self.comment(p, false);
                    l.indent();
                    push_one(&mut ret, l, Ghost(4));
                    pending = None;
                }
            }
            let res: Result<(), FormatterError> = match rule_c {
                Rule::OpenBracket => {
                    open_bracket = true;
                    Ok(())
                },
                Rule::CloseBracket => {
                    close_bracket = true;
                    let res = self.after_bracket_helper(&mut ret, pending, Rule::Method, Ghost(4));
                    pending = None;
                    res
                },
                Rule::Comment => {
                    if open_bracket && !close_bracket {
                        pending = Some(c);
                        Ok(())
                    } else {
                        self.comment_helper(&mut ret, c, open_bracket, close_bracket, Rule::Method, Ghost(4))
                    }
                },
                Rule::MultilineComment => {
                    self.multiline_comment_helper(&mut ret, c, open_bracket, close_bracket, Ghost(4));
                    Ok(())
                },
                Rule::AnnotationBlock => match self.annotation_block(c) {
                    Ok(lines) => {
                        if open_bracket && !close_bracket {
                            push_deeper(&mut ret, lines, Ghost(2), Ghost(4));
                        } else {
                            push_all(&mut ret, lines, Ghost(4));
                        }
                        Ok(())
                    },
                    Err(e) => Err(e),
                },
                Rule::VariableName => {
                    let mut txt = String::from_str("method ");
                    txt.append(self.variable_name(c).as_str());
                    txt.append(" {");
                    let mut l = IndentedString::new(0, txt);
                    l.set_rule(Rule::Method);
                    push_one(&mut ret, l, Ghost(4));
                    Ok(())
                },
                Rule::InputParams => match self.input_params(c) {
                    Ok(lines) => {
                        push_deeper(&mut ret, lines, Ghost(3), Ghost(4));
                        Ok(())
                    },
                    Err(e) => Err(e),
                },
                Rule::OutputParams => match self.output_params(c) {
                    Ok(lines) => {
                        push_deeper(&mut ret, lines, Ghost(3), Ghost(4));
                        Ok(())
                    },
                    Err(e) => Err(e),
                },
                r => Err(FormatterError::UnexpectedNode(r, Rule::Method)),
            };
            match res {
                Ok(()) => {},
                Err(e) => {
                    proof {
                        lemma_fold_stops(kids, (i + 1) as nat, kids.len(), init, step);
                    }
                    return Err(e);
                },
            }
            i += 1;
        }
        if let Some(p) = pending {
            let mut l = self.comment(p, false);
            l.indent();
            push_one(&mut ret, l, Ghost(4));
        }
        Ok(ret)
    }

    #[verifier::rlimit(40)]
    pub fn interface(&self, k: usize) -> (r: Result<Vec<IndentedString>, FormatterError>)
        requires
            self.wf(),
            k < self.tree().nodes@.len(),
        ensures
            res_lines(r) == interface_lines(self.tree(), self.chars(), k as int),
            r is Ok ==> bounded(lines_view(r->Ok_0@), 5),
    {
        let ghost t = self.tree();
        let ghost s = self.chars();
        let ghost init = block(Seq::empty(), false);
        let ghost step = interface_step(t, s);
        let node = &self.tree.nodes[k];
        let ghost kids = t.kids(k as int);
        proof {
            assert(t.node_wf(k as int, s.len()));
        }
        let mut ret: Vec<IndentedString> = Vec::new();
        let mut open_bracket: bool = false;
        let mut close_bracket: bool = false;
        let mut pending: Option<usize> = None;
        let mut i: usize = 0;
        assert(lines_view(ret@) =~= Seq::<LineV>::empty());
        while i < node.children.len()
            invariant
                self.wf(),
                t == self.tree(),
                s == self.chars(),
                step == interface_step(t, s),
                init == block(Seq::empty(), false),
                kids == node.children@,
                kids == t.kids(k as int),
                t.node_wf(k as int, s.len()),
                i <= kids.len(),
                fold_kids(kids, i as nat, init, step) == Ok::<Block, FormatterError>(
                    Block {
                        lines: lines_view(ret@),
                        open: open_bracket,
                        close: close_bracket,
                        started: false,
                        pending,
                    },
                ),
                bounded(lines_view(ret@), 5),
                pending is Some ==> pending->0 < t.nodes@.len(),
            decreases kids.len() - i,
        {
            let c = node.children[i];
            proof {
                lemma_fold_next(kids, i as nat, init, step);
            }
            let rule_c = self.tree.nodes[c].rule;
            if !(rule_c == Rule::CloseBracket) {
                if let Some(p) = pending {
                    let mut l = self.comment(p, false);
                    l.indent();
                    push_one(&mut ret, l, Ghost(5));
                    pending = None;
                }
            }
            let res: Result<(), FormatterError> = match rule_c {
                Rule::OpenBracket => {
                    open_bracket = true;
                    Ok(())
                },
                Rule::CloseBracket => {
                    close_bracket = true;
                    let res = self.after_bracket_helper(&mut ret, pending, Rule::Interface, Ghost(5));
                    pending = None;
                    res
                },
                Rule::VariableName => {
                    let mut txt = String::from_str("interface ");
                    txt.append(self.variable_name(c).as_str());
                    txt.append(" {");
                    let mut l = IndentedString::new(0, txt);
                    l.set_rule(Rule::Interface);
                    push_one(&mut ret, l, Ghost(5));
                    Ok(())
                },
                Rule::Version => match self.version(c) {
                    Ok(lines) => {
                        push_deeper(&mut ret, lines, Ghost(3), Ghost(5));
                        push_one(&mut ret, IndentedString::empty(), Ghost(5));
                        Ok(())
                    },
                    Err(e) => Err(e),
                },
                Rule::Typedef => match self.typedef(c) {
                    Ok(lines) => {
                        push_deeper(&mut ret, lines, Ghost(2), Ghost(5));
                        push_one(&mut ret, IndentedString::empty(), Ghost(5));
                        Ok(())
                    },
                    Err(e) => Err(e),
                },
                Rule::Method => match self.method(c) {
                    Ok(lines) => {
                        push_deeper(&mut ret, lines, Ghost(4), Ghost(5));
                        push_one(&mut ret, IndentedString::empty(), Ghost(5));
                        Ok(())
                    },
                    Err(e) => Err(e),
                },
                Rule::Attribute => match self.attribute(c) {
                    Ok(lines) => {
                        push_deeper(&mut ret, lines, Ghost(2), Ghost(5));
                        push_one(&mut ret, IndentedString::empty(), Ghost(5));
                        Ok(())
                    },
                    Err(e) => Err(e),
                },
                Rule::Structure => match self.structure(c) {
                    Ok(lines) => {
                        push_deeper(&mut ret, lines, Ghost(3), Ghost(5));
                        push_one(&mut ret, IndentedString::empty(), Ghost(5));
                        Ok(())
                    },
                    Err(e) => Err(e),
                },
                Rule::Enumeration => match self.enumeration(c) {
                    Ok(lines) => {
                        push_deeper(&mut ret, lines, Ghost(3), Ghost(5));
                        push_one(&mut ret, IndentedString::empty(), Ghost(5));
                        Ok(())
                    },
                    Err(e) => Err(e),
                },
                Rule::AnnotationBlock => match self.annotation_block(c) {
                    Ok(lines) => {
                        if open_bracket && !close_bracket {
                            push_deeper(&mut ret, lines, Ghost(2), Ghost(5));
                        } else {
                            push_all(&mut ret, lines, Ghost(5));
                        }
                        Ok(())
                    },
                    Err(e) => Err(e),
                },
                Rule::Comment => {
                    if open_bracket && !close_bracket {
                        pending = Some(c);
                        Ok(())
                    } else {
                        self.comment_helper(&mut ret, c, open_bracket, close_bracket, Rule::Interface, Ghost(5))
                    }
                },
                Rule::MultilineComment => {
                    self.multiline_comment_helper(&mut ret, c, open_bracket, close_bracket, Ghost(5));
                    Ok(())
                },
                r => Err(FormatterError::UnexpectedNode(r, Rule::Interface)),
            };
            match res {
                Ok(()) => {},
                Err(e) => {
                    proof {
                        lemma_fold_stops(kids, (i + 1) as nat, kids.len(), init, step);
                    }
                    return Err(e);
                },
            }
            i += 1;
        }
        if let Some(p) = pending {
            let mut l = self.comment(p, false);
            l.indent();
            push_one(&mut ret, l, Ghost(5));
        }
        if ret.len() > 1 {
            let ghost all = lines_view(ret@);
            let last_element = ret.pop().unwrap();
            assert(lines_view(ret@) =~= all.drop_last());
            if !last_element.is_blank_line() {
                push_one(&mut ret, last_element, Ghost(5));
                assert(lines_view(ret@) =~= all);
            }
        }
        Ok(ret)
    }

    #[verifier::rlimit(40)]
    pub fn type_collection(&self, k: usize) -> (r: Result<Vec<IndentedString>, FormatterError>)
        requires
            self.wf(),
            k < self.tree().nodes@.len(),
        ensures
            res_lines(r) == type_collection_lines(self.tree(), self.chars(), k as int),
            r is Ok ==> bounded(lines_view(r->Ok_0@), 4),
    {
        let ghost t = self.tree();
        let ghost s = self.chars();
        let ghost init = block(Seq::empty(), false);
        let ghost step = type_collection_step(t, s);
        let node = &self.tree.nodes[k];
        let ghost kids = t.kids(k as int);
        proof {
            assert(t.node_wf(k as int, s.len()));
        }
        let mut ret: Vec<IndentedString> = Vec::new();
        let mut open_bracket: bool = false;
        let mut close_bracket: bool = false;
        let mut pending: Option<usize> = None;
        let mut named = false;
        let mut i: usize = 0;
        assert(lines_view(ret@) =~= Seq::<LineV>::empty());
        while i < node.children.len()
            invariant
                self.wf(),
                t == self.tree(),
                s == self.chars(),
                step == type_collection_step(t, s),
                init == block(Seq::empty(), false),
                kids == node.children@,
                kids == t.kids(k as int),
                t.node_wf(k as int, s.len()),
                i <= kids.len(),
                fold_kids(kids, i as nat, init, step) == Ok::<Block, FormatterError>(
                    Block {
                        lines: lines_view(ret@),
                        open: open_bracket,
                        close: close_bracket,
                        started: named,
                        pending,
                    },
                ),
                bounded(lines_view(ret@), 4),
                pending is Some ==> pending->0 < t.nodes@.len(),
            decreases kids.len() - i,
        {
            let c = node.children[i];
            proof {
                lemma_fold_next(kids, i as nat, init, step);
            }
            let rule_c = self.tree.nodes[c].rule;
            if !(rule_c == Rule::CloseBracket) {
                if let Some(p) = pending {
                    let mut l = self.comment(p, false);
                    l.indent();
                    push_one(&mut ret, l, Ghost(4));
                    pending = None;
                }
            }
            let res: Result<(), FormatterError> = match rule_c {
                Rule::OpenBracket => {
                    if !named {
                        let mut h = IndentedString::new(0, String::from_str("typeCollection {"));
                        h.set_rule(Rule::TypeCollection);
                        push_one(&mut ret, h, Ghost(4));
                        named = true;
                    }
                    open_bracket = true;
                    Ok(())
                },
                Rule::CloseBracket => {
                    close_bracket = true;
                    let res = self.after_bracket_helper(&mut ret, pending, Rule::TypeCollection, Ghost(4));
                    pending = None;
                    res
                },
                Rule::Comment => {
                    if !named {
                        let mut h = IndentedString::new(0, String::from_str("typeCollection {"));
                        h.set_rule(Rule::TypeCollection);
                        push_one(&mut ret, h, Ghost(4));
                        named = true;
                    }
                    if open_bracket && !close_bracket {
                        pending = Some(c);
                        Ok(())
                    } else {
                        self.comment_helper(&mut ret, c, open_bracket, close_bracket, Rule::TypeCollection, Ghost(4))
                    }
                },
                Rule::MultilineComment => {
                    self.multiline_comment_helper(&mut ret, c, open_bracket, close_bracket, Ghost(4));
                    Ok(())
                },
                Rule::VariableName => {
                    named = true;
                    let mut txt = String::from_str("typeCollection ");
                    txt.append(self.variable_name(c).as_str());
                    txt.append(" {");
                    let mut l = IndentedString::new(0, txt);
                    l.set_rule(Rule::TypeCollection);
                    push_one(&mut ret, l, Ghost(4));
                    Ok(())
                },
                Rule::AnnotationBlock => match self.annotation_block(c) {
                    Ok(lines) => {
                        if open_bracket && !close_bracket {
                            push_deeper(&mut ret, lines, Ghost(2), Ghost(4));
                        } else {
                            push_all(&mut ret, lines, Ghost(4));
                        }
                        Ok(())
                    },
                    Err(e) => Err(e),
                },
                Rule::Typedef => match self.typedef(c) {
                    Ok(lines) => {
                        if !named {
                            let mut h = IndentedString::new(0, String::from_str("typeCollection {"));
                            h.set_rule(Rule::TypeCollection);
                            push_one(&mut ret, h, Ghost(4));
                            named = true;
                        }
                        push_deeper(&mut ret, lines, Ghost(2), Ghost(4));
                        push_one(&mut ret, IndentedString::empty(), Ghost(4));
                        Ok(())
                    },
                    Err(e) => Err(e),
                },
                Rule::Structure => match self.structure(c) {
                    Ok(lines) => {
                        if !named {
                            let mut h = IndentedString::new(0, String::from_str("typeCollection {"));
                            h.set_rule(Rule::TypeCollection);
                            push_one(&mut ret, h, Ghost(4));
                            named = true;
                        }
                        push_deeper(&mut ret, lines, Ghost(3), Ghost(4));
                        push_one(&mut ret, IndentedString::empty(), Ghost(4));
                        Ok(())
                    },
                    Err(e) => Err(e),
                },
                Rule::Version => match self.version(c) {
                    Ok(lines) => {
                        if !named {
                            let mut h = IndentedString::new(0, String::from_str("typeCollection {"));
                            h.set_rule(Rule::TypeCollection);
                            push_one(&mut ret, h, Ghost(4));
                            named = true;
                        }
                        push_deeper(&mut ret, lines, Ghost(3), Ghost(4));
                        push_one(&mut ret, IndentedString::empty(), Ghost(4));
                        Ok(())
                    },
                    Err(e) => Err(e),
                },
                Rule::Enumeration => match self.enumeration(c) {
                    Ok(lines) => {
                        if !named {
                            let mut h = IndentedString::new(0, String::from_str("typeCollection {"));
                            h.set_rule(Rule::TypeCollection);
                            push_one(&mut ret, h, Ghost(4));
                            named = true;
                        }
                        push_deeper(&mut ret, lines, Ghost(3), Ghost(4));
                        push_one(&mut ret, IndentedString::empty(), Ghost(4));
                        Ok(())
                    },
                    Err(e) => Err(e),
                },
                r => Err(FormatterError::UnexpectedNode(r, Rule::TypeCollection)),
            };
            match res {
                Ok(()) => {},
                Err(e) => {
                    proof {
                        lemma_fold_stops(kids, (i + 1) as nat, kids.len(), init, step);
                    }
                    return Err(e);
                },
            }
            i += 1;
        }
        if let Some(p) = pending {
            let mut l = self.comment(p, false);
            l.indent();
            push_one(&mut ret, l, Ghost(4));
        }
        if ret.len() > 1 {
            let ghost all = lines_view(ret@);
            let last_element = ret.pop().unwrap();
            assert(lines_view(ret@) =~= all.drop_last());
            if !last_element.is_blank_line() {
                push_one(&mut ret, last_element, Ghost(4));
                assert(lines_view(ret@) =~= all);
            }
        }
        Ok(ret)
    }

    /// The formatted text of the source, or why the tree cannot be formatted.
    pub fn format(&self) -> (r: Result<String, FormatterError>)
        ensures
            res_text(r) == formatted(self.tree(), self.chars()),
    {
        if !self.tree.is_wf(self.source.len()) {
            return Err(FormatterError::MalformedTree);
        }
        if self.tree.nodes.len() == 0 {
            return Err(FormatterError::MalformedTree);
        }
        let root_node = &self.tree.nodes[0];
        if !(root_node.rule == Rule::Grammar) || root_node.children.len() != 1 {
            return Err(FormatterError::MalformedTree);
        }
        let grammar_node_key = root_node.children[0];
        proof {
            assert(self.tree().node_wf(0, self.chars().len()));
        }
        let lines = match self.file(grammar_node_key) {
            Ok(lines) => lines,
            Err(e) => {
                return Err(e);
            },
        };
        let ghost ls = lines_view(lines@);
        let mut ret_string = String::new();
        let mut j: usize = 0;
        assert(ls.take(0) =~= Seq::<LineV>::empty());
        while j < lines.len()
            invariant
                j <= lines@.len(),
                ls == lines_view(lines@),
                ret_string@ == render_all(ls.take(j as int)),
            decreases lines@.len() - j,
        {
            ret_string.append(lines[j].to_text().as_str());
            assert(ls.take(j + 1).drop_last() =~= ls.take(j as int));
            j += 1;
        }
        assert(ls.take(ls.len() as int) =~= ls);
        Ok(ret_string)
    }

    pub fn package(&self, k: usize) -> (r: Result<IndentedString, FormatterError>)
        requires
            self.wf(),
            k < self.tree().nodes@.len(),
        ensures
            match package_line(self.tree(), self.chars(), k as int) {
                Ok(l) => r is Ok && r->Ok_0@ == l && l.indent == 0,
                Err(e) => r == Err::<IndentedString, FormatterError>(e),
            },
    {
        let ghost t = self.tree();
        let ghost s = self.chars();
        let ghost init = blank();
        let ghost step = package_step(t, s);
        let node = &self.tree.nodes[k];
        let ghost kids = t.kids(k as int);
        proof {
            assert(t.node_wf(k as int, s.len()));
        }
        let mut ret_str = IndentedString::empty();
        let mut i: usize = 0;

        while i < node.children.len()
            invariant
                self.wf(),
                t == self.tree(),
                s == self.chars(),
                step == package_step(t, s),
                init == blank(),
                kids == node.children@,
                kids == t.kids(k as int),
                t.node_wf(k as int, s.len()),
                i <= kids.len(),
                fold_kids(kids, i as nat, init, step) == Ok::<LineV, FormatterError>(ret_str@),
                ret_str@.indent == 0,
            decreases kids.len() - i,
        {
            let c = node.children[i];
            proof {
                lemma_fold_next(kids, i as nat, init, step);
            }
            let res: Result<(), FormatterError> = match self.tree.nodes[c].rule {
                Rule::TypeRef => {
                    let mut txt = String::from_str("package ");
                    txt.append(self.type_ref(c).as_str());
                    let mut s2 = IndentedString::new(0, txt);
                    s2.set_with_newline(false);
                    ret_str = s2;
                    Ok(())
                },
                Rule::Comment => {
                    ret_str = ret_str.merged(self.comment(c, true));
                    Ok(())
                },
                r => Err(FormatterError::UnexpectedNode(r, Rule::Package)),
            };
            match res {
                Ok(()) => {},
                Err(e) => {
                    proof {
                        lemma_fold_stops(kids, (i + 1) as nat, kids.len(), init, step);
                    }
                    return Err(e);
                },
            }
            i += 1;
        }
        Ok(ret_str)
    }

    pub fn import_model(&self, k: usize) -> (r: Result<IndentedString, FormatterError>)
        requires
            self.wf(),
            k < self.tree().nodes@.len(),
        ensures
            match import_model_line(self.tree(), self.chars(), k as int) {
                Ok(l) => r is Ok && r->Ok_0@ == l && l.indent == 0,
                Err(e) => r == Err::<IndentedString, FormatterError>(e),
            },
    {
        let ghost t = self.tree();
        let ghost s = self.chars();
        let ghost init = blank();
        let ghost step = import_model_step(t, s);
        let node = &self.tree.nodes[k];
        let ghost kids = t.kids(k as int);
        proof {
            assert(t.node_wf(k as int, s.len()));
        }
        let mut ret_str = IndentedString::empty();
        let mut i: usize = 0;

        while i < node.children.len()
            invariant
                self.wf(),
                t == self.tree(),
                s == self.chars(),
                step == import_model_step(t, s),
                init == blank(),
                kids == node.children@,
                kids == t.kids(k as int),
                t.node_wf(k as int, s.len()),
                i <= kids.len(),
                fold_kids(kids, i as nat, init, step) == Ok::<LineV, FormatterError>(ret_str@),
                ret_str@.indent == 0,
            decreases kids.len() - i,
        {
            let c = node.children[i];
            proof {
                lemma_fold_next(kids, i as nat, init, step);
            }
            let res: Result<(), FormatterError> = match self.tree.nodes[c].rule {
                Rule::FilePath => {
                    let mut txt = String::from_str("import model ");
                    txt.append(self.raw_text(c).as_str());
                    ret_str = IndentedString::new(0, txt);
                    Ok(())
                },
                Rule::Comment => {
                    ret_str = ret_str.merged(self.comment(c, true));
                    Ok(())
                },
                r => Err(FormatterError::UnexpectedNode(r, Rule::ImportModel)),
            };
            match res {
                Ok(()) => {},
                Err(e) => {
                    proof {
                        lemma_fold_stops(kids, (i + 1) as nat, kids.len(), init, step);
                    }
                    return Err(e);
                },
            }
            i += 1;
        }
        Ok(ret_str)
    }

    pub fn import_namespace(&self, k: usize) -> (r: Result<IndentedString, FormatterError>)
        requires
            self.wf(),
            k < self.tree().nodes@.len(),
        ensures
            match import_namespace_line(self.tree(), self.chars(), k as int) {
                Ok(l) => r is Ok && r->Ok_0@ == l && l.indent == 0,
                Err(e) => r == Err::<IndentedString, FormatterError>(e),
            },
    {
        let ghost t = self.tree();
        let ghost s = self.chars();
        let ghost init = (ImportSt {
            line: blank(),
            type_ref: Seq::empty(),
            wildcard: Seq::empty(),
        });
        let ghost step = import_namespace_step(t, s);
        let node = &self.tree.nodes[k];
        let ghost kids = t.kids(k as int);
        proof {
            assert(t.node_wf(k as int, s.len()));
        }
        let mut ret_str = IndentedString::empty();
        let mut type_ref = String::new();
        let mut wildcard = String::new();
        let mut i: usize = 0;

        while i < node.children.len()
            invariant
                self.wf(),
                t == self.tree(),
                s == self.chars(),
                step == import_namespace_step(t, s),
                init == (ImportSt {
                    line: blank(),
                    type_ref: Seq::empty(),
                    wildcard: Seq::empty(),
                }),
                kids == node.children@,
                kids == t.kids(k as int),
                t.node_wf(k as int, s.len()),
                i <= kids.len(),
                fold_kids(kids, i as nat, init, step) == Ok::<ImportSt, FormatterError>(
                    ImportSt {
                        line: ret_str@,
                        type_ref: type_ref@,
                        wildcard: wildcard@,
                    },
                ),
                ret_str@.indent == 0,
            decreases kids.len() - i,
        {
            let c = node.children[i];
            proof {
                lemma_fold_next(kids, i as nat, init, step);
            }
            let res: Result<(), FormatterError> = match self.tree.nodes[c].rule {
                Rule::TypeRef => {
                    type_ref = self.type_ref(c);
                    Ok(())
                },
                Rule::Wildcard => {
                    wildcard = String::from_str(".*");
                    Ok(())
                },
                Rule::FilePath => {
                    let mut txt = String::from_str("import ");
                    txt.append(type_ref.as_str());
                    txt.append(wildcard.as_str());
                    txt.append(" from ");
                    txt.append(self.raw_text(c).as_str());
                    ret_str = IndentedString::new(0, txt);
                    Ok(())
                },
                Rule::Comment => {
                    ret_str = ret_str.merged(self.comment(c, true));
                    Ok(())
                },
                r => Err(FormatterError::UnexpectedNode(r, Rule::ImportNamespace)),
            };
            match res {
                Ok(()) => {},
                Err(e) => {
                    proof {
                        lemma_fold_stops(kids, (i + 1) as nat, kids.len(), init, step);
                    }
                    return Err(e);
                },
            }
            i += 1;
        }
        Ok(ret_str)
    }

    /// The lines of the children of the top production `k`, in order.
    #[verifier::rlimit(40)]
    fn file(&self, k: usize) -> (r: Result<Vec<IndentedString>, FormatterError>)
        requires
            self.wf(),
            k < self.tree().nodes@.len(),
        ensures
            res_lines(r) == fold_all(
                self.tree(),
                k as int,
                Seq::<LineV>::empty(),
                file_step(self.tree(), self.chars(), self.tree().rule_of(k as int)),
            ),
            r is Ok ==> bounded(lines_view(r->Ok_0@), 5),
    {
        let ghost t = self.tree();
        let ghost s = self.chars();
        let ghost init = Seq::<LineV>::empty();
        let ghost step = file_step(t, s, t.rule_of(k as int));
        let node = &self.tree.nodes[k];
        let ghost kids = t.kids(k as int);
        proof {
            assert(t.node_wf(k as int, s.len()));
        }
        let mut ret: Vec<IndentedString> = Vec::new();
        let top_rule = node.rule;
        let mut i: usize = 0;
        assert(lines_view(ret@) =~= Seq::<LineV>::empty());
        while i < node.children.len()
            invariant
                self.wf(),
                t == self.tree(),
                s == self.chars(),
                step == file_step(t, s, t.rule_of(k as int)),
                init == Seq::<LineV>::empty(),
                kids == node.children@,
                kids == t.kids(k as int),
                t.node_wf(k as int, s.len()),
                i <= kids.len(),
                fold_kids(kids, i as nat, init, step) == Ok::<Seq<LineV>, FormatterError>(lines_view(ret@)),
                bounded(lines_view(ret@), 5),
                top_rule == t.rule_of(k as int),
            decreases kids.len() - i,
        {
            let c = node.children[i];
            proof {
                reveal(file_step);
                lemma_fold_next(kids, i as nat, init, step);
            }
            let res: Result<(), FormatterError> = match self.tree.nodes[c].rule {
                Rule::Comment => {
                    push_one(&mut ret, self.comment(c, false), Ghost(5));
                    Ok(())
                },
                Rule::Package => match self.package(c) {
                    Ok(mut l) => {
                        l.set_with_newline(ret.len() > 0);
                        push_one(&mut ret, l, Ghost(5));
                        push_one(&mut ret, IndentedString::empty(), Ghost(5));
                        Ok(())
                    },
                    Err(e) => Err(e),
                },
                Rule::ImportModel => match self.import_model(c) {
                    Ok(l) => {
                        push_one(&mut ret, l, Ghost(5));
                        Ok(())
                    },
                    Err(e) => Err(e),
                },
                Rule::ImportNamespace => match self.import_namespace(c) {
                    Ok(l) => {
                        push_one(&mut ret, l, Ghost(5));
                        Ok(())
                    },
                    Err(e) => Err(e),
                },
                Rule::Interface => match self.interface(c) {
                    Ok(lines) => {
                        push_all(&mut ret, lines, Ghost(5));
                        Ok(())
                    },
                    Err(e) => Err(e),
                },
                Rule::TypeCollection => match self.type_collection(c) {
                    Ok(lines) => {
                        push_all(&mut ret, lines, Ghost(5));
                        Ok(())
                    },
                    Err(e) => Err(e),
                },
                Rule::MultilineComment => {
                    push_all(&mut ret, self.multiline_comment(c), Ghost(5));
                    Ok(())
                },
                r => Err(FormatterError::UnexpectedNode(r, top_rule)),
            };
            match res {
                Ok(()) => {},
                Err(e) => {
                    proof {
                        lemma_fold_stops(kids, (i + 1) as nat, kids.len(), init, step);
                    }
                    return Err(e);
                },
            }
            i += 1;
        }
        Ok(ret)
    }

    fn type_dec(&self, k: usize) -> (r: String)
        requires
            self.wf(),
            k < self.tree().nodes@.len(),
        ensures
            r@ == type_text(self.tree(), self.chars(), k as int),
    {
        self.type_ref(k)
    }
}

pub open spec fn res_text(r: Result<String, FormatterError>) -> Result<Seq<char>, FormatterError> {
    match r {
        Ok(v) => Ok(v@),
        Err(e) => Err(e),
    }
}

pub open spec fn opt_view(o: Option<String>) -> Option<Seq<char>> {
    match o {
        Some(x) => Some(x@),
        None => None,
    }
}

} // verus!
