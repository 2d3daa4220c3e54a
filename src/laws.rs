//! Properties of the formatter that hold of every tree.
use vstd::prelude::*;
use crate::indented_string::{merge, render, LineV};
use crate::layout::{
    blank, block, brace, close_block, comment_line, file_lines, file_step, fold_kids, header, interface_lines,
    interface_step, lemma_fold_next, lemma_fold_stops, tree_ok, var_name, Block, FormatterError,
};
use crate::tree::{Rule, Tree};

verus! {

/// An interface with a name and an empty body (`interface Foo { }`) is
/// written as the single line `interface Foo {}`, after a line break.
#[verifier::rlimit(60)]
pub proof fn lemma_empty_interface_collapses(t: Tree, s: Seq<char>, k: int)
    requires
        t.wf(s.len()),
        0 <= k < t.nodes@.len(),
        t.kids(k).len() == 3,
        t.rule_of(t.kids(k)[0] as int) == Rule::VariableName,
        t.rule_of(t.kids(k)[1] as int) == Rule::OpenBracket,
        t.rule_of(t.kids(k)[2] as int) == Rule::CloseBracket,
    ensures
        ({
            let name = var_name(t, s, t.kids(k)[0] as int);
            &&& interface_lines(t, s, k) is Ok
            &&& interface_lines(t, s, k)->Ok_0.len() == 1
            &&& render(interface_lines(t, s, k)->Ok_0[0]) == "\n"@ + "interface "@ + name + " {}"@
        }),
{
    let kids = t.kids(k);
    let init = block(Seq::empty(), false);
    let step = interface_step(t, s);
    let name = var_name(t, s, kids[0] as int);
    let h = header("interface "@ + name + " {"@, Rule::Interface);
    let st1 = Block { lines: seq![h], ..init };
    let st2 = Block { open: true, ..st1 };
    lemma_fold_next(kids, 0, init, step);
    assert(fold_kids(kids, 1, init, step) == Ok::<Block, FormatterError>(st1));
    lemma_fold_next(kids, 1, init, step);
    assert(fold_kids(kids, 2, init, step) == Ok::<Block, FormatterError>(st2));
    lemma_fold_next(kids, 2, init, step);
    reveal_strlit("\n");
    reveal_strlit("}");
    reveal_strlit(" {}");
    reveal_strlit(" {");
    assert(seq![h].last() != blank());
    assert(close_block(t, s, st2.lines, None, Rule::Interface) is Ok);
    assert(close_block(t, s, st2.lines, None, Rule::Interface)->Ok_0 =~= seq![merge(h, brace())]);
    assert(merge(h, brace()).text =~= "interface "@ + name + " {}"@);
    assert(render(merge(h, brace())) =~= "\n"@ + "interface "@ + name + " {}"@);
}

proof fn lemma_file_step_extends(t: Tree, s: Seq<char>, top: Rule, ls: Seq<LineV>, c: usize)
    requires
        file_step(t, s, top)(ls, c) is Ok,
    ensures
        ls.len() <= file_step(t, s, top)(ls, c)->Ok_0.len(),
        file_step(t, s, top)(ls, c)->Ok_0.subrange(0, ls.len() as int) == ls,
        t.rule_of(c as int) == Rule::Comment ==> file_step(t, s, top)(ls, c)->Ok_0 == ls.push(
            comment_line(t, s, c as int, false),
        ),
{
    reveal(file_step);
    let r = file_step(t, s, top)(ls, c)->Ok_0;
    assert(r.subrange(0, ls.len() as int) =~= ls);
}

#[verifier::rlimit(80)]
proof fn lemma_top_comments_upto(t: Tree, s: Seq<char>, n: nat)
    requires
        tree_ok(t, s.len()),
        n <= t.kids(t.kids(0)[0] as int).len(),
        fold_kids(
            t.kids(t.kids(0)[0] as int),
            n,
            Seq::<LineV>::empty(),
            file_step(t, s, t.rule_of(t.kids(0)[0] as int)),
        ) is Ok,
    ensures
        ({
            let kids = t.kids(t.kids(0)[0] as int);
            let ls = fold_kids(kids, n, Seq::<LineV>::empty(), file_step(t, s, t.rule_of(t.kids(0)[0] as int)))->Ok_0;
            forall|j: int|
                0 <= j < n && t.rule_of(kids[j] as int) == Rule::Comment ==> ls.contains(
                    #[trigger] comment_line(t, s, kids[j] as int, false),
                )
        }),
    decreases n,
{
    let top = t.kids(0)[0] as int;
    let kids = t.kids(top);
    let init = Seq::<LineV>::empty();
    let step = file_step(t, s, t.rule_of(top));
    if n > 0 {
        let m = (n - 1) as nat;
        lemma_fold_next(kids, m, init, step);
        if fold_kids(kids, m, init, step) is Err {
            lemma_fold_stops(kids, m, n, init, step);
        }
        lemma_top_comments_upto(t, s, m);
        let prev = fold_kids(kids, m, init, step)->Ok_0;
        let c = kids[m as int];
        lemma_file_step_extends(t, s, t.rule_of(top), prev, c);
        let ls = fold_kids(kids, n, init, step)->Ok_0;
        assert forall|j: int|
            0 <= j < n && t.rule_of(kids[j] as int) == Rule::Comment implies ls.contains(
                #[trigger] comment_line(t, s, kids[j] as int, false),
            ) by {
            if j < m {
                let x = comment_line(t, s, kids[j] as int, false);
                let w = choose|w: int| 0 <= w < prev.len() && prev[w] == x;
                assert(ls.subrange(0, prev.len() as int)[w] == x);
                assert(ls[w] == x);
            } else {
                assert(ls == prev.push(comment_line(t, s, c as int, false)));
                assert(ls[prev.len() as int] == comment_line(t, s, c as int, false));
            }
        }
    }
}

/// A comment that stands directly under the top production is kept: when
/// the file formats, its lines hold that comment as `// <trimmed text>` on a
/// line of its own.
pub proof fn lemma_top_level_comments_kept(t: Tree, s: Seq<char>)
    requires
        tree_ok(t, s.len()),
        file_lines(t, s) is Ok,
    ensures
        ({
            let kids = t.kids(t.kids(0)[0] as int);
            forall|j: int|
                0 <= j < kids.len() && t.rule_of(kids[j] as int) == Rule::Comment ==> file_lines(
                    t,
                    s,
                )->Ok_0.contains(#[trigger] comment_line(t, s, kids[j] as int, false))
        }),
{
    let kids = t.kids(t.kids(0)[0] as int);
    lemma_top_comments_upto(t, s, kids.len());
}

} // verus!
