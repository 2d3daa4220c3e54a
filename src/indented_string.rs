use vstd::prelude::*;
use vstd::string::StringExecFns;
use crate::tree::Rule;

verus! {

/// The mathematical value of one output line.
pub struct LineV {
    pub indent: nat,
    pub text: Seq<char>,
    pub newline: bool,
    pub rule: Rule,
    /// The line ends in a `//` comment, so nothing but another comment may
    /// follow on it.
    pub commented: bool,
}

/// `n` levels of four spaces.
pub open spec fn spacing(n: nat) -> Seq<char>
    decreases n,
{
    if n == 0 {
        Seq::empty()
    } else {
        spacing((n - 1) as nat) + "    "@
    }
}

/// How a line is written out: a line break when it starts a new line, then
/// its indentation, then its text.
pub open spec fn render(l: LineV) -> Seq<char> {
    (if l.newline {
        "\n"@
    } else {
        Seq::empty()
    }) + spacing(l.indent) + l.text
}

/// All lines written out one after the other.
pub open spec fn render_all(ls: Seq<LineV>) -> Seq<char>
    decreases ls.len(),
{
    if ls.len() == 0 {
        Seq::empty()
    } else {
        render_all(ls.drop_last()) + render(ls.last())
    }
}

/// A line at indentation `indent` that starts on a new line.
pub open spec fn line(indent: nat, text: Seq<char>) -> LineV {
    LineV { indent, text, newline: true, rule: Rule::Grammar, commented: false }
}

/// The same line one level deeper.
pub open spec fn deeper(l: LineV) -> LineV {
    LineV { indent: l.indent + 1, ..l }
}

/// Every line one level deeper.
pub open spec fn all_deeper(ls: Seq<LineV>) -> Seq<LineV> {
    ls.map_values(|l: LineV| deeper(l))
}

/// `a` with the text of `b` appended; `a` keeps its indentation, line break
/// and rule, and ends in a comment when either does.
pub open spec fn merge(a: LineV, b: LineV) -> LineV {
    LineV { text: a.text + b.text, commented: a.commented || b.commented, ..a }
}

/// No line is indented deeper than `d`.
pub open spec fn bounded(ls: Seq<LineV>, d: nat) -> bool {
    forall|i: int| 0 <= i < ls.len() ==> #[trigger] ls[i].indent <= d
}

/// One logical output line: its text, its indentation depth, whether it
/// starts with a line break, and the rule whose renderer produced it.
pub struct IndentedString {
    indent_level: usize,
    str: String,
    with_newline: bool,
    rule: Rule,
    commented: bool,
}

impl View for IndentedString {
    type V = LineV;

    closed spec fn view(&self) -> LineV {
        LineV {
            indent: self.indent_level as nat,
            text: self.str@,
            newline: self.with_newline,
            rule: self.rule,
            commented: self.commented,
        }
    }
}

pub open spec fn lines_view(v: Seq<IndentedString>) -> Seq<LineV> {
    v.map_values(|l: IndentedString| l@)
}

pub proof fn lemma_lines_view_push(v: Seq<IndentedString>, x: IndentedString)
    ensures
        lines_view(v.push(x)) == lines_view(v).push(x@),
{
    assert(lines_view(v.push(x)) =~= lines_view(v).push(x@));
}

impl IndentedString {
    pub fn new(indent_level: usize, str: String) -> (r: Self)
        ensures
            r@ == line(indent_level as nat, str@),
    {
        IndentedString { indent_level, str, with_newline: true, rule: Rule::Grammar, commented: false }
    }

    /// The empty line at depth zero.
    pub fn empty() -> (r: Self)
        ensures
            r@ == line(0, Seq::empty()),
    {
        IndentedString::new(0, String::new())
    }

    pub fn indent(&mut self)
        requires
            old(self)@.indent < 1000,
        ensures
            final(self)@ == deeper(old(self)@),
    {
        self.indent_level = self.indent_level + 1;
    }

    pub fn set_rule(&mut self, rule: Rule)
        ensures
            final(self)@ == (LineV { rule, ..old(self)@ }),
    {
        self.rule = rule;
    }

    /// Marks the line as ending in a comment.
    pub fn set_commented(&mut self)
        ensures
            final(self)@ == (LineV { commented: true, ..old(self)@ }),
    {
        self.commented = true;
    }

    pub fn is_commented(&self) -> (b: bool)
        ensures
            b == self@.commented,
    {
        self.commented
    }

    pub fn get_rule(&self) -> (r: Rule)
        ensures
            r == self@.rule,
    {
        self.rule
    }

    pub fn set_with_newline(&mut self, with_newline: bool)
        ensures
            final(self)@ == (LineV { newline: with_newline, ..old(self)@ }),
    {
        self.with_newline = with_newline;
    }

    pub fn text(&self) -> (r: &String)
        ensures
            r@ == self@.text,
    {
        &self.str
    }

    /// Whether this is the empty line at depth zero.
    pub fn is_blank_line(&self) -> (b: bool)
        ensures
            b == (self@ == line(0, Seq::empty())),
    {
        let r = self.indent_level == 0 && self.str.as_str().is_empty() && self.with_newline
            && self.rule == Rule::Grammar && !self.commented;
        proof {
            if self@.text.len() == 0 {
                assert(self@.text =~= Seq::<char>::empty());
            }
        }
        r
    }

    /// This line with the text of `other` appended.
    pub fn merged(self, other: IndentedString) -> (r: Self)
        ensures
            r@ == merge(self@, other@),
    {
        let IndentedString { indent_level, str, with_newline, rule, commented } = self;
        let str = str.concat(other.str.as_str());
        IndentedString { indent_level, str, with_newline, rule, commented: commented || other.commented }
    }

    /// The line as it is written out.
    pub fn to_text(&self) -> (r: String)
        ensures
            r@ == render(self@),
    {
        let mut out = String::new();
        if self.with_newline {
            out.append("\n");
        }
        let mut i: usize = 0;
        assert(out@ =~= (if self@.newline {
            "\n"@
        } else {
            Seq::empty()
        }) + spacing(0));
        while i < self.indent_level
            invariant
                i <= self.indent_level,
                out@ == (if self@.newline {
                    "\n"@
                } else {
                    Seq::empty()
                }) + spacing(i as nat),
            decreases self.indent_level - i,
        {
            out.append("    ");
            assert(out@ =~= (if self@.newline {
                "\n"@
            } else {
                Seq::empty()
            }) + spacing((i + 1) as nat));
            i += 1;
        }
        out.append(self.str.as_str());
        out
    }
}

/// Appends every line of `lines` to `out`, one level deeper.
pub fn push_deeper(
    out: &mut Vec<IndentedString>,
    lines: Vec<IndentedString>,
    Ghost(d): Ghost<nat>,
    Ghost(outer): Ghost<nat>,
)
    requires
        bounded(lines_view(lines@), d),
        bounded(lines_view(old(out)@), outer),
        d < outer <= 100,
    ensures
        lines_view(final(out)@) == lines_view(old(out)@) + all_deeper(lines_view(lines@)),
        bounded(lines_view(final(out)@), outer),
{
    let ghost orig = lines_view(lines@);
    let ghost start = lines_view(out@);
    for l in it: lines.into_iter()
        invariant
            it.seq().map_values(|l: IndentedString| l@) == orig,
            bounded(orig, d),
            lines_view(out@) == start + all_deeper(orig.take(it.index() as int)),
            bounded(lines_view(out@), outer),
            d < outer <= 100,
    {
        let ghost k = it.index();
        let mut l = l;
        assert(l@ == orig[k as int]);
        l.indent();
        let ghost before = out@;
        out.push(l);
        proof {
            lemma_lines_view_push(before, l);
        }
        assert(orig.take(k + 1) =~= orig.take(k as int).push(orig[k as int]));
        assert(lines_view(out@) =~= start + all_deeper(orig.take(k + 1)));
    }
    assert(orig.take(orig.len() as int) =~= orig);
}

/// Appends every line of `lines` to `out` unchanged.
pub fn push_all(out: &mut Vec<IndentedString>, lines: Vec<IndentedString>, Ghost(d): Ghost<nat>)
    requires
        bounded(lines_view(lines@), d),
        bounded(lines_view(old(out)@), d),
    ensures
        lines_view(final(out)@) == lines_view(old(out)@) + lines_view(lines@),
        bounded(lines_view(final(out)@), d),
{
    let ghost orig = lines_view(lines@);
    let ghost start = lines_view(out@);
    for l in it: lines.into_iter()
        invariant
            it.seq().map_values(|l: IndentedString| l@) == orig,
            lines_view(out@) == start + orig.take(it.index() as int),
            bounded(orig, d),
            bounded(lines_view(out@), d),
    {
        let ghost k = it.index();
        let ghost before = out@;
        out.push(l);
        proof {
            lemma_lines_view_push(before, l);
        }
        assert(orig.take(k + 1) =~= orig.take(k as int).push(orig[k as int]));
        assert(lines_view(out@) =~= start + orig.take(k + 1));
    }
    assert(orig.take(orig.len() as int) =~= orig);
}

/// Appends one line to `out`.
pub fn push_one(out: &mut Vec<IndentedString>, l: IndentedString, Ghost(d): Ghost<nat>)
    requires
        bounded(lines_view(old(out)@), d),
        l@.indent <= d,
    ensures
        lines_view(final(out)@) == lines_view(old(out)@).push(l@),
        bounded(lines_view(final(out)@), d),
{
    let ghost before = out@;
    out.push(l);
    proof {
        lemma_lines_view_push(before, l);
    }
}

} // verus!
