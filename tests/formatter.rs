use minimal_fidl::{Formatter, FormatterError, Node, Rule, Tree};

/// Builds a source text and its parse tree side by side.
struct Builder {
    src: String,
    nodes: Vec<Node>,
    open: Vec<usize>,
}

impl Builder {
    fn new() -> Builder {
        let mut b = Builder { src: String::new(), nodes: Vec::new(), open: Vec::new() };
        b.start(Rule::Grammar);
        b.start(Rule::Grammar);
        b
    }

    fn pos(&self) -> usize {
        self.src.chars().count()
    }

    fn start(&mut self, rule: Rule) -> &mut Builder {
        let key = self.nodes.len();
        let at = self.pos();
        self.nodes.push(Node { rule, start: at, end: at, children: Vec::new() });
        if let Some(&parent) = self.open.last() {
            self.nodes[parent].children.push(key);
        }
        self.open.push(key);
        self
    }

    fn end(&mut self) -> &mut Builder {
        let key = self.open.pop().unwrap();
        self.nodes[key].end = self.pos();
        self
    }

    fn text(&mut self, t: &str) -> &mut Builder {
        self.src.push_str(t);
        self
    }

    fn leaf(&mut self, rule: Rule, t: &str) -> &mut Builder {
        self.start(rule);
        self.text(t);
        self.end()
    }

    fn finish(&mut self) -> (String, Tree) {
        self.end();
        self.end();
        let nodes = std::mem::take(&mut self.nodes);
        (self.src.clone(), Tree { nodes })
    }
}

fn format(b: &mut Builder) -> Result<String, FormatterError> {
    let (src, tree) = b.finish();
    Formatter::new(&src, &tree).format()
}

fn package(b: &mut Builder, name: &str) {
    b.start(Rule::Package).text("package ").leaf(Rule::TypeRef, name).end();
}

fn empty_interface(b: &mut Builder, name: &str) {
    b.start(Rule::Interface)
        .text("interface ")
        .leaf(Rule::VariableName, name)
        .leaf(Rule::OpenBracket, " {")
        .leaf(Rule::CloseBracket, " }")
        .end();
}

fn var_decl(b: &mut Builder, ty: &str, name: &str) {
    b.start(Rule::VariableDeclaration)
        .leaf(Rule::TypeRef, ty)
        .text(" ")
        .leaf(Rule::VariableName, name)
        .end();
}

#[test]
fn test_formatter_1() {
    let mut b = Builder::new();
    package(&mut b, "org.javaohjavawhyareyouso");
    b.text("\n\t");
    empty_interface(&mut b, "endOfPlaylist");
    b.text("\t");
    assert_eq!(
        format(&mut b).unwrap(),
        "package org.javaohjavawhyareyouso\n\ninterface endOfPlaylist {}"
    );
}

#[test]
fn version_block_in_interface() {
    let mut b = Builder::new();
    b.start(Rule::Interface).text("interface ").leaf(Rule::VariableName, "endOfPlaylist");
    b.leaf(Rule::OpenBracket, " {");
    b.start(Rule::Version).text(" version ").leaf(Rule::OpenBracket, "{");
    b.start(Rule::Major).text("major ").leaf(Rule::Digits, "25").end();
    b.start(Rule::Minor).text(" minor ").leaf(Rule::Digits, "60").end();
    b.leaf(Rule::CloseBracket, "}").end();
    b.leaf(Rule::CloseBracket, "}").end();
    assert_eq!(
        format(&mut b).unwrap(),
        "\ninterface endOfPlaylist {\n    version {\n        major 25\n        minor 60\n    }\n}"
    );
}

#[test]
fn empty_method_in_interface() {
    let mut b = Builder::new();
    b.start(Rule::Interface).text("interface ").leaf(Rule::VariableName, "endOfPlaylist");
    b.leaf(Rule::OpenBracket, " {");
    b.start(Rule::Method).text(" method ").leaf(Rule::VariableName, "thing");
    b.leaf(Rule::OpenBracket, " {").leaf(Rule::CloseBracket, "}").end();
    b.leaf(Rule::CloseBracket, "}").end();
    assert_eq!(
        format(&mut b).unwrap(),
        "\ninterface endOfPlaylist {\n    method thing {}\n}"
    );
}

#[test]
fn method_with_in_and_out_sections() {
    let mut b = Builder::new();
    b.start(Rule::Interface).text("interface ").leaf(Rule::VariableName, "endOfPlaylist");
    b.leaf(Rule::OpenBracket, " {");
    b.start(Rule::Method).text(" method ").leaf(Rule::VariableName, "thing");
    b.leaf(Rule::OpenBracket, " {");
    b.start(Rule::InputParams).text("in ").leaf(Rule::OpenBracket, "{");
    var_decl(&mut b, "param", "param");
    b.leaf(Rule::CloseBracket, "}").end();
    b.start(Rule::OutputParams).text("  out ").leaf(Rule::OpenBracket, "{");
    var_decl(&mut b, "param2", "param2");
    b.text(" ");
    var_decl(&mut b, "org.param3", "param3");
    b.leaf(Rule::CloseBracket, "}").end();
    b.leaf(Rule::CloseBracket, "}").end();
    b.leaf(Rule::CloseBracket, "}").end();
    assert_eq!(
        format(&mut b).unwrap(),
        "\ninterface endOfPlaylist {\n    method thing {\n        in {\n            param param\n        }\n        out {\n            param2 param2\n            org.param3 param3\n        }\n    }\n}"
    );
}

#[test]
fn named_empty_type_collection() {
    let mut b = Builder::new();
    b.start(Rule::TypeCollection).text("typeCollection ").leaf(Rule::VariableName, "tc");
    b.leaf(Rule::OpenBracket, "{").leaf(Rule::CloseBracket, "}").end();
    assert_eq!(format(&mut b).unwrap(), "\ntypeCollection tc {}");
}

#[test]
fn test_formatter_19() {
    let mut b = Builder::new();
    package(&mut b, "org.javaohjavawhyareyouso");
    b.text("\n        ");
    b.start(Rule::ImportModel).text("import model ").leaf(Rule::FilePath, "\"Astronomy_t.fidl\"").end();
    b.text("\n        ");
    b.leaf(Rule::Comment, "// This is a comment\n");
    b.text("\t");
    empty_interface(&mut b, "endOfPlaylist");
    b.text("\t");
    assert_eq!(
        format(&mut b).unwrap(),
        "package org.javaohjavawhyareyouso\n\nimport model \"Astronomy_t.fidl\"\n// This is a comment\ninterface endOfPlaylist {}"
    );
}

#[test]
fn package_comment_and_namespace_import() {
    let mut b = Builder::new();
    b.start(Rule::Package).text("package ").leaf(Rule::TypeRef, "org.javaohjavawhyareyouso");
    b.text(" ").leaf(Rule::Comment, "// Comment").end();
    b.text("\n        ");
    b.start(Rule::ImportNamespace).text("import ").leaf(Rule::TypeRef, "org.franca.omgidl");
    b.leaf(Rule::Wildcard, ".*").text(" from ").leaf(Rule::FilePath, "\"OMGIDLBase.fidl\"").end();
    assert_eq!(
        format(&mut b).unwrap(),
        "package org.javaohjavawhyareyouso // Comment\n\nimport org.franca.omgidl.* from \"OMGIDLBase.fidl\""
    );
}

#[test]
fn empty_interface_collapses_to_one_line() {
    let mut b = Builder::new();
    empty_interface(&mut b, "Foo");
    assert_eq!(format(&mut b).unwrap(), "\ninterface Foo {}");
}

#[test]
fn package_then_empty_interface() {
    let mut b = Builder::new();
    package(&mut b, "org.acme");
    b.text("\n");
    empty_interface(&mut b, "Foo");
    assert_eq!(format(&mut b).unwrap(), "package org.acme\n\ninterface Foo {}");
}

#[test]
fn method_with_input_only_has_no_out_block() {
    let mut b = Builder::new();
    b.start(Rule::Interface).text("interface ").leaf(Rule::VariableName, "Foo");
    b.leaf(Rule::OpenBracket, " {");
    b.start(Rule::Method).text(" method ").leaf(Rule::VariableName, "bar");
    b.leaf(Rule::OpenBracket, " {");
    b.start(Rule::InputParams).text(" in ").leaf(Rule::OpenBracket, "{ ");
    var_decl(&mut b, "uint8", "x");
    b.leaf(Rule::CloseBracket, " }").end();
    b.leaf(Rule::CloseBracket, " }").end();
    b.leaf(Rule::CloseBracket, " }").end();
    let out = format(&mut b).unwrap();
    assert_eq!(
        out,
        "\ninterface Foo {\n    method bar {\n        in {\n            uint8 x\n        }\n    }\n}"
    );
    assert!(!out.contains("out {"));
}

#[test]
fn empty_sections_write_nothing() {
    let mut b = Builder::new();
    b.start(Rule::Method).text("method ").leaf(Rule::VariableName, "bar");
    b.leaf(Rule::OpenBracket, " {");
    b.start(Rule::InputParams).text(" in ").leaf(Rule::OpenBracket, "{").leaf(Rule::CloseBracket, "}").end();
    b.start(Rule::OutputParams).text(" out ").leaf(Rule::OpenBracket, "{").leaf(Rule::CloseBracket, "}").end();
    b.leaf(Rule::CloseBracket, " }").end();
    // a method is no top-level construct
    assert_eq!(
        format(&mut b),
        Err(FormatterError::UnexpectedNode(Rule::Method, Rule::Grammar))
    );
}

#[test]
fn comment_before_close_bracket_joins_the_header() {
    let mut b = Builder::new();
    b.start(Rule::Interface).text("interface ").leaf(Rule::VariableName, "Foo");
    b.leaf(Rule::OpenBracket, " {");
    b.start(Rule::Method).text(" method ").leaf(Rule::VariableName, "bar");
    b.leaf(Rule::OpenBracket, " {").leaf(Rule::Comment, "//c\n").leaf(Rule::CloseBracket, "}").end();
    b.leaf(Rule::CloseBracket, " }").end();
    assert_eq!(
        format(&mut b).unwrap(),
        "\ninterface Foo {\n    method bar {} // c\n}"
    );
}

#[test]
fn comment_after_close_bracket_trails_the_brace() {
    let mut b = Builder::new();
    b.start(Rule::Interface).text("interface ").leaf(Rule::VariableName, "Foo");
    b.leaf(Rule::OpenBracket, " {");
    b.start(Rule::Method).text(" method ").leaf(Rule::VariableName, "bar");
    b.leaf(Rule::OpenBracket, " {").leaf(Rule::CloseBracket, "}").leaf(Rule::Comment, "//c").end();
    b.leaf(Rule::CloseBracket, " }").end();
    assert_eq!(
        format(&mut b).unwrap(),
        "\ninterface Foo {\n    method bar {} // c\n}"
    );
}

fn enum_value(b: &mut Builder, name: &str, number: Option<&str>) {
    b.start(Rule::EnumValue).text(" ").leaf(Rule::VariableName, name);
    if let Some(n) = number {
        b.text(" = ").leaf(Rule::Number, n);
    }
    b.end();
}

#[test]
fn enumeration_values_are_not_numbered() {
    let mut b = Builder::new();
    b.start(Rule::TypeCollection).text("typeCollection ").leaf(Rule::VariableName, "T");
    b.leaf(Rule::OpenBracket, " {");
    b.start(Rule::Enumeration).text(" enumeration ").leaf(Rule::TypeDec, "E").leaf(Rule::OpenBracket, " {");
    enum_value(&mut b, "A", Some("3"));
    enum_value(&mut b, "B", None);
    enum_value(&mut b, "C", None);
    b.leaf(Rule::CloseBracket, " }").end();
    b.leaf(Rule::CloseBracket, " }").end();
    assert_eq!(
        format(&mut b).unwrap(),
        "\ntypeCollection T {\n    enumeration E {\n        A = 3\n        B\n        C\n    }\n}"
    );
}

fn annotation(b: &mut Builder, name: &str, content: &str) {
    b.start(Rule::Annotation).text("@").leaf(Rule::AnnotationName, name).text(":");
    b.leaf(Rule::AnnotationContent, content).end();
}

#[test]
fn single_annotation_collapses_and_two_expand() {
    let mut b = Builder::new();
    b.start(Rule::Interface);
    b.start(Rule::AnnotationBlock).text("<** ");
    annotation(&mut b, "name", " content ");
    b.text("**>").end();
    b.text(" interface ").leaf(Rule::VariableName, "Foo");
    b.leaf(Rule::OpenBracket, " {").leaf(Rule::CloseBracket, " }").end();
    assert_eq!(
        format(&mut b).unwrap(),
        "\n<** @name: content **>\ninterface Foo {}"
    );

    let mut b = Builder::new();
    b.start(Rule::Interface);
    b.start(Rule::AnnotationBlock).text("<** ");
    annotation(&mut b, "name", " content\n");
    annotation(&mut b, "other", " more ");
    b.text("**>").end();
    b.text(" interface ").leaf(Rule::VariableName, "Foo");
    b.leaf(Rule::OpenBracket, " {").leaf(Rule::CloseBracket, " }").end();
    assert_eq!(
        format(&mut b).unwrap(),
        "\n<**\n    @name: content\n    @other: more\n**>\ninterface Foo {}"
    );
}

#[test]
fn multi_line_annotation_content_goes_below_its_name() {
    let mut b = Builder::new();
    b.start(Rule::Interface);
    b.start(Rule::AnnotationBlock).text("<** ");
    annotation(&mut b, "description", " first line\r\n   second line ");
    b.text("**>").end();
    b.text(" interface ").leaf(Rule::VariableName, "Foo");
    b.leaf(Rule::OpenBracket, " {").leaf(Rule::CloseBracket, " }").end();
    assert_eq!(
        format(&mut b).unwrap(),
        "\n<**\n    @description:\n        first line\n        second line\n**>\ninterface Foo {}"
    );
}

#[test]
fn multi_line_comments() {
    let mut b = Builder::new();
    b.leaf(Rule::MultilineComment, "/**  one line  **/");
    b.leaf(Rule::MultilineComment, "/** first\n  second **/");
    assert_eq!(
        format(&mut b).unwrap(),
        "\n/** one line **/\n/**\n    first\n    second\n**/"
    );
}

#[test]
fn type_names_lose_their_blanks() {
    let mut b = Builder::new();
    b.start(Rule::TypeCollection).text("typeCollection ").leaf(Rule::OpenBracket, "{");
    b.start(Rule::Typedef).text(" typedef ").leaf(Rule::TypeDec, "a Type").text(" is ");
    b.leaf(Rule::TypeRef, "org . Int16").leaf(Rule::Comment, "//  trailing  ").end();
    b.start(Rule::Structure).text(" struct ").leaf(Rule::TypeDec, "S").leaf(Rule::OpenBracket, " {");
    var_decl(&mut b, "UInt8", "f");
    b.leaf(Rule::CloseBracket, " }").end();
    b.leaf(Rule::CloseBracket, "}").end();
    assert_eq!(
        format(&mut b).unwrap(),
        "\ntypeCollection {\n    typedef aType is org.Int16 // trailing\n\n    struct S {\n        UInt8 f\n    }\n}"
    );
}

#[test]
fn unexpected_child_is_reported_with_its_parent() {
    let mut b = Builder::new();
    b.start(Rule::Package).leaf(Rule::Digits, "1").end();
    assert_eq!(
        format(&mut b),
        Err(FormatterError::UnexpectedNode(Rule::Digits, Rule::Package))
    );
}

#[test]
fn close_bracket_without_header_is_incomplete() {
    let mut b = Builder::new();
    b.start(Rule::Interface).leaf(Rule::CloseBracket, "}").end();
    assert_eq!(
        format(&mut b),
        Err(FormatterError::IncompleteNode(Rule::Interface))
    );
}

#[test]
fn span_outside_the_source_is_a_malformed_tree() {
    let tree = Tree {
        nodes: vec![
            Node { rule: Rule::Grammar, start: 0, end: 10, children: vec![1] },
            Node { rule: Rule::Grammar, start: 0, end: 10, children: vec![] },
        ],
    };
    assert_eq!(Formatter::new("short", &tree).format(), Err(FormatterError::MalformedTree));
    let tree = Tree {
        nodes: vec![Node { rule: Rule::Grammar, start: 0, end: 0, children: vec![] }],
    };
    assert_eq!(Formatter::new("", &tree).format(), Err(FormatterError::MalformedTree));
}

#[test]
fn formatting_twice_gives_the_same_text() {
    let mut b = Builder::new();
    package(&mut b, "org.acme");
    b.text("\n");
    empty_interface(&mut b, "Foo");
    let (src, tree) = b.finish();
    let f = Formatter::new(&src, &tree);
    assert_eq!(f.format(), f.format());
}

#[test]
fn nameless_empty_type_collection() {
    let mut b = Builder::new();
    b.start(Rule::TypeCollection).text("typeCollection ");
    b.leaf(Rule::OpenBracket, "{").leaf(Rule::CloseBracket, " }").end();
    assert_eq!(format(&mut b).unwrap(), "\ntypeCollection {}");
}

#[test]
fn version_first_in_nameless_type_collection() {
    let mut b = Builder::new();
    b.start(Rule::TypeCollection).text("typeCollection ").leaf(Rule::OpenBracket, "{");
    b.start(Rule::Version).text(" version ").leaf(Rule::OpenBracket, "{");
    b.start(Rule::Major).text("major ").leaf(Rule::Digits, "1").end();
    b.leaf(Rule::CloseBracket, "}").end();
    b.start(Rule::Typedef).text(" typedef ").leaf(Rule::TypeDec, "A").text(" is ");
    b.leaf(Rule::TypeRef, "B").end();
    b.leaf(Rule::CloseBracket, " }").end();
    assert_eq!(
        format(&mut b).unwrap(),
        "\ntypeCollection {\n    version {\n        major 1\n    }\n\n    typedef A is B\n}"
    );
}

#[test]
fn comment_before_open_bracket_trails_the_header() {
    let mut b = Builder::new();
    b.start(Rule::Interface).text("interface ").leaf(Rule::VariableName, "Foo");
    b.text(" ").leaf(Rule::Comment, "// c\n");
    b.leaf(Rule::OpenBracket, "{").leaf(Rule::CloseBracket, " }").end();
    assert_eq!(format(&mut b).unwrap(), "\ninterface Foo { // c\n}");
}

#[test]
fn comment_after_open_bracket_before_a_member_gets_its_own_line() {
    let mut b = Builder::new();
    b.start(Rule::Interface).text("interface ").leaf(Rule::VariableName, "Foo");
    b.leaf(Rule::OpenBracket, " {").leaf(Rule::Comment, "// c\n");
    b.start(Rule::Attribute).text("attribute ").leaf(Rule::TypeRef, "UInt8").text(" ");
    b.leaf(Rule::VariableName, "x").end();
    b.leaf(Rule::CloseBracket, " }").end();
    assert_eq!(
        format(&mut b).unwrap(),
        "\ninterface Foo {\n    // c\n    attribute UInt8 x\n}"
    );
}

#[test]
fn attribute_after_commented_typedef_starts_its_own_line() {
    let mut b = Builder::new();
    b.start(Rule::Interface).text("interface ").leaf(Rule::VariableName, "Foo");
    b.leaf(Rule::OpenBracket, " {");
    b.start(Rule::Typedef).text(" typedef ").leaf(Rule::TypeDec, "A").text(" is ");
    b.leaf(Rule::TypeRef, "B").text(" ").leaf(Rule::Comment, "// c\n").end();
    b.start(Rule::Attribute).text("attribute ").leaf(Rule::TypeRef, "uint8").text(" ");
    b.leaf(Rule::VariableName, "x").end();
    b.leaf(Rule::CloseBracket, " }").end();
    assert_eq!(
        format(&mut b).unwrap(),
        "\ninterface Foo {\n    typedef A is B // c\n\n    attribute uint8 x\n}"
    );
}

#[test]
fn annotation_inside_brackets_is_indented() {
    let mut b = Builder::new();
    b.start(Rule::Interface).text("interface ").leaf(Rule::VariableName, "Foo");
    b.leaf(Rule::OpenBracket, " {");
    b.start(Rule::AnnotationBlock).text("<** ");
    annotation(&mut b, "a", " b ");
    b.text("**>").end();
    b.start(Rule::Attribute).text("attribute ").leaf(Rule::TypeRef, "uint8").text(" ");
    b.leaf(Rule::VariableName, "x").end();
    b.leaf(Rule::CloseBracket, " }").end();
    assert_eq!(
        format(&mut b).unwrap(),
        "\ninterface Foo {\n    <** @a: b **>\n    attribute uint8 x\n}"
    );
}

#[test]
fn every_comment_of_an_enum_value_is_kept() {
    let mut b = Builder::new();
    b.start(Rule::Enumeration).text("enumeration ").leaf(Rule::TypeDec, "E").leaf(Rule::OpenBracket, " {");
    b.start(Rule::EnumValue).text(" ").leaf(Rule::VariableName, "A");
    b.text(" ").leaf(Rule::Comment, "// x\n").leaf(Rule::Comment, "// y\n").end();
    b.leaf(Rule::CloseBracket, "}").end();
    let (src, tree) = b.finish();
    let f = Formatter::new(&src, &tree);
    let lines = f.enumeration(2).unwrap();
    let text: String = lines.iter().map(|l| l.to_text()).collect();
    assert_eq!(text, "\nenumeration E {\n    A // x // y\n}");
}

// ---- pieces of the original test sources ----

fn package_with_comment(b: &mut Builder, name: &str, comment: &str) {
    b.start(Rule::Package).text("package ").leaf(Rule::TypeRef, name);
    b.text(" ").leaf(Rule::Comment, comment).end();
}

fn import_model(b: &mut Builder, path: &str, comment: Option<&str>) {
    b.text("\n        ").start(Rule::ImportModel).text("import model ").leaf(Rule::FilePath, path);
    if let Some(c) = comment {
        b.text(" ").leaf(Rule::Comment, c);
    }
    b.end();
}

fn import_namespace(b: &mut Builder, name: &str, path: &str, comment: Option<&str>) {
    b.text("\n        ").start(Rule::ImportNamespace).text("import ").leaf(Rule::TypeRef, name);
    b.leaf(Rule::Wildcard, ".*").text(" from ").leaf(Rule::FilePath, path);
    if let Some(c) = comment {
        b.text(" ").leaf(Rule::Comment, c);
    }
    b.end();
}

fn open_interface(b: &mut Builder, name: &str) {
    b.text("\n\t").start(Rule::Interface).text("interface ").leaf(Rule::VariableName, name);
    b.leaf(Rule::OpenBracket, " {");
}

fn close(b: &mut Builder) {
    b.leaf(Rule::CloseBracket, "}").end();
}

fn version(b: &mut Builder, minor_comment: Option<&str>) {
    b.start(Rule::Version).text(" version ").leaf(Rule::OpenBracket, "{");
    b.start(Rule::Major).text("major ").leaf(Rule::Digits, "25").end();
    b.start(Rule::Minor).text(" minor ").leaf(Rule::Digits, "60");
    if let Some(c) = minor_comment {
        b.text(" ").leaf(Rule::Comment, c);
    }
    b.end();
    close(b);
}

fn section(b: &mut Builder, rule: Rule, word: &str, params: &[(&str, &str)]) {
    b.start(rule).text(word).leaf(Rule::OpenBracket, "{");
    for (ty, name) in params {
        b.text(" ");
        var_decl(b, ty, name);
    }
    close(b);
}

fn method(b: &mut Builder, name: &str, ins: &[(&str, &str)], outs: &[(&str, &str)]) {
    b.start(Rule::Method).text("method ").leaf(Rule::VariableName, name).leaf(Rule::OpenBracket, " {");
    if !ins.is_empty() {
        section(b, Rule::InputParams, "in ", ins);
    }
    if !outs.is_empty() {
        section(b, Rule::OutputParams, "  out ", outs);
    }
    close(b);
}

fn structure(b: &mut Builder, name: &str, fields: &[(&str, &str)]) {
    b.start(Rule::Structure).text("struct ").leaf(Rule::TypeDec, name).leaf(Rule::OpenBracket, "{");
    for (ty, n) in fields {
        b.text(" ");
        var_decl(b, ty, n);
    }
    close(b);
}

fn attribute(b: &mut Builder, ty: &str, name: &str) {
    b.start(Rule::Attribute).text("attribute ").leaf(Rule::TypeRef, ty).text(" ");
    b.leaf(Rule::VariableName, name).end();
    b.text("\n ");
}

fn typedef(b: &mut Builder, name: &str, ty: &str) {
    b.text(" \t").start(Rule::Typedef).text("typedef ").leaf(Rule::TypeDec, name).text(" is ");
    b.leaf(Rule::TypeRef, ty).end();
}

fn enumeration(b: &mut Builder, last_comment: Option<&str>) {
    b.text(" \n\t").start(Rule::Enumeration).text("enumeration ").leaf(Rule::TypeDec, "aEnum");
    b.leaf(Rule::OpenBracket, " {");
    b.text("\n\t\t");
    enum_value(b, "A", Some("3"));
    enum_value(b, "B", None);
    enum_value(b, "C", None);
    b.text(" ,");
    enum_value(b, "D", None);
    b.start(Rule::EnumValue).text(" ").leaf(Rule::VariableName, "E").text(" =").leaf(Rule::Number, "10");
    if let Some(c) = last_comment {
        b.text(", ").leaf(Rule::Comment, c);
    }
    b.end();
    b.text("\n\t");
    close(b);
}

const IN: &[(&str, &str)] = &[("param", "param")];
const OUT: &[(&str, &str)] = &[("param2", "param2"), ("org.param3", "param3")];

/// The interface of the longer original tests, up to `upto` members.
fn long_interface(b: &mut Builder, upto: usize) {
    open_interface(b, "endOfPlaylist");
    version(b, None);
    structure(b, "thing", &[("p1", "p1"), ("p2", "p2")]);
    attribute(b, "uint8", "thing");
    method(b, "thing", IN, OUT);
    method(b, "thing", IN, OUT);
    if upto > 4 {
        typedef(b, "aTypedef", "Int16");
    }
    if upto > 5 {
        enumeration(b, None);
    }
    b.text("\n");
    close(b);
}

fn run(b: &mut Builder) -> String {
    format(b).unwrap()
}

#[test]
fn test_formatter_2() {
    let mut b = Builder::new();
    b.leaf(Rule::Comment, "// This do be a comment\n");
    package_with_comment(&mut b, "org.javaohjavawhyareyouso", "// This do be a comment2\n");
    for _ in 0..2 {
        open_interface(&mut b, "endOfPlaylist");
        b.leaf(Rule::CloseBracket, " }").text("\t").leaf(Rule::Comment, "// This do be a comment\n").end();
    }
    assert_eq!(run(&mut b),
        "\n// This do be a comment\npackage org.javaohjavawhyareyouso // This do be a comment2\n\ninterface endOfPlaylist {} // This do be a comment\ninterface endOfPlaylist {} // This do be a comment"
    );
}

#[test]
fn test_formatter_4() {
    let mut b = Builder::new();
    package(&mut b, "org.javaohjavawhyareyouso");
    open_interface(&mut b, "endOfPlaylist");
    version(&mut b, Some("//Can comment\n"));
    close(&mut b);
    assert_eq!(run(&mut b),
        "package org.javaohjavawhyareyouso\n\ninterface endOfPlaylist {\n    version {\n        major 25\n        minor 60 // Can comment\n    }\n}"
    );
}

#[test]
fn test_formatter_6() {
    let mut b = Builder::new();
    package(&mut b, "org.javaohjavawhyareyouso");
    open_interface(&mut b, "endOfPlaylist");
    method(&mut b, "thing", &[("param", "param"), ("param3", "param3")], &[]);
    close(&mut b);
    assert_eq!(run(&mut b),
        "package org.javaohjavawhyareyouso\n\ninterface endOfPlaylist {\n    method thing {\n        in {\n            param param\n            param3 param3\n        }\n    }\n}"
    );
}

#[test]
fn test_formatter_9() {
    let mut b = Builder::new();
    package(&mut b, "org.javaohjavawhyareyouso");
    open_interface(&mut b, "endOfPlaylist");
    version(&mut b, None);
    method(&mut b, "thing", IN, OUT);
    close(&mut b);
    assert_eq!(run(&mut b),
        "package org.javaohjavawhyareyouso\n\ninterface endOfPlaylist {\n    version {\n        major 25\n        minor 60\n    }\n\n    method thing {\n        in {\n            param param\n        }\n        out {\n            param2 param2\n            org.param3 param3\n        }\n    }\n}"
    );
}

#[test]
fn test_formatter_12() {
    let mut b = Builder::new();
    package(&mut b, "org.javaohjavawhyareyouso");
    open_interface(&mut b, "endOfPlaylist");
    version(&mut b, None);
    structure(&mut b, "thing", &[]);
    attribute(&mut b, "uint8", "thing");
    method(&mut b, "thing", IN, OUT);
    method(&mut b, "thing", IN, OUT);
    close(&mut b);
    assert_eq!(run(&mut b),
        "package org.javaohjavawhyareyouso\n\ninterface endOfPlaylist {\n    version {\n        major 25\n        minor 60\n    }\n\n    struct thing {}\n\n    attribute uint8 thing\n\n    method thing {\n        in {\n            param param\n        }\n        out {\n            param2 param2\n            org.param3 param3\n        }\n    }\n\n    method thing {\n        in {\n            param param\n        }\n        out {\n            param2 param2\n            org.param3 param3\n        }\n    }\n}"
    );
}

#[test]
fn test_formatter_15() {
    let mut b = Builder::new();
    package(&mut b, "org.javaohjavawhyareyouso");
    long_interface(&mut b, 6);
    assert_eq!(run(&mut b),
        "package org.javaohjavawhyareyouso\n\ninterface endOfPlaylist {\n    version {\n        major 25\n        minor 60\n    }\n\n    struct thing {\n        p1 p1\n        p2 p2\n    }\n\n    attribute uint8 thing\n\n    method thing {\n        in {\n            param param\n        }\n        out {\n            param2 param2\n            org.param3 param3\n        }\n    }\n\n    method thing {\n        in {\n            param param\n        }\n        out {\n            param2 param2\n            org.param3 param3\n        }\n    }\n\n    typedef aTypedef is Int16\n\n    enumeration aEnum {\n        A = 3\n        B\n        C\n        D\n        E = 10\n    }\n}"
    );
}

#[test]
fn test_formatter_18() {
    let mut b = Builder::new();
    package(&mut b, "org.javaohjavawhyareyouso");
    long_interface(&mut b, 6);
    b.text("\t").start(Rule::TypeCollection).text("typeCollection").leaf(Rule::OpenBracket, "{");
    typedef(&mut b, "aTypedef", "Int16");
    enumeration(&mut b, Some("// Tis a comment \n"));
    structure(&mut b, "thing", &[("p1", "p1"), ("p2", "p2")]);
    close(&mut b);
    assert_eq!(run(&mut b),
        "package org.javaohjavawhyareyouso\n\ninterface endOfPlaylist {\n    version {\n        major 25\n        minor 60\n    }\n\n    struct thing {\n        p1 p1\n        p2 p2\n    }\n\n    attribute uint8 thing\n\n    method thing {\n        in {\n            param param\n        }\n        out {\n            param2 param2\n            org.param3 param3\n        }\n    }\n\n    method thing {\n        in {\n            param param\n        }\n        out {\n            param2 param2\n            org.param3 param3\n        }\n    }\n\n    typedef aTypedef is Int16\n\n    enumeration aEnum {\n        A = 3\n        B\n        C\n        D\n        E = 10\n    }\n}\ntypeCollection {\n    typedef aTypedef is Int16\n\n    enumeration aEnum {\n        A = 3\n        B\n        C\n        D\n        E = 10 // Tis a comment\n    }\n\n    struct thing {\n        p1 p1\n        p2 p2\n    }\n}"
    );
}

#[test]
fn test_formatter_22() {
    let mut b = Builder::new();
    package(&mut b, "org.javaohjavawhyareyouso");
    import_model(&mut b, "\"Astronomy_t.fidl\"", Some("// Comment\n"));
    import_namespace(&mut b, "org.franca.omgidl", "\"OMGIDLBase.fidl\"", Some("//Also Comment\n"));
    b.text("        ").leaf(Rule::Comment, "// This is a comment\n");
    open_interface(&mut b, "endOfPlaylist");
    b.leaf(Rule::CloseBracket, " }").end();
    assert_eq!(run(&mut b),
        "package org.javaohjavawhyareyouso\n\nimport model \"Astronomy_t.fidl\" // Comment\nimport org.franca.omgidl.* from \"OMGIDLBase.fidl\" // Also Comment\n// This is a comment\ninterface endOfPlaylist {}"
    );
}

#[test]
fn test_formatter_24() {
    let mut b = Builder::new();
    package(&mut b, "org.javaohjavawhyareyouso");
    import_model(&mut b, "\"Astronomy_t.fidl\"", Some("// Comment\n"));
    import_namespace(&mut b, "org.franca.omgidl", "\"OMGIDLBase.fidl\"", Some("//Also Comment\n"));
    b.text("        ").leaf(Rule::Comment, "// This is a comment\n");
    b.text("        ").start(Rule::Interface);
    b.start(Rule::AnnotationBlock).text("<** ");
    annotation(&mut b, "Annotation", " block\n            ");
    annotation(&mut b, "Annotation", " multinline\n            aohgoagoeaobgaeub");
    b.text("**>").end();
    b.text("\n\t    interface ").leaf(Rule::VariableName, "endOfPlaylist");
    b.leaf(Rule::OpenBracket, " {").leaf(Rule::CloseBracket, " }").end();
    assert_eq!(run(&mut b),
        "package org.javaohjavawhyareyouso\n\nimport model \"Astronomy_t.fidl\" // Comment\nimport org.franca.omgidl.* from \"OMGIDLBase.fidl\" // Also Comment\n// This is a comment\n<**\n    @Annotation: block\n    @Annotation:\n        multinline\n        aohgoagoeaobgaeub\n**>\ninterface endOfPlaylist {}"
    );
}

#[test]
fn test_formatter_26() {
    let mut b = Builder::new();
    package(&mut b, "org.javaohjavawhyareyouso");
    b.text("\n        ").start(Rule::Interface);
    b.start(Rule::AnnotationBlock).text("<** ");
    annotation(&mut b, "Annotation", " block ");
    b.text("**>").end();
    b.text("\n        interface ").leaf(Rule::VariableName, "endOfPlaylist").leaf(Rule::OpenBracket, " {");
    let both: &[(&str, &str)] = &[("param1", "param1"), ("param2", "param2")];
    method(&mut b, "whatever", both, both);
    close(&mut b);
    assert_eq!(run(&mut b),
        "package org.javaohjavawhyareyouso\n\n<** @Annotation: block **>\ninterface endOfPlaylist {\n    method whatever {\n        in {\n            param1 param1\n            param2 param2\n        }\n        out {\n            param1 param1\n            param2 param2\n        }\n    }\n}"
    );
}

#[test]
fn test_formatter_8() {
    let mut b = Builder::new();
    package(&mut b, "org.javaohjavawhyareyouso");
    open_interface(&mut b, "endOfPlaylist");
    method(&mut b, "thing", IN, OUT);
    close(&mut b);
    assert_eq!(run(&mut b),
        "package org.javaohjavawhyareyouso\n\ninterface endOfPlaylist {\n    method thing {\n        in {\n            param param\n        }\n        out {\n            param2 param2\n            org.param3 param3\n        }\n    }\n}"
    );
}

#[test]
fn test_formatter_10() {
    let mut b = Builder::new();
    package(&mut b, "org.javaohjavawhyareyouso");
    open_interface(&mut b, "endOfPlaylist");
    version(&mut b, None);
    method(&mut b, "thing", IN, OUT);
    method(&mut b, "thing", IN, OUT);
    close(&mut b);
    assert_eq!(run(&mut b),
        "package org.javaohjavawhyareyouso\n\ninterface endOfPlaylist {\n    version {\n        major 25\n        minor 60\n    }\n\n    method thing {\n        in {\n            param param\n        }\n        out {\n            param2 param2\n            org.param3 param3\n        }\n    }\n\n    method thing {\n        in {\n            param param\n        }\n        out {\n            param2 param2\n            org.param3 param3\n        }\n    }\n}"
    );
}

#[test]
fn test_formatter_11() {
    let mut b = Builder::new();
    package(&mut b, "org.javaohjavawhyareyouso");
    open_interface(&mut b, "endOfPlaylist");
    version(&mut b, None);
    structure(&mut b, "thing", &[("param20", "param20")]);
    attribute(&mut b, "uint8", "thing");
    method(&mut b, "thing", IN, OUT);
    method(&mut b, "thing", IN, OUT);
    close(&mut b);
    assert_eq!(run(&mut b),
        "package org.javaohjavawhyareyouso\n\ninterface endOfPlaylist {\n    version {\n        major 25\n        minor 60\n    }\n\n    struct thing {\n        param20 param20\n    }\n\n    attribute uint8 thing\n\n    method thing {\n        in {\n            param param\n        }\n        out {\n            param2 param2\n            org.param3 param3\n        }\n    }\n\n    method thing {\n        in {\n            param param\n        }\n        out {\n            param2 param2\n            org.param3 param3\n        }\n    }\n}"
    );
}

#[test]
fn test_formatter_13() {
    let mut b = Builder::new();
    package(&mut b, "org.javaohjavawhyareyouso");
    long_interface(&mut b, 4);
    assert_eq!(run(&mut b),
        "package org.javaohjavawhyareyouso\n\ninterface endOfPlaylist {\n    version {\n        major 25\n        minor 60\n    }\n\n    struct thing {\n        p1 p1\n        p2 p2\n    }\n\n    attribute uint8 thing\n\n    method thing {\n        in {\n            param param\n        }\n        out {\n            param2 param2\n            org.param3 param3\n        }\n    }\n\n    method thing {\n        in {\n            param param\n        }\n        out {\n            param2 param2\n            org.param3 param3\n        }\n    }\n}"
    );
}

#[test]
fn test_formatter_14() {
    let mut b = Builder::new();
    package(&mut b, "org.javaohjavawhyareyouso");
    long_interface(&mut b, 5);
    assert_eq!(run(&mut b),
        "package org.javaohjavawhyareyouso\n\ninterface endOfPlaylist {\n    version {\n        major 25\n        minor 60\n    }\n\n    struct thing {\n        p1 p1\n        p2 p2\n    }\n\n    attribute uint8 thing\n\n    method thing {\n        in {\n            param param\n        }\n        out {\n            param2 param2\n            org.param3 param3\n        }\n    }\n\n    method thing {\n        in {\n            param param\n        }\n        out {\n            param2 param2\n            org.param3 param3\n        }\n    }\n\n    typedef aTypedef is Int16\n}"
    );
}

#[test]
fn test_formatter_17() {
    let mut b = Builder::new();
    package(&mut b, "org.javaohjavawhyareyouso");
    long_interface(&mut b, 6);
    b.text("\t").start(Rule::TypeCollection).text("typeCollection ").leaf(Rule::VariableName, "tc");
    b.leaf(Rule::OpenBracket, "{");
    typedef(&mut b, "aTypedef", "Int16");
    enumeration(&mut b, None);
    structure(&mut b, "thing", &[("p1", "p1"), ("p2", "p2")]);
    close(&mut b);
    assert_eq!(run(&mut b),
        "package org.javaohjavawhyareyouso\n\ninterface endOfPlaylist {\n    version {\n        major 25\n        minor 60\n    }\n\n    struct thing {\n        p1 p1\n        p2 p2\n    }\n\n    attribute uint8 thing\n\n    method thing {\n        in {\n            param param\n        }\n        out {\n            param2 param2\n            org.param3 param3\n        }\n    }\n\n    method thing {\n        in {\n            param param\n        }\n        out {\n            param2 param2\n            org.param3 param3\n        }\n    }\n\n    typedef aTypedef is Int16\n\n    enumeration aEnum {\n        A = 3\n        B\n        C\n        D\n        E = 10\n    }\n}\ntypeCollection tc {\n    typedef aTypedef is Int16\n\n    enumeration aEnum {\n        A = 3\n        B\n        C\n        D\n        E = 10\n    }\n\n    struct thing {\n        p1 p1\n        p2 p2\n    }\n}"
    );
}

#[test]
fn test_formatter_21() {
    let mut b = Builder::new();
    package(&mut b, "org.javaohjavawhyareyouso");
    b.text(" ").start(Rule::ImportModel).text("import model ");
    b.leaf(Rule::FilePath, "\"Astronomy_t.fidl\"").end();
    import_namespace(&mut b, "org.franca.omgidl", "\"OMGIDLBase.fidl\"", Some("// This is a comment\n"));
    b.text("        ").leaf(Rule::Comment, "// This is a comment\n");
    open_interface(&mut b, "endOfPlaylist");
    b.leaf(Rule::CloseBracket, " }").end();
    assert_eq!(run(&mut b),
        "package org.javaohjavawhyareyouso\n\nimport model \"Astronomy_t.fidl\"\nimport org.franca.omgidl.* from \"OMGIDLBase.fidl\" // This is a comment\n// This is a comment\ninterface endOfPlaylist {}"
    );
}

#[test]
fn test_formatter_23() {
    let mut b = Builder::new();
    package(&mut b, "org.javaohjavawhyareyouso");
    import_model(&mut b, "\"Astronomy_t.fidl\"", Some("// Comment\n"));
    import_namespace(&mut b, "org.franca.omgidl", "\"OMGIDLBase.fidl\"", Some("//Also Comment\n"));
    b.text("        ").leaf(Rule::Comment, "// This is a comment\n");
    b.text("        ").start(Rule::Interface);
    b.start(Rule::AnnotationBlock).text("<** ");
    annotation(&mut b, "Annotation", " block");
    b.text("**>").end();
    b.text("\n\t    interface ").leaf(Rule::VariableName, "endOfPlaylist");
    b.leaf(Rule::OpenBracket, " {").leaf(Rule::CloseBracket, " }").end();
    assert_eq!(run(&mut b),
        "package org.javaohjavawhyareyouso\n\nimport model \"Astronomy_t.fidl\" // Comment\nimport org.franca.omgidl.* from \"OMGIDLBase.fidl\" // Also Comment\n// This is a comment\n<** @Annotation: block **>\ninterface endOfPlaylist {}"
    );
}

fn one_annotation(b: &mut Builder) {
    b.text("\n            ").start(Rule::AnnotationBlock).text("<** ");
    annotation(b, "Annotation", " block ");
    b.text("**>").end();
}

#[test]
fn test_formatter_29() {
    let mut b = Builder::new();
    b.leaf(Rule::Comment, "//Comment\n");
    b.text("        ");
    package(&mut b, "org.javaohjavawhyareyouso");
    b.text(" \n        ").start(Rule::Interface);
    one_annotation(&mut b);
    b.text("\n\n        interface ").leaf(Rule::VariableName, "endOfPlaylist").leaf(Rule::OpenBracket, " {");
    one_annotation(&mut b);
    b.text("\n\n            ").start(Rule::Method).text("method ").leaf(Rule::VariableName, "thing");
    b.leaf(Rule::OpenBracket, " {");
    one_annotation(&mut b);
    section(&mut b, Rule::InputParams, "\n\n                in ", IN);
    one_annotation(&mut b);
    section(&mut b, Rule::OutputParams, "\n                out ", OUT);
    close(&mut b);
    b.text("\n            \n        ");
    close(&mut b);
    assert_eq!(run(&mut b),
        "\n// Comment\npackage org.javaohjavawhyareyouso\n\n<** @Annotation: block **>\ninterface endOfPlaylist {\n    <** @Annotation: block **>\n    method thing {\n        <** @Annotation: block **>\n        in {\n            param param\n        }\n        <** @Annotation: block **>\n        out {\n            param2 param2\n            org.param3 param3\n        }\n    }\n}"
    );
}
