//! Builds the semantic model of single constructs from the parse tree.
use vstd::prelude::*;
use vstd::string::{StrSliceExecFns, StringExecFns};
use crate::layout::{fold_all, fold_kids, lemma_fold_next, lemma_fold_stops};
use crate::model::{
    Attribute, EnumValue, ImportModel, ImportNamespace, Package, Structure, SymbolTableError,
    TypeDef, VariableDeclaration, Version,
};
use crate::number::{literal_value, parse_radix, radix_value};
use crate::text::{chars_of, inner, push_range, split_on, split_pieces};
use crate::tree::{Rule, Tree};

verus! {

/// Why a construct has no model, as a value.
pub enum BuildError {
    /// A child with the first rule under a construct of the second.
    Unexpected(Rule, Rule),
    /// A part that the construct needs is missing.
    Missing,
    /// A number that is no integer literal.
    BadNumber(Seq<char>),
    /// A second field of this name.
    DuplicateField(Seq<char>),
}

/// `r` is the error that `e` describes.
pub open spec fn err_matches(r: SymbolTableError, e: BuildError) -> bool {
    match e {
        BuildError::Unexpected(a, b) => r == SymbolTableError::UnexpectedNode(a, b),
        BuildError::Missing => r is InternalLogicError,
        BuildError::BadNumber(t) => r matches SymbolTableError::CouldNotConvertToInteger(x) && x@ == t,
        BuildError::DuplicateField(n) => r matches SymbolTableError::FieldAlreadyExists(_, b)
            && b.name@ == n,
    }
}

/// Trivia that the model leaves out.
pub open spec fn is_trivia(r: Rule) -> bool {
    r == Rule::Comment || r == Rule::MultilineComment || r == Rule::AnnotationBlock
}

pub struct NamedTypedSt {
    pub name: Option<Seq<char>>,
    pub type_n: Option<Seq<char>>,
}

pub open spec fn named_typed_step(
    t: Tree,
    s: Seq<char>,
    parent: Rule,
    name_rule: Rule,
) -> spec_fn(NamedTypedSt, usize) -> Result<NamedTypedSt, BuildError> {
    |st: NamedTypedSt, c: usize| {
        let r = t.rule_of(c as int);
        if is_trivia(r) {
            Ok(st)
        } else if r == Rule::TypeRef {
            Ok(NamedTypedSt { type_n: Some(t.text(s, c as int)), ..st })
        } else if r == name_rule {
            Ok(NamedTypedSt { name: Some(t.text(s, c as int)), ..st })
        } else {
            Err(BuildError::Unexpected(r, parent))
        }
    }
}

/// The name (the text of the last `name_rule` child) and the type (the text
/// of the last type reference) of a construct of rule `parent`.
pub open spec fn named_typed(
    t: Tree,
    s: Seq<char>,
    k: int,
    parent: Rule,
    name_rule: Rule,
) -> Result<(Seq<char>, Seq<char>), BuildError> {
    match fold_all(t, k, NamedTypedSt { name: None, type_n: None }, named_typed_step(t, s, parent, name_rule)) {
        Ok(st) => match (st.name, st.type_n) {
            (Some(n), Some(ty)) => Ok((n, ty)),
            _ => Err(BuildError::Missing),
        },
        Err(e) => Err(e),
    }
}

pub struct EnumValueBuildSt {
    pub name: Option<Seq<char>>,
    pub value: Option<u64>,
}

pub open spec fn enum_value_build_step(
    t: Tree,
    s: Seq<char>,
) -> spec_fn(EnumValueBuildSt, usize) -> Result<EnumValueBuildSt, BuildError> {
    |st: EnumValueBuildSt, c: usize| {
        let r = t.rule_of(c as int);
        if is_trivia(r) {
            Ok(st)
        } else if r == Rule::Number {
            match literal_value(t.text(s, c as int)) {
                Some(v) => Ok(EnumValueBuildSt { value: Some(v), ..st }),
                None => Err(BuildError::BadNumber(t.text(s, c as int))),
            }
        } else if r == Rule::VariableName {
            Ok(EnumValueBuildSt { name: Some(t.text(s, c as int)), ..st })
        } else {
            Err(BuildError::Unexpected(r, Rule::EnumValue))
        }
    }
}

/// The name of an enumeration value and the number written for it.
pub open spec fn enum_value_model(
    t: Tree,
    s: Seq<char>,
    k: int,
) -> Result<(Seq<char>, Option<u64>), BuildError> {
    match fold_all(t, k, EnumValueBuildSt { name: None, value: None }, enum_value_build_step(t, s)) {
        Ok(st) => match st.name {
            Some(n) => Ok((n, st.value)),
            None => Err(BuildError::Missing),
        },
        Err(e) => Err(e),
    }
}

pub struct StructureBuildSt {
    pub name: Option<Seq<char>>,
    pub fields: Seq<(Seq<char>, Seq<char>)>,
}

pub open spec fn has_field(fields: Seq<(Seq<char>, Seq<char>)>, n: Seq<char>) -> bool {
    exists|i: int| 0 <= i < fields.len() && #[trigger] fields[i].0 == n
}

pub open spec fn structure_build_step(
    t: Tree,
    s: Seq<char>,
) -> spec_fn(StructureBuildSt, usize) -> Result<StructureBuildSt, BuildError> {
    |st: StructureBuildSt, c: usize| {
        let r = t.rule_of(c as int);
        if is_trivia(r) || r == Rule::OpenBracket || r == Rule::CloseBracket {
            Ok(st)
        } else if r == Rule::TypeDec {
            Ok(StructureBuildSt { name: Some(t.text(s, c as int)), ..st })
        } else if r == Rule::VariableDeclaration {
            match named_typed(t, s, c as int, Rule::VariableDeclaration, Rule::VariableName) {
                Ok(f) => if has_field(st.fields, f.0) {
                    Err(BuildError::DuplicateField(f.0))
                } else {
                    Ok(StructureBuildSt { fields: st.fields.push(f), ..st })
                },
                Err(e) => Err(e),
            }
        } else {
            Err(BuildError::Unexpected(r, Rule::Structure))
        }
    }
}

/// The name of a structure and its fields (name, type) in order; field names
/// are unique.
pub open spec fn structure_model(
    t: Tree,
    s: Seq<char>,
    k: int,
) -> Result<(Seq<char>, Seq<(Seq<char>, Seq<char>)>), BuildError> {
    match fold_all(t, k, StructureBuildSt { name: None, fields: Seq::empty() }, structure_build_step(t, s)) {
        Ok(st) => match st.name {
            Some(n) => Ok((n, st.fields)),
            None => Err(BuildError::Missing),
        },
        Err(e) => Err(e),
    }
}

pub open spec fn fields_view(v: Seq<VariableDeclaration>) -> Seq<(Seq<char>, Seq<char>)> {
    v.map_values(|d: VariableDeclaration| (d.name@, d.type_n@))
}

/// The number of a `major` or `minor` node: its digits, read in base ten,
/// when they fit in 32 bits.
pub open spec fn version_number(t: Tree, s: Seq<char>, k: int) -> Option<u32> {
    let kids = t.kids(k);
    if kids.len() > 0 && t.rule_of(kids[0] as int) == Rule::Digits {
        match radix_value(t.text(s, kids[0] as int), 10) {
            Some(v) => if v <= u32::MAX {
                Some(v as u32)
            } else {
                None
            },
            None => None,
        }
    } else {
        None
    }
}

pub struct VersionBuildSt {
    pub major: Option<u32>,
    pub minor: Option<u32>,
}

pub open spec fn version_build_step(
    t: Tree,
    s: Seq<char>,
) -> spec_fn(VersionBuildSt, usize) -> Result<VersionBuildSt, BuildError> {
    |st: VersionBuildSt, c: usize| {
        let r = t.rule_of(c as int);
        if is_trivia(r) || r == Rule::OpenBracket || r == Rule::CloseBracket {
            Ok(st)
        } else if r == Rule::Major || r == Rule::Minor {
            match version_number(t, s, c as int) {
                Some(v) => if r == Rule::Major {
                    Ok(VersionBuildSt { major: Some(v), ..st })
                } else {
                    Ok(VersionBuildSt { minor: Some(v), ..st })
                },
                None => Err(BuildError::BadNumber(t.text(s, c as int))),
            }
        } else {
            Err(BuildError::Unexpected(r, Rule::Version))
        }
    }
}

/// The major and minor numbers of a version block.
pub open spec fn version_model(
    t: Tree,
    s: Seq<char>,
    k: int,
) -> Result<VersionBuildSt, BuildError> {
    fold_all(t, k, VersionBuildSt { major: None, minor: None }, version_build_step(t, s))
}

pub struct ImportBuildSt {
    pub import: Option<Seq<char>>,
    pub from: Option<Seq<char>>,
    pub wildcard: bool,
}

pub open spec fn import_build_step(
    t: Tree,
    s: Seq<char>,
    parent: Rule,
) -> spec_fn(ImportBuildSt, usize) -> Result<ImportBuildSt, BuildError> {
    |st: ImportBuildSt, c: usize| {
        let r = t.rule_of(c as int);
        if r == Rule::Comment || r == Rule::MultilineComment {
            Ok(st)
        } else if r == Rule::TypeRef && parent != Rule::ImportModel {
            Ok(ImportBuildSt { import: Some(t.text(s, c as int)), ..st })
        } else if r == Rule::Wildcard && parent == Rule::ImportNamespace {
            Ok(ImportBuildSt { wildcard: true, ..st })
        } else if r == Rule::FilePath && parent != Rule::Package {
            Ok(ImportBuildSt { from: Some(inner(t.text(s, c as int), 1)), ..st })
        } else {
            Err(BuildError::Unexpected(r, parent))
        }
    }
}

/// What a package (`parent` is `Package`), a model import or a namespace
/// import names: the dotted name, the path between its quotes, and whether
/// the import ends in `.*`.
pub open spec fn import_model_of(
    t: Tree,
    s: Seq<char>,
    k: int,
    parent: Rule,
) -> Result<ImportBuildSt, BuildError> {
    fold_all(t, k, ImportBuildSt { import: None, from: None, wildcard: false }, import_build_step(t, s, parent))
}

pub open spec fn strings_view(v: Seq<String>) -> Seq<Seq<char>> {
    v.map_values(|x: String| x@)
}

/// The source text of node `k`.
fn node_text(source: &str, tree: &Tree, k: usize) -> (r: String)
    requires
        tree.wf(source@.len()),
        k < tree.nodes@.len(),
    ensures
        r@ == tree.text(source@, k as int),
{
    proof {
        assert(tree.node_wf(k as int, source@.len()));
    }
    let n = &tree.nodes[k];
    String::from_str(source.substring_char(n.start, n.end))
}

/// The name and type of node `k`, a construct of rule `parent`.
fn named_typed_of(
    source: &str,
    tree: &Tree,
    k: usize,
    parent: Rule,
    name_rule: Rule,
) -> (r: Result<(String, String), SymbolTableError>)
    requires
        tree.wf(source@.len()),
        k < tree.nodes@.len(),
    ensures
        match named_typed(*tree, source@, k as int, parent, name_rule) {
            Ok(v) => r is Ok && r->Ok_0.0@ == v.0 && r->Ok_0.1@ == v.1,
            Err(e) => r is Err && err_matches(r->Err_0, e),
        },
{
    let ghost t = *tree;
    let ghost s = source@;
    let ghost init = NamedTypedSt { name: None, type_n: None };
    let ghost step = named_typed_step(t, s, parent, name_rule);
    let node = &tree.nodes[k];
    let ghost kids = t.kids(k as int);
    proof {
        assert(t.node_wf(k as int, s.len()));
    }
    let mut name: Option<String> = None;
    let mut type_n: Option<String> = None;
    let mut i: usize = 0;
    while i < node.children.len()
        invariant
            t == *tree,
            s == source@,
            t.wf(s.len()),
            step == named_typed_step(t, s, parent, name_rule),
            init == (NamedTypedSt { name: None, type_n: None }),
            kids == node.children@,
            kids == t.kids(k as int),
            t.node_wf(k as int, s.len()),
            i <= kids.len(),
            fold_kids(kids, i as nat, init, step) == Ok::<NamedTypedSt, BuildError>(
                NamedTypedSt { name: opt_text(name), type_n: opt_text(type_n) },
            ),
        decreases kids.len() - i,
    {
        let c = node.children[i];
        proof {
            lemma_fold_next(kids, i as nat, init, step);
        }
        let r = tree.nodes[c].rule;
        if r == Rule::Comment || r == Rule::MultilineComment || r == Rule::AnnotationBlock {
        } else if r == Rule::TypeRef {
            type_n = Some(node_text(source, tree, c));
        } else if r == name_rule {
            name = Some(node_text(source, tree, c));
        } else {
            proof {
                lemma_fold_stops(kids, (i + 1) as nat, kids.len(), init, step);
            }
            return Err(SymbolTableError::UnexpectedNode(r, parent));
        }
        i += 1;
    }
    match (name, type_n) {
        (Some(n), Some(ty)) => Ok((n, ty)),
        _ => Err(SymbolTableError::InternalLogicError(String::from_str(
            "a name or a type is missing",
        ))),
    }
}

pub open spec fn opt_text(o: Option<String>) -> Option<Seq<char>> {
    match o {
        Some(x) => Some(x@),
        None => None,
    }
}

impl VariableDeclaration {
    /// The declaration at node `k`: its name and type as written.
    pub fn new(source: &str, tree: &Tree, k: usize) -> (r: Result<Self, SymbolTableError>)
        requires
            tree.wf(source@.len()),
            k < tree.nodes@.len(),
        ensures
            match named_typed(*tree, source@, k as int, Rule::VariableDeclaration, Rule::VariableName) {
                Ok(v) => r is Ok && r->Ok_0.name@ == v.0 && r->Ok_0.type_n@ == v.1
                    && r->Ok_0.start_position == tree.nodes@[k as int].start
                    && r->Ok_0.end_position == tree.nodes@[k as int].end,
                Err(e) => r is Err && err_matches(r->Err_0, e),
            },
    {
        match named_typed_of(source, tree, k, Rule::VariableDeclaration, Rule::VariableName) {
            Ok((name, type_n)) => Ok(VariableDeclaration {
                start_position: tree.nodes[k].start,
                end_position: tree.nodes[k].end,
                type_n,
                name,
            }),
            Err(e) => Err(e),
        }
    }
}

impl Attribute {
    /// The attribute at node `k`: its name and type as written.
    pub fn new(source: &str, tree: &Tree, k: usize) -> (r: Result<Self, SymbolTableError>)
        requires
            tree.wf(source@.len()),
            k < tree.nodes@.len(),
        ensures
            match named_typed(*tree, source@, k as int, Rule::Attribute, Rule::VariableName) {
                Ok(v) => r is Ok && r->Ok_0.name@ == v.0 && r->Ok_0.type_n@ == v.1
                    && r->Ok_0.start_position == tree.nodes@[k as int].start
                    && r->Ok_0.end_position == tree.nodes@[k as int].end,
                Err(e) => r is Err && err_matches(r->Err_0, e),
            },
    {
        match named_typed_of(source, tree, k, Rule::Attribute, Rule::VariableName) {
            Ok((name, type_n)) => Ok(Attribute {
                start_position: tree.nodes[k].start,
                end_position: tree.nodes[k].end,
                name,
                type_n,
            }),
            Err(e) => Err(e),
        }
    }
}

impl TypeDef {
    /// The typedef at node `k`: the declared name and the type it stands for.
    pub fn new(source: &str, tree: &Tree, k: usize) -> (r: Result<Self, SymbolTableError>)
        requires
            tree.wf(source@.len()),
            k < tree.nodes@.len(),
        ensures
            match named_typed(*tree, source@, k as int, Rule::Typedef, Rule::TypeDec) {
                Ok(v) => r is Ok && r->Ok_0.name@ == v.0 && r->Ok_0.type_n@ == v.1
                    && r->Ok_0.start_position == tree.nodes@[k as int].start
                    && r->Ok_0.end_position == tree.nodes@[k as int].end,
                Err(e) => r is Err && err_matches(r->Err_0, e),
            },
    {
        match named_typed_of(source, tree, k, Rule::Typedef, Rule::TypeDec) {
            Ok((name, type_n)) => Ok(TypeDef {
                start_position: tree.nodes[k].start,
                end_position: tree.nodes[k].end,
                name,
                type_n,
            }),
            Err(e) => Err(e),
        }
    }
}

impl EnumValue {
    /// The enumeration value at node `k`: its name as written and the value of
    /// its number, when it has one.
    pub fn new(source: &str, tree: &Tree, k: usize) -> (r: Result<Self, SymbolTableError>)
        requires
            tree.wf(source@.len()),
            k < tree.nodes@.len(),
        ensures
            match enum_value_model(*tree, source@, k as int) {
                Ok(v) => r is Ok && r->Ok_0.name@ == v.0 && r->Ok_0.value == v.1
                    && r->Ok_0.start_position == tree.nodes@[k as int].start
                    && r->Ok_0.end_position == tree.nodes@[k as int].end,
                Err(e) => r is Err && err_matches(r->Err_0, e),
            },
    {
        let ghost t = *tree;
        let ghost s = source@;
        let ghost init = EnumValueBuildSt { name: None, value: None };
        let ghost step = enum_value_build_step(t, s);
        let node = &tree.nodes[k];
        let ghost kids = t.kids(k as int);
        proof {
            assert(t.node_wf(k as int, s.len()));
        }
        let mut name: Option<String> = None;
        let mut value: Option<u64> = None;
        let mut i: usize = 0;
        while i < node.children.len()
            invariant
                t == *tree,
                s == source@,
                t.wf(s.len()),
                step == enum_value_build_step(t, s),
                init == (EnumValueBuildSt { name: None, value: None }),
                kids == node.children@,
                kids == t.kids(k as int),
                t.node_wf(k as int, s.len()),
                i <= kids.len(),
                fold_kids(kids, i as nat, init, step) == Ok::<EnumValueBuildSt, BuildError>(
                    EnumValueBuildSt { name: opt_text(name), value },
                ),
            decreases kids.len() - i,
        {
            let c = node.children[i];
            proof {
                lemma_fold_next(kids, i as nat, init, step);
            }
            let r = tree.nodes[c].rule;
            if r == Rule::Comment || r == Rule::MultilineComment || r == Rule::AnnotationBlock {
            } else if r == Rule::Number {
                let res = node_text(source, tree, c);
                match EnumValue::convert_string_representation_of_number_to_value(res) {
                    Ok(v) => {
                        value = Some(v);
                    },
                    Err(e) => {
                        proof {
                            lemma_fold_stops(kids, (i + 1) as nat, kids.len(), init, step);
                        }
                        return Err(e);
                    },
                }
            } else if r == Rule::VariableName {
                name = Some(node_text(source, tree, c));
            } else {
                proof {
                    lemma_fold_stops(kids, (i + 1) as nat, kids.len(), init, step);
                }
                return Err(SymbolTableError::UnexpectedNode(r, Rule::EnumValue));
            }
            i += 1;
        }
        match name {
            Some(name) => Ok(EnumValue {
                start_position: node.start,
                end_position: node.end,
                name,
                value,
            }),
            None => Err(SymbolTableError::InternalLogicError(String::from_str(
                "an enumeration value has no name",
            ))),
        }
    }
}

impl Structure {
    /// The structure at node `k`: its name as written and its fields in
    /// order; a second field of one name is an error.
    pub fn new(source: &str, tree: &Tree, k: usize) -> (r: Result<Self, SymbolTableError>)
        requires
            tree.wf(source@.len()),
            k < tree.nodes@.len(),
        ensures
            match structure_model(*tree, source@, k as int) {
                Ok(v) => r is Ok && r->Ok_0.name@ == v.0 && fields_view(r->Ok_0.contents@) == v.1
                    && r->Ok_0.start_position == tree.nodes@[k as int].start
                    && r->Ok_0.end_position == tree.nodes@[k as int].end,
                Err(e) => r is Err && err_matches(r->Err_0, e),
            },
    {
        let ghost t = *tree;
        let ghost s = source@;
        let ghost init = StructureBuildSt { name: None, fields: Seq::empty() };
        let ghost step = structure_build_step(t, s);
        let node = &tree.nodes[k];
        let ghost kids = t.kids(k as int);
        proof {
            assert(t.node_wf(k as int, s.len()));
        }
        let mut name: Option<String> = None;
        let mut contents: Vec<VariableDeclaration> = Vec::new();
        let mut i: usize = 0;
        assert(fields_view(contents@) =~= Seq::<(Seq<char>, Seq<char>)>::empty());
        while i < node.children.len()
            invariant
                t == *tree,
                s == source@,
                t.wf(s.len()),
                step == structure_build_step(t, s),
                init == (StructureBuildSt { name: None, fields: Seq::empty() }),
                kids == node.children@,
                kids == t.kids(k as int),
                t.node_wf(k as int, s.len()),
                i <= kids.len(),
                fold_kids(kids, i as nat, init, step) == Ok::<StructureBuildSt, BuildError>(
                    StructureBuildSt { name: opt_text(name), fields: fields_view(contents@) },
                ),
            decreases kids.len() - i,
        {
            let c = node.children[i];
            proof {
                lemma_fold_next(kids, i as nat, init, step);
            }
            let r = tree.nodes[c].rule;
            if r == Rule::Comment || r == Rule::MultilineComment || r == Rule::AnnotationBlock
                || r == Rule::OpenBracket || r == Rule::CloseBracket {
            } else if r == Rule::TypeDec {
                name = Some(node_text(source, tree, c));
            } else if r == Rule::VariableDeclaration {
                let var_dec = match VariableDeclaration::new(source, tree, c) {
                    Ok(v) => v,
                    Err(e) => {
                        proof {
                            lemma_fold_stops(kids, (i + 1) as nat, kids.len(), init, step);
                        }
                        return Err(e);
                    },
                };
                let ghost f = (var_dec.name@, var_dec.type_n@);
                let ghost before = contents@;
                proof {
                    assert(VariableDeclaration::named_in(before, f.0) == has_field(fields_view(before), f.0)) by {
                        if VariableDeclaration::named_in(before, f.0) {
                            let j = choose|j: int| 0 <= j < before.len() && #[trigger] before[j].name@ == f.0;
                            assert(fields_view(before)[j].0 == f.0);
                        }
                        if has_field(fields_view(before), f.0) {
                            let j = choose|j: int| 0 <= j < fields_view(before).len() && #[trigger] fields_view(before)[j].0 == f.0;
                            assert(before[j].name@ == f.0);
                        }
                    }
                }
                match Structure::add_variable_declaration(&mut contents, var_dec) {
                    Ok(()) => {
                        assert(fields_view(contents@) =~= fields_view(before).push(f));
                    },
                    Err(e) => {
                        proof {
                            lemma_fold_stops(kids, (i + 1) as nat, kids.len(), init, step);
                        }
                        return Err(e);
                    },
                }
            } else {
                proof {
                    lemma_fold_stops(kids, (i + 1) as nat, kids.len(), init, step);
                }
                return Err(SymbolTableError::UnexpectedNode(r, Rule::Structure));
            }
            i += 1;
        }
        match name {
            Some(name) => Ok(Structure {
                start_position: node.start,
                end_position: node.end,
                name,
                contents,
            }),
            None => Err(SymbolTableError::InternalLogicError(String::from_str(
                "a structure has no name",
            ))),
        }
    }
}

/// `version_number(k)`.
fn version_number_of(source: &str, tree: &Tree, k: usize) -> (r: Option<u32>)
    requires
        tree.wf(source@.len()),
        k < tree.nodes@.len(),
    ensures
        r == version_number(*tree, source@, k as int),
{
    proof {
        assert(tree.node_wf(k as int, source@.len()));
    }
    let node = &tree.nodes[k];
    if node.children.len() == 0 || !(tree.nodes[node.children[0]].rule == Rule::Digits) {
        return None;
    }
    let digits = chars_of(node_text(source, tree, node.children[0]).as_str());
    assert(digits@.subrange(0, digits@.len() as int) =~= digits@);
    match parse_radix(&digits, 0, 10) {
        Some(v) => if v <= 0xffff_ffffu64 {
            Some(v as u32)
        } else {
            None
        },
        None => None,
    }
}

impl Version {
    /// The version block at node `k`.
    pub fn new(source: &str, tree: &Tree, k: usize) -> (r: Result<Self, SymbolTableError>)
        requires
            tree.wf(source@.len()),
            k < tree.nodes@.len(),
        ensures
            match version_model(*tree, source@, k as int) {
                Ok(v) => r is Ok && r->Ok_0.major == v.major && r->Ok_0.minor == v.minor
                    && r->Ok_0.start_position == tree.nodes@[k as int].start
                    && r->Ok_0.end_position == tree.nodes@[k as int].end,
                Err(e) => r is Err && err_matches(r->Err_0, e),
            },
    {
        let ghost t = *tree;
        let ghost s = source@;
        let ghost init = VersionBuildSt { major: None, minor: None };
        let ghost step = version_build_step(t, s);
        let node = &tree.nodes[k];
        let ghost kids = t.kids(k as int);
        proof {
            assert(t.node_wf(k as int, s.len()));
        }
        let mut major: Option<u32> = None;
        let mut minor: Option<u32> = None;
        let mut i: usize = 0;
        while i < node.children.len()
            invariant
                t == *tree,
                s == source@,
                t.wf(s.len()),
                step == version_build_step(t, s),
                init == (VersionBuildSt { major: None, minor: None }),
                kids == node.children@,
                kids == t.kids(k as int),
                t.node_wf(k as int, s.len()),
                i <= kids.len(),
                fold_kids(kids, i as nat, init, step) == Ok::<VersionBuildSt, BuildError>(
                    VersionBuildSt { major, minor },
                ),
            decreases kids.len() - i,
        {
            let c = node.children[i];
            proof {
                lemma_fold_next(kids, i as nat, init, step);
            }
            let r = tree.nodes[c].rule;
            if r == Rule::Comment || r == Rule::MultilineComment || r == Rule::AnnotationBlock
                || r == Rule::OpenBracket || r == Rule::CloseBracket {
            } else if r == Rule::Major || r == Rule::Minor {
                match version_number_of(source, tree, c) {
                    Some(v) => {
                        if r == Rule::Major {
                            major = Some(v);
                        } else {
                            minor = Some(v);
                        }
                    },
                    None => {
                        proof {
                            lemma_fold_stops(kids, (i + 1) as nat, kids.len(), init, step);
                        }
                        return Err(SymbolTableError::CouldNotConvertToInteger(node_text(source, tree, c)));
                    },
                }
            } else {
                proof {
                    lemma_fold_stops(kids, (i + 1) as nat, kids.len(), init, step);
                }
                return Err(SymbolTableError::UnexpectedNode(r, Rule::Version));
            }
            i += 1;
        }
        Ok(Version { start_position: node.start, end_position: node.end, major, minor })
    }
}

/// Reads the children of a package or an import.
fn import_parts(
    source: &str,
    tree: &Tree,
    k: usize,
    parent: Rule,
) -> (r: Result<(Option<String>, Option<String>, bool), SymbolTableError>)
    requires
        tree.wf(source@.len()),
        k < tree.nodes@.len(),
    ensures
        match import_model_of(*tree, source@, k as int, parent) {
            Ok(v) => r is Ok && opt_text(r->Ok_0.0) == v.import && opt_text(r->Ok_0.1) == v.from
                && r->Ok_0.2 == v.wildcard,
            Err(e) => r is Err && err_matches(r->Err_0, e),
        },
{
    let ghost t = *tree;
    let ghost s = source@;
    let ghost init = ImportBuildSt { import: None, from: None, wildcard: false };
    let ghost step = import_build_step(t, s, parent);
    let node = &tree.nodes[k];
    let ghost kids = t.kids(k as int);
    proof {
        assert(t.node_wf(k as int, s.len()));
    }
    let mut import: Option<String> = None;
    let mut from: Option<String> = None;
    let mut wildcard = false;
    let mut i: usize = 0;
    while i < node.children.len()
        invariant
            t == *tree,
            s == source@,
            t.wf(s.len()),
            step == import_build_step(t, s, parent),
            init == (ImportBuildSt { import: None, from: None, wildcard: false }),
            kids == node.children@,
            kids == t.kids(k as int),
            t.node_wf(k as int, s.len()),
            i <= kids.len(),
            fold_kids(kids, i as nat, init, step) == Ok::<ImportBuildSt, BuildError>(
                ImportBuildSt { import: opt_text(import), from: opt_text(from), wildcard },
            ),
        decreases kids.len() - i,
    {
        let c = node.children[i];
        proof {
            lemma_fold_next(kids, i as nat, init, step);
        }
        let r = tree.nodes[c].rule;
        if r == Rule::Comment || r == Rule::MultilineComment {
        } else if r == Rule::TypeRef && !(parent == Rule::ImportModel) {
            import = Some(node_text(source, tree, c));
        } else if r == Rule::Wildcard && parent == Rule::ImportNamespace {
            wildcard = true;
        } else if r == Rule::FilePath && !(parent == Rule::Package) {
            let cs = chars_of(node_text(source, tree, c).as_str());
            let n = cs.len();
            let mut path = String::new();
            if n >= 2 {
                push_range(&mut path, &cs, 1, n - 1);
            }
            assert(path@ =~= inner(t.text(s, c as int), 1));
            from = Some(path);
        } else {
            proof {
                lemma_fold_stops(kids, (i + 1) as nat, kids.len(), init, step);
            }
            return Err(SymbolTableError::UnexpectedNode(r, parent));
        }
        i += 1;
    }
    Ok((import, from, wildcard))
}

fn missing() -> (r: SymbolTableError)
    ensures
        r is InternalLogicError,
{
    SymbolTableError::InternalLogicError(String::from_str("a part of the construct is missing"))
}

impl Package {
    /// The package at node `k`: its dotted name, split at the dots.
    pub fn new(source: &str, tree: &Tree, k: usize) -> (r: Result<Self, SymbolTableError>)
        requires
            tree.wf(source@.len()),
            k < tree.nodes@.len(),
        ensures
            match import_model_of(*tree, source@, k as int, Rule::Package) {
                Ok(v) => match v.import {
                    Some(name) => r is Ok && strings_view(r->Ok_0.path@) == split_on(name, '.'),
                    None => r is Err && r->Err_0 is InternalLogicError,
                },
                Err(e) => r is Err && err_matches(r->Err_0, e),
            },
    {
        match import_parts(source, tree, k, Rule::Package) {
            Ok((Some(name), _, _)) => {
                let path = split_pieces(&chars_of(name.as_str()), '.');
                assert(strings_view(path@) =~= split_on(name@, '.'));
                Ok(Package { path })
            },
            Ok((None, _, _)) => Err(missing()),
            Err(e) => Err(e),
        }
    }
}

impl ImportModel {
    /// The model import at node `k`: the path between the quotes.
    pub fn new(source: &str, tree: &Tree, k: usize) -> (r: Result<Self, SymbolTableError>)
        requires
            tree.wf(source@.len()),
            k < tree.nodes@.len(),
        ensures
            match import_model_of(*tree, source@, k as int, Rule::ImportModel) {
                Ok(v) => match v.from {
                    Some(path) => r is Ok && r->Ok_0.file_path@ == path,
                    None => r is Err && r->Err_0 is InternalLogicError,
                },
                Err(e) => r is Err && err_matches(r->Err_0, e),
            },
    {
        match import_parts(source, tree, k, Rule::ImportModel) {
            Ok((_, Some(file_path), _)) => Ok(ImportModel { file_path }),
            Ok((_, None, _)) => Err(missing()),
            Err(e) => Err(e),
        }
    }
}

impl ImportNamespace {
    /// The namespace import at node `k`: the dotted name split at the dots,
    /// the path between the quotes, and whether it ends in `.*`.
    pub fn new(source: &str, tree: &Tree, k: usize) -> (r: Result<Self, SymbolTableError>)
        requires
            tree.wf(source@.len()),
            k < tree.nodes@.len(),
        ensures
            match import_model_of(*tree, source@, k as int, Rule::ImportNamespace) {
                Ok(v) => match (v.import, v.from) {
                    (Some(name), Some(path)) => r is Ok && strings_view(r->Ok_0.import@) == split_on(name, '.')
                        && r->Ok_0.from@ == path && r->Ok_0.wildcard == v.wildcard,
                    _ => r is Err && r->Err_0 is InternalLogicError,
                },
                Err(e) => r is Err && err_matches(r->Err_0, e),
            },
    {
        match import_parts(source, tree, k, Rule::ImportNamespace) {
            Ok((Some(name), Some(from), wildcard)) => {
                let import = split_pieces(&chars_of(name.as_str()), '.');
                assert(strings_view(import@) =~= split_on(name@, '.'));
                Ok(ImportNamespace { import, from, wildcard })
            },
            Ok(_) => Err(missing()),
            Err(e) => Err(e),
        }
    }
}

} // verus!
