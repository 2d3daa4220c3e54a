use minimal_fidl::{
    is_fidl_file, Attribute, EnumValue, IndentedString, Structure, SymbolTableError,
    VariableDeclaration, Version,
};

#[test]
fn test() {
    let val = EnumValue::convert_string_representation_of_number_to_value("0x40000".to_string());
    val.unwrap();
}

#[test]
fn number_literals() {
    let conv = |s: &str| EnumValue::convert_string_representation_of_number_to_value(s.to_string());
    assert_eq!(conv("0x40000").unwrap(), 0x40000);
    assert_eq!(conv("42").unwrap(), 42);
    assert_eq!(conv("+7").unwrap(), 7);
    assert_eq!(conv("0b101").unwrap(), 5);
    assert_eq!(conv("0xFFffFFffFFffFFff").unwrap(), u64::MAX);
    assert_eq!(conv("18446744073709551615").unwrap(), u64::MAX);
    assert!(conv("18446744073709551616").is_err());
    assert!(conv("0x1_0").is_err());
    assert!(conv("").is_err());
    assert!(conv("+").is_err());
    assert!(conv("0b102").is_err());
    match conv("abc") {
        Err(SymbolTableError::CouldNotConvertToInteger(s)) => assert_eq!(s, "abc"),
        other => panic!("unexpected {:?}", other),
    }
}

fn attr(name: &str, at: usize) -> Attribute {
    Attribute { start_position: at, end_position: at + 1, name: name.to_string(), type_n: "UInt8".to_string() }
}

#[test]
fn duplicate_attribute_names_identify_both_definitions() {
    let mut attrs = Vec::new();
    attr("a", 0).push_if_not_exists_else_err(&mut attrs).unwrap();
    attr("b", 5).push_if_not_exists_else_err(&mut attrs).unwrap();
    match attr("a", 9).push_if_not_exists_else_err(&mut attrs) {
        Err(SymbolTableError::AttributeAlreadyExists(first, second)) => {
            assert_eq!(first.start_position, 0);
            assert_eq!(second.start_position, 9);
        },
        other => panic!("unexpected {:?}", other),
    }
    assert_eq!(attrs.len(), 2);
}

#[test]
fn duplicate_fields_are_rejected() {
    let field = |n: &str| VariableDeclaration {
        start_position: 0,
        end_position: 0,
        type_n: "UInt8".to_string(),
        name: n.to_string(),
    };
    let mut fields = Vec::new();
    Structure::add_variable_declaration(&mut fields, field("x")).unwrap();
    Structure::add_variable_declaration(&mut fields, field("y")).unwrap();
    assert!(matches!(
        Structure::add_variable_declaration(&mut fields, field("x")),
        Err(SymbolTableError::FieldAlreadyExists(..))
    ));
    assert_eq!(fields.len(), 2);
}

#[test]
fn second_version_is_rejected() {
    let v = |at: usize| Version { start_position: at, end_position: at, major: Some(1), minor: None };
    let mut version = None;
    v(1).push_if_not_exists_else_err(&mut version).unwrap();
    match v(2).push_if_not_exists_else_err(&mut version) {
        Err(SymbolTableError::VersionAlreadyExists(a, b)) => {
            assert_eq!(a.start_position, 1);
            assert_eq!(b.start_position, 2);
        },
        other => panic!("unexpected {:?}", other),
    }
}

#[test]
fn fidl_files_by_extension() {
    assert!(is_fidl_file("dir/model.fidl"));
    assert!(is_fidl_file("a.fidl"));
    assert!(!is_fidl_file("dir/.fidl"));
    assert!(!is_fidl_file(".fidl"));
    assert!(!is_fidl_file("model.fidl.txt"));
    assert!(!is_fidl_file("model"));
}

#[test]
fn indented_string_renders_with_indentation() {
    let mut l = IndentedString::new(0, "x".to_string());
    l.indent();
    l.indent();
    assert_eq!(l.to_text(), "\n        x");
    l.set_with_newline(false);
    let m = l.merged(IndentedString::new(3, " y".to_string()));
    assert_eq!(m.to_text(), "        x y");
}

use minimal_fidl::{ImportModel, ImportNamespace, Node, Package, Rule, Tree, TypeDef};

fn node(rule: Rule, start: usize, end: usize, children: Vec<usize>) -> Node {
    Node { rule, start, end, children }
}

#[test]
fn structure_from_tree() {
    // struct S { UInt8 a // c
    //            Int16 b }
    let src = "struct S { UInt8 a // c\nInt16 b }";
    let tree = Tree {
        nodes: vec![
            node(Rule::Structure, 0, 33, vec![1, 2, 3, 7, 10]),
            node(Rule::TypeDec, 7, 8, vec![]),
            node(Rule::OpenBracket, 9, 10, vec![]),
            node(Rule::VariableDeclaration, 11, 23, vec![4, 5, 6]),
            node(Rule::TypeRef, 11, 16, vec![]),
            node(Rule::VariableName, 17, 18, vec![]),
            node(Rule::Comment, 19, 23, vec![]),
            node(Rule::VariableDeclaration, 24, 31, vec![8, 9]),
            node(Rule::TypeRef, 24, 29, vec![]),
            node(Rule::VariableName, 30, 31, vec![]),
            node(Rule::CloseBracket, 32, 33, vec![]),
        ],
    };
    let s = Structure::new(src, &tree, 0).unwrap();
    assert_eq!(s.name, "S");
    assert_eq!(s.start_position, 0);
    assert_eq!(s.end_position, 33);
    let fields: Vec<(String, String)> =
        s.contents.iter().map(|v| (v.name.clone(), v.type_n.clone())).collect();
    assert_eq!(
        fields,
        vec![("a".to_string(), "UInt8".to_string()), ("b".to_string(), "Int16".to_string())]
    );
}

#[test]
fn structure_with_duplicate_field_is_rejected() {
    let src = "struct S { A a B a }";
    let tree = Tree {
        nodes: vec![
            node(Rule::Structure, 0, 20, vec![1, 2, 5]),
            node(Rule::TypeDec, 7, 8, vec![]),
            node(Rule::VariableDeclaration, 11, 14, vec![3, 4]),
            node(Rule::TypeRef, 11, 12, vec![]),
            node(Rule::VariableName, 13, 14, vec![]),
            node(Rule::VariableDeclaration, 15, 18, vec![6, 7]),
            node(Rule::TypeRef, 15, 16, vec![]),
            node(Rule::VariableName, 17, 18, vec![]),
        ],
    };
    match Structure::new(src, &tree, 0) {
        Err(SymbolTableError::FieldAlreadyExists(first, second)) => {
            assert_eq!(first.type_n, "A");
            assert_eq!(second.type_n, "B");
        },
        other => panic!("unexpected {:?}", other),
    }
}

#[test]
fn enum_value_and_typedef_from_tree() {
    let src = "A = 0x10 typedef T is UInt8";
    let tree = Tree {
        nodes: vec![
            node(Rule::EnumValue, 0, 8, vec![1, 2]),
            node(Rule::VariableName, 0, 1, vec![]),
            node(Rule::Number, 4, 8, vec![]),
            node(Rule::Typedef, 9, 27, vec![4, 5]),
            node(Rule::TypeDec, 17, 18, vec![]),
            node(Rule::TypeRef, 22, 27, vec![]),
        ],
    };
    let e = EnumValue::new(src, &tree, 0).unwrap();
    assert_eq!(e.name, "A");
    assert_eq!(e.value, Some(16));
    let t = TypeDef::new(src, &tree, 3).unwrap();
    assert_eq!(t.name, "T");
    assert_eq!(t.type_n, "UInt8");
    assert!(matches!(
        Attribute::new(src, &tree, 3),
        Err(SymbolTableError::UnexpectedNode(Rule::TypeDec, Rule::Attribute))
    ));
    assert!(matches!(
        VariableDeclaration::new(src, &tree, 1),
        Err(SymbolTableError::InternalLogicError(_))
    ));
}

#[test]
fn version_from_tree() {
    let src = "version { major 25 minor 60 }";
    let tree = Tree {
        nodes: vec![
            node(Rule::Version, 0, 29, vec![1, 2, 4, 6]),
            node(Rule::OpenBracket, 8, 9, vec![]),
            node(Rule::Major, 10, 18, vec![3]),
            node(Rule::Digits, 16, 18, vec![]),
            node(Rule::Minor, 19, 27, vec![5]),
            node(Rule::Digits, 25, 27, vec![]),
            node(Rule::CloseBracket, 28, 29, vec![]),
        ],
    };
    let v = Version::new(src, &tree, 0).unwrap();
    assert_eq!(v.major, Some(25));
    assert_eq!(v.minor, Some(60));
}

#[test]
fn package_and_imports_from_tree() {
    let src = "package org.acme // c\nimport model \"a.fidl\"\nimport org.x.* from \"b.fidl\"";
    let tree = Tree {
        nodes: vec![
            node(Rule::Package, 0, 21, vec![1, 2]),
            node(Rule::TypeRef, 8, 16, vec![]),
            node(Rule::Comment, 17, 21, vec![]),
            node(Rule::ImportModel, 22, 43, vec![4]),
            node(Rule::FilePath, 35, 43, vec![]),
            node(Rule::ImportNamespace, 44, 72, vec![6, 7, 8]),
            node(Rule::TypeRef, 51, 56, vec![]),
            node(Rule::Wildcard, 56, 58, vec![]),
            node(Rule::FilePath, 64, 72, vec![]),
        ],
    };
    let p = Package::new(src, &tree, 0).unwrap();
    assert_eq!(p.path, vec!["org".to_string(), "acme".to_string()]);
    let m = ImportModel::new(src, &tree, 3).unwrap();
    assert_eq!(m.file_path, "a.fidl");
    let n = ImportNamespace::new(src, &tree, 5).unwrap();
    assert_eq!(n.import, vec!["org".to_string(), "x".to_string()]);
    assert_eq!(n.from, "b.fidl");
    assert!(n.wildcard);
    assert!(matches!(
        Package::new(src, &tree, 3),
        Err(SymbolTableError::UnexpectedNode(Rule::FilePath, Rule::Package))
    ));
}
