pub mod builder;
pub mod files;
pub mod formatter;
pub mod indented_string;
pub mod laws;
pub mod layout;
pub mod model;
pub mod number;
pub mod text;
pub mod tree;

pub use files::is_fidl_file;
pub use formatter::Formatter;
pub use indented_string::IndentedString;
pub use layout::FormatterError;
pub use model::{
    Attribute, EnumValue, ImportModel, ImportNamespace, Interface, Package, Structure,
    SymbolTableError, TypeCollection, TypeDef, VariableDeclaration, Version,
};
pub use tree::{Node, Rule, Tree};
