//! The semantic model of a FIDL file: packages, imports, interfaces, type
//! collections and their members, with the rule that names are unique within
//! each scope.
use vstd::prelude::*;
use crate::number::{literal_of, literal_value};
use crate::text::chars_of;
use crate::tree::Rule;

verus! {

/// Why a semantic model could not be built.
#[derive(Debug, Clone)]
pub enum SymbolTableError {
    /// A child with the first rule stands where the construct of the second
    /// rule has no place for it.
    UnexpectedNode(Rule, Rule),
    /// The builder met a state that a correct tree never produces.
    InternalLogicError(String),
    /// Two interfaces of one file share a name: the first definition, then the
    /// second.
    InterfaceAlreadyExists(Interface, Interface),
    TypeCollectionAlreadyExists(TypeCollection, TypeCollection),
    StructureAlreadyExists(Structure, Structure),
    AttributeAlreadyExists(Attribute, Attribute),
    TypeDefAlreadyExists(TypeDef, TypeDef),
    EnumValueAlreadyExists(EnumValue, EnumValue),
    /// Two fields of one structure, or two parameters of one section, share a
    /// name.
    FieldAlreadyExists(VariableDeclaration, VariableDeclaration),
    /// A second version block: the first one, then the second.
    VersionAlreadyExists(Version, Version),
    /// An enumeration value whose number is not a decimal, `0x` hexadecimal or
    /// `0b` binary literal that fits in 64 bits.
    CouldNotConvertToInteger(String),
}

/// `version { major <n> minor <n> }`.
#[derive(Debug, Clone, Copy)]
pub struct Version {
    pub start_position: usize,
    pub end_position: usize,
    pub major: Option<u32>,
    pub minor: Option<u32>,
}

impl Version {
    /// Sets `version` to `self` when it is unset; a second version is an
    /// error that holds both.
    pub fn push_if_not_exists_else_err(
        self,
        version: &mut Option<Version>,
    ) -> (r: Result<(), SymbolTableError>)
        ensures
            r is Ok <==> (*old(version)) is None,
            r is Ok ==> *final(version) == Some(self),
            r is Err ==> *final(version) == *old(version) && r == Err::<(), SymbolTableError>(
                SymbolTableError::VersionAlreadyExists((*old(version))->0, self),
            ),
    {
        match version {
            None => {
                *version = Some(self);
                Ok(())
            },
            Some(existing) => Err(SymbolTableError::VersionAlreadyExists(*existing, self)),
        }
    }
}

/// `package <dotted name>`, as its parts.
#[derive(Debug, Clone)]
pub struct Package {
    pub path: Vec<String>,
}

/// `import model "<path>"`.
#[derive(Debug, Clone)]
pub struct ImportModel {
    pub file_path: String,
}

/// `import <dotted name>[.*] from "<path>"`.
#[derive(Debug, Clone)]
pub struct ImportNamespace {
    pub import: Vec<String>,
    pub from: String,
    pub wildcard: bool,
}

/// A field of a structure or a parameter of a method: `<type> <name>`.
#[derive(Debug, Clone)]
pub struct VariableDeclaration {
    pub start_position: usize,
    pub end_position: usize,
    pub type_n: String,
    pub name: String,
}

impl VariableDeclaration {
    /// The name and the scalar fields of `a` and `b` agree.
    pub open spec fn same(a: VariableDeclaration, b: VariableDeclaration) -> bool {
        a.start_position == b.start_position && a.end_position == b.end_position && a.type_n@ == b.type_n@ && a.name@ == b.name@
    }

    /// Index `i` holds the first of `v` that is named `name`.
    pub open spec fn first_named(v: Seq<VariableDeclaration>, i: int, name: Seq<char>) -> bool {
        &&& 0 <= i < v.len()
        &&& v[i].name@ == name
        &&& forall|j: int| 0 <= j < i ==> #[trigger] v[j].name@ != name
    }

    pub open spec fn named_in(v: Seq<VariableDeclaration>, name: Seq<char>) -> bool {
        exists|i: int| 0 <= i < v.len() && #[trigger] v[i].name@ == name
    }

    fn duplicate(&self) -> (r: Self)
        ensures
            Self::same(r, *self),
    {
        VariableDeclaration {
            start_position: self.start_position,
            end_position: self.end_position,
            type_n: self.type_n.clone(),
            name: self.name.clone(),
        }
    }

    /// Appends `self` to `declarations` unless one of them has the same name; the
    /// error then holds the first such definition and `self`.
    pub fn push_if_not_exists_else_err(
        self,
        declarations: &mut Vec<VariableDeclaration>,
    ) -> (r: Result<(), SymbolTableError>)
        ensures
            r is Ok <==> !Self::named_in(old(declarations)@, self.name@),
            r is Ok ==> final(declarations)@ == old(declarations)@.push(self),
            r is Err ==> final(declarations)@ == old(declarations)@,
            r is Err ==> match r {
                Err(SymbolTableError::FieldAlreadyExists(a, b)) => b == self && exists|i: int|
                    Self::first_named(old(declarations)@, i, self.name@) && #[trigger] Self::same(a, old(declarations)@[i]),
                _ => false,
            },
    {
        let mut i: usize = 0;
        while i < declarations.len()
            invariant
                i <= declarations@.len(),
                declarations@ == old(declarations)@,
                forall|j: int| 0 <= j < i ==> #[trigger] declarations@[j].name@ != self.name@,
            decreases declarations@.len() - i,
        {
            if declarations[i].name == self.name {
                let existing = declarations[i].duplicate();
                assert(Self::first_named(old(declarations)@, i as int, self.name@));
                assert(Self::same(existing, old(declarations)@[i as int]));
                let ghost me = self;
                let ghost ex = existing;
                let r = Err(SymbolTableError::FieldAlreadyExists(existing, self));
                assert(r matches Err(SymbolTableError::FieldAlreadyExists(a, b)) && a == ex && b == me);
                return r;
            }
            i += 1;
        }
        declarations.push(self);
        Ok(())
    }
}

/// `typedef <name> is <type>`.
#[derive(Debug, Clone)]
pub struct TypeDef {
    pub start_position: usize,
    pub end_position: usize,
    pub name: String,
    pub type_n: String,
}

impl TypeDef {
    /// The name and the scalar fields of `a` and `b` agree.
    pub open spec fn same(a: TypeDef, b: TypeDef) -> bool {
        a.start_position == b.start_position && a.end_position == b.end_position && a.name@ == b.name@ && a.type_n@ == b.type_n@
    }

    /// Index `i` holds the first of `v` that is named `name`.
    pub open spec fn first_named(v: Seq<TypeDef>, i: int, name: Seq<char>) -> bool {
        &&& 0 <= i < v.len()
        &&& v[i].name@ == name
        &&& forall|j: int| 0 <= j < i ==> #[trigger] v[j].name@ != name
    }

    pub open spec fn named_in(v: Seq<TypeDef>, name: Seq<char>) -> bool {
        exists|i: int| 0 <= i < v.len() && #[trigger] v[i].name@ == name
    }

    fn duplicate(&self) -> (r: Self)
        ensures
            Self::same(r, *self),
    {
        TypeDef {
            start_position: self.start_position,
            end_position: self.end_position,
            name: self.name.clone(),
            type_n: self.type_n.clone(),
        }
    }

    /// Appends `self` to `typedefs` unless one of them has the same name; the
    /// error then holds the first such definition and `self`.
    pub fn push_if_not_exists_else_err(
        self,
        typedefs: &mut Vec<TypeDef>,
    ) -> (r: Result<(), SymbolTableError>)
        ensures
            r is Ok <==> !Self::named_in(old(typedefs)@, self.name@),
            r is Ok ==> final(typedefs)@ == old(typedefs)@.push(self),
            r is Err ==> final(typedefs)@ == old(typedefs)@,
            r is Err ==> match r {
                Err(SymbolTableError::TypeDefAlreadyExists(a, b)) => b == self && exists|i: int|
                    Self::first_named(old(typedefs)@, i, self.name@) && #[trigger] Self::same(a, old(typedefs)@[i]),
                _ => false,
            },
    {
        let mut i: usize = 0;
        while i < typedefs.len()
            invariant
                i <= typedefs@.len(),
                typedefs@ == old(typedefs)@,
                forall|j: int| 0 <= j < i ==> #[trigger] typedefs@[j].name@ != self.name@,
            decreases typedefs@.len() - i,
        {
            if typedefs[i].name == self.name {
                let existing = typedefs[i].duplicate();
                assert(Self::first_named(old(typedefs)@, i as int, self.name@));
                assert(Self::same(existing, old(typedefs)@[i as int]));
                let ghost me = self;
                let ghost ex = existing;
                let r = Err(SymbolTableError::TypeDefAlreadyExists(existing, self));
                assert(r matches Err(SymbolTableError::TypeDefAlreadyExists(a, b)) && a == ex && b == me);
                return r;
            }
            i += 1;
        }
        typedefs.push(self);
        Ok(())
    }
}

/// `attribute <type> <name>` of an interface.
#[derive(Debug, Clone)]
pub struct Attribute {
    pub start_position: usize,
    pub end_position: usize,
    pub name: String,
    pub type_n: String,
}

impl Attribute {
    /// The name and the scalar fields of `a` and `b` agree.
    pub open spec fn same(a: Attribute, b: Attribute) -> bool {
        a.start_position == b.start_position && a.end_position == b.end_position && a.name@ == b.name@ && a.type_n@ == b.type_n@
    }

    /// Index `i` holds the first of `v` that is named `name`.
    pub open spec fn first_named(v: Seq<Attribute>, i: int, name: Seq<char>) -> bool {
        &&& 0 <= i < v.len()
        &&& v[i].name@ == name
        &&& forall|j: int| 0 <= j < i ==> #[trigger] v[j].name@ != name
    }

    pub open spec fn named_in(v: Seq<Attribute>, name: Seq<char>) -> bool {
        exists|i: int| 0 <= i < v.len() && #[trigger] v[i].name@ == name
    }

    fn duplicate(&self) -> (r: Self)
        ensures
            Self::same(r, *self),
    {
        Attribute {
            start_position: self.start_position,
            end_position: self.end_position,
            name: self.name.clone(),
            type_n: self.type_n.clone(),
        }
    }

    /// Appends `self` to `attributes` unless one of them has the same name; the
    /// error then holds the first such definition and `self`.
    pub fn push_if_not_exists_else_err(
        self,
        attributes: &mut Vec<Attribute>,
    ) -> (r: Result<(), SymbolTableError>)
        ensures
            r is Ok <==> !Self::named_in(old(attributes)@, self.name@),
            r is Ok ==> final(attributes)@ == old(attributes)@.push(self),
            r is Err ==> final(attributes)@ == old(attributes)@,
            r is Err ==> match r {
                Err(SymbolTableError::AttributeAlreadyExists(a, b)) => b == self && exists|i: int|
                    Self::first_named(old(attributes)@, i, self.name@) && #[trigger] Self::same(a, old(attributes)@[i]),
                _ => false,
            },
    {
        let mut i: usize = 0;
        while i < attributes.len()
            invariant
                i <= attributes@.len(),
                attributes@ == old(attributes)@,
                forall|j: int| 0 <= j < i ==> #[trigger] attributes@[j].name@ != self.name@,
            decreases attributes@.len() - i,
        {
            if attributes[i].name == self.name {
                let existing = attributes[i].duplicate();
                assert(Self::first_named(old(attributes)@, i as int, self.name@));
                assert(Self::same(existing, old(attributes)@[i as int]));
                let ghost me = self;
                let ghost ex = existing;
                let r = Err(SymbolTableError::AttributeAlreadyExists(existing, self));
                assert(r matches Err(SymbolTableError::AttributeAlreadyExists(a, b)) && a == ex && b == me);
                return r;
            }
            i += 1;
        }
        attributes.push(self);
        Ok(())
    }
}

/// A value of an enumeration, with its number when one is written.
#[derive(Debug, Clone)]
pub struct EnumValue {
    pub start_position: usize,
    pub end_position: usize,
    pub name: String,
    pub value: Option<u64>,
}

impl EnumValue {
    /// The name and the scalar fields of `a` and `b` agree.
    pub open spec fn same(a: EnumValue, b: EnumValue) -> bool {
        a.start_position == b.start_position && a.end_position == b.end_position && a.name@ == b.name@ && a.value == b.value
    }

    /// Index `i` holds the first of `v` that is named `name`.
    pub open spec fn first_named(v: Seq<EnumValue>, i: int, name: Seq<char>) -> bool {
        &&& 0 <= i < v.len()
        &&& v[i].name@ == name
        &&& forall|j: int| 0 <= j < i ==> #[trigger] v[j].name@ != name
    }

    pub open spec fn named_in(v: Seq<EnumValue>, name: Seq<char>) -> bool {
        exists|i: int| 0 <= i < v.len() && #[trigger] v[i].name@ == name
    }

    fn duplicate(&self) -> (r: Self)
        ensures
            Self::same(r, *self),
    {
        EnumValue {
            start_position: self.start_position,
            end_position: self.end_position,
            name: self.name.clone(),
            value: self.value,
        }
    }

    /// Appends `self` to `enum_values` unless one of them has the same name; the
    /// error then holds the first such definition and `self`.
    pub fn push_if_not_exists_else_err(
        self,
        enum_values: &mut Vec<EnumValue>,
    ) -> (r: Result<(), SymbolTableError>)
        ensures
            r is Ok <==> !Self::named_in(old(enum_values)@, self.name@),
            r is Ok ==> final(enum_values)@ == old(enum_values)@.push(self),
            r is Err ==> final(enum_values)@ == old(enum_values)@,
            r is Err ==> match r {
                Err(SymbolTableError::EnumValueAlreadyExists(a, b)) => b == self && exists|i: int|
                    Self::first_named(old(enum_values)@, i, self.name@) && #[trigger] Self::same(a, old(enum_values)@[i]),
                _ => false,
            },
    {
        let mut i: usize = 0;
        while i < enum_values.len()
            invariant
                i <= enum_values@.len(),
                enum_values@ == old(enum_values)@,
                forall|j: int| 0 <= j < i ==> #[trigger] enum_values@[j].name@ != self.name@,
            decreases enum_values@.len() - i,
        {
            if enum_values[i].name == self.name {
                let existing = enum_values[i].duplicate();
                assert(Self::first_named(old(enum_values)@, i as int, self.name@));
                assert(Self::same(existing, old(enum_values)@[i as int]));
                let ghost me = self;
                let ghost ex = existing;
                let r = Err(SymbolTableError::EnumValueAlreadyExists(existing, self));
                assert(r matches Err(SymbolTableError::EnumValueAlreadyExists(a, b)) && a == ex && b == me);
                return r;
            }
            i += 1;
        }
        enum_values.push(self);
        Ok(())
    }
}

/// `struct <name> { ... }`.
#[derive(Debug, Clone)]
pub struct Structure {
    pub start_position: usize,
    pub end_position: usize,
    pub name: String,
    pub contents: Vec<VariableDeclaration>,
}

impl Structure {
    /// The name and the scalar fields of `a` and `b` agree.
    pub open spec fn same(a: Structure, b: Structure) -> bool {
        a.start_position == b.start_position && a.end_position == b.end_position && a.name@ == b.name@
    }

    /// Index `i` holds the first of `v` that is named `name`.
    pub open spec fn first_named(v: Seq<Structure>, i: int, name: Seq<char>) -> bool {
        &&& 0 <= i < v.len()
        &&& v[i].name@ == name
        &&& forall|j: int| 0 <= j < i ==> #[trigger] v[j].name@ != name
    }

    pub open spec fn named_in(v: Seq<Structure>, name: Seq<char>) -> bool {
        exists|i: int| 0 <= i < v.len() && #[trigger] v[i].name@ == name
    }

    fn duplicate(&self) -> (r: Self)
        ensures
            Self::same(r, *self),
    {
        Structure {
            start_position: self.start_position,
            end_position: self.end_position,
            name: self.name.clone(),
            contents: self.contents.clone(),
        }
    }

    /// Appends `self` to `structures` unless one of them has the same name; the
    /// error then holds the first such definition and `self`.
    pub fn push_if_not_exists_else_err(
        self,
        structures: &mut Vec<Structure>,
    ) -> (r: Result<(), SymbolTableError>)
        ensures
            r is Ok <==> !Self::named_in(old(structures)@, self.name@),
            r is Ok ==> final(structures)@ == old(structures)@.push(self),
            r is Err ==> final(structures)@ == old(structures)@,
            r is Err ==> match r {
                Err(SymbolTableError::StructureAlreadyExists(a, b)) => b == self && exists|i: int|
                    Self::first_named(old(structures)@, i, self.name@) && #[trigger] Self::same(a, old(structures)@[i]),
                _ => false,
            },
    {
        let mut i: usize = 0;
        while i < structures.len()
            invariant
                i <= structures@.len(),
                structures@ == old(structures)@,
                forall|j: int| 0 <= j < i ==> #[trigger] structures@[j].name@ != self.name@,
            decreases structures@.len() - i,
        {
            if structures[i].name == self.name {
                let existing = structures[i].duplicate();
                assert(Self::first_named(old(structures)@, i as int, self.name@));
                assert(Self::same(existing, old(structures)@[i as int]));
                let ghost me = self;
                let ghost ex = existing;
                let r = Err(SymbolTableError::StructureAlreadyExists(existing, self));
                assert(r matches Err(SymbolTableError::StructureAlreadyExists(a, b)) && a == ex && b == me);
                return r;
            }
            i += 1;
        }
        structures.push(self);
        Ok(())
    }
}

/// An interface with its version and members.
#[derive(Debug, Clone)]
pub struct Interface {
    pub start_position: usize,
    pub end_position: usize,
    pub name: String,
    pub version: Option<Version>,
    pub attributes: Vec<Attribute>,
    pub structures: Vec<Structure>,
    pub typedefs: Vec<TypeDef>,
}

impl Interface {
    /// The name and the scalar fields of `a` and `b` agree.
    pub open spec fn same(a: Interface, b: Interface) -> bool {
        a.start_position == b.start_position && a.end_position == b.end_position && a.name@ == b.name@
    }

    /// Index `i` holds the first of `v` that is named `name`.
    pub open spec fn first_named(v: Seq<Interface>, i: int, name: Seq<char>) -> bool {
        &&& 0 <= i < v.len()
        &&& v[i].name@ == name
        &&& forall|j: int| 0 <= j < i ==> #[trigger] v[j].name@ != name
    }

    pub open spec fn named_in(v: Seq<Interface>, name: Seq<char>) -> bool {
        exists|i: int| 0 <= i < v.len() && #[trigger] v[i].name@ == name
    }

    fn duplicate(&self) -> (r: Self)
        ensures
            Self::same(r, *self),
    {
        Interface {
            start_position: self.start_position,
            end_position: self.end_position,
            name: self.name.clone(),
            version: self.version.clone(),
            attributes: self.attributes.clone(),
            structures: self.structures.clone(),
            typedefs: self.typedefs.clone(),
        }
    }

    /// Appends `self` to `interfaces` unless one of them has the same name; the
    /// error then holds the first such definition and `self`.
    pub fn push_if_not_exists_else_err(
        self,
        interfaces: &mut Vec<Interface>,
    ) -> (r: Result<(), SymbolTableError>)
        ensures
            r is Ok <==> !Self::named_in(old(interfaces)@, self.name@),
            r is Ok ==> final(interfaces)@ == old(interfaces)@.push(self),
            r is Err ==> final(interfaces)@ == old(interfaces)@,
            r is Err ==> match r {
                Err(SymbolTableError::InterfaceAlreadyExists(a, b)) => b == self && exists|i: int|
                    Self::first_named(old(interfaces)@, i, self.name@) && #[trigger] Self::same(a, old(interfaces)@[i]),
                _ => false,
            },
    {
        let mut i: usize = 0;
        while i < interfaces.len()
            invariant
                i <= interfaces@.len(),
                interfaces@ == old(interfaces)@,
                forall|j: int| 0 <= j < i ==> #[trigger] interfaces@[j].name@ != self.name@,
            decreases interfaces@.len() - i,
        {
            if interfaces[i].name == self.name {
                let existing = interfaces[i].duplicate();
                assert(Self::first_named(old(interfaces)@, i as int, self.name@));
                assert(Self::same(existing, old(interfaces)@[i as int]));
                let ghost me = self;
                let ghost ex = existing;
                let r = Err(SymbolTableError::InterfaceAlreadyExists(existing, self));
                assert(r matches Err(SymbolTableError::InterfaceAlreadyExists(a, b)) && a == ex && b == me);
                return r;
            }
            i += 1;
        }
        interfaces.push(self);
        Ok(())
    }
}

/// A type collection (its name may be empty) with its version and members.
#[derive(Debug, Clone)]
pub struct TypeCollection {
    pub start_position: usize,
    pub end_position: usize,
    pub name: String,
    pub version: Option<Version>,
    pub typedefs: Vec<TypeDef>,
    pub structures: Vec<Structure>,
}

impl TypeCollection {
    /// The name and the scalar fields of `a` and `b` agree.
    pub open spec fn same(a: TypeCollection, b: TypeCollection) -> bool {
        a.start_position == b.start_position && a.end_position == b.end_position && a.name@ == b.name@
    }

    /// Index `i` holds the first of `v` that is named `name`.
    pub open spec fn first_named(v: Seq<TypeCollection>, i: int, name: Seq<char>) -> bool {
        &&& 0 <= i < v.len()
        &&& v[i].name@ == name
        &&& forall|j: int| 0 <= j < i ==> #[trigger] v[j].name@ != name
    }

    pub open spec fn named_in(v: Seq<TypeCollection>, name: Seq<char>) -> bool {
        exists|i: int| 0 <= i < v.len() && #[trigger] v[i].name@ == name
    }

    fn duplicate(&self) -> (r: Self)
        ensures
            Self::same(r, *self),
    {
        TypeCollection {
            start_position: self.start_position,
            end_position: self.end_position,
            name: self.name.clone(),
            version: self.version.clone(),
            typedefs: self.typedefs.clone(),
            structures: self.structures.clone(),
        }
    }

    /// Appends `self` to `type_collections` unless one of them has the same name; the
    /// error then holds the first such definition and `self`.
    pub fn push_if_not_exists_else_err(
        self,
        type_collections: &mut Vec<TypeCollection>,
    ) -> (r: Result<(), SymbolTableError>)
        ensures
            r is Ok <==> !Self::named_in(old(type_collections)@, self.name@),
            r is Ok ==> final(type_collections)@ == old(type_collections)@.push(self),
            r is Err ==> final(type_collections)@ == old(type_collections)@,
            r is Err ==> match r {
                Err(SymbolTableError::TypeCollectionAlreadyExists(a, b)) => b == self && exists|i: int|
                    Self::first_named(old(type_collections)@, i, self.name@) && #[trigger] Self::same(a, old(type_collections)@[i]),
                _ => false,
            },
    {
        let mut i: usize = 0;
        while i < type_collections.len()
            invariant
                i <= type_collections@.len(),
                type_collections@ == old(type_collections)@,
                forall|j: int| 0 <= j < i ==> #[trigger] type_collections@[j].name@ != self.name@,
            decreases type_collections@.len() - i,
        {
            if type_collections[i].name == self.name {
                let existing = type_collections[i].duplicate();
                assert(Self::first_named(old(type_collections)@, i as int, self.name@));
                assert(Self::same(existing, old(type_collections)@[i as int]));
                let ghost me = self;
                let ghost ex = existing;
                let r = Err(SymbolTableError::TypeCollectionAlreadyExists(existing, self));
                assert(r matches Err(SymbolTableError::TypeCollectionAlreadyExists(a, b)) && a == ex && b == me);
                return r;
            }
            i += 1;
        }
        type_collections.push(self);
        Ok(())
    }
}

impl EnumValue {
    /// The value of a number as written in an enumeration: decimal, or
    /// hexadecimal after `0x`, or binary after `0b`.
    pub fn convert_string_representation_of_number_to_value(
        input: String,
    ) -> (r: Result<u64, SymbolTableError>)
        ensures
            match literal_value(input@) {
                Some(v) => r == Ok::<u64, SymbolTableError>(v),
                None => r is Err && match r {
                    Err(SymbolTableError::CouldNotConvertToInteger(s)) => s@ == input@,
                    _ => false,
                },
            },
    {
        let cs = chars_of(input.as_str());
        match literal_of(&cs) {
            Some(v) => Ok(v),
            None => Err(SymbolTableError::CouldNotConvertToInteger(input)),
        }
    }
}

impl Structure {
    /// Adds a field unless the structure already has one of that name.
    pub fn add_variable_declaration(
        var_decs: &mut Vec<VariableDeclaration>,
        var_dec: VariableDeclaration,
    ) -> (r: Result<(), SymbolTableError>)
        ensures
            r is Ok <==> !VariableDeclaration::named_in(old(var_decs)@, var_dec.name@),
            r is Ok ==> final(var_decs)@ == old(var_decs)@.push(var_dec),
            r is Err ==> final(var_decs)@ == old(var_decs)@,
            r is Err ==> match r {
                Err(SymbolTableError::FieldAlreadyExists(a, b)) => b == var_dec && exists|i: int|
                    VariableDeclaration::first_named(old(var_decs)@, i, var_dec.name@)
                        && #[trigger] VariableDeclaration::same(a, old(var_decs)@[i]),
                _ => false,
            },
    {
        var_dec.push_if_not_exists_else_err(var_decs)
    }
}

} // verus!
