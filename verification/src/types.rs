//! Names of types, field and parameter declarations, and user-defined record
//! type declarations.

use vstd::prelude::*;
use crate::text::str_eq;

verus! {

/// Whether a type name denotes one of the built-in primitive types.
pub open spec fn is_primitive_name(name: Seq<char>) -> bool {
    ||| name == "int"@
    ||| name == "float"@
    ||| name == "bool"@
    ||| name == "char"@
    ||| name == "string"@
}

/// The name of a type, either primitive (recognized by name) or user-defined.
#[derive(Debug)]
pub struct TypeId {
    id: String,
}

impl View for TypeId {
    type V = Seq<char>;

    closed spec fn view(&self) -> Seq<char> {
        self.id@
    }
}

impl Clone for TypeId {
    fn clone(&self) -> (r: Self)
        ensures
            r@ == self@,
    {
        TypeId { id: self.id.clone() }
    }
}

impl TypeId {
    /// Wrap an owned name into a type name.
    pub fn new(id: String) -> (r: TypeId)
        ensures
            r@ == id@,
    {
        TypeId { id }
    }

    /// Wrap a borrowed name into a type name.
    pub fn from(id: &str) -> (r: TypeId)
        ensures
            r@ == id@,
    {
        TypeId { id: id.to_owned() }
    }

    /// The name itself.
    pub fn id(&self) -> (r: &str)
        ensures
            r@ == self@,
    {
        self.id.as_str()
    }

    /// Whether the name denotes a primitive type.
    pub fn is_primitive(&self) -> (r: bool)
        ensures
            r == is_primitive_name(self@),
    {
        let s = self.id.as_str();
        str_eq(s, "int") || str_eq(s, "float") || str_eq(s, "bool") || str_eq(s, "char") || str_eq(
            s,
            "string",
        )
    }
}

/// Mathematical model of a [`DecArg`]: a field or parameter name with the
/// name of its declared type.
#[verifier::ext_equal]
pub struct DecArgV {
    pub name: Seq<char>,
    pub ty: Seq<char>,
}

/// A declaration argument: a name paired with a type, as appears in record
/// type declarations and in function parameter lists.
#[derive(Debug)]
pub struct DecArg {
    name: String,
    ty: TypeId,
}

impl View for DecArg {
    type V = DecArgV;

    closed spec fn view(&self) -> DecArgV {
        DecArgV { name: self.name@, ty: self.ty@ }
    }
}

impl Clone for DecArg {
    fn clone(&self) -> (r: Self)
        ensures
            r@ == self@,
    {
        DecArg { name: self.name.clone(), ty: self.ty.clone() }
    }
}

impl DecArg {
    /// Create a new declaration argument with a name and a type.
    pub fn new(name: String, ty: TypeId) -> (r: DecArg)
        ensures
            r@.name == name@,
            r@.ty == ty@,
    {
        DecArg { name, ty }
    }

    /// Return a reference to the argument's name.
    pub fn name(&self) -> (r: &str)
        ensures
            r@ == self@.name,
    {
        self.name.as_str()
    }

    /// Return a representation of the argument's type.
    pub fn get_type(&self) -> (r: &TypeId)
        ensures
            r@ == self@.ty,
    {
        &self.ty
    }
}

/// Mathematical model of a [`TypeDec`]: the type's name and its ordered
/// fields.
#[verifier::ext_equal]
pub struct TypeDecV {
    pub name: Seq<char>,
    pub fields: Seq<DecArgV>,
}

/// The model of the declaration of a primitive type: a name and no fields.
pub open spec fn primitive_type_dec_v(name: Seq<char>) -> TypeDecV {
    TypeDecV { name, fields: Seq::empty() }
}

/// A record type declaration: a name and an ordered list of fields. Field
/// order determines the byte layout of the type's instances.
#[derive(Debug)]
pub struct TypeDec {
    name: String,
    fields: Vec<DecArg>,
}

impl View for TypeDec {
    type V = TypeDecV;

    closed spec fn view(&self) -> TypeDecV {
        TypeDecV { name: self.name@, fields: self.fields@.map_values(|d: DecArg| d@) }
    }
}

impl TypeDec {
    /// Create a new type declaration from a name and ordered fields.
    pub fn new(name: String, fields: Vec<DecArg>) -> (r: TypeDec)
        ensures
            r@.name == name@,
            r@.fields == fields@.map_values(|d: DecArg| d@),
    {
        TypeDec { name, fields }
    }

    /// The name of the declared type.
    pub fn name(&self) -> (r: &str)
        ensures
            r@ == self@.name,
    {
        self.name.as_str()
    }

    /// The ordered fields of the declared type.
    pub fn fields(&self) -> (r: &Vec<DecArg>)
        ensures
            r@.map_values(|d: DecArg| d@) == self@.fields,
    {
        &self.fields
    }
}

} // verus!
