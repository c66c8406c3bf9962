//! The advisory type checker: it resolves ambiguous bare identifiers to
//! either a type constructor or a variable access. It is advisory only —
//! runtime layout stays authoritative — so its verdicts never change what
//! execution does.

use vstd::prelude::*;
use crate::context::Context;
use crate::instruction::VarOrEmptyType;
use crate::scope_map::{lookup_type_v, lookup_var_v};
use crate::types::TypeId;

verus! {

/// What the checker resolved a node to: a known type, or nothing it could
/// decide.
pub enum CheckedType {
    Resolved(TypeId),
    Unknown,
}

/// How an ambiguous bare identifier is classified: an instantiation of a
/// zero-field type, a variable access, or unknown.
#[derive(Clone, Copy, Debug, PartialEq, Eq, Structural)]
pub enum SymbolKind {
    Unknown,
    EmptyTypeInst,
    VarAccess,
}

/// The classification of a bare identifier against a context: a type in
/// scope wins, then a variable in scope, then nothing.
pub open spec fn resolve_kind_v(symbol: Seq<char>, st: crate::context::CtxV) -> SymbolKind {
    if lookup_type_v(st.scopes, symbol) is Some {
        SymbolKind::EmptyTypeInst
    } else if lookup_var_v(st.scopes, symbol) is Some {
        SymbolKind::VarAccess
    } else {
        SymbolKind::Unknown
    }
}

impl VarOrEmptyType {
    /// Classify the bare identifier against the context's current scopes.
    pub fn resolve_kind(&self, ctx: &Context) -> (r: SymbolKind)
        ensures
            r == resolve_kind_v(self.symbol@, ctx@),
    {
        let is_type = match ctx.get_type(self.symbol.as_str()) {
            Some(_) => true,
            None => false,
        };
        if is_type {
            return SymbolKind::EmptyTypeInst;
        }
        let is_var = match ctx.get_variable(self.symbol.as_str()) {
            Some(_) => true,
            None => false,
        };
        if is_var {
            return SymbolKind::VarAccess;
        }
        SymbolKind::Unknown
    }

    /// Resolve the node's type, advisorily: the named type when the symbol
    /// denotes a zero-field instantiation, and unknown otherwise.
    pub fn resolve_type(&self, ctx: &Context) -> (r: CheckedType)
        ensures
            resolve_kind_v(self.symbol@, ctx@) == SymbolKind::EmptyTypeInst ==> (r is Resolved
                && r->0@ == self.symbol@),
            resolve_kind_v(self.symbol@, ctx@) != SymbolKind::EmptyTypeInst ==> r is Unknown,
    {
        match self.resolve_kind(ctx) {
            SymbolKind::EmptyTypeInst => CheckedType::Resolved(
                TypeId::new(self.symbol.clone()),
            ),
            SymbolKind::VarAccess => CheckedType::Unknown,
            SymbolKind::Unknown => CheckedType::Unknown,
        }
    }
}

} // verus!
