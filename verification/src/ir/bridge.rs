use vstd::prelude::*;

use crate::parser::fault::{ParseFault, ParseFaultV};
use crate::parser::identifier::{spec_identifier, Identifier};
use crate::parser::types::{Type, TypeV};
use crate::text::str_eq;

verus! {

/// What a builtin function returns, as far as its name tells: a fixed type, or
/// the type of one of its parameters (itself, the list it holds, or a list of it).
pub enum NaiveType {
    Known(Type),
    Matching(u16),
    ListedMatching(u16),
    UnlistedMatching(u16),
}

/// The model of a [`NaiveType`].
pub enum NaiveTypeV {
    Known(TypeV),
    Matching(u16),
    ListedMatching(u16),
    UnlistedMatching(u16),
}

impl View for NaiveType {
    type V = NaiveTypeV;

    open spec fn view(&self) -> NaiveTypeV {
        match self {
            NaiveType::Known(t) => NaiveTypeV::Known(t@),
            NaiveType::Matching(n) => NaiveTypeV::Matching(*n),
            NaiveType::ListedMatching(n) => NaiveTypeV::ListedMatching(*n),
            NaiveType::UnlistedMatching(n) => NaiveTypeV::UnlistedMatching(*n),
        }
    }
}

/// The builtin functions: each name with its index and what it returns.
pub open spec fn spec_funcid(name: Seq<char>) -> Option<(u16, NaiveTypeV)> {
    if name == "add"@ {
        Some((0u16, NaiveTypeV::Matching(0)))
    } else if name == "sub"@ {
        Some((1u16, NaiveTypeV::Matching(0)))
    } else if name == "mul"@ {
        Some((2u16, NaiveTypeV::Matching(0)))
    } else if name == "div"@ {
        Some((3u16, NaiveTypeV::Matching(0)))
    } else if name == "push_back"@ {
        Some((4u16, NaiveTypeV::Matching(1)))
    } else if name == "push_front"@ {
        Some((5u16, NaiveTypeV::Matching(1)))
    } else if name == "get"@ {
        Some((6u16, NaiveTypeV::UnlistedMatching(1)))
    } else if name == "len"@ {
        Some((7u16, NaiveTypeV::Known(TypeV::Int)))
    } else {
        None
    }
}

/// The fault for a name that no builtin has.
pub open spec fn spec_not_found(name: Seq<char>) -> ParseFaultV {
    ParseFaultV::BridgedFunctionNotFound(spec_identifier(name)->Ok_0)
}

/// Looks up the builtin function called `ident`.
pub fn get_funcid(ident: &str) -> (r: Result<(u16, NaiveType), ParseFault>)
    requires
        ident@.len() > 0,
    ensures
        match (r, spec_funcid(ident@)) {
            (Ok((id, t)), Some((sid, st))) => id == sid && t@ == st,
            (Err(e), None) => e@ == spec_not_found(ident@),
            _ => false,
        },
{
    if str_eq(ident, "add") {
        Ok((0, NaiveType::Matching(0)))
    } else if str_eq(ident, "sub") {
        Ok((1, NaiveType::Matching(0)))
    } else if str_eq(ident, "mul") {
        Ok((2, NaiveType::Matching(0)))
    } else if str_eq(ident, "div") {
        Ok((3, NaiveType::Matching(0)))
    } else if str_eq(ident, "push_back") {
        Ok((4, NaiveType::Matching(1)))
    } else if str_eq(ident, "push_front") {
        Ok((5, NaiveType::Matching(1)))
    } else if str_eq(ident, "get") {
        Ok((6, NaiveType::UnlistedMatching(1)))
    } else if str_eq(ident, "len") {
        Ok((7, NaiveType::Known(Type::Int)))
    } else {
        match Identifier::parse(ident) {
            Ok(id) => Err(ParseFault::BridgedFunctionNotFound(id)),
            Err(e) => Err(e),
        }
    }
}

/// Resolves a path whose first segment is `rust` to a builtin function.
pub fn try_rust_builtin(entries: &[String]) -> (r: Result<Option<(u16, NaiveType)>, ParseFault>)
    requires
        entries@.len() >= 1,
        entries@[0]@ == "rust"@ ==> entries@.len() >= 2 && entries@[1]@.len() > 0,
    ensures
        entries@[0]@ == "rust"@ ==> match (r, spec_funcid(entries@[1]@)) {
            (Ok(Some((id, t))), Some((sid, st))) => id == sid && t@ == st,
            (Err(e), None) => e@ == spec_not_found(entries@[1]@),
            _ => false,
        },
        entries@[0]@ != "rust"@ ==> r matches Ok(None),
{
    if str_eq(entries[0].as_str(), "rust") {
        match get_funcid(entries[1].as_str()) {
            Ok(found) => Ok(Some(found)),
            Err(e) => Err(e),
        }
    } else {
        Ok(None)
    }
}

/// Each builtin index belongs to one name only.
pub proof fn law_funcid_unique(a: Seq<char>, b: Seq<char>)
    requires
        spec_funcid(a) is Some,
        spec_funcid(b) is Some,
        spec_funcid(a)->Some_0.0 == spec_funcid(b)->Some_0.0,
    ensures
        a == b,
{
}

} // verus!
