//! Well-known language identifiers of the genesis space.

use vstd::prelude::*;
use crate::genesis::language_id;
use crate::genesis::spec_language_id;
use crate::model::id::Id;

verus! {

/// The identifier of the language with the given ISO code.
pub fn from_code(code: &str) -> (id: Id)
    ensures
        id@ == spec_language_id(code@),
{
    language_id(code)
}

/// English.
pub fn english() -> (id: Id)
    ensures
        id@ == spec_language_id("en"@),
{
    language_id("en")
}

/// Spanish.
pub fn spanish() -> (id: Id)
    ensures
        id@ == spec_language_id("es"@),
{
    language_id("es")
}

/// French.
pub fn french() -> (id: Id)
    ensures
        id@ == spec_language_id("fr"@),
{
    language_id("fr")
}

/// German.
pub fn german() -> (id: Id)
    ensures
        id@ == spec_language_id("de"@),
{
    language_id("de")
}

/// Chinese.
pub fn chinese() -> (id: Id)
    ensures
        id@ == spec_language_id("zh"@),
{
    language_id("zh")
}

/// Japanese.
pub fn japanese() -> (id: Id)
    ensures
        id@ == spec_language_id("ja"@),
{
    language_id("ja")
}

/// Korean.
pub fn korean() -> (id: Id)
    ensures
        id@ == spec_language_id("ko"@),
{
    language_id("ko")
}

/// Portuguese.
pub fn portuguese() -> (id: Id)
    ensures
        id@ == spec_language_id("pt"@),
{
    language_id("pt")
}

/// Italian.
pub fn italian() -> (id: Id)
    ensures
        id@ == spec_language_id("it"@),
{
    language_id("it")
}

/// Russian.
pub fn russian() -> (id: Id)
    ensures
        id@ == spec_language_id("ru"@),
{
    language_id("ru")
}

/// Arabic.
pub fn arabic() -> (id: Id)
    ensures
        id@ == spec_language_id("ar"@),
{
    language_id("ar")
}

/// Hindi.
pub fn hindi() -> (id: Id)
    ensures
        id@ == spec_language_id("hi"@),
{
    language_id("hi")
}

} // verus!
