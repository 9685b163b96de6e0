use vstd::prelude::*;

verus! {

/// The closed set of node and token categories of the syntax tree.
#[allow(non_camel_case_types)]
#[derive(Clone, Copy, Debug, PartialEq, Eq, Structural, Hash)]
pub enum SyntaxKind {
    WHITESPACE,
    SELECT,
    FROM,
    IDENTIFIER,
    TEXT,
    ALL,
    COMMA,
    ROOT,
}

/// The raw integer that stands for a kind.
pub open spec fn raw_of(k: SyntaxKind) -> u16 {
    match k {
        SyntaxKind::WHITESPACE => 0,
        SyntaxKind::SELECT => 1,
        SyntaxKind::FROM => 2,
        SyntaxKind::IDENTIFIER => 3,
        SyntaxKind::TEXT => 4,
        SyntaxKind::ALL => 5,
        SyntaxKind::COMMA => 6,
        SyntaxKind::ROOT => 7,
    }
}

/// Marker for the tree language whose kinds are `SyntaxKind`.
#[derive(Clone, Copy, Debug, PartialEq, Eq, Structural, Hash)]
pub struct Lang;

impl SyntaxKind {
    /// The raw integer of this kind.
    pub fn to_raw(self) -> (r: u16)
        ensures
            r == raw_of(self),
    {
        match self {
            SyntaxKind::WHITESPACE => 0,
            SyntaxKind::SELECT => 1,
            SyntaxKind::FROM => 2,
            SyntaxKind::IDENTIFIER => 3,
            SyntaxKind::TEXT => 4,
            SyntaxKind::ALL => 5,
            SyntaxKind::COMMA => 6,
            SyntaxKind::ROOT => 7,
        }
    }

    /// The kind whose raw integer is `raw`, if there is one.
    pub fn from_raw(raw: u16) -> (r: Option<SyntaxKind>)
        ensures
            r.is_some() <==> raw <= 7,
            r matches Some(k) ==> raw_of(k) == raw,
    {
        if raw == 0 {
            Some(SyntaxKind::WHITESPACE)
        } else if raw == 1 {
            Some(SyntaxKind::SELECT)
        } else if raw == 2 {
            Some(SyntaxKind::FROM)
        } else if raw == 3 {
            Some(SyntaxKind::IDENTIFIER)
        } else if raw == 4 {
            Some(SyntaxKind::TEXT)
        } else if raw == 5 {
            Some(SyntaxKind::ALL)
        } else if raw == 6 {
            Some(SyntaxKind::COMMA)
        } else if raw == 7 {
            Some(SyntaxKind::ROOT)
        } else {
            None
        }
    }
}

/// Going to the raw integer and back gives the same kind.
pub proof fn lemma_raw_round_trip(k: SyntaxKind)
    ensures
        raw_of(k) <= 7,
        forall|j: SyntaxKind| raw_of(j) == raw_of(k) ==> j == k,
{
}

} // verus!
