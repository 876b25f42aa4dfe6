//! Names: a prefixed name as written in an expression, and the qualified
//! name it resolves to once the prefix is looked up in the context.

use vstd::prelude::*;

verus! {

/// Spec-level image of a prefixed name.
pub struct PrefixedNameV {
    pub prefix: Option<Seq<char>>,
    pub local: Seq<char>,
}

/// A name as written in an expression: an optional namespace prefix and a
/// local part.
#[derive(Debug, PartialEq, Eq)]
pub struct OwnedPrefixedName {
    pub prefix: Option<String>,
    pub local_part: String,
}

impl View for OwnedPrefixedName {
    type V = PrefixedNameV;

    open spec fn view(&self) -> PrefixedNameV {
        PrefixedNameV {
            prefix: match self.prefix {
                Some(p) => Some(p@),
                None => None,
            },
            local: self.local_part@,
        }
    }
}

impl OwnedPrefixedName {
    /// A name with no prefix.
    pub fn unprefixed(local_part: &str) -> (r: OwnedPrefixedName)
        ensures
            r@ == (PrefixedNameV { prefix: None, local: local_part@ }),
    {
        OwnedPrefixedName { prefix: None, local_part: local_part.to_owned() }
    }

    /// A name with a prefix.
    pub fn prefixed(prefix: &str, local_part: &str) -> (r: OwnedPrefixedName)
        ensures
            r@ == (PrefixedNameV { prefix: Some(prefix@), local: local_part@ }),
    {
        OwnedPrefixedName { prefix: Some(prefix.to_owned()), local_part: local_part.to_owned() }
    }

    pub fn duplicate(&self) -> (r: OwnedPrefixedName)
        ensures
            r@ == self@,
    {
        OwnedPrefixedName {
            prefix: match &self.prefix {
                Some(p) => Some(p.clone()),
                None => None,
            },
            local_part: self.local_part.clone(),
        }
    }
}

/// Spec-level image of a qualified name.
pub struct QNameV {
    pub namespace_uri: Option<Seq<char>>,
    pub local: Seq<char>,
}

/// A resolved name: an optional namespace URI and a local part. An
/// unprefixed name resolves to a name with no namespace.
#[derive(Debug, PartialEq, Eq)]
pub struct QualifiedName {
    pub namespace_uri: Option<String>,
    pub local_part: String,
}

impl View for QualifiedName {
    type V = QNameV;

    open spec fn view(&self) -> QNameV {
        QNameV {
            namespace_uri: match self.namespace_uri {
                Some(u) => Some(u@),
                None => None,
            },
            local: self.local_part@,
        }
    }
}

impl QualifiedName {
    pub fn duplicate(&self) -> (r: QualifiedName)
        ensures
            r@ == self@,
    {
        QualifiedName {
            namespace_uri: match &self.namespace_uri {
                Some(u) => Some(u.clone()),
                None => None,
            },
            local_part: self.local_part.clone(),
        }
    }

    /// Structural equality of two qualified names.
    pub fn same_name(&self, other: &QualifiedName) -> (r: bool)
        ensures
            r == (self@ == other@),
    {
        let uri_eq: bool = match (&self.namespace_uri, &other.namespace_uri) {
            (None, None) => true,
            (Some(a), Some(b)) => *a == *b,
            _ => false,
        };
        uri_eq && self.local_part == other.local_part
    }
}

} // verus!
