//! Names and kinds of units.
//!
//! A name is anonymous (`%42`), local (`%foo`), or global (`@foo`); local and
//! anonymous names link only within their module, global names are visible to
//! a cross-module linker.

use vstd::prelude::*;
use vstd::string::StringExecFns;
use crate::text::dec_rep;

verus! {

/// A name of a function, process, or entity.
#[derive(Debug)]
pub enum UnitName {
    /// An anonymous name, like `%42`.
    Anonymous(u32),
    /// A local name, like `%foo`.
    Local(String),
    /// A global name, like `@foo`.
    Global(String),
}

impl UnitName {
    /// Whether this is a local name; anonymous names count as local.
    pub open spec fn spec_is_local(&self) -> bool {
        match self {
            UnitName::Anonymous(_) => true,
            UnitName::Local(_) => true,
            UnitName::Global(_) => false,
        }
    }

    /// Whether this is a global name.
    pub open spec fn spec_is_global(&self) -> bool {
        match self {
            UnitName::Global(_) => true,
            _ => false,
        }
    }

    /// The textual form of the name: `%` then decimal digits for an
    /// anonymous name, `%` then the identifier for a local name, `@` then
    /// the identifier for a global name.
    pub open spec fn spec_text(&self) -> Seq<char> {
        match self {
            UnitName::Anonymous(id) => seq!['%'] + dec_rep(*id as int),
            UnitName::Local(n) => seq!['%'] + n@,
            UnitName::Global(n) => seq!['@'] + n@,
        }
    }

    /// Create a new anonymous unit name.
    pub fn anonymous(id: u32) -> (r: Self)
        ensures
            r == UnitName::Anonymous(id),
    {
        UnitName::Anonymous(id)
    }

    /// Create a new local unit name.
    pub fn local(name: String) -> (r: Self)
        ensures
            r == UnitName::Local(name),
    {
        UnitName::Local(name)
    }

    /// Create a new global unit name.
    pub fn global(name: String) -> (r: Self)
        ensures
            r == UnitName::Global(name),
    {
        UnitName::Global(name)
    }

    /// Check whether this is a local name.
    ///
    /// Local names can only be linked within the same module.
    pub fn is_local(&self) -> (r: bool)
        ensures
            r == self.spec_is_local(),
    {
        match self {
            UnitName::Anonymous(_) => true,
            UnitName::Local(_) => true,
            UnitName::Global(_) => false,
        }
    }

    /// Check whether this is a global name.
    ///
    /// Global names may be referenced by other modules and are considered by
    /// the global linker.
    pub fn is_global(&self) -> (r: bool)
        ensures
            r == self.spec_is_global(),
    {
        match self {
            UnitName::Global(_) => true,
            _ => false,
        }
    }

    /// Get the underlying identifier, if the name has one.
    pub fn get_name(&self) -> (r: Option<&str>)
        ensures
            match self {
                UnitName::Anonymous(_) => r is None,
                UnitName::Local(n) => r matches Some(s) && s@ == n@,
                UnitName::Global(n) => r matches Some(s) && s@ == n@,
            },
    {
        match self {
            UnitName::Local(n) => Some(n.as_str()),
            UnitName::Global(n) => Some(n.as_str()),
            UnitName::Anonymous(_) => None,
        }
    }

    /// Render the name in its textual form.
    pub fn display(&self) -> (r: String)
        ensures
            r@ == self.spec_text(),
    {
        proof {
            reveal_strlit("%");
            reveal_strlit("@");
        }
        match self {
            UnitName::Anonymous(id) => {
                let mut s = "%".to_owned();
                let digits = crate::text::u32_to_decimal(*id);
                s.append(digits.as_str());
                proof {
                    assert(s@ =~= self.spec_text());
                }
                s
            },
            UnitName::Local(n) => {
                let mut s = "%".to_owned();
                s.append(n.as_str());
                proof {
                    assert(s@ =~= self.spec_text());
                }
                s
            },
            UnitName::Global(n) => {
                let mut s = "@".to_owned();
                s.append(n.as_str());
                proof {
                    assert(s@ =~= self.spec_text());
                }
                s
            },
        }
    }
}

/// A name is local exactly when it is not global: the two predicates are
/// negations of one another on every name.
pub proof fn lemma_local_is_not_global(n: &UnitName)
    ensures
        n.spec_is_local() == !n.spec_is_global(),
{
}

/// The three kinds of unit that may appear in the IR.
#[derive(Clone, Copy, PartialEq, Eq, Debug, Structural)]
pub enum UnitKind {
    /// A function: pure mapping from inputs to one return value.
    Function,
    /// A process: reactive code with input and output arguments.
    Process,
    /// An entity: structural hardware with input and output arguments.
    Entity,
}

impl UnitKind {
    /// The keyword used for this kind in the textual IR.
    pub open spec fn spec_keyword(&self) -> Seq<char> {
        match self {
            UnitKind::Function => seq!['f', 'u', 'n', 'c'],
            UnitKind::Process => seq!['p', 'r', 'o', 'c'],
            UnitKind::Entity => seq!['e', 'n', 't', 'i', 't', 'y'],
        }
    }

    /// Render the kind's keyword.
    pub fn display(&self) -> (r: &'static str)
        ensures
            r@ == self.spec_keyword(),
    {
        proof {
            reveal_strlit("func");
            reveal_strlit("proc");
            reveal_strlit("entity");
        }
        match self {
            UnitKind::Function => "func",
            UnitKind::Process => "proc",
            UnitKind::Entity => "entity",
        }
    }
}

} // verus!
