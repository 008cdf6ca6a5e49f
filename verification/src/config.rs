//! The naming policy: which names mark a string as SQL.

use vstd::prelude::*;

verus! {

/// The naming policy: which names mark a string as SQL.
#[derive(Debug, PartialEq, Eq)]
pub struct FinderConfig {
    /// Names of variables and attributes whose value is taken for SQL.
    pub variable_ctx: Vec<String>,
    /// Names of functions, bare or dotted, whose argument is taken for SQL.
    pub func_ctx: Vec<String>,
    /// Strings with fewer characters than this are left out, if it is set.
    pub min_sql_length: Option<usize>,
}

/// Whether `name` is one of `names`, letter for letter.
pub open spec fn listed(names: Seq<String>, name: Seq<char>) -> bool {
    exists|i: int| 0 <= i < names.len() && (#[trigger] names[i])@ == name
}

/// Looks `name` up in `names`.
pub fn is_listed(names: &Vec<String>, name: &String) -> (found: bool)
    ensures
        found == listed(names@, name@),
{
    let mut i: usize = 0;
    while i < names.len()
        invariant
            i <= names.len(),
            forall|j: int| 0 <= j < i ==> (#[trigger] names@[j])@ != name@,
        decreases names.len() - i,
    {
        if names[i] == *name {
            return true;
        }
        i += 1;
    }
    false
}

fn copy_names(names: &[String]) -> (copy: Vec<String>)
    ensures
        copy@ == names@,
{
    let mut copy: Vec<String> = Vec::new();
    let mut i: usize = 0;
    while i < names.len()
        invariant
            i <= names.len(),
            copy@ == names@.subrange(0, i as int),
        decreases names.len() - i,
    {
        copy.push(names[i].clone());
        i += 1;
        assert(copy@ =~= names@.subrange(0, i as int));
    }
    assert(names@.subrange(0, names.len() as int) =~= names@);
    copy
}

impl FinderConfig {
    /// A policy with the given variable and function names and no least length.
    pub fn new(variable_ctx: &[String], func_ctx: &[String]) -> (config: FinderConfig)
        ensures
            config.variable_ctx@ == variable_ctx@,
            config.func_ctx@ == func_ctx@,
            config.min_sql_length is None,
    {
        FinderConfig {
            variable_ctx: copy_names(variable_ctx),
            func_ctx: copy_names(func_ctx),
            min_sql_length: None,
        }
    }

    /// The same policy, with a least length for the strings that are reported.
    pub fn with_min_length(self, min_sql_length: usize) -> (config: FinderConfig)
        ensures
            config.variable_ctx == self.variable_ctx,
            config.func_ctx == self.func_ctx,
            config.min_sql_length == Some(min_sql_length),
    {
        FinderConfig {
            variable_ctx: self.variable_ctx,
            func_ctx: self.func_ctx,
            min_sql_length: Some(min_sql_length),
        }
    }

    /// Whether a target with this final name is taken for SQL.
    pub open spec fn names_variable(self, name: Seq<char>) -> bool {
        listed(self.variable_ctx@, name)
    }

    /// Whether a function with this name or dotted path is taken for SQL.
    pub open spec fn names_function(self, name: Seq<char>) -> bool {
        listed(self.func_ctx@, name)
    }

    /// Whether a string of this length is long enough to be reported.
    pub open spec fn long_enough(self, len: nat) -> bool {
        match self.min_sql_length {
            Some(min) => len >= min,
            None => true,
        }
    }

    /// Tells whether the policy lists the name as a variable.
    pub fn is_variable(&self, name: &String) -> (found: bool)
        ensures
            found == self.names_variable(name@),
    {
        is_listed(&self.variable_ctx, name)
    }

    /// Tells whether the policy lists the name or path as a function.
    pub fn is_function(&self, name: &String) -> (found: bool)
        ensures
            found == self.names_function(name@),
    {
        is_listed(&self.func_ctx, name)
    }
}

} // verus!
