//! Options of the queries for executions.
use vstd::prelude::*;
use vstd::string::StringExecFns;
use crate::error::InvalidField;
use crate::text::same_text;

verus! {

/// The field by which the executions of a search result are sorted.
#[derive(Debug, Clone, Copy, PartialEq, Eq, Hash, Structural)]
pub enum ExecutionOrderByField {
    Id,
    Name,
    CreateTime,
    UpdateTime,
}

impl ExecutionOrderByField {
    /// The word for a field on the command line.
    pub open spec fn word(self) -> Seq<char> {
        match self {
            ExecutionOrderByField::Id => "id"@,
            ExecutionOrderByField::Name => "name"@,
            ExecutionOrderByField::CreateTime => "ctime"@,
            ExecutionOrderByField::UpdateTime => "mtime"@,
        }
    }

    /// The word for this field on the command line.
    pub fn name(self) -> (r: &'static str)
        ensures
            r@ == self.word(),
    {
        match self {
            ExecutionOrderByField::Id => "id",
            ExecutionOrderByField::Name => "name",
            ExecutionOrderByField::CreateTime => "ctime",
            ExecutionOrderByField::UpdateTime => "mtime",
        }
    }

    /// The field that a word names. Any other word is handed back as an
    /// error.
    pub fn from_str(s: &str) -> (r: Result<ExecutionOrderByField, InvalidField>)
        ensures
            match r {
                Ok(field) => s@ == field.word(),
                Err(e) => e.value@ == s@ && forall|field: ExecutionOrderByField| s@ != field.word(),
            },
    {
        if same_text(s, "id") {
            Ok(ExecutionOrderByField::Id)
        } else if same_text(s, "name") {
            Ok(ExecutionOrderByField::Name)
        } else if same_text(s, "ctime") {
            Ok(ExecutionOrderByField::CreateTime)
        } else if same_text(s, "mtime") {
            Ok(ExecutionOrderByField::UpdateTime)
        } else {
            Err(InvalidField { value: String::from_str(s) })
        }
    }
}

/// No two fields have the same word, so a word names one field at most.
pub proof fn lemma_words_differ(a: ExecutionOrderByField, b: ExecutionOrderByField)
    requires
        a.word() == b.word(),
    ensures
        a == b,
{
    reveal_strlit("id");
    reveal_strlit("name");
    reveal_strlit("ctime");
    reveal_strlit("mtime");
    assert("id"@.len() == 2 && "name"@.len() == 4 && "ctime"@.len() == 5 && "mtime"@.len() == 5);
    assert("ctime"@[0] == 'c' && "mtime"@[0] == 'm');
}

impl Default for ExecutionOrderByField {
    fn default() -> (r: Self)
        ensures
            r == ExecutionOrderByField::Id,
    {
        ExecutionOrderByField::Id
    }
}


} // verus!
