//! Options of the queries for contexts.
use vstd::prelude::*;
use vstd::string::StringExecFns;
use crate::error::InvalidField;
use crate::text::same_text;

verus! {

/// The field by which the contexts of a search result are sorted.
#[derive(Debug, Clone, Copy, PartialEq, Eq, Hash, Structural)]
pub enum ContextOrderByField {
    Id,
    Name,
    CreateTime,
    UpdateTime,
}

impl ContextOrderByField {
    /// The word for a field on the command line.
    pub open spec fn word(self) -> Seq<char> {
        match self {
            ContextOrderByField::Id => "id"@,
            ContextOrderByField::Name => "name"@,
            ContextOrderByField::CreateTime => "ctime"@,
            ContextOrderByField::UpdateTime => "mtime"@,
        }
    }

    /// The word for this field on the command line.
    pub fn name(self) -> (r: &'static str)
        ensures
            r@ == self.word(),
    {
        match self {
            ContextOrderByField::Id => "id",
            ContextOrderByField::Name => "name",
            ContextOrderByField::CreateTime => "ctime",
            ContextOrderByField::UpdateTime => "mtime",
        }
    }

    /// The field that a word names. Any other word is handed back as an
    /// error.
    pub fn from_str(s: &str) -> (r: Result<ContextOrderByField, InvalidField>)
        ensures
            match r {
                Ok(field) => s@ == field.word(),
                Err(e) => e.value@ == s@ && forall|field: ContextOrderByField| s@ != field.word(),
            },
    {
        if same_text(s, "id") {
            Ok(ContextOrderByField::Id)
        } else if same_text(s, "name") {
            Ok(ContextOrderByField::Name)
        } else if same_text(s, "ctime") {
            Ok(ContextOrderByField::CreateTime)
        } else if same_text(s, "mtime") {
            Ok(ContextOrderByField::UpdateTime)
        } else {
            Err(InvalidField { value: String::from_str(s) })
        }
    }
}

/// No two fields have the same word, so a word names one field at most.
pub proof fn lemma_words_differ(a: ContextOrderByField, b: ContextOrderByField)
    requires
        a.word() == b.word(),
    ensures
        a == b,
{
    reveal_strlit("id");
    reveal_strlit("name");
    reveal_strlit("ctime");
    reveal_strlit("mtime");
    assert("id"@.len() == 2 && "name"@.len() == 4 && "ctime"@.len() == 5 && "mtime"@.len() == 5);
    assert("ctime"@[0] == 'c' && "mtime"@[0] == 'm');
}

impl Default for ContextOrderByField {
    fn default() -> (r: Self)
        ensures
            r == ContextOrderByField::Id,
    {
        ContextOrderByField::Id
    }
}


} // verus!
