//! Options of the queries for artifacts.
use vstd::prelude::*;
use vstd::string::StringExecFns;
use crate::error::InvalidField;
use crate::text::same_text;

verus! {

/// The field by which the artifacts of a search result are sorted.
#[derive(Debug, Clone, Copy, PartialEq, Eq, Hash, Structural)]
pub enum ArtifactOrderByField {
    Id,
    Name,
    CreateTime,
    UpdateTime,
}

impl ArtifactOrderByField {
    /// The word for a field on the command line.
    pub open spec fn word(self) -> Seq<char> {
        match self {
            ArtifactOrderByField::Id => "id"@,
            ArtifactOrderByField::Name => "name"@,
            ArtifactOrderByField::CreateTime => "ctime"@,
            ArtifactOrderByField::UpdateTime => "mtime"@,
        }
    }

    /// The word for this field on the command line.
    pub fn name(self) -> (r: &'static str)
        ensures
            r@ == self.word(),
    {
        match self {
            ArtifactOrderByField::Id => "id",
            ArtifactOrderByField::Name => "name",
            ArtifactOrderByField::CreateTime => "ctime",
            ArtifactOrderByField::UpdateTime => "mtime",
        }
    }

    /// The field that a word names. Any other word is handed back as an
    /// error.
    pub fn from_str(s: &str) -> (r: Result<ArtifactOrderByField, InvalidField>)
        ensures
            match r {
                Ok(field) => s@ == field.word(),
                Err(e) => e.value@ == s@ && forall|field: ArtifactOrderByField| s@ != field.word(),
            },
    {
        if same_text(s, "id") {
            Ok(ArtifactOrderByField::Id)
        } else if same_text(s, "name") {
            Ok(ArtifactOrderByField::Name)
        } else if same_text(s, "ctime") {
            Ok(ArtifactOrderByField::CreateTime)
        } else if same_text(s, "mtime") {
            Ok(ArtifactOrderByField::UpdateTime)
        } else {
            Err(InvalidField { value: String::from_str(s) })
        }
    }
}

/// No two fields have the same word, so a word names one field at most.
pub proof fn lemma_words_differ(a: ArtifactOrderByField, b: ArtifactOrderByField)
    requires
        a.word() == b.word(),
    ensures
        a == b,
{
    reveal_strlit("id");
    reveal_strlit("name");
    reveal_strlit("ctime");
    reveal_strlit("mtime");
    assert("id"@.len() == 2 && "name"@.len() == 4 && "ctime"@.len() == 5 && "mtime"@.len() == 5);
    assert("ctime"@[0] == 'c' && "mtime"@[0] == 'm');
}

impl Default for ArtifactOrderByField {
    fn default() -> (r: Self)
        ensures
            r == ArtifactOrderByField::Id,
    {
        ArtifactOrderByField::Id
    }
}


} // verus!
