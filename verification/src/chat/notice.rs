//! What the chat tells the user, before it is formatted.

use vstd::prelude::*;

verus! {

/// Something the chat tells the user.
#[derive(Debug)]
pub enum Notice {
    /// As it stands.
    Text(String),
    Success(String),
    Warning(String),
    Error(String),
    /// The conversation was saved under this name.
    Saved(String),
    /// The conversation was cleared.
    Cleared,
}

/// What is told, by its characters.
pub enum Told {
    Text(Seq<char>),
    Success(Seq<char>),
    Warning(Seq<char>),
    Error(Seq<char>),
    Saved(Seq<char>),
    Cleared,
}

impl View for Notice {
    type V = Told;

    open spec fn view(&self) -> Told {
        match self {
            Notice::Text(s) => Told::Text(s@),
            Notice::Success(s) => Told::Success(s@),
            Notice::Warning(s) => Told::Warning(s@),
            Notice::Error(s) => Told::Error(s@),
            Notice::Saved(s) => Told::Saved(s@),
            Notice::Cleared => Told::Cleared,
        }
    }
}

/// What a list of notices tells.
pub open spec fn told(list: Seq<Notice>) -> Seq<Told> {
    list.map_values(|n: Notice| n@)
}

} // verus!
