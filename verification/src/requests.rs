//! What the search and folder requests of a watch list ask for.

use crate::strings::{lowercase, same_text};
use vstd::prelude::*;
use vstd::string::StringExecFns;

verus! {

/// The name that stands for the top of a user's folders.
pub const HOME: &'static str = "home";

/// The name a folder gets when the request gives none.
pub const UNTITLED_FOLDER: &'static str = "Untitled Folder";

/// A search over the tracked documents.
pub struct DocSearchQuery {
    /// The text to look for; none finds everything.
    pub q: Option<String>,
}

/// A change to one entry of a user's watch list.
pub struct EditPayload {
    /// The entry.
    pub id: String,
    /// Which of its fields changes: `id_parent` or `folder_name`.
    pub field: String,
    /// The field's new value.
    pub value: String,
}

/// The making of a folder.
pub struct CreateFolderPayload {
    /// The folder's name.
    pub name: Option<String>,
    /// The folder it lies in; none, or `home`, for the top.
    pub id_parent: Option<String>,
}

/// What an `EditPayload` asks for.
pub enum UserDocumentEdit {
    /// Move the entry into the folder `parent`, or to the top.
    Move { id: String, parent: Option<String> },
    /// Give the folder `id` the name `name`.
    Rename { id: String, name: String },
}

/// `needle` between two `%`.
pub open spec fn wildcard_of(needle: Seq<char>) -> Seq<char> {
    seq!['%'] + needle + seq!['%']
}

/// The pattern that matches every text that holds `needle`.
pub fn wildcard(needle: &str) -> (pattern: String)
    ensures
        pattern@ == wildcard_of(needle@),
{
    proof {
        reveal_strlit("%");
    }
    let mut pattern = String::from_str("%");
    pattern.append(needle);
    pattern.append("%");
    proof {
        assert("%"@ =~= seq!['%']);
    }
    pattern
}

/// The folder that a parent named in a request stands for: none for the
/// top, which `home` names too.
pub fn folder_of(parent: Option<&str>) -> (folder: Option<String>)
    ensures
        match parent {
            None => folder is None,
            Some(name) => if name@ == HOME@ {
                folder is None
            } else {
                folder matches Some(f) && f@ == name@
            },
        },
{
    match parent {
        None => None,
        Some(name) => if same_text(name, HOME) {
            None
        } else {
            Some(name.to_owned())
        },
    }
}

impl DocSearchQuery {
    /// The text that is searched for, in lower case.
    pub open spec fn needle(&self) -> Seq<char> {
        match self.q {
            Some(q) => lowercase(q@),
            None => lowercase(Seq::empty()),
        }
    }

    /// The pattern that the documents' ids, names and owners, in lower case,
    /// are held against.
    pub fn pattern(&self) -> (pattern: String)
        ensures
            pattern@ == wildcard_of(self.needle()),
    {
        let lower = match &self.q {
            Some(q) => q.as_str().to_lowercase(),
            None => {
                proof {
                    reveal_strlit("");
                    assert(""@ =~= Seq::<char>::empty());
                }
                "".to_lowercase()
            },
        };
        wildcard(lower.as_str())
    }
}

impl EditPayload {
    /// What the request asks for; `None` where it names a field that cannot
    /// be changed.
    pub fn edit(&self) -> (out: Option<UserDocumentEdit>)
        ensures
            self.field@ == "id_parent"@ ==> (out matches Some(
                UserDocumentEdit::Move { id, parent },
            ) && id == self.id && if self.value@ == HOME@ {
                parent is None
            } else {
                parent matches Some(p) && p@ == self.value@
            }),
            self.field@ == "folder_name"@ ==> (out matches Some(
                UserDocumentEdit::Rename { id, name },
            ) && id == self.id && name == self.value),
            self.field@ != "id_parent"@ && self.field@ != "folder_name"@ ==> out is None,
    {
        proof {
            reveal_strlit("id_parent");
            reveal_strlit("folder_name");
            assert("id_parent"@.len() != "folder_name"@.len());
        }
        if same_text(self.field.as_str(), "id_parent") {
            Some(
                UserDocumentEdit::Move {
                    id: self.id.clone(),
                    parent: folder_of(Some(self.value.as_str())),
                },
            )
        } else if same_text(self.field.as_str(), "folder_name") {
            Some(UserDocumentEdit::Rename { id: self.id.clone(), name: self.value.clone() })
        } else {
            None
        }
    }
}

impl CreateFolderPayload {
    /// The new folder's name: the one given, else `Untitled Folder`.
    pub fn folder_name(&self) -> (name: String)
        ensures
            match self.name {
                Some(given) => name == given,
                None => name@ == UNTITLED_FOLDER@,
            },
    {
        match &self.name {
            Some(given) => given.clone(),
            None => UNTITLED_FOLDER.to_owned(),
        }
    }

    /// The folder that the new one lies in; none for the top.
    pub fn parent(&self) -> (folder: Option<String>)
        ensures
            match self.id_parent {
                None => folder is None,
                Some(name) => if name@ == HOME@ {
                    folder is None
                } else {
                    folder matches Some(f) && f@ == name@
                },
            },
    {
        match &self.id_parent {
            None => None,
            Some(name) => folder_of(Some(name.as_str())),
        }
    }
}

} // verus!
