//! The rows of the store and the values from which new rows are made.

use vstd::prelude::*;

verus! {

/// An issued token. `id` is unique in a store.
#[derive(Debug, PartialEq, Eq)]
pub struct AuthToken {
    pub id: String,
    pub author: String,
    pub access_token: String,
}

/// What an [`AuthToken`] holds, as sequences of characters.
pub struct AuthTokenView {
    pub id: Seq<char>,
    pub author: Seq<char>,
    pub access_token: Seq<char>,
}

impl View for AuthToken {
    type V = AuthTokenView;

    open spec fn view(&self) -> AuthTokenView {
        AuthTokenView { id: self.id@, author: self.author@, access_token: self.access_token@ }
    }
}

/// A package entry. `id` is given by the store; `author` and `name` together
/// are unique in a store.
#[derive(Debug, PartialEq, Eq)]
pub struct Module {
    pub id: i32,
    pub author: String,
    pub name: String,
    pub description: String,
    pub latest: Option<String>,
    pub featured: bool,
}

/// What a [`Module`] holds.
pub struct ModuleView {
    pub id: int,
    pub author: Seq<char>,
    pub name: Seq<char>,
    pub description: Seq<char>,
    pub latest: Option<Seq<char>>,
    pub featured: bool,
}

impl View for Module {
    type V = ModuleView;

    open spec fn view(&self) -> ModuleView {
        ModuleView {
            id: self.id as int,
            author: self.author@,
            name: self.name@,
            description: self.description@,
            latest: match self.latest {
                Some(version) => Some(version@),
                None => None,
            },
            featured: self.featured,
        }
    }
}

/// The fields that a caller gives for a module that is to be stored.
#[derive(Debug, PartialEq, Eq)]
pub struct NewModule<'a> {
    pub author: &'a str,
    pub name: &'a str,
    pub description: &'a str,
    pub latest: Option<&'a str>,
}

/// What a [`NewModule`] holds.
pub struct NewModuleView {
    pub author: Seq<char>,
    pub name: Seq<char>,
    pub description: Seq<char>,
    pub latest: Option<Seq<char>>,
}

impl<'a> View for NewModule<'a> {
    type V = NewModuleView;

    open spec fn view(&self) -> NewModuleView {
        NewModuleView {
            author: self.author@,
            name: self.name@,
            description: self.description@,
            latest: match self.latest {
                Some(version) => Some(version@),
                None => None,
            },
        }
    }
}

/// One published version of a module. `id`, `downloads` and `published` are
/// given by the store; `module_id` and `version` together are unique in a store.
#[derive(Debug, PartialEq, Eq)]
pub struct Release {
    pub id: i32,
    pub module_id: i32,
    pub version: String,
    pub downloads: i32,
    pub code: String,
    /// What the store's clock showed when the release was stored: seconds
    /// since 1970, where the clock is set from the time of day.
    pub published: u64,
}

/// What a [`Release`] holds.
pub struct ReleaseView {
    pub id: int,
    pub module_id: int,
    pub version: Seq<char>,
    pub downloads: int,
    pub code: Seq<char>,
    pub published: int,
}

impl View for Release {
    type V = ReleaseView;

    open spec fn view(&self) -> ReleaseView {
        ReleaseView {
            id: self.id as int,
            module_id: self.module_id as int,
            version: self.version@,
            downloads: self.downloads as int,
            code: self.code@,
            published: self.published as int,
        }
    }
}

/// The fields that a caller gives for a release that is to be stored.
#[derive(Debug, PartialEq, Eq)]
pub struct NewRelease<'a> {
    pub module_id: i32,
    pub version: &'a str,
    pub code: &'a str,
}

/// What a [`NewRelease`] holds.
pub struct NewReleaseView {
    pub module_id: int,
    pub version: Seq<char>,
    pub code: Seq<char>,
}

impl<'a> View for NewRelease<'a> {
    type V = NewReleaseView;

    open spec fn view(&self) -> NewReleaseView {
        NewReleaseView { module_id: self.module_id as int, version: self.version@, code: self.code@ }
    }
}

impl<'a> NewModule<'a> {
    /// The fields for a module of which no version is published yet.
    pub fn unpublished(author: &'a str, name: &'a str, description: &'a str) -> (new: NewModule<'a>)
        ensures
            new@ == (NewModuleView {
                author: author@,
                name: name@,
                description: description@,
                latest: None,
            }),
    {
        NewModule { author, name, description, latest: None }
    }
}

impl AuthToken {
    /// A copy of this token with the same contents.
    pub fn duplicate(&self) -> (copy: AuthToken)
        ensures
            copy@ == self@,
    {
        AuthToken {
            id: self.id.clone(),
            author: self.author.clone(),
            access_token: self.access_token.clone(),
        }
    }
}

impl Module {
    /// A copy of this module with the same contents.
    pub fn duplicate(&self) -> (copy: Module)
        ensures
            copy@ == self@,
    {
        Module {
            id: self.id,
            author: self.author.clone(),
            name: self.name.clone(),
            description: self.description.clone(),
            latest: match &self.latest {
                Some(version) => Some(version.clone()),
                None => None,
            },
            featured: self.featured,
        }
    }
}

impl Release {
    /// A copy of this release with the same contents.
    pub fn duplicate(&self) -> (copy: Release)
        ensures
            copy@ == self@,
    {
        Release {
            id: self.id,
            module_id: self.module_id,
            version: self.version.clone(),
            downloads: self.downloads,
            code: self.code.clone(),
            published: self.published,
        }
    }
}

} // verus!
