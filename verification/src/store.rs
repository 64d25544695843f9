//! The store itself: three tables, the counters that number their rows, and
//! the clock that stamps releases.

use vstd::prelude::*;
use crate::errors::RegistryError;
use crate::records::AuthToken;
use crate::records::AuthTokenView;
use crate::records::Module;
use crate::records::ModuleView;
use crate::records::Release;
use crate::records::ReleaseView;

verus! {

/// A registry's tables. Rows stand in the order in which they were stored.
pub struct Registry {
    pub(crate) auth_tokens: Vec<AuthToken>,
    pub(crate) modules: Vec<Module>,
    pub(crate) releases: Vec<Release>,
    pub(crate) last_module_id: i32,
    pub(crate) last_release_id: i32,
    pub(crate) clock: u64,
}

/// The contents of a [`Registry`].
pub struct RegistryView {
    pub auth_tokens: Seq<AuthTokenView>,
    pub modules: Seq<ModuleView>,
    pub releases: Seq<ReleaseView>,
    /// The id given to the module that was stored last, 0 before the first.
    pub last_module_id: int,
    /// The id given to the release that was stored last, 0 before the first.
    pub last_release_id: int,
    /// The time with which the next release is stamped.
    pub clock: int,
}

/// No two tokens share an id.
pub open spec fn tokens_wf(tokens: Seq<AuthTokenView>) -> bool {
    forall|i: int, j: int|
        #![trigger tokens[i], tokens[j]]
        0 <= i < j < tokens.len() ==> tokens[i].id != tokens[j].id
}

/// Module ids are positive, at most `last` and grow along the table, and no
/// two modules share both author and name.
pub open spec fn modules_wf(modules: Seq<ModuleView>, last: int) -> bool {
    &&& 0 <= last <= i32::MAX
    &&& forall|i: int| 0 <= i < modules.len() ==> 1 <= (#[trigger] modules[i]).id <= last
    &&& forall|i: int, j: int|
        #![trigger modules[i], modules[j]]
        0 <= i < j < modules.len() ==> modules[i].id < modules[j].id
    &&& forall|i: int, j: int|
        #![trigger modules[i], modules[j]]
        0 <= i < j < modules.len() ==> !(modules[i].author == modules[j].author && modules[i].name
            == modules[j].name)
}

/// Release ids are positive, at most `last` and grow along the table, no two
/// releases share both module and version, and no download count is negative.
pub open spec fn releases_wf(releases: Seq<ReleaseView>, last: int) -> bool {
    &&& 0 <= last <= i32::MAX
    &&& forall|i: int|
        0 <= i < releases.len() ==> 1 <= (#[trigger] releases[i]).id <= last && 0
            <= releases[i].downloads <= i32::MAX
    &&& forall|i: int, j: int|
        #![trigger releases[i], releases[j]]
        0 <= i < j < releases.len() ==> releases[i].id < releases[j].id
    &&& forall|i: int, j: int|
        #![trigger releases[i], releases[j]]
        0 <= i < j < releases.len() ==> !(releases[i].module_id == releases[j].module_id
            && releases[i].version == releases[j].version)
}

impl RegistryView {
    /// What holds of every store.
    pub open spec fn wf(self) -> bool {
        &&& tokens_wf(self.auth_tokens)
        &&& modules_wf(self.modules, self.last_module_id)
        &&& releases_wf(self.releases, self.last_release_id)
        &&& self.references_hold()
    }

    /// Every release belongs to a stored module.
    pub open spec fn references_hold(self) -> bool {
        forall|k: int|
            0 <= k < self.releases.len() ==> self.has_module_id(
                (#[trigger] self.releases[k]).module_id,
            )
    }

    /// The store that holds nothing, its clock at 0.
    pub open spec fn empty() -> RegistryView {
        RegistryView {
            auth_tokens: Seq::empty(),
            modules: Seq::empty(),
            releases: Seq::empty(),
            last_module_id: 0,
            last_release_id: 0,
            clock: 0,
        }
    }
}

/// The views of a table's rows.
pub open spec fn rows_view<T: View>(rows: Seq<T>) -> Seq<T::V> {
    rows.map_values(|row: T| row@)
}

/// `Ok` of the view where `result` is `Ok`, the same error otherwise.
pub open spec fn ok_view<T: View>(result: Result<T, RegistryError>) -> Result<T::V, RegistryError> {
    match result {
        Ok(row) => Ok(row@),
        Err(e) => Err(e),
    }
}

/// `Some` of the view where `found` is `Some`.
pub open spec fn some_view<T: View>(found: Option<T>) -> Option<T::V> {
    match found {
        Some(row) => Some(row@),
        None => None,
    }
}

/// The view of what a lookup that may come back empty returned.
pub open spec fn ok_some_view<T: View>(result: Result<Option<T>, RegistryError>) -> Result<
    Option<T::V>,
    RegistryError,
> {
    match result {
        Ok(found) => Ok(some_view(found)),
        Err(e) => Err(e),
    }
}

/// What a lookup that must find its row makes of one that may come back
/// empty: nothing found is [`RegistryError::NotFound`].
pub open spec fn required<V>(found: Option<V>) -> Result<V, RegistryError> {
    match found {
        Some(row) => Ok(row),
        None => Err(RegistryError::NotFound),
    }
}

impl View for Registry {
    type V = RegistryView;

    open(crate) spec fn view(&self) -> RegistryView {
        RegistryView {
            auth_tokens: rows_view(self.auth_tokens@),
            modules: rows_view(self.modules@),
            releases: rows_view(self.releases@),
            last_module_id: self.last_module_id as int,
            last_release_id: self.last_release_id as int,
            clock: self.clock as int,
        }
    }
}

impl Registry {
    #[verifier::type_invariant]
    pub(crate) open(crate) spec fn inv(&self) -> bool {
        self@.wf()
    }

    /// An empty store, its clock at 0.
    pub fn new() -> (store: Registry)
        ensures
            store@ == RegistryView::empty(),
            store@.wf(),
    {
        let store = Registry {
            auth_tokens: Vec::new(),
            modules: Vec::new(),
            releases: Vec::new(),
            last_module_id: 0,
            last_release_id: 0,
            clock: 0,
        };
        assert(store@.auth_tokens =~= Seq::empty());
        assert(store@.modules =~= Seq::empty());
        assert(store@.releases =~= Seq::empty());
        store
    }

    /// Takes the tokens out of the store, which is left without any.
    pub(crate) fn take_tokens(&mut self) -> (rows: Vec<AuthToken>)
        ensures
            rows_view(rows@) == old(self)@.auth_tokens,
            final(self)@ == (RegistryView { auth_tokens: Seq::empty(), ..old(self)@ }),
    {
        proof {
            use_type_invariant(&*self);
        }
        let mut rows: Vec<AuthToken> = Vec::new();
        assert(rows_view(rows@) =~= Seq::empty());
        core::mem::swap(&mut self.auth_tokens, &mut rows);
        rows
    }

    /// Puts `rows` in the place of the tokens.
    pub(crate) fn put_tokens(&mut self, rows: Vec<AuthToken>)
        requires
            tokens_wf(rows_view(rows@)),
        ensures
            final(self)@ == (RegistryView { auth_tokens: rows_view(rows@), ..old(self)@ }),
            final(self)@.wf(),
    {
        proof {
            use_type_invariant(&*self);
        }
        self.auth_tokens = rows;
    }

    /// Takes the releases out of the store, which is left without any.
    pub(crate) fn take_releases(&mut self) -> (rows: Vec<Release>)
        ensures
            rows_view(rows@) == old(self)@.releases,
            final(self)@ == (RegistryView { releases: Seq::empty(), ..old(self)@ }),
    {
        proof {
            use_type_invariant(&*self);
        }
        let mut rows: Vec<Release> = Vec::new();
        assert(rows_view(rows@) =~= Seq::empty());
        core::mem::swap(&mut self.releases, &mut rows);
        rows
    }

    /// Puts `rows` in the place of the releases, the last of which got the
    /// id `last`.
    pub(crate) fn put_releases(&mut self, rows: Vec<Release>, last: i32)
        requires
            old(self)@.releases.len() == 0,
            old(self)@.last_release_id <= last,
            (RegistryView {
                releases: rows_view(rows@),
                last_release_id: last as int,
                ..old(self)@
            }).wf(),
        ensures
            final(self)@ == (RegistryView {
                releases: rows_view(rows@),
                last_release_id: last as int,
                ..old(self)@
            }),
            final(self)@.wf(),
    {
        proof {
            use_type_invariant(&*self);
        }
        self.last_release_id = last;
        self.releases = rows;
    }

    /// Takes the modules and the releases out of the store, which is left
    /// without any.
    pub(crate) fn take_tables(&mut self) -> (tables: (Vec<Module>, Vec<Release>))
        ensures
            rows_view(tables.0@) == old(self)@.modules,
            rows_view(tables.1@) == old(self)@.releases,
            final(self)@ == (RegistryView {
                modules: Seq::empty(),
                releases: Seq::empty(),
                ..old(self)@
            }),
    {
        let releases = self.take_releases();
        proof {
            use_type_invariant(&*self);
        }
        let mut modules: Vec<Module> = Vec::new();
        assert(rows_view(modules@) =~= Seq::empty());
        core::mem::swap(&mut self.modules, &mut modules);
        (modules, releases)
    }

    /// Puts `modules` and `releases` in the place of the two tables, the
    /// last module of which got the id `last`.
    pub(crate) fn put_tables(&mut self, modules: Vec<Module>, releases: Vec<Release>, last: i32)
        requires
            old(self)@.modules.len() == 0,
            old(self)@.releases.len() == 0,
            (RegistryView {
                modules: rows_view(modules@),
                releases: rows_view(releases@),
                last_module_id: last as int,
                ..old(self)@
            }).wf(),
        ensures
            final(self)@ == (RegistryView {
                modules: rows_view(modules@),
                releases: rows_view(releases@),
                last_module_id: last as int,
                ..old(self)@
            }),
            final(self)@.wf(),
    {
        proof {
            use_type_invariant(&*self);
        }
        self.last_module_id = last;
        self.modules = modules;
        self.releases = releases;
    }

    /// Sets the time with which releases are stamped from now on.
    pub fn set_clock(&mut self, now: u64)
        ensures
            final(self)@ == (RegistryView { clock: now as int, ..old(self)@ }),
            final(self)@.wf(),
    {
        proof {
            use_type_invariant(&*self);
        }
        self.clock = now;
    }

    /// The time with which the next release is stamped.
    pub fn clock(&self) -> (now: u64)
        ensures
            now == self@.clock,
    {
        self.clock
    }
}

} // verus!
