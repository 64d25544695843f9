//! Modules: the package entries, found by author and name or by id.

use vstd::prelude::*;
use crate::errors::RegistryError;
use crate::outcome::or_not_found;
use crate::records::Module;
use crate::records::ModuleView;
use crate::records::NewModule;
use crate::records::NewModuleView;
use crate::records::NewRelease;
use crate::records::NewReleaseView;
use crate::records::Release;
use crate::records::ReleaseView;
use crate::laws::law_module_created_wf;
use crate::laws::law_module_deleted_wf;
use crate::store::modules_wf;
use crate::store::ok_some_view;
use crate::store::ok_view;
use crate::store::required;
use crate::store::rows_view;
use crate::store::Registry;
use crate::store::RegistryView;

verus! {

impl RegistryView {
    /// Whether the author has a module of this name.
    pub open spec fn has_module(self, author: Seq<char>, name: Seq<char>) -> bool {
        exists|i: int|
            0 <= i < self.modules.len() && (#[trigger] self.modules[i]).author == author
                && self.modules[i].name == name
    }

    /// Where in the table the author's module of this name stands, if there
    /// is one.
    pub open spec fn module_position(self, author: Seq<char>, name: Seq<char>) -> int {
        choose|i: int|
            0 <= i < self.modules.len() && (#[trigger] self.modules[i]).author == author
                && self.modules[i].name == name
    }

    /// The author's module of this name, if there is one.
    pub open spec fn module(self, author: Seq<char>, name: Seq<char>) -> Option<ModuleView> {
        if self.has_module(author, name) {
            Some(self.modules[self.module_position(author, name)])
        } else {
            None
        }
    }

    /// Whether a module has this id.
    pub open spec fn has_module_id(self, id: int) -> bool {
        exists|i: int| 0 <= i < self.modules.len() && (#[trigger] self.modules[i]).id == id
    }

    /// Where in the table the module with this id stands, if there is one.
    pub open spec fn module_id_position(self, id: int) -> int {
        choose|i: int| 0 <= i < self.modules.len() && (#[trigger] self.modules[i]).id == id
    }

    /// The module with this id, if there is one.
    pub open spec fn module_by_id(self, id: int) -> Option<ModuleView> {
        if self.has_module_id(id) {
            Some(self.modules[self.module_id_position(id)])
        } else {
            None
        }
    }

    /// The row that storing `new` makes: the next id, and not featured.
    pub open spec fn module_row(self, new: NewModuleView) -> ModuleView {
        ModuleView {
            id: self.last_module_id + 1,
            author: new.author,
            name: new.name,
            description: new.description,
            latest: new.latest,
            featured: false,
        }
    }

    /// What storing `new` returns: the new row, or an error where the author
    /// has a module of this name already or, failing that, where the ids have
    /// run out.
    pub open spec fn module_create_result(self, new: NewModuleView) -> Result<ModuleView, RegistryError> {
        if self.has_module(new.author, new.name) {
            Err(RegistryError::UniqueConstraintViolation)
        } else if self.last_module_id >= i32::MAX {
            Err(RegistryError::StorageError)
        } else {
            Ok(self.module_row(new))
        }
    }

    /// The store after an attempt to store `new`: unchanged where that
    /// fails, else with the new row as the last one.
    pub open spec fn module_created(self, new: NewModuleView) -> RegistryView {
        match self.module_create_result(new) {
            Ok(row) => RegistryView {
                modules: self.modules.push(row),
                last_module_id: self.last_module_id + 1,
                ..self
            },
            Err(_) => self,
        }
    }

    /// The store with `row` in place of the module at `position`.
    pub open spec fn module_replaced(self, position: int, row: ModuleView) -> RegistryView {
        RegistryView { modules: self.modules.update(position, row), ..self }
    }

    /// What publishing this description under author and name returns: the
    /// author's module of this name with the description, where there is
    /// one; else what storing a new module without a latest version returns.
    pub open spec fn module_upsert_result(
        self,
        author: Seq<char>,
        name: Seq<char>,
        description: Seq<char>,
    ) -> Result<ModuleView, RegistryError> {
        match self.module(author, name) {
            Some(row) => Ok(ModuleView { description, ..row }),
            None => self.module_create_result(
                NewModuleView { author, name, description, latest: None },
            ),
        }
    }

    /// The store after this description was published under author and
    /// name: the author's module of this name has the description and is
    /// otherwise as before, where there is one; else the store is as after
    /// storing a new module without a latest version.
    pub open spec fn module_upserted(
        self,
        author: Seq<char>,
        name: Seq<char>,
        description: Seq<char>,
    ) -> RegistryView {
        match self.module(author, name) {
            Some(row) => self.module_replaced(
                self.module_position(author, name),
                ModuleView { description, ..row },
            ),
            None => self.module_created(NewModuleView { author, name, description, latest: None }),
        }
    }

    /// The store without the module that has this id and without the
    /// releases of that module; unchanged where no module has this id.
    pub open spec fn module_deleted(self, id: int) -> RegistryView {
        if self.has_module_id(id) {
            RegistryView {
                modules: self.modules.remove(self.module_id_position(id)),
                releases: releases_without(self.releases, id),
                ..self
            }
        } else {
            self
        }
    }

    /// The store in which the module with this id points to `version` as its
    /// latest; unchanged where no module has this id.
    pub open spec fn latest_set(self, id: int, version: Seq<char>) -> RegistryView {
        match self.module_by_id(id) {
            Some(row) => self.module_replaced(
                self.module_id_position(id),
                ModuleView { latest: Some(version), ..row },
            ),
            None => self,
        }
    }

    /// The store in which the module with this id is featured or not, as
    /// `featured` says; unchanged where no module has this id.
    pub open spec fn featured_set(self, id: int, featured: bool) -> RegistryView {
        match self.module_by_id(id) {
            Some(row) => self.module_replaced(
                self.module_id_position(id),
                ModuleView { featured, ..row },
            ),
            None => self,
        }
    }

    /// What adding a version to the module with this id returns: the error
    /// of storing the release, if that fails.
    pub open spec fn version_add_result(
        self,
        module_id: int,
        version: Seq<char>,
        code: Seq<char>,
    ) -> Result<(), RegistryError> {
        match self.release_create_result(NewReleaseView { module_id, version, code }) {
            Ok(_) => Ok(()),
            Err(e) => Err(e),
        }
    }

    /// The store after an attempt to add a version to the module with this
    /// id: unchanged where storing the release fails; else the release is
    /// stored and the module points to it as its latest.
    pub open spec fn version_added(
        self,
        module_id: int,
        version: Seq<char>,
        code: Seq<char>,
    ) -> RegistryView {
        match self.release_create_result(NewReleaseView { module_id, version, code }) {
            Ok(_) => self.release_created(NewReleaseView { module_id, version, code }).latest_set(
                module_id,
                version,
            ),
            Err(_) => self,
        }
    }
}

/// The releases among `releases` that belong to other modules than the one
/// with this id, in their order.
pub open spec fn releases_without(releases: Seq<ReleaseView>, module_id: int) -> Seq<ReleaseView>
    decreases releases.len(),
{
    if releases.len() == 0 {
        Seq::empty()
    } else if releases.last().module_id == module_id {
        releases_without(releases.drop_last(), module_id)
    } else {
        releases_without(releases.drop_last(), module_id).push(releases.last())
    }
}

/// In a well-formed table, author and name fix a module's position.
pub proof fn lemma_module_position(s: RegistryView, i: int)
    requires
        modules_wf(s.modules, s.last_module_id),
        0 <= i < s.modules.len(),
    ensures
        s.has_module(s.modules[i].author, s.modules[i].name),
        s.module_position(s.modules[i].author, s.modules[i].name) == i,
        s.module(s.modules[i].author, s.modules[i].name) == Some(s.modules[i]),
{
    let row = s.modules[i];
    let p = s.module_position(row.author, row.name);
    assert(s.modules[p].author == row.author && s.modules[p].name == row.name);
    if p < i {
        assert(!(s.modules[p].author == s.modules[i].author && s.modules[p].name
            == s.modules[i].name));
    } else if i < p {
        assert(!(s.modules[i].author == s.modules[p].author && s.modules[i].name
            == s.modules[p].name));
    }
}

/// In a well-formed table a module's id fixes its position.
pub proof fn lemma_module_id_position(s: RegistryView, i: int)
    requires
        modules_wf(s.modules, s.last_module_id),
        0 <= i < s.modules.len(),
    ensures
        s.has_module_id(s.modules[i].id),
        s.module_id_position(s.modules[i].id) == i,
        s.module_by_id(s.modules[i].id) == Some(s.modules[i]),
{
    let id = s.modules[i].id;
    let p = s.module_id_position(id);
    assert(s.modules[p].id == id);
    if p < i {
        assert(s.modules[p].id < s.modules[i].id);
    } else if i < p {
        assert(s.modules[i].id < s.modules[p].id);
    }
}

/// A table stays well-formed when a row gives way to one with the same id,
/// author and name.
pub proof fn lemma_module_replaced_wf(s: RegistryView, i: int, row: ModuleView)
    requires
        s.wf(),
        0 <= i < s.modules.len(),
        row.id == s.modules[i].id,
        row.author == s.modules[i].author,
        row.name == s.modules[i].name,
    ensures
        s.module_replaced(i, row).wf(),
{
    let before = s.modules;
    let after = s.module_replaced(i, row).modules;
    assert forall|k: int| 0 <= k < after.len() implies 1 <= (#[trigger] after[k]).id
        <= s.last_module_id by {
        assert(after[k].id == before[k].id);
    }
    assert forall|a: int, b: int| 0 <= a < b < after.len() implies after[a].id < after[b].id && !(
    after[a].author == after[b].author && after[a].name == after[b].name) by {
        assert(after[a].id == before[a].id && after[b].id == before[b].id);
        assert(after[a].author == before[a].author && after[b].author == before[b].author);
        assert(after[a].name == before[a].name && after[b].name == before[b].name);
    }
    assert forall|k: int| 0 <= k < s.releases.len() implies s.module_replaced(
        i,
        row,
    ).has_module_id((#[trigger] s.releases[k]).module_id) by {
        let at = s.module_id_position(s.releases[k].module_id);
        assert(after[at].id == before[at].id);
    }
}

impl Registry {
    /// Where in the table the author's module of this name stands.
    pub(crate) fn module_index(&self, author: &str, name: &str) -> (found: Option<usize>)
        ensures
            match found {
                Some(i) => i < self@.modules.len() && self@.has_module(author@, name@)
                    && self@.module_position(author@, name@) == i,
                None => !self@.has_module(author@, name@),
            },
    {
        proof {
            use_type_invariant(self);
        }
        let author_key = author.to_owned();
        let name_key = name.to_owned();
        let mut i: usize = 0;
        while i < self.modules.len()
            invariant
                i <= self.modules.len(),
                author_key@ == author@,
                name_key@ == name@,
                self@.wf(),
                forall|j: int|
                    0 <= j < i ==> !((#[trigger] self@.modules[j]).author == author@
                        && self@.modules[j].name == name@),
            decreases self.modules.len() - i,
        {
            if self.modules[i].author == author_key && self.modules[i].name == name_key {
                proof {
                    lemma_module_position(self@, i as int);
                }
                return Some(i);
            }
            i += 1;
        }
        None
    }

    /// Where in the table the module with this id stands.
    pub(crate) fn module_id_index(&self, id: i32) -> (found: Option<usize>)
        ensures
            match found {
                Some(i) => i < self@.modules.len() && self@.has_module_id(id as int)
                    && self@.module_id_position(id as int) == i,
                None => !self@.has_module_id(id as int),
            },
    {
        proof {
            use_type_invariant(self);
        }
        let mut i: usize = 0;
        while i < self.modules.len()
            invariant
                i <= self.modules.len(),
                self@.wf(),
                forall|j: int| 0 <= j < i ==> (#[trigger] self@.modules[j]).id != id,
            decreases self.modules.len() - i,
        {
            if self.modules[i].id == id {
                proof {
                    lemma_module_id_position(self@, i as int);
                }
                return Some(i);
            }
            i += 1;
        }
        None
    }

    /// Puts `row` in place of the module at `i`, which has the same id,
    /// author and name.
    pub(crate) fn replace_module(&mut self, i: usize, row: Module)
        requires
            i < old(self)@.modules.len(),
            row@.id == old(self)@.modules[i as int].id,
            row@.author == old(self)@.modules[i as int].author,
            row@.name == old(self)@.modules[i as int].name,
        ensures
            final(self)@ == old(self)@.module_replaced(i as int, row@),
            final(self)@.wf(),
    {
        proof {
            use_type_invariant(&*self);
            lemma_module_replaced_wf(self@, i as int, row@);
        }
        let last = self.last_module_id;
        let (mut modules, releases) = self.take_tables();
        let _ = modules.remove(i);
        modules.insert(i, row);
        proof {
            assert(rows_view(modules@) =~= old(self)@.modules.update(i as int, row@));
        }
        self.put_tables(modules, releases, last);
    }

    /// The releases among `releases` that belong to other modules than
    /// the one with this id.
    pub(crate) fn releases_of_others(releases: &Vec<Release>, module_id: i32) -> (kept: Vec<
        Release,
    >)
        ensures
            rows_view(kept@) == releases_without(rows_view(releases@), module_id as int),
    {
        let mut kept: Vec<Release> = Vec::new();
        let mut i: usize = 0;
        assert(rows_view(releases@).take(0) =~= Seq::empty());
        assert(rows_view(kept@) =~= Seq::empty());
        while i < releases.len()
            invariant
                i <= releases.len(),
                rows_view(kept@) == releases_without(
                    rows_view(releases@).take(i as int),
                    module_id as int,
                ),
            decreases releases.len() - i,
        {
            let ghost all = rows_view(releases@);
            let ghost before = rows_view(kept@);
            assert(all.take(i as int + 1).drop_last() =~= all.take(i as int));
            assert(all.take(i as int + 1).last() == releases@[i as int]@);
            if releases[i].module_id != module_id {
                kept.push(releases[i].duplicate());
                assert(rows_view(kept@) =~= before.push(releases@[i as int]@));
            }
            i += 1;
        }
        assert(rows_view(releases@).take(releases.len() as int) =~= rows_view(releases@));
        kept
    }
}

impl Module {
    /// Stores a module made from `module`, with the next id and not
    /// featured, and returns it. Fails where the author has a module of this
    /// name already, or where the ids have run out.
    pub fn create(module: &NewModule, store: &mut Registry) -> (result: Result<Module, RegistryError>)
        ensures
            ok_view(result) == old(store)@.module_create_result(module@),
            final(store)@ == old(store)@.module_created(module@),
            final(store)@.wf(),
    {
        proof {
            use_type_invariant(&*store);
        }
        if store.module_index(module.author, module.name).is_some() {
            return Err(RegistryError::UniqueConstraintViolation);
        }
        if store.last_module_id == i32::MAX {
            return Err(RegistryError::StorageError);
        }
        let id: i32 = store.last_module_id + 1;
        let row = Module {
            id,
            author: module.author.to_owned(),
            name: module.name.to_owned(),
            description: module.description.to_owned(),
            latest: match module.latest {
                Some(version) => Some(version.to_owned()),
                None => None,
            },
            featured: false,
        };
        let stored = row.duplicate();
        proof {
            law_module_created_wf(store@, module@);
        }
        let (mut modules, releases) = store.take_tables();
        modules.push(stored);
        proof {
            assert(rows_view(modules@) =~= old(store)@.modules.push(row@));
        }
        store.put_tables(modules, releases, id);
        Ok(row)
    }

    /// The author's module of this name, or [`RegistryError::NotFound`].
    pub fn find(author: &str, name: &str, store: &Registry) -> (result: Result<Module, RegistryError>)
        ensures
            ok_view(result) == required(store@.module(author@, name@)),
    {
        match Module::find_opt(author, name, store) {
            Ok(found) => or_not_found(found),
            Err(e) => Err(e),
        }
    }

    /// The author's module of this name, or `None` where there is none.
    pub fn find_opt(author: &str, name: &str, store: &Registry) -> (result: Result<
        Option<Module>,
        RegistryError,
    >)
        ensures
            ok_some_view(result) == Ok::<Option<ModuleView>, RegistryError>(store@.module(author@, name@)),
    {
        match store.module_index(author, name) {
            Some(i) => Ok(Some(store.modules[i].duplicate())),
            None => Ok(None),
        }
    }

    /// Publishes a description under author and name. Where the author has
    /// a module of this name, only its description changes; else a module is
    /// stored that has no latest version. Returns the row as it then stands.
    pub fn update_or_create(
        author: &str,
        name: &str,
        description: &str,
        store: &mut Registry,
    ) -> (result: Result<Module, RegistryError>)
        ensures
            ok_view(result) == old(store)@.module_upsert_result(author@, name@, description@),
            final(store)@ == old(store)@.module_upserted(author@, name@, description@),
            final(store)@.wf(),
    {
        proof {
            use_type_invariant(&*store);
        }
        match store.module_index(author, name) {
            Some(i) => {
                let mut row = store.modules[i].duplicate();
                row.description = description.to_owned();
                let stored = row.duplicate();
                store.replace_module(i, stored);
                Ok(row)
            },
            None => Module::create(&NewModule::unpublished(author, name, description), store),
        }
    }

    /// The module with this id, or [`RegistryError::NotFound`].
    pub fn id(id: i32, store: &Registry) -> (result: Result<Module, RegistryError>)
        ensures
            ok_view(result) == required(store@.module_by_id(id as int)),
    {
        match Module::id_opt(id, store) {
            Ok(found) => or_not_found(found),
            Err(e) => Err(e),
        }
    }

    /// The module with this id, or `None` where there is none.
    pub fn id_opt(id: i32, store: &Registry) -> (result: Result<Option<Module>, RegistryError>)
        ensures
            ok_some_view(result) == Ok::<Option<ModuleView>, RegistryError>(store@.module_by_id(id as int)),
    {
        match store.module_id_index(id) {
            Some(i) => Ok(Some(store.modules[i].duplicate())),
            None => Ok(None),
        }
    }

    /// Removes the module with this id, and with it the releases of that
    /// module. Where there is no such module, nothing changes.
    pub fn delete(id: i32, store: &mut Registry) -> (result: Result<(), RegistryError>)
        ensures
            result == Ok::<(), RegistryError>(()),
            final(store)@ == old(store)@.module_deleted(id as int),
            final(store)@.wf(),
    {
        proof {
            use_type_invariant(&*store);
            law_module_deleted_wf(store@, id as int);
        }
        match store.module_id_index(id) {
            Some(i) => {
                let last = store.last_module_id;
                let (mut modules, releases) = store.take_tables();
                let _ = modules.remove(i);
                let kept = Registry::releases_of_others(&releases, id);
                proof {
                    assert(rows_view(modules@) =~= old(store)@.modules.remove(i as int));
                }
                store.put_tables(modules, kept, last);
            },
            None => {},
        }
        Ok(())
    }

    /// Marks the module with this id as featured, or as not featured. Where
    /// there is no such module, nothing changes.
    pub fn set_featured(id: i32, featured: bool, store: &mut Registry) -> (result: Result<
        (),
        RegistryError,
    >)
        ensures
            result == Ok::<(), RegistryError>(()),
            final(store)@ == old(store)@.featured_set(id as int, featured),
            final(store)@.wf(),
    {
        proof {
            use_type_invariant(&*store);
        }
        match store.module_id_index(id) {
            Some(i) => {
                let mut row = store.modules[i].duplicate();
                row.featured = featured;
                store.replace_module(i, row);
            },
            None => {},
        }
        Ok(())
    }

    /// Publishes a version of the module that has this module's id: stores
    /// the release and then points the stored module to it as its latest.
    /// Where storing the release fails, its error is returned and nothing
    /// changes.
    pub fn add_version(&self, version: &str, code: &str, store: &mut Registry) -> (result: Result<
        (),
        RegistryError,
    >)
        ensures
            result == old(store)@.version_add_result(self.id as int, version@, code@),
            final(store)@ == old(store)@.version_added(self.id as int, version@, code@),
            final(store)@.wf(),
    {
        proof {
            use_type_invariant(&*store);
        }
        match Release::create(&NewRelease { module_id: self.id, version, code }, store) {
            Ok(_) => {},
            Err(e) => {
                return Err(e);
            },
        }
        match store.module_id_index(self.id) {
            Some(i) => {
                let mut row = store.modules[i].duplicate();
                row.latest = Some(version.to_owned());
                store.replace_module(i, row);
            },
            None => {},
        }
        Ok(())
    }
}

} // verus!
