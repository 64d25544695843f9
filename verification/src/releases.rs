//! Releases: the published versions of a module, each with its download count.

use vstd::prelude::*;
use crate::errors::RegistryError;
use crate::outcome::or_not_found;
use crate::records::NewRelease;
use crate::records::NewReleaseView;
use crate::records::Release;
use crate::records::ReleaseView;
use crate::laws::law_downloads_bumped_wf;
use crate::laws::law_release_created_wf;
use crate::laws::law_release_deleted_wf;
use crate::store::ok_some_view;
use crate::store::ok_view;
use crate::store::releases_wf;
use crate::store::required;
use crate::store::rows_view;
use crate::store::Registry;
use crate::store::RegistryView;

verus! {

impl RegistryView {
    /// Whether the module has a release of this version.
    pub open spec fn has_release(self, module_id: int, version: Seq<char>) -> bool {
        exists|i: int|
            0 <= i < self.releases.len() && (#[trigger] self.releases[i]).module_id == module_id
                && self.releases[i].version == version
    }

    /// Where in the table the module's release of this version stands, if
    /// there is one.
    pub open spec fn release_position(self, module_id: int, version: Seq<char>) -> int {
        choose|i: int|
            0 <= i < self.releases.len() && (#[trigger] self.releases[i]).module_id == module_id
                && self.releases[i].version == version
    }

    /// The module's release of this version, if there is one.
    pub open spec fn release(self, module_id: int, version: Seq<char>) -> Option<ReleaseView> {
        if self.has_release(module_id, version) {
            Some(self.releases[self.release_position(module_id, version)])
        } else {
            None
        }
    }

    /// Whether a release has this id.
    pub open spec fn has_release_id(self, id: int) -> bool {
        exists|i: int| 0 <= i < self.releases.len() && (#[trigger] self.releases[i]).id == id
    }

    /// Where in the table the release with this id stands, if there is one.
    pub open spec fn release_id_position(self, id: int) -> int {
        choose|i: int| 0 <= i < self.releases.len() && (#[trigger] self.releases[i]).id == id
    }

    /// The release with this id, if there is one.
    pub open spec fn release_by_id(self, id: int) -> Option<ReleaseView> {
        if self.has_release_id(id) {
            Some(self.releases[self.release_id_position(id)])
        } else {
            None
        }
    }

    /// The row that storing `new` makes: the next id, no downloads yet, and
    /// the clock's time.
    pub open spec fn release_row(self, new: NewReleaseView) -> ReleaseView {
        ReleaseView {
            id: self.last_release_id + 1,
            module_id: new.module_id,
            version: new.version,
            downloads: 0,
            code: new.code,
            published: self.clock,
        }
    }

    /// What storing `new` returns: the new row, or an error:
    /// `UniqueConstraintViolation` where the module has this version
    /// already; failing that, `StorageError` where no module with this id is
    /// stored, or where the ids have run out.
    pub open spec fn release_create_result(self, new: NewReleaseView) -> Result<ReleaseView, RegistryError> {
        if self.has_release(new.module_id, new.version) {
            Err(RegistryError::UniqueConstraintViolation)
        } else if !self.has_module_id(new.module_id) || self.last_release_id >= i32::MAX {
            Err(RegistryError::StorageError)
        } else {
            Ok(self.release_row(new))
        }
    }

    /// The store after an attempt to store `new`: unchanged where that
    /// fails, else with the new row as the last one.
    pub open spec fn release_created(self, new: NewReleaseView) -> RegistryView {
        match self.release_create_result(new) {
            Ok(row) => RegistryView {
                releases: self.releases.push(row),
                last_release_id: self.last_release_id + 1,
                ..self
            },
            Err(_) => self,
        }
    }

    /// The store without the release that has this id.
    pub open spec fn release_deleted(self, id: int) -> RegistryView {
        if self.has_release_id(id) {
            RegistryView { releases: self.releases.remove(self.release_id_position(id)), ..self }
        } else {
            self
        }
    }

    /// What counting one more download of the release with this id returns:
    /// an error only where the count is at its limit.
    pub open spec fn bump_result(self, id: int) -> Result<(), RegistryError> {
        match self.release_by_id(id) {
            Some(row) => if row.downloads >= i32::MAX {
                Err(RegistryError::StorageError)
            } else {
                Ok(())
            },
            None => Ok(()),
        }
    }

    /// The store after one more download of the release with this id was
    /// counted: that row's count is one higher, and nothing else differs.
    /// Unchanged where there is no such release or its count is at the limit.
    pub open spec fn downloads_bumped(self, id: int) -> RegistryView {
        match self.release_by_id(id) {
            Some(row) => if row.downloads >= i32::MAX {
                self
            } else {
                RegistryView {
                    releases: self.releases.update(
                        self.release_id_position(id),
                        ReleaseView { downloads: row.downloads + 1, ..row },
                    ),
                    ..self
                }
            },
            None => self,
        }
    }

    /// Whether `row` is the release that was published last: a stored row
    /// with the greatest time and, among those with that time, the lowest id.
    pub open spec fn is_latest_release(self, row: ReleaseView) -> bool {
        &&& self.releases.contains(row)
        &&& forall|k: int|
            0 <= k < self.releases.len() ==> (#[trigger] self.releases[k]).published
                < row.published || (self.releases[k].published == row.published
                && self.releases[k].id >= row.id)
    }
}

/// In a well-formed table, module and version fix a release's position.
pub proof fn lemma_release_position(s: RegistryView, i: int)
    requires
        releases_wf(s.releases, s.last_release_id),
        0 <= i < s.releases.len(),
    ensures
        s.has_release(s.releases[i].module_id, s.releases[i].version),
        s.release_position(s.releases[i].module_id, s.releases[i].version) == i,
        s.release(s.releases[i].module_id, s.releases[i].version) == Some(s.releases[i]),
{
    let row = s.releases[i];
    let p = s.release_position(row.module_id, row.version);
    assert(s.releases[p].module_id == row.module_id && s.releases[p].version == row.version);
    if p < i {
        assert(!(s.releases[p].module_id == s.releases[i].module_id && s.releases[p].version
            == s.releases[i].version));
    } else if i < p {
        assert(!(s.releases[i].module_id == s.releases[p].module_id && s.releases[i].version
            == s.releases[p].version));
    }
}

/// In a well-formed table a release's id fixes its position.
pub proof fn lemma_release_id_position(s: RegistryView, i: int)
    requires
        releases_wf(s.releases, s.last_release_id),
        0 <= i < s.releases.len(),
    ensures
        s.has_release_id(s.releases[i].id),
        s.release_id_position(s.releases[i].id) == i,
        s.release_by_id(s.releases[i].id) == Some(s.releases[i]),
{
    let id = s.releases[i].id;
    let p = s.release_id_position(id);
    assert(s.releases[p].id == id);
    if p < i {
        assert(s.releases[p].id < s.releases[i].id);
    } else if i < p {
        assert(s.releases[i].id < s.releases[p].id);
    }
}

impl Registry {
    /// Where in the table the module's release of this version stands.
    pub(crate) fn release_index(&self, module_id: i32, version: &str) -> (found: Option<usize>)
        ensures
            match found {
                Some(i) => i < self@.releases.len() && self@.has_release(
                    module_id as int,
                    version@,
                ) && self@.release_position(module_id as int, version@) == i,
                None => !self@.has_release(module_id as int, version@),
            },
    {
        proof {
            use_type_invariant(self);
        }
        let key = version.to_owned();
        let mut i: usize = 0;
        while i < self.releases.len()
            invariant
                i <= self.releases.len(),
                key@ == version@,
                self@.wf(),
                forall|j: int|
                    0 <= j < i ==> !((#[trigger] self@.releases[j]).module_id == module_id
                        && self@.releases[j].version == version@),
            decreases self.releases.len() - i,
        {
            if self.releases[i].module_id == module_id && self.releases[i].version == key {
                proof {
                    lemma_release_position(self@, i as int);
                }
                return Some(i);
            }
            i += 1;
        }
        None
    }

    /// Where in the table the release with this id stands.
    pub(crate) fn release_id_index(&self, id: i32) -> (found: Option<usize>)
        ensures
            match found {
                Some(i) => i < self@.releases.len() && self@.has_release_id(id as int)
                    && self@.release_id_position(id as int) == i,
                None => !self@.has_release_id(id as int),
            },
    {
        proof {
            use_type_invariant(self);
        }
        let mut i: usize = 0;
        while i < self.releases.len()
            invariant
                i <= self.releases.len(),
                self@.wf(),
                forall|j: int| 0 <= j < i ==> (#[trigger] self@.releases[j]).id != id,
            decreases self.releases.len() - i,
        {
            if self.releases[i].id == id {
                proof {
                    lemma_release_id_position(self@, i as int);
                }
                return Some(i);
            }
            i += 1;
        }
        None
    }
}

impl Release {
    /// Stores a release made from `release`, with the next id, no downloads
    /// and the clock's time, and returns it. Fails where the module has this
    /// version already, where no such module is stored, or where the ids
    /// have run out.
    pub fn create(release: &NewRelease, store: &mut Registry) -> (result: Result<Release, RegistryError>)
        ensures
            ok_view(result) == old(store)@.release_create_result(release@),
            final(store)@ == old(store)@.release_created(release@),
            final(store)@.wf(),
    {
        proof {
            use_type_invariant(&*store);
            law_release_created_wf(store@, release@);
        }
        if store.release_index(release.module_id, release.version).is_some() {
            return Err(RegistryError::UniqueConstraintViolation);
        }
        if store.module_id_index(release.module_id).is_none() {
            return Err(RegistryError::StorageError);
        }
        if store.last_release_id == i32::MAX {
            return Err(RegistryError::StorageError);
        }
        let id: i32 = store.last_release_id + 1;
        let row = Release {
            id,
            module_id: release.module_id,
            version: release.version.to_owned(),
            downloads: 0,
            code: release.code.to_owned(),
            published: store.clock,
        };
        let stored = row.duplicate();
        let mut rows = store.take_releases();
        rows.push(stored);
        proof {
            assert(rows_view(rows@) =~= old(store)@.releases.push(row@));
        }
        store.put_releases(rows, id);
        Ok(row)
    }

    /// The module's release of this version, or [`RegistryError::NotFound`].
    pub fn find(module_id: i32, version: &str, store: &Registry) -> (result: Result<Release, RegistryError>)
        ensures
            ok_view(result) == required(store@.release(module_id as int, version@)),
    {
        match Release::try_find(module_id, version, store) {
            Ok(found) => or_not_found(found),
            Err(e) => Err(e),
        }
    }

    /// The module's release of this version, or `None` where there is none.
    pub fn try_find(module_id: i32, version: &str, store: &Registry) -> (result: Result<
        Option<Release>,
        RegistryError,
    >)
        ensures
            ok_some_view(result) == Ok::<Option<ReleaseView>, RegistryError>(
                store@.release(module_id as int, version@),
            ),
    {
        match store.release_index(module_id, version) {
            Some(i) => Ok(Some(store.releases[i].duplicate())),
            None => Ok(None),
        }
    }

    /// The release with this id, or [`RegistryError::NotFound`].
    pub fn id(id: i32, store: &Registry) -> (result: Result<Release, RegistryError>)
        ensures
            ok_view(result) == required(store@.release_by_id(id as int)),
    {
        match Release::id_opt(id, store) {
            Ok(found) => or_not_found(found),
            Err(e) => Err(e),
        }
    }

    /// The release with this id, or `None` where there is none.
    pub fn id_opt(id: i32, store: &Registry) -> (result: Result<Option<Release>, RegistryError>)
        ensures
            ok_some_view(result) == Ok::<Option<ReleaseView>, RegistryError>(
                store@.release_by_id(id as int),
            ),
    {
        match store.release_id_index(id) {
            Some(i) => Ok(Some(store.releases[i].duplicate())),
            None => Ok(None),
        }
    }

    /// Removes the release with this id. Where there is none, nothing changes.
    pub fn delete(id: i32, store: &mut Registry) -> (result: Result<(), RegistryError>)
        ensures
            result == Ok::<(), RegistryError>(()),
            final(store)@ == old(store)@.release_deleted(id as int),
            final(store)@.wf(),
    {
        proof {
            use_type_invariant(&*store);
            law_release_deleted_wf(store@, id as int);
        }
        match store.release_id_index(id) {
            Some(i) => {
                let last = store.last_release_id;
                let mut rows = store.take_releases();
                let _ = rows.remove(i);
                proof {
                    assert(rows_view(rows@) =~= old(store)@.releases.remove(i as int));
                }
                store.put_releases(rows, last);
            },
            None => {},
        }
        Ok(())
    }

    /// Counts one more download of the stored release that has this
    /// release's id: the stored count goes up by one from what it is in the
    /// store, whatever `self.downloads` says. Where no such release is stored,
    /// nothing changes. Fails where the count is at its limit.
    pub fn bump_downloads(&self, store: &mut Registry) -> (result: Result<(), RegistryError>)
        ensures
            result == old(store)@.bump_result(self.id as int),
            final(store)@ == old(store)@.downloads_bumped(self.id as int),
            final(store)@.wf(),
    {
        proof {
            use_type_invariant(&*store);
            law_downloads_bumped_wf(store@, self.id as int);
        }
        match store.release_id_index(self.id) {
            Some(i) => {
                if store.releases[i].downloads == i32::MAX {
                    return Err(RegistryError::StorageError);
                }
                let last = store.last_release_id;
                let mut rows = store.take_releases();
                let row = rows.remove(i);
                let bumped = Release { downloads: row.downloads + 1, ..row };
                rows.insert(i, bumped);
                proof {
                    let before = old(store)@.releases;
                    assert(rows_view(rows@) =~= before.update(
                        i as int,
                        ReleaseView { downloads: before[i as int].downloads + 1, ..before[i as int] },
                    ));
                }
                store.put_releases(rows, last);
                Ok(())
            },
            None => Ok(()),
        }
    }

    /// The release that was published last, of all modules, or `None` where
    /// the store holds no release. Of releases with the same time the one
    /// with the lowest id is returned.
    pub fn latest(store: &Registry) -> (result: Result<Option<Release>, RegistryError>)
        ensures
            match result {
                Ok(Some(row)) => store@.is_latest_release(row@),
                Ok(None) => store@.releases.len() == 0,
                Err(_) => false,
            },
    {
        proof {
            use_type_invariant(store);
        }
        if store.releases.len() == 0 {
            return Ok(None);
        }
        let mut best: usize = 0;
        let mut i: usize = 1;
        while i < store.releases.len()
            invariant
                0 <= best < i <= store.releases.len(),
                store@.wf(),
                forall|k: int|
                    0 <= k < i ==> (#[trigger] store@.releases[k]).published
                        < store@.releases[best as int].published || (store@.releases[k].published
                        == store@.releases[best as int].published && k >= best),
            decreases store.releases.len() - i,
        {
            if store.releases[i].published > store.releases[best].published {
                best = i;
            }
            i += 1;
        }
        let row = store.releases[best].duplicate();
        proof {
            let rows = store@.releases;
            assert(rows[best as int] == row@);
            assert forall|k: int| 0 <= k < rows.len() implies (#[trigger] rows[k]).published
                < row@.published || (rows[k].published == row@.published && rows[k].id
                >= row@.id) by {
                if k > best {
                    assert(rows[best as int].id < rows[k].id);
                }
            }
        }
        Ok(Some(row))
    }
}

} // verus!
