//! What holds of the store whatever it contains: every operation keeps it
//! well-formed, and the operations fit together as their callers expect.

use vstd::prelude::*;
use crate::auth_tokens::lemma_token_position;
use crate::errors::RegistryError;
use crate::modules::lemma_module_id_position;
use crate::modules::lemma_module_position;
use crate::modules::lemma_module_replaced_wf;
use crate::modules::releases_without;
use crate::records::AuthTokenView;
use crate::records::ModuleView;
use crate::records::NewModuleView;
use crate::records::NewReleaseView;
use crate::records::ReleaseView;
use crate::releases::lemma_release_id_position;
use crate::releases::lemma_release_position;
use crate::search::lists_before;
use crate::search::ranks_before;
use crate::store::releases_wf;
use crate::store::required;
use crate::store::RegistryView;
use crate::text::lemma_text_lt_asymmetric;
use crate::text::lemma_text_lt_irreflexive;
use crate::text::query_matches;

verus! {

/// The empty store is well-formed.
pub proof fn law_empty_wf()
    ensures
        RegistryView::empty().wf(),
{
}

/// Storing a token keeps the store well-formed.
pub proof fn law_token_created_wf(s: RegistryView, token: AuthTokenView)
    requires
        s.wf(),
    ensures
        s.token_created(token).wf(),
{
    if !s.has_token(token.id) {
        let before = s.auth_tokens;
        let after = s.token_created(token).auth_tokens;
        assert forall|i: int, j: int| 0 <= i < j < after.len() implies after[i].id
            != after[j].id by {
            if j == before.len() {
                assert(before[i].id != token.id);
            } else {
                assert(before[i].id != before[j].id);
            }
        }
    }
}

/// Deleting a token keeps the store well-formed.
pub proof fn law_token_deleted_wf(s: RegistryView, id: Seq<char>)
    requires
        s.wf(),
    ensures
        s.token_deleted(id).wf(),
{
    if s.has_token(id) {
        let p = s.token_position(id);
        let before = s.auth_tokens;
        let after = s.token_deleted(id).auth_tokens;
        assert forall|a: int, b: int| 0 <= a < b < after.len() implies after[a].id
            != after[b].id by {
            let a0 = if a < p { a } else { a + 1 };
            let b0 = if b < p { b } else { b + 1 };
            assert(before[a0].id != before[b0].id);
        }
    }
}

/// A token that was stored is read back as it was stored.
pub proof fn law_token_create_then_read(s: RegistryView, token: AuthTokenView)
    requires
        s.wf(),
        s.token_create_result(token) is Ok,
    ensures
        s.token_created(token).token(token.id) == Some(token),
        required(s.token_created(token).token(token.id)) == Ok::<AuthTokenView, RegistryError>(token),
{
    law_token_created_wf(s, token);
    let after = s.token_created(token);
    assert(after.auth_tokens[s.auth_tokens.len() as int] == token);
    lemma_token_position(after, s.auth_tokens.len() as int);
}

/// After a token was deleted, a lookup by its id finds nothing: the lookup
/// that must find a row reports `NotFound`, the other returns `None`.
pub proof fn law_token_delete_then_read(s: RegistryView, id: Seq<char>)
    requires
        s.wf(),
    ensures
        s.token_deleted(id).token(id) is None,
        required(s.token_deleted(id).token(id)) == Err::<AuthTokenView, RegistryError>(RegistryError::NotFound),
{
    let after = s.token_deleted(id);
    if s.has_token(id) {
        let p = s.token_position(id);
        if after.has_token(id) {
            let q = after.token_position(id);
            let q0 = if q < p { q } else { q + 1 };
            assert(after.auth_tokens[q] == s.auth_tokens[q0]);
            lemma_token_position(s, q0);
        }
    }
}

/// Storing a module keeps the store well-formed.
pub proof fn law_module_created_wf(s: RegistryView, new: NewModuleView)
    requires
        s.wf(),
    ensures
        s.module_created(new).wf(),
{
    if s.module_create_result(new) is Ok {
        let before = s.modules;
        let after = s.module_created(new).modules;
        assert forall|i: int| 0 <= i < after.len() implies 1 <= (#[trigger] after[i]).id
            <= s.last_module_id + 1 by {
            if i < before.len() {
                assert(after[i] == before[i]);
            }
        }
        assert forall|a: int, b: int| 0 <= a < b < after.len() implies after[a].id < after[b].id
            && !(after[a].author == after[b].author && after[a].name == after[b].name) by {
            assert(after[a] == before[a]);
            if b == before.len() {
                assert(!(before[a].author == new.author && before[a].name == new.name));
            } else {
                assert(after[b] == before[b]);
            }
        }
        assert forall|k: int| 0 <= k < s.releases.len() implies s.module_created(
            new,
        ).has_module_id((#[trigger] s.releases[k]).module_id) by {
            let at = s.module_id_position(s.releases[k].module_id);
            assert(after[at] == before[at]);
        }
    }
}

/// Publishing a description keeps the store well-formed.
pub proof fn law_module_upserted_wf(
    s: RegistryView,
    author: Seq<char>,
    name: Seq<char>,
    description: Seq<char>,
)
    requires
        s.wf(),
    ensures
        s.module_upserted(author, name, description).wf(),
{
    if s.has_module(author, name) {
        let p = s.module_position(author, name);
        lemma_module_replaced_wf(s, p, ModuleView { description, ..s.modules[p] });
    } else {
        law_module_created_wf(s, NewModuleView { author, name, description, latest: None });
    }
}

/// What is left of the releases when one module's are taken away: a
/// well-formed table again, of releases of other modules alone, with every
/// such release of the table in it and nothing besides.
pub proof fn law_releases_without(releases: Seq<ReleaseView>, last: int, module_id: int)
    requires
        releases_wf(releases, last),
    ensures
        releases_wf(releases_without(releases, module_id), last),
        forall|i: int|
            0 <= i < releases_without(releases, module_id).len() ==> (#[trigger] releases_without(
                releases,
                module_id,
            )[i]).module_id != module_id && releases.contains(
                releases_without(releases, module_id)[i],
            ),
        forall|k: int|
            0 <= k < releases.len() && (#[trigger] releases[k]).module_id != module_id
                ==> releases_without(releases, module_id).contains(releases[k]),
    decreases releases.len(),
{
    let kept = releases_without(releases, module_id);
    if releases.len() > 0 {
        let front = releases.drop_last();
        let rest = releases_without(front, module_id);
        let end = releases.last();
        assert(releases_wf(front, last)) by {
            assert forall|i: int| 0 <= i < front.len() implies 1 <= (#[trigger] front[i]).id
                <= last && 0 <= front[i].downloads <= i32::MAX by {
                assert(front[i] == releases[i]);
            }
            assert forall|a: int, b: int| 0 <= a < b < front.len() implies front[a].id
                < front[b].id && !(front[a].module_id == front[b].module_id && front[a].version
                == front[b].version) by {
                assert(front[a] == releases[a] && front[b] == releases[b]);
            }
        }
        law_releases_without(front, last, module_id);
        assert forall|i: int| 0 <= i < kept.len() implies (#[trigger] kept[i]).module_id
            != module_id && releases.contains(kept[i]) by {
            if i < rest.len() {
                assert(kept[i] == rest[i]);
                let at = choose|at: int| 0 <= at < front.len() && front[at] == rest[i];
                assert(releases[at] == kept[i]);
            } else {
                assert(kept[i] == end);
                assert(releases[releases.len() - 1] == end);
            }
        }
        assert forall|k: int|
            0 <= k < releases.len() && (#[trigger] releases[k]).module_id
                != module_id implies kept.contains(releases[k]) by {
            if k < front.len() {
                assert(front[k] == releases[k]);
                let at = choose|at: int| 0 <= at < rest.len() && rest[at] == front[k];
                assert(kept[at] == releases[k]);
            } else {
                assert(kept[kept.len() - 1] == releases[k]);
            }
        }
        if end.module_id != module_id {
            assert forall|i: int| 0 <= i < kept.len() implies 1 <= (#[trigger] kept[i]).id <= last
                && 0 <= kept[i].downloads <= i32::MAX by {
                if i < rest.len() {
                    assert(kept[i] == rest[i]);
                } else {
                    assert(kept[i] == releases[releases.len() - 1]);
                }
            }
            assert forall|a: int, b: int| 0 <= a < b < kept.len() implies kept[a].id < kept[b].id
                && !(kept[a].module_id == kept[b].module_id && kept[a].version
                == kept[b].version) by {
                assert(kept[a] == rest[a]);
                if b < rest.len() {
                    assert(kept[b] == rest[b]);
                } else {
                    let at = choose|at: int| 0 <= at < front.len() && front[at] == rest[a];
                    assert(releases[at] == kept[a]);
                    assert(releases[releases.len() - 1] == kept[b]);
                }
            }
        }
    }
}

/// Deleting a module keeps the store well-formed.
pub proof fn law_module_deleted_wf(s: RegistryView, id: int)
    requires
        s.wf(),
    ensures
        s.module_deleted(id).wf(),
{
    if s.has_module_id(id) {
        let p = s.module_id_position(id);
        let before = s.modules;
        let gone = s.module_deleted(id);
        let after = gone.modules;
        assert forall|k: int| 0 <= k < after.len() implies 1 <= (#[trigger] after[k]).id
            <= s.last_module_id by {
            let k0 = if k < p { k } else { k + 1 };
            assert(after[k] == before[k0]);
        }
        assert forall|a: int, b: int| 0 <= a < b < after.len() implies after[a].id < after[b].id
            && !(after[a].author == after[b].author && after[a].name == after[b].name) by {
            let a0 = if a < p { a } else { a + 1 };
            let b0 = if b < p { b } else { b + 1 };
            assert(after[a] == before[a0] && after[b] == before[b0]);
        }
        law_releases_without(s.releases, s.last_release_id, id);
        assert forall|k: int| 0 <= k < gone.releases.len() implies gone.has_module_id(
            (#[trigger] gone.releases[k]).module_id,
        ) by {
            let row = gone.releases[k];
            let at = choose|at: int| 0 <= at < s.releases.len() && s.releases[at] == row;
            assert(s.has_module_id(s.releases[at].module_id));
            let m = s.module_id_position(row.module_id);
            assert(before[m].id == row.module_id);
            let m1 = if m < p { m } else { m - 1 };
            assert(after[m1] == before[m]);
        }
    }
}

/// Deleting a module removes its releases and no others: no release of
/// the module is left, and every release of another module stays.
pub proof fn law_module_delete_cascades(s: RegistryView, id: int)
    requires
        s.wf(),
        s.has_module_id(id),
    ensures
        !s.module_deleted(id).has_module_id(id),
        forall|k: int|
            0 <= k < s.module_deleted(id).releases.len() ==> (#[trigger] s.module_deleted(
                id,
            ).releases[k]).module_id != id,
        forall|k: int|
            0 <= k < s.releases.len() && (#[trigger] s.releases[k]).module_id != id
                ==> s.module_deleted(id).releases.contains(s.releases[k]),
{
    law_releases_without(s.releases, s.last_release_id, id);
    let p = s.module_id_position(id);
    let gone = s.module_deleted(id);
    if gone.has_module_id(id) {
        let q = gone.module_id_position(id);
        let q0 = if q < p { q } else { q + 1 };
        assert(gone.modules[q] == s.modules[q0]);
        lemma_module_id_position(s, q0);
    }
}

/// Pointing a module to its latest version keeps the store well-formed.
pub proof fn law_latest_set_wf(s: RegistryView, id: int, version: Seq<char>)
    requires
        s.wf(),
    ensures
        s.latest_set(id, version).wf(),
{
    if s.has_module_id(id) {
        let p = s.module_id_position(id);
        lemma_module_replaced_wf(s, p, ModuleView { latest: Some(version), ..s.modules[p] });
    }
}

/// Marking a module as featured or not keeps the store well-formed.
pub proof fn law_featured_set_wf(s: RegistryView, id: int, featured: bool)
    requires
        s.wf(),
    ensures
        s.featured_set(id, featured).wf(),
{
    if s.has_module_id(id) {
        let p = s.module_id_position(id);
        lemma_module_replaced_wf(s, p, ModuleView { featured, ..s.modules[p] });
    }
}

/// Storing a release keeps the store well-formed.
pub proof fn law_release_created_wf(s: RegistryView, new: NewReleaseView)
    requires
        s.wf(),
    ensures
        s.release_created(new).wf(),
{
    if s.release_create_result(new) is Ok {
        let before = s.releases;
        let after = s.release_created(new).releases;
        assert forall|i: int| 0 <= i < after.len() implies 1 <= (#[trigger] after[i]).id
            <= s.last_release_id + 1 && 0 <= after[i].downloads <= i32::MAX by {
            if i < before.len() {
                assert(after[i] == before[i]);
            }
        }
        assert forall|a: int, b: int| 0 <= a < b < after.len() implies after[a].id < after[b].id
            && !(after[a].module_id == after[b].module_id && after[a].version
            == after[b].version) by {
            assert(after[a] == before[a]);
            if b == before.len() {
                assert(!(before[a].module_id == new.module_id && before[a].version
                    == new.version));
            } else {
                assert(after[b] == before[b]);
            }
        }
    }
}

/// Deleting a release keeps the store well-formed.
pub proof fn law_release_deleted_wf(s: RegistryView, id: int)
    requires
        s.wf(),
    ensures
        s.release_deleted(id).wf(),
{
    if s.has_release_id(id) {
        let p = s.release_id_position(id);
        let before = s.releases;
        let after = s.release_deleted(id).releases;
        assert forall|k: int| 0 <= k < after.len() implies 1 <= (#[trigger] after[k]).id
            <= s.last_release_id && 0 <= after[k].downloads <= i32::MAX by {
            let k0 = if k < p { k } else { k + 1 };
            assert(after[k] == before[k0]);
        }
        assert forall|a: int, b: int| 0 <= a < b < after.len() implies after[a].id < after[b].id
            && !(after[a].module_id == after[b].module_id && after[a].version
            == after[b].version) by {
            let a0 = if a < p { a } else { a + 1 };
            let b0 = if b < p { b } else { b + 1 };
            assert(after[a] == before[a0] && after[b] == before[b0]);
        }
    }
}

/// Counting a download keeps the store well-formed.
pub proof fn law_downloads_bumped_wf(s: RegistryView, id: int)
    requires
        s.wf(),
    ensures
        s.downloads_bumped(id).wf(),
{
    if s.has_release_id(id) {
        let p = s.release_id_position(id);
        let before = s.releases;
        let after = s.downloads_bumped(id).releases;
        if before[p].downloads < i32::MAX {
            assert forall|k: int| 0 <= k < after.len() implies 1 <= (#[trigger] after[k]).id
                <= s.last_release_id && 0 <= after[k].downloads <= i32::MAX by {
                assert(after[k].id == before[k].id);
            }
            assert forall|a: int, b: int| 0 <= a < b < after.len() implies after[a].id
                < after[b].id && !(after[a].module_id == after[b].module_id && after[a].version
                == after[b].version) by {
                assert(after[a].id == before[a].id && after[b].id == before[b].id);
                assert(after[a].module_id == before[a].module_id && after[b].module_id
                    == before[b].module_id);
                assert(after[a].version == before[a].version && after[b].version
                    == before[b].version);
            }
        }
    }
}

/// Adding a version keeps the store well-formed.
pub proof fn law_version_added_wf(
    s: RegistryView,
    module_id: int,
    version: Seq<char>,
    code: Seq<char>,
)
    requires
        s.wf(),
    ensures
        s.version_added(module_id, version, code).wf(),
{
    let new = NewReleaseView { module_id, version, code };
    law_release_created_wf(s, new);
    law_latest_set_wf(s.release_created(new), module_id, version);
}

/// Publishing under one author and name twice leaves a single module of
/// that author and name: it has the second description, and the id that it
/// had after the first call. The second call adds no row and cannot fail.
pub proof fn law_upsert_twice(
    s: RegistryView,
    author: Seq<char>,
    name: Seq<char>,
    first: Seq<char>,
    second: Seq<char>,
)
    requires
        s.wf(),
        s.module_upsert_result(author, name, first) is Ok,
    ensures
        ({
            let once = s.module_upserted(author, name, first);
            let twice = once.module_upserted(author, name, second);
            let row = s.module_upsert_result(author, name, first)->Ok_0;
            &&& once.module(author, name) == Some(row)
            &&& row.description == first
            &&& once.module_upsert_result(author, name, second) == Ok::<ModuleView, RegistryError>(
                ModuleView { description: second, ..row },
            )
            &&& twice.module(author, name) == Some(ModuleView { description: second, ..row })
            &&& twice.modules.len() == once.modules.len()
            &&& twice.last_module_id == once.last_module_id
            &&& forall|i: int, j: int|
                #![trigger twice.modules[i], twice.modules[j]]
                0 <= i < twice.modules.len() && 0 <= j < twice.modules.len()
                    && twice.modules[i].author == author && twice.modules[i].name == name
                    && twice.modules[j].author == author && twice.modules[j].name == name ==> i
                    == j
        }),
{
    let once = s.module_upserted(author, name, first);
    let twice = once.module_upserted(author, name, second);
    let row = s.module_upsert_result(author, name, first)->Ok_0;
    law_module_upserted_wf(s, author, name, first);
    law_module_upserted_wf(once, author, name, second);
    let p = if s.has_module(author, name) {
        s.module_position(author, name)
    } else {
        s.modules.len() as int
    };
    assert(once.modules[p] == row);
    lemma_module_position(once, p);
    assert(twice.modules[p] == ModuleView { description: second, ..row });
    lemma_module_position(twice, p);
    assert forall|i: int, j: int|
        0 <= i < twice.modules.len() && 0 <= j < twice.modules.len() && twice.modules[i].author
            == author && twice.modules[i].name == name && twice.modules[j].author == author
            && twice.modules[j].name == name implies i == j by {
        lemma_module_position(twice, i);
        lemma_module_position(twice, j);
    }
}

/// A version can be added to a stored module alone; after that the module
/// points to the version as its latest and is otherwise as before, and the
/// release is stored with the code, as one row more.
pub proof fn law_add_version_sets_latest(
    s: RegistryView,
    module_id: int,
    version: Seq<char>,
    code: Seq<char>,
)
    requires
        s.wf(),
        s.version_add_result(module_id, version, code) is Ok,
    ensures
        s.has_module_id(module_id),
        ({
            let after = s.version_added(module_id, version, code);
            &&& after.module_by_id(module_id) == Some(
                ModuleView { latest: Some(version), ..s.module_by_id(module_id)->0 },
            )
            &&& after.release(module_id, version) == Some(
                s.release_row(NewReleaseView { module_id, version, code }),
            )
            &&& after.releases == s.releases.push(
                s.release_row(NewReleaseView { module_id, version, code }),
            )
            &&& after.last_release_id == s.last_release_id + 1
        }),
{
    let new = NewReleaseView { module_id, version, code };
    let stored = s.release_created(new);
    let after = s.version_added(module_id, version, code);
    law_release_created_wf(s, new);
    law_latest_set_wf(stored, module_id, version);
    let p = s.module_id_position(module_id);
    assert(stored.modules[p].id == module_id);
    lemma_module_id_position(stored, p);
    lemma_module_id_position(after, p);
    lemma_release_position(after, s.releases.len() as int);
}

/// Two different versions added one after the other: where the first is
/// accepted, the module does not have the second yet, and two release ids
/// are left, the second is accepted too. The module then points to the
/// second as its latest, and both releases are stored, as two rows more. A
/// module that had no release before has these two and no other.
pub proof fn law_add_two_versions(
    s: RegistryView,
    module_id: int,
    first: Seq<char>,
    first_code: Seq<char>,
    second: Seq<char>,
    second_code: Seq<char>,
)
    requires
        s.wf(),
        s.version_add_result(module_id, first, first_code) is Ok,
        first != second,
        !s.has_release(module_id, second),
        s.last_release_id + 2 <= i32::MAX,
    ensures
        ({
            let once = s.version_added(module_id, first, first_code);
            let after = once.version_added(module_id, second, second_code);
            &&& once.version_add_result(module_id, second, second_code) == Ok::<
                (),
                RegistryError,
            >(())
            &&& after.module_by_id(module_id) is Some
            &&& after.module_by_id(module_id)->0.latest == Some(second)
            &&& after.has_release(module_id, first)
            &&& after.has_release(module_id, second)
            &&& after.releases.len() == s.releases.len() + 2
            &&& (forall|k: int|
                0 <= k < s.releases.len() ==> (#[trigger] s.releases[k]).module_id != module_id)
                ==> (forall|k: int|
                0 <= k < after.releases.len() && (#[trigger] after.releases[k]).module_id
                    == module_id ==> after.releases[k].version == first
                    || after.releases[k].version == second)
        }),
{
    let once = s.version_added(module_id, first, first_code);
    let after = once.version_added(module_id, second, second_code);
    let n = s.releases.len() as int;
    law_version_added_wf(s, module_id, first, first_code);
    law_add_version_sets_latest(s, module_id, first, first_code);
    assert(once.has_module_id(module_id));
    assert(!once.has_release(module_id, second)) by {
        if once.has_release(module_id, second) {
            let k = once.release_position(module_id, second);
            if k < n {
                assert(s.releases[k] == once.releases[k]);
            }
        }
    }
    law_add_version_sets_latest(once, module_id, second, second_code);
    assert(after.releases[n] == once.releases[n]);
    assert(after.releases[n].module_id == module_id && after.releases[n].version == first);
    if forall|k: int| 0 <= k < n ==> (#[trigger] s.releases[k]).module_id != module_id {
        assert forall|k: int|
            0 <= k < after.releases.len() && (#[trigger] after.releases[k]).module_id
                == module_id implies after.releases[k].version == first
            || after.releases[k].version == second by {
            if k < n {
                assert(after.releases[k] == s.releases[k]);
            }
        }
    }
}

/// A release for a module that is not stored is refused, and the store
/// stays as it was; so is a version to add to such a module.
pub proof fn law_release_needs_module(s: RegistryView, new: NewReleaseView)
    requires
        s.wf(),
        !s.has_module_id(new.module_id),
    ensures
        s.release_create_result(new) == Err::<ReleaseView, RegistryError>(
            RegistryError::StorageError,
        ),
        s.release_created(new) == s,
        s.version_add_result(new.module_id, new.version, new.code) == Err::<(), RegistryError>(
            RegistryError::StorageError,
        ),
        s.version_added(new.module_id, new.version, new.code) == s,
{
    if s.has_release(new.module_id, new.version) {
        let k = s.release_position(new.module_id, new.version);
        assert(s.has_module_id(s.releases[k].module_id));
    }
}

/// A version that the module has already is refused, both as a release and
/// as a version to add, and the store stays as it was, the module's latest
/// version with it.
pub proof fn law_duplicate_version_rejected(
    s: RegistryView,
    module_id: int,
    version: Seq<char>,
    code: Seq<char>,
)
    requires
        s.has_release(module_id, version),
    ensures
        s.release_create_result(NewReleaseView { module_id, version, code }) == Err::<
            ReleaseView,
            RegistryError,
        >(RegistryError::UniqueConstraintViolation),
        s.release_created(NewReleaseView { module_id, version, code }) == s,
        s.version_add_result(module_id, version, code) == Err::<(), RegistryError>(
            RegistryError::UniqueConstraintViolation,
        ),
        s.version_added(module_id, version, code) == s,
{
}

/// An author and name that are taken are refused for a new module, and the
/// store stays as it was.
pub proof fn law_duplicate_module_rejected(s: RegistryView, new: NewModuleView)
    requires
        s.has_module(new.author, new.name),
    ensures
        s.module_create_result(new) == Err::<ModuleView, RegistryError>(RegistryError::UniqueConstraintViolation),
        s.module_created(new) == s,
{
}

/// The store after `n` downloads of the release with this id were counted,
/// one after the other.
pub open spec fn bumped_times(s: RegistryView, id: int, n: nat) -> RegistryView
    decreases n,
{
    if n == 0 {
        s
    } else {
        bumped_times(s, id, (n - 1) as nat).downloads_bumped(id)
    }
}

/// Counting `n` downloads of a stored release, in whatever order the calls
/// come, leaves its count exactly `n` higher, as long as the count stays
/// within its limit; nothing else of the release changes.
pub proof fn law_bump_downloads_adds_up(s: RegistryView, id: int, n: nat)
    requires
        s.wf(),
        s.has_release_id(id),
        s.release_by_id(id)->0.downloads + n <= i32::MAX,
    ensures
        bumped_times(s, id, n).wf(),
        bumped_times(s, id, n).release_by_id(id) == Some(
            ReleaseView {
                downloads: s.release_by_id(id)->0.downloads + n,
                ..s.release_by_id(id)->0
            },
        ),
        bumped_times(s, id, n).release_id_position(id) == s.release_id_position(id),
        n > 0 ==> bumped_times(s, id, (n - 1) as nat).bump_result(id) == Ok::<(), RegistryError>(()),
    decreases n,
{
    let p = s.release_id_position(id);
    if n > 0 {
        let before = bumped_times(s, id, (n - 1) as nat);
        law_bump_downloads_adds_up(s, id, (n - 1) as nat);
        law_downloads_bumped_wf(before, id);
        let after = before.downloads_bumped(id);
        assert(before.has_release_id(id));
        assert(after.releases[p].id == id);
        lemma_release_id_position(after, p);
    }
}

/// Counting a download never lowers a release's count.
pub proof fn law_downloads_never_decrease(s: RegistryView, id: int, k: int)
    requires
        s.wf(),
        0 <= k < s.releases.len(),
    ensures
        s.downloads_bumped(id).releases.len() == s.releases.len(),
        s.downloads_bumped(id).releases[k].downloads >= s.releases[k].downloads,
        s.downloads_bumped(id).releases[k].id == s.releases[k].id,
{
}

/// In what a search returns, every entry is a stored module that the query
/// matches, with its total downloads; a featured module stands before every
/// one that is not, whatever their downloads; and of two modules that are
/// both featured, or both not, the one with more downloads stands first.
pub proof fn law_search_ranking(
    s: RegistryView,
    query: Seq<char>,
    hits: Seq<(ModuleView, int)>,
    i: int,
    j: int,
)
    requires
        s.is_search_result(query, hits),
        0 <= i < hits.len(),
        0 <= j < hits.len(),
    ensures
        s.modules.contains(hits[i].0),
        query_matches(query, hits[i].0.name, hits[i].0.description),
        hits[i].1 == s.total_downloads(hits[i].0.id),
        hits[i].0.featured && !hits[j].0.featured ==> i < j,
        hits[i].0.featured == hits[j].0.featured && hits[i].1 > hits[j].1 ==> i < j,
{
    if j < i {
        assert(ranks_before(hits[j], hits[i]));
    }
}

/// The list of featured modules holds featured modules only, and all of
/// them, and of two entries the one earlier in the order of author and name
/// stands first, whatever their downloads.
pub proof fn law_quickstart_order(s: RegistryView, list: Seq<ModuleView>, i: int, j: int)
    requires
        s.is_quickstart(list),
        0 <= i < list.len(),
        0 <= j < list.len(),
    ensures
        s.modules.contains(list[i]),
        list[i].featured,
        forall|k: int|
            0 <= k < s.modules.len() && (#[trigger] s.modules[k]).featured ==> list.contains(
                s.modules[k],
            ),
        lists_before(list[i], list[j]) ==> i < j,
{
    if j < i {
        assert(lists_before(list[j], list[i]));
        if lists_before(list[i], list[j]) {
            let a = list[i];
            let b = list[j];
            if crate::text::text_lt(a.author, b.author) {
                lemma_text_lt_irreflexive(a.author);
                if crate::text::text_lt(b.author, a.author) {
                    lemma_text_lt_asymmetric(a.author, b.author);
                }
            } else {
                lemma_text_lt_irreflexive(a.author);
                if crate::text::text_lt(b.author, a.author) {
                } else {
                    lemma_text_lt_asymmetric(a.name, b.name);
                }
            }
        }
    } else if i == j {
        if lists_before(list[i], list[j]) {
            lemma_text_lt_irreflexive(list[i].author);
            lemma_text_lt_irreflexive(list[i].name);
        }
    }
}

/// Two lists that hold the same entries, each in the order of a relation
/// that no two entries satisfy both ways, are the same list up to the
/// length of the first.
proof fn lemma_ordered_prefix<T>(a: Seq<T>, b: Seq<T>, before: spec_fn(T, T) -> bool, n: int)
    requires
        0 <= n <= a.len(),
        forall|i: int, j: int|
            #![trigger a[i], a[j]]
            0 <= i < j < a.len() ==> before(a[i], a[j]),
        forall|i: int, j: int|
            #![trigger b[i], b[j]]
            0 <= i < j < b.len() ==> before(b[i], b[j]),
        forall|i: int| 0 <= i < a.len() ==> b.contains(#[trigger] a[i]),
        forall|i: int| 0 <= i < b.len() ==> a.contains(#[trigger] b[i]),
        forall|x: T, y: T| !(#[trigger] before(x, y) && before(y, x)),
    ensures
        n <= b.len(),
        forall|i: int| 0 <= i < n ==> a[i] == b[i],
    decreases n,
{
    if n > 0 {
        lemma_ordered_prefix(a, b, before, n - 1);
        let x = a[n - 1];
        assert(b.contains(x));
        let j = choose|j: int| 0 <= j < b.len() && b[j] == x;
        if j < n - 1 {
            assert(a[j] == b[j]);
            assert(before(a[j], a[n - 1]));
            assert(!(before(x, x) && before(x, x)));
        }
        let y = b[n - 1];
        assert(a.contains(y));
        let k = choose|k: int| 0 <= k < a.len() && a[k] == y;
        if k < n - 1 {
            assert(a[k] == b[k]);
            assert(before(b[k], b[n - 1]));
            assert(!(before(y, y) && before(y, y)));
        }
        if j > n - 1 && k > n - 1 {
            assert(before(b[n - 1], b[j]));
            assert(before(a[n - 1], a[k]));
            assert(!(before(x, y) && before(y, x)));
        }
    }
}

/// A search has one result: two lists that both are what a search for
/// `query` returns are the same list.
pub proof fn law_search_result_unique(
    s: RegistryView,
    query: Seq<char>,
    first: Seq<(ModuleView, int)>,
    second: Seq<(ModuleView, int)>,
)
    requires
        s.is_search_result(query, first),
        s.is_search_result(query, second),
    ensures
        first == second,
{
    let before = |a: (ModuleView, int), b: (ModuleView, int)| ranks_before(a, b);
    assert forall|i: int| 0 <= i < first.len() implies second.contains(#[trigger] first[i]) by {
        assert(s.is_hit(query, first[i]));
        let k = choose|k: int| 0 <= k < s.modules.len() && s.modules[k] == first[i].0;
        assert(second.contains((s.modules[k], s.total_downloads(s.modules[k].id))));
    }
    assert forall|i: int| 0 <= i < second.len() implies first.contains(#[trigger] second[i]) by {
        assert(s.is_hit(query, second[i]));
        let k = choose|k: int| 0 <= k < s.modules.len() && s.modules[k] == second[i].0;
        assert(first.contains((s.modules[k], s.total_downloads(s.modules[k].id))));
    }
    assert forall|i: int, j: int|
        #![trigger first[i], first[j]]
        0 <= i < j < first.len() implies before(first[i], first[j]) by {
        assert(ranks_before(first[i], first[j]));
    }
    assert forall|i: int, j: int|
        #![trigger second[i], second[j]]
        0 <= i < j < second.len() implies before(second[i], second[j]) by {
        assert(ranks_before(second[i], second[j]));
    }
    lemma_ordered_prefix(first, second, before, first.len() as int);
    lemma_ordered_prefix(second, first, before, second.len() as int);
    assert(first =~= second);
}

/// There is one list of featured modules: two lists that both are what
/// the store lists are the same list.
pub proof fn law_quickstart_unique(s: RegistryView, first: Seq<ModuleView>, second: Seq<ModuleView>)
    requires
        s.is_quickstart(first),
        s.is_quickstart(second),
    ensures
        first == second,
{
    let before = |a: ModuleView, b: ModuleView| lists_before(a, b);
    assert forall|i: int| 0 <= i < first.len() implies second.contains(#[trigger] first[i]) by {
        let k = choose|k: int| 0 <= k < s.modules.len() && s.modules[k] == first[i];
        assert(second.contains(s.modules[k]));
    }
    assert forall|i: int| 0 <= i < second.len() implies first.contains(#[trigger] second[i]) by {
        let k = choose|k: int| 0 <= k < s.modules.len() && s.modules[k] == second[i];
        assert(first.contains(s.modules[k]));
    }
    assert forall|i: int, j: int|
        #![trigger first[i], first[j]]
        0 <= i < j < first.len() implies before(first[i], first[j]) by {
        assert(lists_before(first[i], first[j]));
    }
    assert forall|i: int, j: int|
        #![trigger second[i], second[j]]
        0 <= i < j < second.len() implies before(second[i], second[j]) by {
        assert(lists_before(second[i], second[j]));
    }
    assert forall|x: ModuleView, y: ModuleView| !(#[trigger] before(x, y) && before(y, x)) by {
        if lists_before(x, y) && lists_before(y, x) {
            lemma_text_lt_irreflexive(x.author);
            lemma_text_lt_irreflexive(x.name);
            if crate::text::text_lt(x.author, y.author) {
                lemma_text_lt_asymmetric(x.author, y.author);
            } else {
                lemma_text_lt_asymmetric(x.name, y.name);
            }
        }
    }
    lemma_ordered_prefix(first, second, before, first.len() as int);
    lemma_ordered_prefix(second, first, before, second.len() as int);
    assert(first =~= second);
}

/// A module without releases has no downloads: its total is 0, so a search
/// that matches it lists it with 0.
pub proof fn law_no_releases_no_downloads(releases: Seq<ReleaseView>, module_id: int)
    requires
        forall|k: int| 0 <= k < releases.len() ==> (#[trigger] releases[k]).module_id != module_id,
    ensures
        crate::search::downloads_sum(releases, module_id) == 0,
    decreases releases.len(),
{
    if releases.len() > 0 {
        assert(releases.last() == releases[releases.len() - 1]);
        assert forall|k: int| 0 <= k < releases.drop_last().len() implies (
        #[trigger] releases.drop_last()[k]).module_id != module_id by {
            assert(releases.drop_last()[k] == releases[k]);
        }
        law_no_releases_no_downloads(releases.drop_last(), module_id);
    }
}

/// A store has one release that was published last: two rows that both
/// are it are the same row.
pub proof fn law_latest_release_unique(s: RegistryView, first: ReleaseView, second: ReleaseView)
    requires
        s.wf(),
        s.is_latest_release(first),
        s.is_latest_release(second),
    ensures
        first == second,
{
    let i = choose|i: int| 0 <= i < s.releases.len() && s.releases[i] == first;
    let j = choose|j: int| 0 <= j < s.releases.len() && s.releases[j] == second;
    assert(s.releases[i].id == first.id && s.releases[j].id == second.id);
    if i < j {
        assert(s.releases[i].id < s.releases[j].id);
    } else if j < i {
        assert(s.releases[j].id < s.releases[i].id);
    }
}

} // verus!
