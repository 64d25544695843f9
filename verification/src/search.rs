//! The two listings of modules: the ranked full-text search and the
//! alphabetical list of featured modules.

use vstd::prelude::*;
use crate::errors::RegistryError;
use crate::records::Module;
use crate::records::ModuleView;
use crate::records::ReleaseView;
use crate::store::releases_wf;
use crate::store::rows_view;
use crate::store::Registry;
use crate::store::RegistryView;
use crate::text::lemma_text_lt_total;
use crate::text::lemma_text_lt_transitive;
use crate::text::query_matches;
use crate::text::matches_terms;
use crate::text::text_before;
use crate::text::text_lt;
use crate::text::word_views;
use crate::text::terms;
use crate::text::terms_of;

verus! {

/// The downloads of the module's releases among `releases`, taken together.
pub open spec fn downloads_sum(releases: Seq<ReleaseView>, module_id: int) -> int
    decreases releases.len(),
{
    if releases.len() == 0 {
        0
    } else {
        downloads_sum(releases.drop_last(), module_id) + if releases.last().module_id
            == module_id {
            releases.last().downloads
        } else {
            0
        }
    }
}

/// Whether search lists hit `a` before hit `b`: a featured module before one
/// that is not; of two alike in that, the one with more downloads; of two
/// alike in that too, the one with the lower id.
pub open spec fn ranks_before(a: (ModuleView, int), b: (ModuleView, int)) -> bool {
    if a.0.featured != b.0.featured {
        a.0.featured
    } else if a.1 != b.1 {
        a.1 > b.1
    } else {
        a.0.id < b.0.id
    }
}

/// Whether the list of featured modules has `a` before `b`: by author, and
/// under one author by name.
pub open spec fn lists_before(a: ModuleView, b: ModuleView) -> bool {
    text_lt(a.author, b.author) || (a.author == b.author && text_lt(a.name, b.name))
}

/// What a list of search hits holds.
pub open spec fn hits_view(hits: Seq<(Module, i64)>) -> Seq<(ModuleView, int)> {
    hits.map_values(|hit: (Module, i64)| (hit.0@, hit.1 as int))
}

impl RegistryView {
    /// The downloads of all stored releases of the module with this id; 0
    /// where it has none.
    pub open spec fn total_downloads(self, module_id: int) -> int {
        downloads_sum(self.releases, module_id)
    }

    /// Whether `hit` is a stored module that the query matches, together
    /// with its total downloads.
    pub open spec fn is_hit(self, query: Seq<char>, hit: (ModuleView, int)) -> bool {
        &&& self.modules.contains(hit.0)
        &&& query_matches(query, hit.0.name, hit.0.description)
        &&& hit.1 == self.total_downloads(hit.0.id)
    }

    /// Whether `hits` is what a search for `query` returns: every entry is a
    /// hit, every module that the query matches is listed, and the entries
    /// stand in rank order.
    pub open spec fn is_search_result(self, query: Seq<char>, hits: Seq<(ModuleView, int)>) -> bool {
        &&& forall|i: int| 0 <= i < hits.len() ==> self.is_hit(query, #[trigger] hits[i])
        &&& forall|k: int|
            0 <= k < self.modules.len() && query_matches(
                query,
                (#[trigger] self.modules[k]).name,
                self.modules[k].description,
            ) ==> hits.contains((self.modules[k], self.total_downloads(self.modules[k].id)))
        &&& forall|i: int, j: int|
            #![trigger hits[i], hits[j]]
            0 <= i < j < hits.len() ==> ranks_before(hits[i], hits[j])
    }

    /// Whether `list` is the list of featured modules: every entry is a
    /// stored module that is featured, every such module is listed, and the
    /// entries stand in order of author and name.
    pub open spec fn is_quickstart(self, list: Seq<ModuleView>) -> bool {
        &&& forall|i: int|
            0 <= i < list.len() ==> self.modules.contains(#[trigger] list[i]) && list[i].featured
        &&& forall|k: int|
            0 <= k < self.modules.len() && (#[trigger] self.modules[k]).featured ==> list.contains(
                self.modules[k],
            )
        &&& forall|i: int, j: int|
            #![trigger list[i], list[j]]
            0 <= i < j < list.len() ==> lists_before(list[i], list[j])
    }
}

/// A release's id is greater than its position in a well-formed table, so
/// the table has at most as many rows as ids were given out.
pub proof fn lemma_release_count(releases: Seq<ReleaseView>, last: int, k: int)
    requires
        releases_wf(releases, last),
        0 <= k < releases.len(),
    ensures
        releases[k].id >= k + 1,
        k + 1 <= last,
    decreases k,
{
    if k > 0 {
        lemma_release_count(releases, last, k - 1);
        assert(releases[k - 1].id < releases[k].id);
    }
    assert(releases[k].id <= last);
}

/// The downloads of a module's releases in a well-formed table are not
/// negative and at most the largest count times the number of rows.
pub proof fn lemma_downloads_sum_bounds(releases: Seq<ReleaseView>, last: int, n: int, id: int)
    requires
        releases_wf(releases, last),
        0 <= n <= releases.len(),
    ensures
        0 <= downloads_sum(releases.take(n), id) <= n * i32::MAX,
    decreases n,
{
    if n > 0 {
        lemma_downloads_sum_bounds(releases, last, n - 1, id);
        assert(releases.take(n).drop_last() =~= releases.take(n - 1));
        assert(releases.take(n).last() == releases[n - 1]);
    }
}

/// Of two hits for modules with different ids one ranks before the other.
pub proof fn lemma_ranks_total(a: (ModuleView, int), b: (ModuleView, int))
    requires
        a.0.id != b.0.id,
    ensures
        ranks_before(a, b) || ranks_before(b, a),
{
}

/// What ranks before a hit ranks before all that the hit ranks before.
pub proof fn lemma_ranks_transitive(
    a: (ModuleView, int),
    b: (ModuleView, int),
    c: (ModuleView, int),
)
    requires
        ranks_before(a, b),
        ranks_before(b, c),
    ensures
        ranks_before(a, c),
{
}

/// Of two modules that differ in author or name one is listed before the other.
pub proof fn lemma_lists_total(a: ModuleView, b: ModuleView)
    requires
        !(a.author == b.author && a.name == b.name),
    ensures
        lists_before(a, b) || lists_before(b, a),
{
    if a.author != b.author {
        lemma_text_lt_total(a.author, b.author);
    } else {
        lemma_text_lt_total(a.name, b.name);
    }
}

/// What is listed before a module is listed before all that the module is
/// listed before.
pub proof fn lemma_lists_transitive(a: ModuleView, b: ModuleView, c: ModuleView)
    requires
        lists_before(a, b),
        lists_before(b, c),
    ensures
        lists_before(a, c),
{
    if text_lt(a.author, b.author) && text_lt(b.author, c.author) {
        lemma_text_lt_transitive(a.author, b.author, c.author);
    } else if a.author == b.author && b.author == c.author {
        lemma_text_lt_transitive(a.name, b.name, c.name);
    }
}

/// Decides [`ranks_before`].
fn ranks_first(a: &(Module, i64), b: &(Module, i64)) -> (first: bool)
    ensures
        first == ranks_before((a.0@, a.1 as int), (b.0@, b.1 as int)),
{
    if a.0.featured != b.0.featured {
        a.0.featured
    } else if a.1 != b.1 {
        a.1 > b.1
    } else {
        a.0.id < b.0.id
    }
}

/// Decides [`lists_before`].
fn lists_first(a: &Module, b: &Module) -> (first: bool)
    ensures
        first == lists_before(a@, b@),
{
    if text_before(a.author.as_str(), b.author.as_str()) {
        true
    } else {
        a.author == b.author && text_before(a.name.as_str(), b.name.as_str())
    }
}

impl Registry {
    /// The downloads of all stored releases of the module with this id.
    pub fn total_downloads(&self, module_id: i32) -> (total: i64)
        ensures
            total == self@.total_downloads(module_id as int),
    {
        proof {
            use_type_invariant(self);
        }
        let mut total: i64 = 0;
        let mut i: usize = 0;
        assert(self@.releases.take(0) =~= Seq::empty());
        while i < self.releases.len()
            invariant
                i <= self.releases.len(),
                self@.wf(),
                total == downloads_sum(self@.releases.take(i as int), module_id as int),
                0 <= total <= i * i32::MAX,
            decreases self.releases.len() - i,
        {
            proof {
                lemma_release_count(self@.releases, self@.last_release_id, i as int);
                lemma_downloads_sum_bounds(
                    self@.releases,
                    self@.last_release_id,
                    i as int + 1,
                    module_id as int,
                );
                assert(self@.releases.take(i as int + 1).drop_last() =~= self@.releases.take(
                    i as int,
                ));
                assert(self@.releases.take(i as int + 1).last() == self@.releases[i as int]);
            }
            if self.releases[i].module_id == module_id {
                total = total + self.releases[i].downloads as i64;
            }
            i += 1;
        }
        assert(self@.releases.take(self@.releases.len() as int) =~= self@.releases);
        total
    }
}

/// What a sequence holds after an insertion: the new entry, and all that it
/// held before, and nothing else.
proof fn lemma_insert_members<T>(list: Seq<T>, p: int, entry: T)
    requires
        0 <= p <= list.len(),
    ensures
        list.insert(p, entry).contains(entry),
        forall|x: T| list.contains(x) ==> #[trigger] list.insert(p, entry).contains(x),
        forall|i: int|
            0 <= i < list.len() + 1 ==> (#[trigger] list.insert(p, entry)[i]) == entry
                || list.contains(list.insert(p, entry)[i]),
{
    let after = list.insert(p, entry);
    assert(after[p] == entry);
    assert forall|x: T| list.contains(x) implies #[trigger] after.contains(x) by {
        let at = choose|at: int| 0 <= at < list.len() && list[at] == x;
        if at < p {
            assert(after[at] == x);
        } else {
            assert(after[at + 1] == x);
        }
    }
    assert forall|i: int| 0 <= i < list.len() + 1 implies (#[trigger] after[i]) == entry
        || list.contains(after[i]) by {
        if i < p {
            assert(after[i] == list[i]);
        } else if i > p {
            assert(after[i] == list[i - 1]);
        }
    }
}

/// A sequence in order stays in order when an entry is put in after all
/// that come before it and before all that come after it.
proof fn lemma_insert_in_order<T>(list: Seq<T>, p: int, entry: T, before: spec_fn(T, T) -> bool)
    requires
        0 <= p <= list.len(),
        forall|a: int, b: int|
            #![trigger list[a], list[b]]
            0 <= a < b < list.len() ==> before(list[a], list[b]),
        forall|a: int| 0 <= a < p ==> before(#[trigger] list[a], entry),
        forall|b: int| p <= b < list.len() ==> before(entry, #[trigger] list[b]),
    ensures
        forall|a: int, b: int|
            #![trigger list.insert(p, entry)[a], list.insert(p, entry)[b]]
            0 <= a < b < list.len() + 1 ==> before(
                list.insert(p, entry)[a],
                list.insert(p, entry)[b],
            ),
{
    let after = list.insert(p, entry);
    assert forall|a: int, b: int| 0 <= a < b < list.len() + 1 implies before(
        #[trigger] after[a],
        #[trigger] after[b],
    ) by {
        if b < p {
            assert(after[a] == list[a] && after[b] == list[b]);
        } else if a > p {
            assert(after[a] == list[a - 1] && after[b] == list[b - 1]);
        } else if a < p && b > p {
            assert(after[a] == list[a] && after[b] == list[b - 1]);
        } else if b == p {
            assert(after[a] == list[a]);
        } else {
            assert(after[b] == list[b - 1]);
        }
    }
}

/// Whether `hits` is what a search for `query` returns of the first `k`
/// modules alone.
spec fn is_search_of_first(
    s: RegistryView,
    query: Seq<char>,
    hits: Seq<(ModuleView, int)>,
    k: int,
) -> bool {
    &&& forall|i: int| 0 <= i < hits.len() ==> s.is_hit(query, #[trigger] hits[i])
    &&& forall|i: int, j: int|
        #![trigger hits[i], s.modules[j]]
        0 <= i < hits.len() && k <= j < s.modules.len() ==> hits[i].0.id < s.modules[j].id
    &&& forall|j: int|
        0 <= j < k && query_matches(
            query,
            (#[trigger] s.modules[j]).name,
            s.modules[j].description,
        ) ==> hits.contains((s.modules[j], s.total_downloads(s.modules[j].id)))
    &&& forall|a: int, b: int|
        #![trigger hits[a], hits[b]]
        0 <= a < b < hits.len() ==> ranks_before(hits[a], hits[b])
}

/// A search of the first `k` modules, with the next module put in at its
/// rank where the query matches it, is a search of the first `k + 1`.
proof fn lemma_search_step(
    s: RegistryView,
    query: Seq<char>,
    hits: Seq<(ModuleView, int)>,
    k: int,
    p: int,
)
    requires
        s.wf(),
        0 <= k < s.modules.len(),
        is_search_of_first(s, query, hits, k),
        query_matches(query, s.modules[k].name, s.modules[k].description),
        0 <= p <= hits.len(),
        forall|a: int|
            0 <= a < p ==> !ranks_before(
                (s.modules[k], s.total_downloads(s.modules[k].id)),
                #[trigger] hits[a],
            ),
        p < hits.len() ==> ranks_before(
            (s.modules[k], s.total_downloads(s.modules[k].id)),
            hits[p],
        ),
    ensures
        is_search_of_first(
            s,
            query,
            hits.insert(p, (s.modules[k], s.total_downloads(s.modules[k].id))),
            k + 1,
        ),
{
    let rows = s.modules;
    let entry = (rows[k], s.total_downloads(rows[k].id));
    let after = hits.insert(p, entry);
    let before = |a: (ModuleView, int), b: (ModuleView, int)| ranks_before(a, b);
    assert(rows.contains(entry.0));
    assert(s.is_hit(query, entry));
    lemma_insert_members(hits, p, entry);
    assert forall|a: int| 0 <= a < p implies before(#[trigger] hits[a], entry) by {
        assert(hits[a].0.id < rows[k].id);
        lemma_ranks_total(hits[a], entry);
    }
    assert forall|b: int| p <= b < hits.len() implies before(entry, #[trigger] hits[b]) by {
        if b > p {
            assert(ranks_before(hits[p], hits[b]));
            lemma_ranks_transitive(entry, hits[p], hits[b]);
        }
    }
    assert forall|a: int, b: int|
        #![trigger hits[a], hits[b]]
        0 <= a < b < hits.len() implies before(hits[a], hits[b]) by {
        assert(ranks_before(hits[a], hits[b]));
    }
    lemma_insert_in_order(hits, p, entry, before);
    assert forall|i: int| 0 <= i < after.len() implies s.is_hit(query, #[trigger] after[i]) by {
        if after[i] != entry {
            let at = choose|at: int| 0 <= at < hits.len() && hits[at] == after[i];
            assert(s.is_hit(query, hits[at]));
        }
    }
    assert forall|i: int, j: int|
        0 <= i < after.len() && k + 1 <= j < rows.len() implies (#[trigger] after[i]).0.id < (
    #[trigger] rows[j]).id by {
        assert(rows[k].id < rows[j].id);
        if after[i] != entry {
            let at = choose|at: int| 0 <= at < hits.len() && hits[at] == after[i];
            assert(hits[at].0.id < rows[j].id);
        }
    }
    assert forall|j: int|
        0 <= j < k + 1 && query_matches(
            query,
            (#[trigger] rows[j]).name,
            rows[j].description,
        ) implies after.contains((rows[j], s.total_downloads(rows[j].id))) by {
        if j < k {
            assert(hits.contains((rows[j], s.total_downloads(rows[j].id))));
        }
    }
    assert forall|a: int, b: int| 0 <= a < b < after.len() implies ranks_before(
        #[trigger] after[a],
        #[trigger] after[b],
    ) by {
        assert(before(after[a], after[b]));
    }
}

/// A search of the first `k` modules is one of the first `k + 1` where the
/// query does not match the next module.
proof fn lemma_search_skip(s: RegistryView, query: Seq<char>, hits: Seq<(ModuleView, int)>, k: int)
    requires
        s.wf(),
        0 <= k < s.modules.len(),
        is_search_of_first(s, query, hits, k),
        !query_matches(query, s.modules[k].name, s.modules[k].description),
    ensures
        is_search_of_first(s, query, hits, k + 1),
{
    assert forall|i: int, j: int|
        0 <= i < hits.len() && k + 1 <= j < s.modules.len() implies (#[trigger] hits[i]).0.id < (
    #[trigger] s.modules[j]).id by {
        assert(hits[i].0.id < s.modules[j].id);
    }
}

/// Whether `list` is the list of the featured modules among the first `k`.
spec fn is_quickstart_of_first(s: RegistryView, list: Seq<ModuleView>, k: int) -> bool {
    &&& forall|i: int|
        0 <= i < list.len() ==> s.modules.contains(#[trigger] list[i]) && list[i].featured
    &&& forall|i: int, j: int|
        #![trigger list[i], s.modules[j]]
        0 <= i < list.len() && k <= j < s.modules.len() ==> list[i].id < s.modules[j].id
    &&& forall|j: int|
        0 <= j < k && (#[trigger] s.modules[j]).featured ==> list.contains(s.modules[j])
    &&& forall|a: int, b: int|
        #![trigger list[a], list[b]]
        0 <= a < b < list.len() ==> lists_before(list[a], list[b])
}

/// A listed module differs in author or name from the modules that are
/// still to come.
proof fn lemma_listed_differs(s: RegistryView, list: Seq<ModuleView>, k: int, a: int)
    requires
        s.wf(),
        0 <= k < s.modules.len(),
        0 <= a < list.len(),
        s.modules.contains(list[a]),
        list[a].id < s.modules[k].id,
    ensures
        !(list[a].author == s.modules[k].author && list[a].name == s.modules[k].name),
{
    let rows = s.modules;
    let at = choose|at: int| 0 <= at < rows.len() && rows[at] == list[a];
    if at < k {
        assert(!(rows[at].author == rows[k].author && rows[at].name == rows[k].name));
    } else if at > k {
        assert(!(rows[k].author == rows[at].author && rows[k].name == rows[at].name));
    }
}

/// The list of the first `k` modules, with the next module put in at its
/// place where it is featured, is the list of the first `k + 1`.
proof fn lemma_quickstart_step(s: RegistryView, list: Seq<ModuleView>, k: int, p: int)
    requires
        s.wf(),
        0 <= k < s.modules.len(),
        is_quickstart_of_first(s, list, k),
        s.modules[k].featured,
        0 <= p <= list.len(),
        forall|a: int| 0 <= a < p ==> !lists_before(s.modules[k], #[trigger] list[a]),
        p < list.len() ==> lists_before(s.modules[k], list[p]),
    ensures
        is_quickstart_of_first(s, list.insert(p, s.modules[k]), k + 1),
{
    let rows = s.modules;
    let entry = rows[k];
    let after = list.insert(p, entry);
    let before = |a: ModuleView, b: ModuleView| lists_before(a, b);
    assert(rows.contains(entry));
    lemma_insert_members(list, p, entry);
    assert forall|a: int| 0 <= a < p implies before(#[trigger] list[a], entry) by {
        lemma_listed_differs(s, list, k, a);
        lemma_lists_total(list[a], entry);
    }
    assert forall|b: int| p <= b < list.len() implies before(entry, #[trigger] list[b]) by {
        if b > p {
            assert(lists_before(list[p], list[b]));
            lemma_lists_transitive(entry, list[p], list[b]);
        }
    }
    assert forall|a: int, b: int|
        #![trigger list[a], list[b]]
        0 <= a < b < list.len() implies before(list[a], list[b]) by {
        assert(lists_before(list[a], list[b]));
    }
    lemma_insert_in_order(list, p, entry, before);
    assert forall|i: int| 0 <= i < after.len() implies rows.contains(#[trigger] after[i])
        && after[i].featured by {
        if after[i] != entry {
            let at = choose|at: int| 0 <= at < list.len() && list[at] == after[i];
            assert(list[at].featured);
        }
    }
    assert forall|i: int, j: int|
        0 <= i < after.len() && k + 1 <= j < rows.len() implies (#[trigger] after[i]).id < (
    #[trigger] rows[j]).id by {
        assert(rows[k].id < rows[j].id);
        if after[i] != entry {
            let at = choose|at: int| 0 <= at < list.len() && list[at] == after[i];
            assert(list[at].id < rows[j].id);
        }
    }
    assert forall|j: int| 0 <= j < k + 1 && (#[trigger] rows[j]).featured implies after.contains(
        rows[j],
    ) by {
        if j < k {
            assert(list.contains(rows[j]));
        }
    }
    assert forall|a: int, b: int| 0 <= a < b < after.len() implies lists_before(
        #[trigger] after[a],
        #[trigger] after[b],
    ) by {
        assert(before(after[a], after[b]));
    }
}

/// The list of the first `k` modules is that of the first `k + 1` where the
/// next module is not featured.
proof fn lemma_quickstart_skip(s: RegistryView, list: Seq<ModuleView>, k: int)
    requires
        s.wf(),
        0 <= k < s.modules.len(),
        is_quickstart_of_first(s, list, k),
        !s.modules[k].featured,
    ensures
        is_quickstart_of_first(s, list, k + 1),
{
    assert forall|i: int, j: int|
        0 <= i < list.len() && k + 1 <= j < s.modules.len() implies (#[trigger] list[i]).id < (
    #[trigger] s.modules[j]).id by {
        assert(list[i].id < s.modules[j].id);
    }
}

impl Module {
    /// The modules that `query` matches, each with its total downloads, in
    /// rank order: featured modules first, and more downloads before fewer.
    pub fn search(query: &str, store: &Registry) -> (result: Result<Vec<(Module, i64)>, RegistryError>)
        ensures
            match result {
                Ok(hits) => store@.is_search_result(query@, hits_view(hits@)),
                Err(_) => false,
            },
    {
        proof {
            use_type_invariant(store);
        }
        let wanted = terms_of(query);
        let mut hits: Vec<(Module, i64)> = Vec::new();
        let mut k: usize = 0;
        while k < store.modules.len()
            invariant
                k <= store.modules.len(),
                store@.wf(),
                word_views(wanted@) == terms(query@),
                is_search_of_first(store@, query@, hits_view(hits@), k as int),
            decreases store.modules.len() - k,
        {
            let ghost listed = hits_view(hits@);
            if matches_terms(
                &wanted,
                store.modules[k].name.as_str(),
                store.modules[k].description.as_str(),
            ) {
                let total = store.total_downloads(store.modules[k].id);
                let hit = (store.modules[k].duplicate(), total);
                let ghost entry = (store@.modules[k as int], total as int);
                let mut p: usize = 0;
                while p < hits.len() && !ranks_first(&hit, &hits[p])
                    invariant
                        p <= hits.len(),
                        listed == hits_view(hits@),
                        entry == (hit.0@, hit.1 as int),
                        forall|a: int| 0 <= a < p ==> !ranks_before(entry, #[trigger] listed[a]),
                    decreases hits.len() - p,
                {
                    p += 1;
                }
                hits.insert(p, hit);
                proof {
                    assert(hits_view(hits@) =~= listed.insert(p as int, entry));
                    lemma_search_step(store@, query@, listed, k as int, p as int);
                }
            } else {
                proof {
                    lemma_search_skip(store@, query@, listed, k as int);
                }
            }
            k += 1;
        }
        Ok(hits)
    }

    /// The featured modules, in order of author and, under one author, of name.
    pub fn quickstart(store: &Registry) -> (result: Result<Vec<Module>, RegistryError>)
        ensures
            match result {
                Ok(list) => store@.is_quickstart(rows_view(list@)),
                Err(_) => false,
            },
    {
        proof {
            use_type_invariant(store);
        }
        let mut list: Vec<Module> = Vec::new();
        let mut k: usize = 0;
        while k < store.modules.len()
            invariant
                k <= store.modules.len(),
                store@.wf(),
                is_quickstart_of_first(store@, rows_view(list@), k as int),
            decreases store.modules.len() - k,
        {
            let ghost listed = rows_view(list@);
            if store.modules[k].featured {
                let row = store.modules[k].duplicate();
                let ghost entry = store@.modules[k as int];
                let mut p: usize = 0;
                while p < list.len() && !lists_first(&row, &list[p])
                    invariant
                        p <= list.len(),
                        listed == rows_view(list@),
                        entry == row@,
                        forall|a: int| 0 <= a < p ==> !lists_before(entry, #[trigger] listed[a]),
                    decreases list.len() - p,
                {
                    p += 1;
                }
                list.insert(p, row);
                proof {
                    assert(rows_view(list@) =~= listed.insert(p as int, entry));
                    lemma_quickstart_step(store@, listed, k as int, p as int);
                }
            } else {
                proof {
                    lemma_quickstart_skip(store@, listed, k as int);
                }
            }
            k += 1;
        }
        Ok(list)
    }
}

} // verus!
