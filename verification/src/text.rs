//! Text as sequences of characters: the order in which listings sort names,
//! and the terms by which full-text search compares a query with a module.

use vstd::prelude::*;
use vstd::std_specs::iter::IteratorSpec;
use crate::stem::stem;
use crate::stem::stem_of;

verus! {

/// The characters of `s`, in order.
pub fn chars_of(s: &str) -> (v: Vec<char>)
    ensures
        v@ == s@,
{
    broadcast use vstd::string::group_string_axioms;
    let mut v: Vec<char> = Vec::new();
    for c in it: s.chars()
        invariant
            it.seq() == s@,
            v@ == it.seq().take(it.index()),
    {
        v.push(c);
    }
    v
}

/// Whether `a` comes strictly before `b` in dictionary order, the characters
/// compared by their code points. A proper prefix comes before the longer text.
pub open spec fn text_lt(a: Seq<char>, b: Seq<char>) -> bool
    decreases a.len(),
{
    if b.len() == 0 {
        false
    } else if a.len() == 0 {
        true
    } else if a[0] != b[0] {
        (a[0] as int) < (b[0] as int)
    } else {
        text_lt(a.drop_first(), b.drop_first())
    }
}

/// No text comes before itself.
pub proof fn lemma_text_lt_irreflexive(a: Seq<char>)
    ensures
        !text_lt(a, a),
    decreases a.len(),
{
    if a.len() > 0 {
        lemma_text_lt_irreflexive(a.drop_first());
    }
}

/// Of two different texts one comes before the other.
pub proof fn lemma_text_lt_total(a: Seq<char>, b: Seq<char>)
    requires
        a != b,
    ensures
        text_lt(a, b) || text_lt(b, a),
    decreases a.len(),
{
    if a.len() > 0 && b.len() > 0 && a[0] == b[0] {
        assert(a.drop_first() != b.drop_first()) by {
            if a.drop_first() == b.drop_first() {
                assert(a =~= seq![a[0]] + a.drop_first());
                assert(b =~= seq![b[0]] + b.drop_first());
            }
        }
        lemma_text_lt_total(a.drop_first(), b.drop_first());
    } else if a.len() == 0 && b.len() == 0 {
        assert(a =~= b);
    }
}

/// Two texts do not come before each other.
pub proof fn lemma_text_lt_asymmetric(a: Seq<char>, b: Seq<char>)
    requires
        text_lt(a, b),
    ensures
        !text_lt(b, a),
    decreases a.len(),
{
    if a.len() > 0 && b.len() > 0 && a[0] == b[0] {
        lemma_text_lt_asymmetric(a.drop_first(), b.drop_first());
    }
}

/// What comes before a text comes before all that the text comes before.
pub proof fn lemma_text_lt_transitive(a: Seq<char>, b: Seq<char>, c: Seq<char>)
    requires
        text_lt(a, b),
        text_lt(b, c),
    ensures
        text_lt(a, c),
    decreases a.len(),
{
    if a.len() > 0 && a[0] == b[0] && b[0] == c[0] {
        lemma_text_lt_transitive(a.drop_first(), b.drop_first(), c.drop_first());
    }
}

/// Decides [`text_lt`] for two strings.
pub fn text_before(a: &str, b: &str) -> (before: bool)
    ensures
        before == text_lt(a@, b@),
{
    broadcast use vstd::string::group_string_axioms;
    let mut rest = b.chars();
    assert(a@.skip(0) =~= a@);
    assert(rest.remaining() == b@);
    for ca in it: a.chars()
        invariant
            it.seq() == a@,
            rest.obeys_prophetic_iter_laws(),
            text_lt(a@, b@) == text_lt(a@.skip(it.index()), rest.remaining()),
    {
        let ghost tail = a@.skip(it.index());
        let ghost other = rest.remaining();
        assert(tail.len() > 0 && tail[0] == ca);
        assert(tail.drop_first() =~= a@.skip(it.index() + 1));
        match rest.next() {
            None => {
                return false;
            },
            Some(cb) => {
                if ca != cb {
                    return ca < cb;
                }
            },
        }
    }
    assert(a@.skip(a@.len() as int).len() == 0);
    rest.next().is_some()
}

/// Whether `c` belongs to a word: an ASCII letter or digit, or any character
/// beyond ASCII. Every other character parts words.
pub open spec fn is_word_char(c: char) -> bool {
    ||| 'a' <= c <= 'z'
    ||| 'A' <= c <= 'Z'
    ||| '0' <= c <= '9'
    ||| c as int >= 128
}

/// `s` in lower case, as std's `str::to_lowercase` gives it: by Unicode's
/// lower-case mappings, the same whatever the locale.
pub uninterp spec fn lowercased(s: Seq<char>) -> Seq<char>;

/// The runs of `t` read from its start: those that have ended, in order, and
/// the one that is still open at the end of `t` (empty where none is).
pub open spec fn scan(t: Seq<char>) -> (Seq<Seq<char>>, Seq<char>)
    decreases t.len(),
{
    if t.len() == 0 {
        (Seq::empty(), Seq::empty())
    } else {
        let (ended, open) = scan(t.drop_last());
        if is_word_char(t.last()) {
            (ended, open.push(t.last()))
        } else if open.len() > 0 {
            (ended.push(open), Seq::empty())
        } else {
            (ended, open)
        }
    }
}

/// The longest runs of word characters in `t`, in order.
pub open spec fn split(t: Seq<char>) -> Seq<Seq<char>> {
    let (ended, open) = scan(t);
    if open.len() > 0 {
        ended.push(open)
    } else {
        ended
    }
}

/// The words of `s`: the runs of word characters in `s` in lower case.
pub open spec fn words(s: Seq<char>) -> Seq<Seq<char>> {
    split(lowercased(s))
}

/// A text without word characters has no runs.
pub proof fn law_split_of_separators(t: Seq<char>)
    requires
        forall|i: int| 0 <= i < t.len() ==> !is_word_char(#[trigger] t[i]),
    ensures
        scan(t) == (Seq::<Seq<char>>::empty(), Seq::<char>::empty()),
        split(t) == Seq::<Seq<char>>::empty(),
    decreases t.len(),
{
    if t.len() > 0 {
        assert(!is_word_char(t[t.len() - 1]));
        assert forall|i: int| 0 <= i < t.drop_last().len() implies !is_word_char(
            #[trigger] t.drop_last()[i],
        ) by {
            assert(t.drop_last()[i] == t[i]);
        }
        law_split_of_separators(t.drop_last());
    }
}

/// A text of word characters alone is one run: the text itself.
pub proof fn law_split_of_one_run(t: Seq<char>)
    requires
        t.len() > 0,
        forall|i: int| 0 <= i < t.len() ==> is_word_char(#[trigger] t[i]),
    ensures
        split(t) == seq![t],
{
    lemma_scan_of_run(t);
    assert(split(t) =~= seq![t]);
}

/// Reading a text of word characters alone leaves one open run.
proof fn lemma_scan_of_run(t: Seq<char>)
    requires
        forall|i: int| 0 <= i < t.len() ==> is_word_char(#[trigger] t[i]),
    ensures
        scan(t) == (Seq::<Seq<char>>::empty(), t),
    decreases t.len(),
{
    if t.len() > 0 {
        assert(is_word_char(t[t.len() - 1]));
        assert forall|i: int| 0 <= i < t.drop_last().len() implies is_word_char(
            #[trigger] t.drop_last()[i],
        ) by {
            assert(t.drop_last()[i] == t[i]);
        }
        lemma_scan_of_run(t.drop_last());
        assert(t.drop_last().push(t.last()) =~= t);
    } else {
        assert(t =~= Seq::<char>::empty());
    }
}

/// Reading on after a character that parts runs: the runs before it have
/// ended, and what follows is read as if it stood alone.
proof fn lemma_scan_after_separator(a: Seq<char>, separator: char, b: Seq<char>)
    requires
        !is_word_char(separator),
    ensures
        scan(a.push(separator) + b) == (split(a) + scan(b).0, scan(b).1),
    decreases b.len(),
{
    let whole = a.push(separator) + b;
    if b.len() == 0 {
        assert(whole =~= a.push(separator));
        assert(whole.drop_last() =~= a);
        assert(split(a) + scan(b).0 =~= split(a));
    } else {
        assert(whole.drop_last() =~= a.push(separator) + b.drop_last());
        assert(whole.last() == b.last());
        lemma_scan_after_separator(a, separator, b.drop_last());
        let (ended, open) = scan(b.drop_last());
        if !is_word_char(b.last()) && open.len() > 0 {
            assert((split(a) + ended).push(open) =~= split(a) + ended.push(open));
        }
    }
}

/// A character that is no word character parts runs: the runs of a text
/// are those before such a character and then those after it.
pub proof fn law_split_at_separator(a: Seq<char>, separator: char, b: Seq<char>)
    requires
        !is_word_char(separator),
    ensures
        split(a.push(separator) + b) == split(a) + split(b),
{
    lemma_scan_after_separator(a, separator, b);
    let (ended, open) = scan(b);
    if open.len() > 0 {
        assert((split(a) + ended).push(open) =~= split(a) + ended.push(open));
    }
}

/// The terms of `s`: its words, each cut down to its stem.
pub open spec fn terms(s: Seq<char>) -> Seq<Seq<char>> {
    words(s).map_values(|w: Seq<char>| stem(w))
}

/// Whether a query matches a module with this name and description: the
/// query has at least one term, and each of its terms is a term of the name
/// or of the description, in any order.
pub open spec fn query_matches(query: Seq<char>, name: Seq<char>, description: Seq<char>) -> bool {
    let wanted = terms(query);
    let held = terms(name) + terms(description);
    wanted.len() > 0 && forall|i: int| 0 <= i < wanted.len() ==> held.contains(#[trigger] wanted[i])
}

/// The character sequences that a list of words holds.
pub open spec fn word_views(list: Seq<Vec<char>>) -> Seq<Seq<char>> {
    list.map_values(|w: Vec<char>| w@)
}

/// Decides [`is_word_char`].
pub fn word_char(c: char) -> (yes: bool)
    ensures
        yes == is_word_char(c),
{
    ('a' <= c && c <= 'z') || ('A' <= c && c <= 'Z') || ('0' <= c && c <= '9') || c as u32 >= 128
}

/// Calls std's `str::to_lowercase`. What it returns is a function of the
/// text alone, which has the name [`lowercased`].
#[verifier::external_body]
fn lowercase(s: &str) -> (low: String)
    ensures
        low@ == lowercased(s@),
{
    s.to_lowercase()
}

/// Computes [`split`].
pub fn split_of(t: &str) -> (list: Vec<Vec<char>>)
    ensures
        word_views(list@) == split(t@),
{
    broadcast use vstd::string::group_string_axioms;
    let mut ended: Vec<Vec<char>> = Vec::new();
    let mut open: Vec<char> = Vec::new();
    assert(t@.take(0) =~= Seq::empty());
    assert(word_views(ended@) =~= Seq::empty());
    for c in it: t.chars()
        invariant
            it.seq() == t@,
            (word_views(ended@), open@) == scan(t@.take(it.index())),
    {
        let ghost before = t@.take(it.index());
        let ghost next = t@.take(it.index() + 1);
        assert(next.drop_last() =~= before);
        assert(next.last() == c);
        let ghost listed = word_views(ended@);
        if word_char(c) {
            open.push(c);
        } else if open.len() > 0 {
            let ghost word = open@;
            ended.push(open);
            open = Vec::new();
            assert(word_views(ended@) =~= listed.push(word));
        }
    }
    assert(t@.take(t@.len() as int) =~= t@);
    if open.len() > 0 {
        let ghost listed = word_views(ended@);
        let ghost word = open@;
        ended.push(open);
        assert(word_views(ended@) =~= listed.push(word));
    }
    ended
}

/// Computes [`words`].
pub fn words_of(s: &str) -> (list: Vec<Vec<char>>)
    ensures
        word_views(list@) == words(s@),
{
    let low = lowercase(s);
    split_of(low.as_str())
}

/// Computes [`terms`].
pub fn terms_of(s: &str) -> (list: Vec<Vec<char>>)
    ensures
        word_views(list@) == terms(s@),
{
    let found = words_of(s);
    let mut list: Vec<Vec<char>> = Vec::new();
    let mut i: usize = 0;
    while i < found.len()
        invariant
            i <= found.len(),
            word_views(found@) == words(s@),
            word_views(list@) == terms(s@).subrange(0, i as int),
        decreases found.len() - i,
    {
        let ghost before = word_views(list@);
        let term = stem_of(&found[i]);
        assert(word_views(found@)[i as int] == found@[i as int]@);
        assert(terms(s@)[i as int] == stem(words(s@)[i as int]));
        list.push(term);
        assert(word_views(list@) =~= before.push(term@));
        assert(before.push(term@) =~= terms(s@).subrange(0, i as int + 1));
        i += 1;
    }
    assert(terms(s@).subrange(0, found.len() as int) =~= terms(s@));
    list
}

/// Whether two words hold the same characters.
pub fn same_word(a: &Vec<char>, b: &Vec<char>) -> (same: bool)
    ensures
        same == (a@ == b@),
{
    if a.len() != b.len() {
        return false;
    }
    let mut i: usize = 0;
    while i < a.len()
        invariant
            i <= a.len(),
            a.len() == b.len(),
            forall|j: int| 0 <= j < i ==> a@[j] == b@[j],
        decreases a.len() - i,
    {
        if a[i] != b[i] {
            return false;
        }
        i += 1;
    }
    assert(a@ =~= b@);
    true
}

/// Whether `word` is among `list`.
pub fn holds_word(list: &Vec<Vec<char>>, word: &Vec<char>) -> (held: bool)
    ensures
        held == word_views(list@).contains(word@),
{
    let mut i: usize = 0;
    while i < list.len()
        invariant
            i <= list.len(),
            forall|j: int| 0 <= j < i ==> word_views(list@)[j] != word@,
        decreases list.len() - i,
    {
        if same_word(&list[i], word) {
            assert(word_views(list@)[i as int] == word@);
            return true;
        }
        i += 1;
    }
    false
}

/// Decides [`query_matches`] for a query whose terms are `wanted`.
pub fn matches_terms(wanted: &Vec<Vec<char>>, name: &str, description: &str) -> (hit: bool)
    ensures
        hit == (word_views(wanted@).len() > 0 && forall|i: int|
            0 <= i < word_views(wanted@).len() ==> (terms(name@) + terms(description@)).contains(
                #[trigger] word_views(wanted@)[i],
            )),
{
    if wanted.len() == 0 {
        return false;
    }
    let in_name = terms_of(name);
    let in_description = terms_of(description);
    let ghost held = terms(name@) + terms(description@);
    let mut i: usize = 0;
    while i < wanted.len()
        invariant
            i <= wanted.len(),
            word_views(in_name@) == terms(name@),
            word_views(in_description@) == terms(description@),
            held == terms(name@) + terms(description@),
            forall|j: int| 0 <= j < i ==> held.contains(#[trigger] word_views(wanted@)[j]),
        decreases wanted.len() - i,
    {
        let ghost word = word_views(wanted@)[i as int];
        let found = holds_word(&in_name, &wanted[i]) || holds_word(&in_description, &wanted[i]);
        proof {
            if terms(name@).contains(word) {
                let k = choose|k: int| 0 <= k < terms(name@).len() && terms(name@)[k] == word;
                assert(held[k] == word);
            }
            if terms(description@).contains(word) {
                let k = choose|k: int|
                    0 <= k < terms(description@).len() && terms(description@)[k] == word;
                assert(held[terms(name@).len() + k] == word);
            }
            if held.contains(word) {
                let k = choose|k: int| 0 <= k < held.len() && held[k] == word;
                if k < terms(name@).len() {
                    assert(terms(name@)[k] == word);
                } else {
                    assert(terms(description@)[k - terms(name@).len()] == word);
                }
            }
        }
        if !found {
            return false;
        }
        i += 1;
    }
    true
}

} // verus!
