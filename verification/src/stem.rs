//! Suffix stripping for English words, after Porter's algorithm of 1980: a
//! word and its inflected forms are cut down to one stem, so that a search
//! for "galleries" finds "gallery". Words are taken in lower case; every
//! character but a, e, i, o, u, and y after a consonant, counts as a consonant.

use vstd::prelude::*;
use crate::text::chars_of;

verus! {

/// Whether the character at `i` stands for a consonant: not one of a, e, i,
/// o, u, and, where it is y, at the start of the word or after a vowel.
pub open spec fn is_consonant(w: Seq<char>, i: int) -> bool
    decreases i,
{
    if i < 0 || i >= w.len() {
        false
    } else if w[i] == 'a' || w[i] == 'e' || w[i] == 'i' || w[i] == 'o' || w[i] == 'u' {
        false
    } else if w[i] == 'y' {
        i == 0 || !is_consonant(w, i - 1)
    } else {
        true
    }
}

/// The measure of the first `k` characters of `w`: how often in them a
/// consonant follows a vowel.
pub open spec fn measure(w: Seq<char>, k: int) -> int
    decreases k,
{
    if k <= 1 {
        0
    } else {
        measure(w, k - 1) + if is_consonant(w, k - 1) && !is_consonant(w, k - 2) {
            1int
        } else {
            0int
        }
    }
}

/// Whether there is a vowel among the first `k` characters of `w`.
pub open spec fn has_vowel(w: Seq<char>, k: int) -> bool
    decreases k,
{
    if k <= 0 {
        false
    } else {
        (k <= w.len() && !is_consonant(w, k - 1)) || has_vowel(w, k - 1)
    }
}

/// Whether `w` ends with `suffix`.
pub open spec fn ends_with(w: Seq<char>, suffix: Seq<char>) -> bool {
    suffix.len() <= w.len() && w.subrange(w.len() - suffix.len(), w.len() as int) == suffix
}

/// `w`, which ends with `suffix`, with `replacement` in its place.
pub open spec fn swap_suffix(w: Seq<char>, suffix: Seq<char>, replacement: Seq<char>) -> Seq<char> {
    w.subrange(0, w.len() - suffix.len()) + replacement
}

/// Whether `w` ends with the same consonant twice.
pub open spec fn ends_double(w: Seq<char>) -> bool {
    w.len() >= 2 && w[w.len() - 1] == w[w.len() - 2] && is_consonant(w, w.len() - 1)
}

/// Whether the first `k` characters of `w` end consonant, vowel, consonant,
/// the last of them not w, x or y.
pub open spec fn ends_cvc(w: Seq<char>, k: int) -> bool {
    3 <= k <= w.len() && is_consonant(w, k - 3) && !is_consonant(w, k - 2) && is_consonant(
        w,
        k - 1,
    ) && w[k - 1] != 'w' && w[k - 1] != 'x' && w[k - 1] != 'y'
}

/// Plurals: sses to ss, ies to i, ss stays, a single s goes.
pub open spec fn step_plural(w: Seq<char>) -> Seq<char> {
    if ends_with(w, "sses"@) {
        swap_suffix(w, "sses"@, "ss"@)
    } else if ends_with(w, "ies"@) {
        swap_suffix(w, "ies"@, "i"@)
    } else if ends_with(w, "ss"@) {
        w
    } else if ends_with(w, "s"@) {
        w.subrange(0, w.len() - "s"@.len())
    } else {
        w
    }
}

/// What follows the removal of ed or ing: at, bl and iz get their e back; a
/// double consonant other than l, s or z loses one; a short stem that ends
/// consonant, vowel, consonant gets an e.
pub open spec fn tidy(w: Seq<char>) -> Seq<char> {
    if ends_with(w, "at"@) || ends_with(w, "bl"@) || ends_with(w, "iz"@) {
        w.push('e')
    } else if ends_double(w) && w.last() != 'l' && w.last() != 's' && w.last() != 'z' {
        w.drop_last()
    } else if measure(w, w.len() as int) == 1 && ends_cvc(w, w.len() as int) {
        w.push('e')
    } else {
        w
    }
}

/// Past and progressive forms: eed to ee after a stem of positive measure;
/// ed and ing go where the stem has a vowel, and the stem is tidied.
pub open spec fn step_past(w: Seq<char>) -> Seq<char> {
    if ends_with(w, "eed"@) {
        if measure(w, w.len() - "eed"@.len()) > 0 {
            swap_suffix(w, "eed"@, "ee"@)
        } else {
            w
        }
    } else if ends_with(w, "ed"@) && has_vowel(w, w.len() - "ed"@.len()) {
        tidy(w.subrange(0, w.len() - "ed"@.len()))
    } else if ends_with(w, "ing"@) && has_vowel(w, w.len() - "ing"@.len()) {
        tidy(w.subrange(0, w.len() - "ing"@.len()))
    } else {
        w
    }
}

/// A final y becomes i where the stem before it has a vowel.
pub open spec fn step_y(w: Seq<char>) -> Seq<char> {
    if ends_with(w, "y"@) && has_vowel(w, w.len() - "y"@.len()) {
        swap_suffix(w, "y"@, "i"@)
    } else {
        w
    }
}

/// The first rule from `from` on whose suffix ends `w` decides: where the
/// stem before the suffix has a measure above `threshold`, the rule's
/// replacement takes the suffix's place; else `w` stays. Without such a rule
/// `w` stays too.
pub open spec fn apply_rules(
    w: Seq<char>,
    rules: Seq<(Seq<char>, Seq<char>)>,
    threshold: int,
    from: int,
) -> Seq<char>
    decreases rules.len() - from,
{
    if from < 0 || from >= rules.len() {
        w
    } else if ends_with(w, rules[from].0) {
        if measure(w, w.len() - rules[from].0.len()) > threshold {
            swap_suffix(w, rules[from].0, rules[from].1)
        } else {
            w
        }
    } else {
        apply_rules(w, rules, threshold, from + 1)
    }
}

/// The double suffixes and what each is cut down to.
pub open spec fn double_suffix_rules() -> Seq<(Seq<char>, Seq<char>)> {
    seq![
        ("ational"@, "ate"@),
        ("tional"@, "tion"@),
        ("enci"@, "ence"@),
        ("anci"@, "ance"@),
        ("izer"@, "ize"@),
        ("abli"@, "able"@),
        ("alli"@, "al"@),
        ("entli"@, "ent"@),
        ("eli"@, "e"@),
        ("ousli"@, "ous"@),
        ("ization"@, "ize"@),
        ("ation"@, "ate"@),
        ("ator"@, "ate"@),
        ("alism"@, "al"@),
        ("iveness"@, "ive"@),
        ("fulness"@, "ful"@),
        ("ousness"@, "ous"@),
        ("aliti"@, "al"@),
        ("iviti"@, "ive"@),
        ("biliti"@, "ble"@),
    ]
}

/// The suffixes that are cut down or dropped once double suffixes are gone.
pub open spec fn single_suffix_rules() -> Seq<(Seq<char>, Seq<char>)> {
    seq![
        ("icate"@, "ic"@),
        ("ative"@, ""@),
        ("alize"@, "al"@),
        ("iciti"@, "ic"@),
        ("ical"@, "ic"@),
        ("ful"@, ""@),
        ("ness"@, ""@),
    ]
}

/// The suffixes that are dropped from a stem of measure above 1.
pub open spec fn final_suffix_rules() -> Seq<(Seq<char>, Seq<char>)> {
    seq![
        ("al"@, ""@),
        ("ance"@, ""@),
        ("ence"@, ""@),
        ("er"@, ""@),
        ("ic"@, ""@),
        ("able"@, ""@),
        ("ible"@, ""@),
        ("ant"@, ""@),
        ("ement"@, ""@),
        ("ment"@, ""@),
        ("ent"@, ""@),
        ("ou"@, ""@),
        ("ism"@, ""@),
        ("ate"@, ""@),
        ("iti"@, ""@),
        ("ous"@, ""@),
        ("ive"@, ""@),
        ("ize"@, ""@),
    ]
}

/// Double suffixes are cut down where the stem has a positive measure.
pub open spec fn step_double_suffix(w: Seq<char>) -> Seq<char> {
    apply_rules(w, double_suffix_rules(), 0, 0)
}

/// Single suffixes are cut down where the stem has a positive measure.
pub open spec fn step_single_suffix(w: Seq<char>) -> Seq<char> {
    apply_rules(w, single_suffix_rules(), 0, 0)
}

/// A last suffix is dropped where the stem has a measure above 1; ion only
/// after s or t.
pub open spec fn step_final_suffix(w: Seq<char>) -> Seq<char> {
    if ends_with(w, "ion"@) {
        let k = w.len() - "ion"@.len();
        if k >= 1 && (w[k - 1] == 's' || w[k - 1] == 't') && measure(w, k) > 1 {
            w.subrange(0, k)
        } else {
            w
        }
    } else {
        apply_rules(w, final_suffix_rules(), 1, 0)
    }
}

/// A final e goes after a stem of measure above 1, and after one of measure
/// 1 that does not end consonant, vowel, consonant.
pub open spec fn step_final_e(w: Seq<char>) -> Seq<char> {
    if w.len() >= 1 && w.last() == 'e' && (measure(w, w.len() - 1) > 1 || (measure(
        w,
        w.len() - 1,
    ) == 1 && !ends_cvc(w, w.len() - 1))) {
        w.drop_last()
    } else {
        w
    }
}

/// A final double l becomes a single one in a word of measure above 1.
pub open spec fn step_double_l(w: Seq<char>) -> Seq<char> {
    if w.len() >= 1 && w.last() == 'l' && ends_double(w) && measure(w, w.len() as int) > 1 {
        w.drop_last()
    } else {
        w
    }
}

/// The stem of the word `w`. A word of one or two characters is its own stem.
pub open spec fn stem(w: Seq<char>) -> Seq<char> {
    if w.len() <= 2 {
        w
    } else {
        step_double_l(
            step_final_e(
                step_final_suffix(
                    step_single_suffix(step_double_suffix(step_y(step_past(step_plural(w))))),
                ),
            ),
        )
    }
}

/// What a table of rules holds.
pub open spec fn rules_view(table: Seq<(&'static str, &'static str)>) -> Seq<
    (Seq<char>, Seq<char>),
> {
    table.map_values(|rule: (&'static str, &'static str)| (rule.0@, rule.1@))
}

/// For each character of `w`, whether it stands for a consonant.
fn consonant_flags(w: &Vec<char>) -> (flags: Vec<bool>)
    ensures
        flags.len() == w.len(),
        forall|i: int| 0 <= i < w.len() ==> flags[i] == is_consonant(w@, i),
{
    let mut flags: Vec<bool> = Vec::new();
    let mut i: usize = 0;
    while i < w.len()
        invariant
            i <= w.len(),
            flags.len() == i,
            forall|j: int| 0 <= j < i ==> flags[j] == is_consonant(w@, j),
        decreases w.len() - i,
    {
        let c = w[i];
        let flag = if c == 'a' || c == 'e' || c == 'i' || c == 'o' || c == 'u' {
            false
        } else if c == 'y' {
            i == 0 || !flags[i - 1]
        } else {
            true
        };
        flags.push(flag);
        i += 1;
    }
    flags
}

/// Computes [`measure`].
fn measure_of(w: &Vec<char>, k: usize) -> (m: usize)
    requires
        k <= w.len(),
    ensures
        m == measure(w@, k as int),
{
    if k <= 1 {
        return 0;
    }
    let flags = consonant_flags(w);
    let mut m: usize = 0;
    let mut i: usize = 1;
    while i < k
        invariant
            1 <= i <= k <= w.len(),
            flags.len() == w.len(),
            forall|j: int| 0 <= j < w.len() ==> flags[j] == is_consonant(w@, j),
            m == measure(w@, i as int),
            m <= i,
        decreases k - i,
    {
        if flags[i] && !flags[i - 1] {
            m += 1;
        }
        i += 1;
    }
    m
}

/// Decides [`has_vowel`].
fn vowel_in(w: &Vec<char>, k: usize) -> (found: bool)
    requires
        k <= w.len(),
    ensures
        found == has_vowel(w@, k as int),
{
    let flags = consonant_flags(w);
    let mut found = false;
    let mut i: usize = 0;
    while i < k
        invariant
            i <= k <= w.len(),
            flags.len() == w.len(),
            forall|j: int| 0 <= j < w.len() ==> flags[j] == is_consonant(w@, j),
            found == has_vowel(w@, i as int),
        decreases k - i,
    {
        if !flags[i] {
            found = true;
        }
        i += 1;
    }
    found
}

/// Decides [`ends_cvc`].
fn cvc_at(w: &Vec<char>, k: usize) -> (yes: bool)
    requires
        k <= w.len(),
    ensures
        yes == ends_cvc(w@, k as int),
{
    if k < 3 {
        return false;
    }
    let flags = consonant_flags(w);
    flags[k - 3] && !flags[k - 2] && flags[k - 1] && w[k - 1] != 'w' && w[k - 1] != 'x' && w[k
        - 1] != 'y'
}

/// Decides [`ends_double`].
fn double_at_end(w: &Vec<char>) -> (yes: bool)
    ensures
        yes == ends_double(w@),
{
    if w.len() < 2 {
        return false;
    }
    let flags = consonant_flags(w);
    w[w.len() - 1] == w[w.len() - 2] && flags[w.len() - 1]
}

/// Where `w` ends with `suffix`, the length of what stands before it.
fn stem_len(w: &Vec<char>, suffix: &str) -> (found: Option<usize>)
    ensures
        match found {
            Some(k) => ends_with(w@, suffix@) && k + suffix@.len() == w.len(),
            None => !ends_with(w@, suffix@),
        },
{
    let s = chars_of(suffix);
    if s.len() > w.len() {
        return None;
    }
    let k = w.len() - s.len();
    let mut j: usize = 0;
    while j < s.len()
        invariant
            j <= s.len(),
            k + s.len() == w.len(),
            s@ == suffix@,
            forall|i: int| 0 <= i < j ==> w@[k + i] == s@[i],
        decreases s.len() - j,
    {
        if w[k + j] != s[j] {
            assert(w@.subrange(k as int, w.len() as int)[j as int] != s@[j as int]);
            return None;
        }
        j += 1;
    }
    assert(w@.subrange(k as int, w.len() as int) =~= s@);
    Some(k)
}

/// The first `k` characters of `w`.
fn prefix(w: &Vec<char>, k: usize) -> (out: Vec<char>)
    requires
        k <= w.len(),
    ensures
        out@ == w@.subrange(0, k as int),
{
    let mut out: Vec<char> = Vec::new();
    let mut i: usize = 0;
    while i < k
        invariant
            i <= k <= w.len(),
            out@ == w@.subrange(0, i as int),
        decreases k - i,
    {
        out.push(w[i]);
        assert(out@ =~= w@.subrange(0, i as int + 1));
        i += 1;
    }
    assert(out@ =~= w@.subrange(0, k as int));
    out
}

/// The first `k` characters of `w`, and `replacement` after them.
fn with_suffix(w: &Vec<char>, k: usize, replacement: &str) -> (out: Vec<char>)
    requires
        k <= w.len(),
    ensures
        out@ == w@.subrange(0, k as int) + replacement@,
{
    let mut out = prefix(w, k);
    let tail = chars_of(replacement);
    let mut i: usize = 0;
    while i < tail.len()
        invariant
            i <= tail.len(),
            out@ == w@.subrange(0, k as int) + tail@.subrange(0, i as int),
        decreases tail.len() - i,
    {
        out.push(tail[i]);
        assert(out@ =~= w@.subrange(0, k as int) + tail@.subrange(0, i as int + 1));
        i += 1;
    }
    assert(tail@.subrange(0, tail.len() as int) =~= tail@);
    out
}

/// Computes [`step_plural`].
fn plural(w: Vec<char>) -> (out: Vec<char>)
    ensures
        out@ == step_plural(w@),
{
    if let Some(k) = stem_len(&w, "sses") {
        with_suffix(&w, k, "ss")
    } else if let Some(k) = stem_len(&w, "ies") {
        with_suffix(&w, k, "i")
    } else if stem_len(&w, "ss").is_some() {
        w
    } else if let Some(k) = stem_len(&w, "s") {
        prefix(&w, k)
    } else {
        w
    }
}

/// Computes [`tidy`].
fn tidied(w: Vec<char>) -> (out: Vec<char>)
    ensures
        out@ == tidy(w@),
{
    let mut w = w;
    if stem_len(&w, "at").is_some() || stem_len(&w, "bl").is_some() || stem_len(&w, "iz").is_some() {
        w.push('e');
        w
    } else if double_at_end(&w) && w[w.len() - 1] != 'l' && w[w.len() - 1] != 's' && w[w.len()
        - 1] != 'z' {
        let _ = w.pop();
        w
    } else if measure_of(&w, w.len()) == 1 && cvc_at(&w, w.len()) {
        w.push('e');
        w
    } else {
        w
    }
}

/// Computes [`step_past`].
fn past(w: Vec<char>) -> (out: Vec<char>)
    ensures
        out@ == step_past(w@),
{
    if let Some(k) = stem_len(&w, "eed") {
        if measure_of(&w, k) > 0 {
            with_suffix(&w, k, "ee")
        } else {
            w
        }
    } else {
        if let Some(k) = stem_len(&w, "ed") {
            if vowel_in(&w, k) {
                return tidied(prefix(&w, k));
            }
        }
        if let Some(k) = stem_len(&w, "ing") {
            if vowel_in(&w, k) {
                return tidied(prefix(&w, k));
            }
        }
        w
    }
}

/// Computes [`step_y`].
fn final_y(w: Vec<char>) -> (out: Vec<char>)
    ensures
        out@ == step_y(w@),
{
    if let Some(k) = stem_len(&w, "y") {
        if vowel_in(&w, k) {
            return with_suffix(&w, k, "i");
        }
    }
    w
}

/// Computes [`apply_rules`] from the first rule on.
fn rules_applied(w: Vec<char>, table: &Vec<(&'static str, &'static str)>, threshold: usize) -> (out:
    Vec<char>)
    ensures
        out@ == apply_rules(w@, rules_view(table@), threshold as int, 0),
{
    let ghost rules = rules_view(table@);
    let mut i: usize = 0;
    while i < table.len()
        invariant
            i <= table.len(),
            rules == rules_view(table@),
            apply_rules(w@, rules, threshold as int, 0) == apply_rules(
                w@,
                rules,
                threshold as int,
                i as int,
            ),
        decreases table.len() - i,
    {
        assert(rules[i as int] == (table@[i as int].0@, table@[i as int].1@));
        if let Some(k) = stem_len(&w, table[i].0) {
            if measure_of(&w, k) > threshold {
                return with_suffix(&w, k, table[i].1);
            } else {
                return w;
            }
        }
        i += 1;
    }
    w
}

/// The table of [`double_suffix_rules`].
fn double_suffix_table() -> (table: Vec<(&'static str, &'static str)>)
    ensures
        rules_view(table@) == double_suffix_rules(),
{
    let mut table: Vec<(&'static str, &'static str)> = Vec::new();
    table.push(("ational", "ate"));
    table.push(("tional", "tion"));
    table.push(("enci", "ence"));
    table.push(("anci", "ance"));
    table.push(("izer", "ize"));
    table.push(("abli", "able"));
    table.push(("alli", "al"));
    table.push(("entli", "ent"));
    table.push(("eli", "e"));
    table.push(("ousli", "ous"));
    table.push(("ization", "ize"));
    table.push(("ation", "ate"));
    table.push(("ator", "ate"));
    table.push(("alism", "al"));
    table.push(("iveness", "ive"));
    table.push(("fulness", "ful"));
    table.push(("ousness", "ous"));
    table.push(("aliti", "al"));
    table.push(("iviti", "ive"));
    table.push(("biliti", "ble"));
    assert(rules_view(table@) =~= double_suffix_rules());
    table
}

/// The table of [`single_suffix_rules`].
fn single_suffix_table() -> (table: Vec<(&'static str, &'static str)>)
    ensures
        rules_view(table@) == single_suffix_rules(),
{
    let mut table: Vec<(&'static str, &'static str)> = Vec::new();
    table.push(("icate", "ic"));
    table.push(("ative", ""));
    table.push(("alize", "al"));
    table.push(("iciti", "ic"));
    table.push(("ical", "ic"));
    table.push(("ful", ""));
    table.push(("ness", ""));
    assert(rules_view(table@) =~= single_suffix_rules());
    table
}

/// The table of [`final_suffix_rules`].
fn final_suffix_table() -> (table: Vec<(&'static str, &'static str)>)
    ensures
        rules_view(table@) == final_suffix_rules(),
{
    let mut table: Vec<(&'static str, &'static str)> = Vec::new();
    table.push(("al", ""));
    table.push(("ance", ""));
    table.push(("ence", ""));
    table.push(("er", ""));
    table.push(("ic", ""));
    table.push(("able", ""));
    table.push(("ible", ""));
    table.push(("ant", ""));
    table.push(("ement", ""));
    table.push(("ment", ""));
    table.push(("ent", ""));
    table.push(("ou", ""));
    table.push(("ism", ""));
    table.push(("ate", ""));
    table.push(("iti", ""));
    table.push(("ous", ""));
    table.push(("ive", ""));
    table.push(("ize", ""));
    assert(rules_view(table@) =~= final_suffix_rules());
    table
}

/// Computes [`step_final_suffix`].
fn final_suffix(w: Vec<char>) -> (out: Vec<char>)
    ensures
        out@ == step_final_suffix(w@),
{
    if let Some(k) = stem_len(&w, "ion") {
        if k >= 1 && (w[k - 1] == 's' || w[k - 1] == 't') && measure_of(&w, k) > 1 {
            prefix(&w, k)
        } else {
            w
        }
    } else {
        let table = final_suffix_table();
        rules_applied(w, &table, 1)
    }
}

/// Computes [`step_final_e`].
fn final_e(w: Vec<char>) -> (out: Vec<char>)
    ensures
        out@ == step_final_e(w@),
{
    let mut w = w;
    if w.len() >= 1 && w[w.len() - 1] == 'e' {
        let m = measure_of(&w, w.len() - 1);
        if m > 1 || (m == 1 && !cvc_at(&w, w.len() - 1)) {
            let _ = w.pop();
        }
    }
    w
}

/// Computes [`step_double_l`].
fn double_l(w: Vec<char>) -> (out: Vec<char>)
    ensures
        out@ == step_double_l(w@),
{
    let mut w = w;
    if w.len() >= 1 && w[w.len() - 1] == 'l' && double_at_end(&w) && measure_of(&w, w.len()) > 1 {
        let _ = w.pop();
    }
    w
}

/// Computes [`stem`].
pub fn stem_of(word: &Vec<char>) -> (out: Vec<char>)
    ensures
        out@ == stem(word@),
{
    let w = prefix(word, word.len());
    assert(w@ =~= word@);
    if w.len() <= 2 {
        return w;
    }
    let w = final_y(past(plural(w)));
    let doubles = double_suffix_table();
    let w = rules_applied(w, &doubles, 0);
    let singles = single_suffix_table();
    let w = rules_applied(w, &singles, 0);
    double_l(final_e(final_suffix(w)))
}

} // verus!
