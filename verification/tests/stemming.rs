use sn0int_registry::stem::stem_of;
use sn0int_registry::text::terms_of;
use sn0int_registry::Module;
use sn0int_registry::NewModule;
use sn0int_registry::Registry;

fn stem(word: &str) -> String {
    stem_of(&word.chars().collect()).into_iter().collect()
}

fn expect_stems(pairs: &[(&str, &str)]) {
    for (word, expected) in pairs {
        assert_eq!(stem(word), *expected, "stem of {}", word);
    }
}

#[test]
fn plurals() {
    expect_stems(&[
        ("caresses", "caress"),
        ("ponies", "poni"),
        ("ties", "ti"),
        ("caress", "caress"),
        ("cats", "cat"),
    ]);
}

#[test]
fn past_and_progressive_forms() {
    expect_stems(&[
        ("feed", "feed"),
        ("agreed", "agre"),
        ("plastered", "plaster"),
        ("bled", "bled"),
        ("motoring", "motor"),
        ("sing", "sing"),
        ("conflated", "conflat"),
        ("troubled", "troubl"),
        ("sized", "size"),
        ("hopping", "hop"),
        ("tanned", "tan"),
        ("falling", "fall"),
        ("hissing", "hiss"),
        ("fizzed", "fizz"),
        ("failing", "fail"),
        ("filing", "file"),
    ]);
}

#[test]
fn final_y() {
    expect_stems(&[("happy", "happi"), ("sky", "sky"), ("gallery", "galleri")]);
}

#[test]
fn double_suffixes() {
    expect_stems(&[
        ("relational", "relat"),
        ("conditional", "condit"),
        ("rational", "ration"),
        ("valenci", "valenc"),
        ("hesitanci", "hesit"),
        ("digitizer", "digit"),
        ("conformabli", "conform"),
        ("radicalli", "radic"),
        ("differentli", "differ"),
        ("vileli", "vile"),
        ("analogousli", "analog"),
        ("vietnamization", "vietnam"),
        ("predication", "predic"),
        ("operator", "oper"),
        ("feudalism", "feudal"),
        ("decisiveness", "decis"),
        ("hopefulness", "hope"),
        ("callousness", "callous"),
        ("formaliti", "formal"),
        ("sensitiviti", "sensit"),
        ("sensibiliti", "sensibl"),
    ]);
}

#[test]
fn single_suffixes() {
    expect_stems(&[
        ("triplicate", "triplic"),
        ("formative", "form"),
        ("formalize", "formal"),
        ("electriciti", "electr"),
        ("electrical", "electr"),
        ("hopeful", "hope"),
        ("goodness", "good"),
    ]);
}

#[test]
fn final_suffixes() {
    expect_stems(&[
        ("revival", "reviv"),
        ("allowance", "allow"),
        ("inference", "infer"),
        ("airliner", "airlin"),
        ("gyroscopic", "gyroscop"),
        ("adjustable", "adjust"),
        ("defensible", "defens"),
        ("irritant", "irrit"),
        ("replacement", "replac"),
        ("adjustment", "adjust"),
        ("dependent", "depend"),
        ("adoption", "adopt"),
        ("homologou", "homolog"),
        ("communism", "commun"),
        ("activate", "activ"),
        ("angulariti", "angular"),
        ("homologous", "homolog"),
        ("effective", "effect"),
        ("bowdlerize", "bowdler"),
    ]);
}

#[test]
fn final_e_and_double_l() {
    expect_stems(&[
        ("probate", "probat"),
        ("rate", "rate"),
        ("cease", "ceas"),
        ("controll", "control"),
        ("roll", "roll"),
    ]);
}

#[test]
fn whole_words() {
    expect_stems(&[
        ("generalizations", "gener"),
        ("oscillators", "oscil"),
        ("photos", "photo"),
        ("photo", "photo"),
        ("galleries", "galleri"),
        ("scanner", "scanner"),
        ("scanning", "scan"),
        ("scans", "scan"),
    ]);
}

#[test]
fn short_words_and_other_characters_stay() {
    expect_stems(&[("as", "as"), ("is", "is"), ("a", "a"), ("", ""), ("ab12", "ab12"), ("\u{e9}t\u{e9}", "\u{e9}t\u{e9}")]);
}

#[test]
fn terms_are_stemmed_words() {
    let terms: Vec<String> =
        terms_of("Photo GALLERIES, scanning!").into_iter().map(|t| t.into_iter().collect()).collect();
    assert_eq!(terms, vec!["photo", "galleri", "scan"]);
}

#[test]
fn search_matches_other_forms_of_a_word() {
    let mut store = Registry::new();
    Module::create(
        &NewModule { author: "alice", name: "gallery", description: "Scrapes a photo gallery", latest: None },
        &mut store,
    )
    .unwrap();
    Module::create(
        &NewModule { author: "bob", name: "dns", description: "Photographs of galleries", latest: None },
        &mut store,
    )
    .unwrap();
    let hits = Module::search("photos galleries", &store).unwrap();
    assert_eq!(hits.len(), 1);
    assert_eq!(hits[0].0.name, "gallery");
    assert_eq!(hits[0].1, 0);
    let hits = Module::search("scraping", &store).unwrap();
    assert_eq!(hits.iter().map(|h| h.0.id).collect::<Vec<i32>>(), vec![1]);
}
