use sting::constrain::Constrainer;
use sting::generate::{build_encoder_input, Generation, MAX_ENC_LEN, MAX_GEN_LEN};
use sting::machine::{JsonState, StateMachine};
use sting::single::NEG_INFINITY;
use sting::tokenizer::Tokenizer;
use sting::trie::TrieNode;
use sting::vocab::{EOS_ID, TOOLS_ID};

const TOOLS: &str = "[{\"name\":\"torch\",\"description\":\"\",\"parameters\":{\"state\":{\"type\":\
                     \"string\"},\"note\":\"no object\"}},{\"name\":\"tone\",\"parameters\":{}}]";

/// The pieces of the vocabulary, from id 6 on, after the special ones.
const PIECES: [&str; 14] = [
    "\u{2581}",               // 6
    "[{\"name\":\"",          // 7
    "to",                     // 8
    "rch",                    // 9
    "ne",                     // 10
    "\"",                     // 11
    ",\"arguments\":{",       // 12
    "state",                  // 13
    "note",                   // 14
    ":\"",                    // 15
    "on",                     // 16
    "}}]",                    // 17
    "rch\",\"",               // 18
    "x",                      // 19
];

fn tokenizer() -> Tokenizer {
    let mut list = String::from(
        "[\"<pad>\",0,3],[\"</s>\",0,3],[\"<s>\",0,3],[\"<unk>\",0,2],[\"<tool_call>\",0,4],[\"<tools>\",0,4]",
    );
    for p in PIECES {
        list.push_str(&format!(",[{},0,1]", serde_json::to_string(p).unwrap()));
    }
    Tokenizer::from_spec_text(&format!("{{\"pieces\":[{list}]}}"), &Vec::new()).unwrap()
}

fn chars(s: &str) -> Vec<char> {
    s.chars().collect()
}

fn flat() -> Vec<u32> {
    vec![0f32.to_bits(); 20]
}

/// The tokens that keep their logit.
fn kept(c: &Constrainer) -> Vec<usize> {
    assert!(c.mask_fits(20));
    let mut logits = flat();
    c.constrain(&mut logits);
    (0..logits.len()).filter(|&i| logits[i] != NEG_INFINITY).collect()
}

#[test]
fn trie_words_and_continuations() {
    let mut t = TrieNode::new();
    t.insert("torch");
    t.insert("to");
    assert!(t.walk(&chars("tor")).is_some());
    assert!(t.walk(&chars("ton")).is_none());
    assert!(t.valid_continuation(&chars("torch\"")));
    assert!(t.valid_continuation(&chars("to\",")));
    assert!(t.valid_continuation(&chars("tor")));
    assert!(t.valid_continuation(&chars("")));
    assert!(!t.valid_continuation(&chars("tor\"")));
    assert!(!t.valid_continuation(&chars("tx")));
    assert!(!t.valid_continuation(&chars("\"")));
    let mut heads = t.walk(&chars("to")).unwrap().first_chars();
    heads.sort();
    assert_eq!(heads, vec!['"', 'r']);
}

#[test]
fn scanner_follows_a_call() {
    let mut m = StateMachine::new();
    m.feed(&chars("[{\"name\":\""));
    assert_eq!(m.state(), JsonState::InName);
    m.feed(&chars("torch"));
    assert_eq!(m.span(), &chars("torch"));
    m.feed(&chars("\""));
    assert_eq!(m.state(), JsonState::Free);
    assert_eq!(m.function(), &chars("torch"));
    m.feed(&chars(",\"arguments\":{\""));
    assert_eq!(m.state(), JsonState::InArgKey);
    m.feed(&chars("state\":\""));
    // Inside a value nothing starts a name or a key, escaped marks included.
    m.feed(&chars("\\\",\"name\":\""));
    assert_eq!(m.state(), JsonState::Free);
}

#[test]
fn scanner_reaches_the_next_key_and_the_next_call() {
    let mut m = StateMachine::new();
    m.feed(&chars("[{\"name\":\"a\",\"arguments\":{\"k\":1,\""));
    assert_eq!(m.state(), JsonState::InArgKey);
    m.feed(&chars("l\":{\"deep\":2}}},{\"name\":\""));
    assert_eq!(m.state(), JsonState::InName);
    assert_eq!(m.function(), &chars("a"));
}

#[test]
fn scanner_follows_any_name_to_its_arguments() {
    for name in ["", "a", "no such tool", "{}[]:,"] {
        let mut m = StateMachine::new();
        m.feed(&chars("[{"));
        m.feed(&chars("\"name\":\""));
        m.feed(&chars(name));
        assert_eq!(m.state(), JsonState::InName);
        assert_eq!(m.span(), &chars(name));
        m.feed(&chars("\",\"arguments\":{\""));
        assert_eq!(m.state(), JsonState::InArgKey);
        assert_eq!(m.function(), &chars(name));
        m.feed(&chars("k\":[1],\""));
        assert_eq!(m.state(), JsonState::InArgKey);
        m.feed(&chars("l\":2}"));
        m.feed(&chars("\"name\":\""));
        assert_eq!(m.state(), JsonState::InName);
    }
}

#[test]
fn scanner_does_not_constrain_nested_keys() {
    let mut m = StateMachine::new();
    m.feed(&chars("{\"name\":\"a\",\"arguments\":{\"k\":{\""));
    assert_eq!(m.state(), JsonState::Free);
    m.feed(&chars("name\":\""));
    assert_eq!(m.state(), JsonState::Free);
}

#[test]
fn scanner_leaves_whole_values_free() {
    for value in [
        "[\"]\",\"x\"]",
        "[\"}\",[\"{\",\"]\"],\"\\\"]\",\"y\"]",
        "{\"a\":\"}\",\"]\":[\"b\",\"c\"],\"name\":\"x\"}",
        "{\"arguments\":{\"k\":1,\"l\":2},\"m\":3}",
        "\",\\\"{[\"",
        "7",
    ] {
        let mut m = StateMachine::new();
        m.feed(&chars("[{\"name\":\"t\",\"arguments\":{\"a\":"));
        for c in value.chars() {
            m.feed_char(c);
            assert_eq!(m.state(), JsonState::Free, "{value} at {c}");
        }
        // The next key is a key again, and the next call a call.
        m.feed(&chars(",\""));
        assert_eq!(m.state(), JsonState::InArgKey, "{value}");
        m.feed(&chars("b\":1}},{\"name\":\""));
        assert_eq!(m.state(), JsonState::InName, "{value}");
        assert_eq!(m.function(), &chars("t"));
    }
}

#[test]
fn scanner_takes_arguments_for_an_argument_inside_arguments() {
    let mut m = StateMachine::new();
    m.feed(&chars("[{\"name\":\"t\",\"arguments\":{\"arguments\":{\""));
    assert_eq!(m.state(), JsonState::Free);
    m.feed(&chars("k\":1},\""));
    assert_eq!(m.state(), JsonState::InArgKey);
}

#[test]
fn scanner_opens_arguments_again_above_the_last_ones() {
    let mut m = StateMachine::new();
    m.feed(&chars("{{\"arguments\":{]]\"arguments\":{"));
    assert_eq!(m.state(), JsonState::Free);
    m.feed(&chars("\""));
    assert_eq!(m.state(), JsonState::InArgKey);
}

#[test]
fn scanner_survives_stray_brackets() {
    let mut m = StateMachine::new();
    m.feed(&chars("}}]]\"name\":\""));
    assert_eq!(m.state(), JsonState::InName);
}

#[test]
fn constrainer_lets_known_names_through() {
    let tok = tokenizer();
    let mut c = Constrainer::new(TOOLS, &tok);
    assert_eq!(c.vocab_size(), 20);
    assert!(!c.is_active());
    assert_eq!(kept(&c).len(), 20);
    c.update(7);
    assert!(c.is_active());
    assert_eq!(kept(&c), vec![8]);
    c.update(8);
    assert_eq!(kept(&c), vec![9, 10, 18]);
    c.update(9);
    assert_eq!(kept(&c), vec![11]);
    c.update(11);
    assert!(!c.is_active());
}

#[test]
fn constrainer_lets_known_keys_through() {
    let tok = tokenizer();
    let mut c = Constrainer::new(TOOLS, &tok);
    for id in [7, 8, 9, 11, 12, 11] {
        c.update(id);
    }
    assert!(c.is_active());
    // `note` is a parameter but not an object, so it is no argument.
    assert_eq!(kept(&c), vec![13]);
    c.update(13);
    assert_eq!(kept(&c), vec![11]);
}

#[test]
fn constrainer_without_a_way_on_masks_nothing() {
    let tok = tokenizer();
    let mut c = Constrainer::new(TOOLS, &tok);
    // Off the known names.
    c.update(7);
    c.update(19);
    assert!(c.is_active());
    assert_eq!(kept(&c).len(), 20);
    // A known tool without arguments.
    let mut c = Constrainer::new(TOOLS, &tok);
    for id in [7, 8, 10, 11, 12, 11] {
        c.update(id);
    }
    assert!(c.is_active());
    assert_eq!(kept(&c).len(), 20);
    // No tools at all.
    let mut c = Constrainer::new("not json", &tok);
    c.update(7);
    assert!(c.is_active());
    assert_eq!(kept(&c).len(), 20);
}

#[test]
fn constrainer_leaves_a_way_on_character_by_character() {
    let mut list = String::from("[\"<pad>\",0,3]");
    for p in ["{\"name\":\"", "t", "o", "n", "e", "\"", "x"] {
        list.push_str(&format!(",[{},0,1]", serde_json::to_string(p).unwrap()));
    }
    let tok = Tokenizer::from_spec_text(&format!("{{\"pieces\":[{list}]}}"), &Vec::new()).unwrap();
    let mut c = Constrainer::new("[{\"name\":\"tone\",\"parameters\":{}}]", &tok);
    c.update(1);
    for id in [2, 3, 4, 5, 6] {
        let mut logits = vec![0f32.to_bits(); 8];
        c.constrain(&mut logits);
        let left: Vec<usize> = (0..logits.len()).filter(|&i| logits[i] != NEG_INFINITY).collect();
        assert_eq!(left, vec![id]);
        c.update(id as u32);
    }
    assert!(!c.is_active());
}

#[test]
fn constrainer_knows_when_logits_are_too_few() {
    let tok = tokenizer();
    let mut c = Constrainer::new(TOOLS, &tok);
    c.update(7);
    assert!(!c.mask_fits(8));
    assert!(c.mask_fits(9));
}

#[test]
fn encoder_input_is_capped() {
    let tok = tokenizer();
    let ids = build_encoder_input(&tok, "x", "to");
    assert_eq!(ids, vec![6, 19, TOOLS_ID, 6, 8]);
    assert_eq!(build_encoder_input(&tok, "", ""), vec![TOOLS_ID]);

    let long = "x".repeat(3000);
    let ids = build_encoder_input(&tok, &long, &long);
    assert_eq!(ids.len(), MAX_ENC_LEN);
    assert_eq!(ids[MAX_ENC_LEN - 2], TOOLS_ID);
    let ids = build_encoder_input(&tok, "x", &long);
    assert_eq!(ids.len(), MAX_ENC_LEN);
    assert_eq!(ids[2], TOOLS_ID);
}

/// Logits that rank the given tokens first, in their order.
fn ranked(ids: &[usize]) -> Vec<u32> {
    let mut logits = flat();
    for (i, &id) in ids.iter().enumerate() {
        logits[id] = (100.0 - i as f32).to_bits();
    }
    logits
}

fn step(run: &mut Generation, logits: Vec<u32>) {
    assert!(run.fits(&logits));
    run.step(logits);
}

#[test]
fn generation_is_held_to_known_names() {
    let tok = tokenizer();
    let mut run = Generation::start(&tok, TOOLS, true);
    assert_eq!(run.next_input(), Some(EOS_ID));
    step(&mut run, ranked(&[4]));
    assert_eq!(run.next_input(), Some(4));
    step(&mut run, ranked(&[7]));
    // The model would rather write `x`.
    step(&mut run, ranked(&[19, 8]));
    step(&mut run, ranked(&[19, 10]));
    step(&mut run, ranked(&[19, 11]));
    step(&mut run, ranked(&[EOS_ID as usize]));
    assert_eq!(run.next_input(), None);
    assert_eq!(run.text(&tok), "[{\"name\":\"tone\"");
    let stats = run.stats(9, 2, 3);
    assert_eq!((stats.prefill_tokens, stats.generated_tokens), (9, 5));
    assert_eq!((stats.prefill_ms, stats.decode_ms), (2, 3));
}

#[test]
fn generation_without_constraint_is_free() {
    let tok = tokenizer();
    let mut run = Generation::start(&tok, TOOLS, false);
    step(&mut run, ranked(&[7]));
    step(&mut run, ranked(&[19, 8]));
    assert_eq!(run.text(&tok), "[{\"name\":\"x");
}

#[test]
fn generation_ends_at_the_limit() {
    let tok = tokenizer();
    let mut run = Generation::start(&tok, "[]", false);
    let mut steps = 0;
    while run.next_input().is_some() {
        step(&mut run, ranked(&[19]));
        steps += 1;
    }
    assert_eq!(steps, MAX_GEN_LEN - 1);
    assert_eq!(run.stats(0, 0, 0).generated_tokens, 191);
}

#[test]
fn generation_knows_when_logits_do_not_fit() {
    let tok = tokenizer();
    let mut run = Generation::start(&tok, TOOLS, true);
    let mut more = vec![0u32; 21];
    more[20] = 1f32.to_bits();
    assert!(!run.fits(&more));
    step(&mut run, ranked(&[7]));
    assert!(!run.fits(&vec![0u32; 8]));
}
