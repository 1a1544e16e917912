use sting::json::parse;
use sting::spec_file::{score_numbers, SpecError};
use sting::tokenizer::Tokenizer;
use sting::vocab::{BOS_ID, EOS_ID, PAD_ID, TOOLS_ID, TOOL_CALL_ID, UNK_ID};

/// The description of a vocabulary, and the scores of its pieces.
fn describe(pieces: &[(&str, f32, u8)], switches: &str) -> (String, Vec<u32>) {
    let mut list: Vec<String> = Vec::new();
    let mut scores: Vec<u32> = Vec::new();
    for (text, score, kind) in pieces {
        list.push(format!("[{},{:?},{}]", serde_json::to_string(text).unwrap(), score, kind));
        scores.push(score.to_bits());
    }
    (format!("{{\"pieces\":[{}]{}}}", list.join(","), switches), scores)
}

fn special() -> Vec<(&'static str, f32, u8)> {
    vec![
        ("<pad>", 0.0, 3),
        ("</s>", 0.0, 3),
        ("<s>", 0.0, 3),
        ("<unk>", 0.0, 2),
        ("<tool_call>", 0.0, 4),
        ("<tools>", 0.0, 4),
    ]
}

fn tokenizer(pieces: &[(&str, f32, u8)]) -> Tokenizer {
    let (text, scores) = describe(pieces, "");
    Tokenizer::from_spec_text(&text, &scores).unwrap()
}

/// Special pieces, then letters from id 6 on, then merges.
fn small() -> Tokenizer {
    let mut pieces = special();
    pieces.extend(vec![
        ("\u{2581}", -9.0, 1), // 6
        ("a", -9.0, 1),        // 7
        ("b", -9.0, 1),        // 8
        ("c", -9.0, 1),        // 9
        ("ab", -1.0, 1),       // 10
        ("bc", -2.0, 1),       // 11
        ("abc", -3.0, 1),      // 12
        ("<0xC3>", 0.0, 6),    // 13
        ("<0xA9>", 0.0, 6),    // 14
        ("\u{2581}ab", -0.5, 1), // 15
    ]);
    tokenizer(&pieces)
}

#[test]
fn special_ids() {
    assert_eq!((PAD_ID, EOS_ID, BOS_ID, UNK_ID), (0, 1, 2, 3));
    assert_eq!((TOOL_CALL_ID, TOOLS_ID), (4, 5));
    assert_eq!(small().vocab_size(), 16);
}

#[test]
fn encode_merges_the_best_pair_first() {
    let tok = small();
    // ▁ a b c: "ab" has the best score, then "▁ab" beats "abc".
    assert_eq!(tok.encode("abc"), vec![15, 9]);
    assert_eq!(tok.encode("cab"), vec![6, 9, 10]);
    assert_eq!(tok.encode("b"), vec![6, 8]);
    assert_eq!(tok.encode("bc"), vec![6, 11]);
}

#[test]
fn encode_ties_go_left() {
    let mut pieces = special();
    pieces.extend(vec![
        ("\u{2581}", 0.0, 1), // 6
        ("x", 0.0, 1),        // 7
        ("xx", -1.0, 1),      // 8
    ]);
    let tok = tokenizer(&pieces);
    assert_eq!(tok.encode("xxx"), vec![6, 8, 7]);
}

#[test]
fn encode_never_merges_at_minus_infinity_or_without_a_number() {
    for score in [f32::NEG_INFINITY, f32::NAN] {
        let mut pieces = special();
        pieces.extend(vec![("\u{2581}", 0.0, 1), ("x", 0.0, 1)]);
        let (text, mut scores) = describe(&pieces, "");
        let text = text.replace("]]}", "],[\"xx\",0,1]]}");
        scores.push(score.to_bits());
        let tok = Tokenizer::from_spec_text(&text, &scores).unwrap();
        assert_eq!(tok.encode("xx"), vec![6, 7, 7]);
    }
}

#[test]
fn encode_tidies_up_spaces() {
    let tok = small();
    assert_eq!(tok.encode(""), Vec::<u32>::new());
    assert_eq!(tok.encode("   "), Vec::<u32>::new());
    assert_eq!(tok.encode("  a   b "), tok.encode("a b"));
    assert_eq!(tok.encode("a b"), vec![6, 7, 6, 8]);
}

#[test]
fn encode_keeps_spaces_where_it_is_told_to() {
    let mut pieces = special();
    pieces.extend(vec![("\u{2581}", 0.0, 1), ("a", 0.0, 1)]);
    let switches = ",\"add_dummy_prefix\":false,\"remove_extra_whitespaces\":false";
    let (text, scores) = describe(&pieces, switches);
    let tok = Tokenizer::from_spec_text(&text, &scores).unwrap();
    assert_eq!(tok.encode("a  a"), vec![7, 6, 6, 7]);
    assert_eq!(tok.encode("a"), vec![7]);
    assert_eq!(tok.decode(&tok.encode("  a  a")), "a  a");
}

#[test]
fn encode_matches_symbols_whole() {
    let tok = small();
    assert_eq!(tok.encode("a<tools>b"), vec![6, 7, TOOLS_ID, 8]);
    assert_eq!(tok.encode("<tool_call>"), vec![6, TOOL_CALL_ID]);
}

#[test]
fn encode_prefers_the_earlier_and_then_the_longer_symbol() {
    let mut pieces = special();
    pieces.extend(vec![
        ("\u{2581}", 0.0, 1), // 6
        ("<a>", 0.0, 4),      // 7
        ("<a><b>", 0.0, 4),   // 8
        ("<b>", 0.0, 4),      // 9
    ]);
    let tok = tokenizer(&pieces);
    assert_eq!(tok.encode("<a><b>"), vec![6, 8]);
    assert_eq!(tok.encode("<b><a>"), vec![6, 9, 7]);
}

#[test]
fn encode_falls_back_to_bytes() {
    let tok = small();
    assert_eq!(tok.encode("é"), vec![6, 13, 14]);
    // No piece for the byte of `z`.
    assert_eq!(tok.encode("z"), vec![6, UNK_ID]);
}

#[test]
fn decode_shows_pieces_and_bytes() {
    let tok = small();
    assert_eq!(tok.decode(&vec![15, 9]), "abc");
    assert_eq!(tok.decode(&vec![6, 6, 7]), "a");
    assert_eq!(tok.decode(&vec![7, 6, 8]), "a b");
    assert_eq!(tok.decode(&vec![13, 14]), "é");
    // Bytes are collected across pieces that are not shown.
    assert_eq!(tok.decode(&vec![13, 3, 14]), "é");
    // A byte alone is not UTF-8.
    assert_eq!(tok.decode(&vec![13]), "\u{fffd}");
    assert_eq!(tok.decode(&vec![13, 7, 14]), "\u{fffd}a\u{fffd}");
}

#[test]
fn decode_passes_over_hidden_ids() {
    let tok = small();
    assert_eq!(tok.decode(&vec![0, 1, 2, 3, 999]), "");
    assert_eq!(tok.decode(&vec![1, 7, 999, 8, 3]), tok.decode(&vec![7, 8]));
}

#[test]
fn visible_text_of_tokens() {
    let tok = small();
    assert_eq!(tok.token_visible_text(15), " ab");
    assert_eq!(tok.token_visible_text(4), "<tool_call>");
    assert_eq!(tok.token_visible_text(14), "\u{a9}");
    assert_eq!(tok.token_visible_text(0), "");
    assert_eq!(tok.token_visible_text(3), "");
    assert_eq!(tok.token_visible_text(16), "");
}

#[test]
fn visible_texts_joined_are_the_decoded_text() {
    let tok = spelling();
    let joined = |ids: &Vec<u32>| -> String {
        ids.iter().map(|&id| tok.token_visible_text(id)).collect()
    };
    let ids = tok.encode("to <tools>{\"a\":[1, 2]} tomato\n");
    assert_eq!(joined(&ids), " to <tools>{\"a\":[1, 2]} tomato\n");
    assert_eq!(tok.decode(&ids), joined(&ids).trim_start_matches(' '));
    // A byte beyond ASCII is shown by itself.
    let ids = tok.encode("\u{e9}");
    assert_eq!(joined(&ids), " \u{c3}\u{a9}");
    assert_eq!(tok.decode(&ids), "\u{e9}");
}

#[test]
fn last_piece_with_a_text_counts() {
    let mut pieces = special();
    pieces.extend(vec![("\u{2581}", 0.0, 1), ("a", 0.0, 1), ("a", 0.0, 1)]);
    assert_eq!(tokenizer(&pieces).encode("a"), vec![6, 8]);
}

/// A vocabulary that can spell any text.
fn spelling() -> Tokenizer {
    let bytes: Vec<String> = (0..256).map(|b| format!("<0x{b:02X}>")).collect();
    let mut pieces = special();
    for b in &bytes {
        pieces.push((b.as_str(), 0.0, 6));
    }
    pieces.extend(vec![
        ("\u{2581}", -1.0, 1),
        ("t", -1.0, 1),
        ("o", -1.0, 1),
        ("to", -0.5, 1),
        ("\u{2581}to", -0.25, 1),
    ]);
    tokenizer(&pieces)
}

#[test]
fn decoding_gives_back_what_was_encoded() {
    let tok = spelling();
    for text in ["to", "tomato", "héllo wörld", "a<tools>b", "日本語 🪡", "{\"a\":[1,2]}\n\t."] {
        assert_eq!(tok.decode(&tok.encode(text)), text);
    }
    assert_eq!(tok.decode(&tok.encode("  too   many spaces ")), "too many spaces");
    let ids = tok.encode("  to  é ");
    assert_eq!(tok.encode(&tok.decode(&ids)), ids);
}

#[test]
fn spec_errors() {
    let none: Vec<u32> = Vec::new();
    assert!(matches!(Tokenizer::from_spec_text("{", &none), Err(SpecError::Json(_))));
    assert!(matches!(Tokenizer::from_spec_text("{}", &none), Err(SpecError::NoPieces)));
    assert!(matches!(Tokenizer::from_spec_text("[]", &none), Err(SpecError::NoPieces)));
    assert!(matches!(
        Tokenizer::from_spec_text("{\"pieces\":[[\"a\",0,1],[7,0,1]]}", &none),
        Err(SpecError::NoText(1))
    ));
    assert!(matches!(
        Tokenizer::from_spec_text("{\"pieces\":[[\"<0xZZ>\",0,6]]}", &none),
        Err(SpecError::BadHex(0))
    ));
    assert!(matches!(
        Tokenizer::from_spec_text("{\"pieces\":[[\"<0\",0,6]]}", &none),
        Err(SpecError::ByteText(0))
    ));
    assert!(matches!(
        Tokenizer::from_spec_text("{\"pieces\":[[\"<0é41>\",0,6]]}", &none),
        Err(SpecError::ByteText(0))
    ));
    // The first fault decides.
    assert!(matches!(
        Tokenizer::from_spec_text("{\"pieces\":[[\"<0xZZ>\",0,6],[7]]}", &none),
        Err(SpecError::BadHex(0))
    ));
}

#[test]
fn spec_defaults() {
    // A missing type is that of a normal piece, and a missing score is zero.
    let spec = parse("{\"pieces\":[[\"\u{2581}\"],[\"a\",null,\"x\"],[\"\u{2581}a\"]]}").unwrap();
    let tok = Tokenizer::from_spec(&spec, &Vec::new()).unwrap();
    assert_eq!(tok.encode("a"), vec![2]);
    // The type counts in its lowest eight bits: 259 is a control piece.
    let spec = parse("{\"pieces\":[[\"a\",0,259]]}").unwrap();
    let tok = Tokenizer::from_spec(&spec, &Vec::new()).unwrap();
    assert_eq!(tok.decode(&vec![0]), "");
}

#[test]
fn spec_hex_digits() {
    // Either case, and a plus sign in front of one digit.
    let text = "{\"pieces\":[[\"<0x4a>\",0,6],[\"<0x+B>\",0,6],[\"<0x4A>\",0,6]]}";
    let tok = Tokenizer::from_spec_text(text, &Vec::new()).unwrap();
    assert_eq!(tok.decode(&vec![0, 2]), "JJ");
    assert_eq!(tok.decode(&vec![1]), "\u{b}");
}

#[test]
fn spec_scores() {
    let spec = parse("{\"pieces\":[[\"a\",-1.5,1],[\"b\"],[\"c\",\"x\"],[\"d\",7]]}").unwrap();
    let scores: Vec<Option<f64>> =
        score_numbers(&spec).iter().map(|n| n.as_ref().and_then(|n| n.as_f64())).collect();
    assert_eq!(scores, vec![Some(-1.5), None, None, Some(7.0)]);
    assert!(score_numbers(&parse("{}").unwrap()).is_empty());
}
