use std::collections::hash_map::DefaultHasher;
use std::hash::{Hash, Hasher};

use sting::cli::{
    parse_args, parse_number, read_line, resolve, token_line, use_retrieval, Location, Opts,
    ReplInput, UsageError,
};
use sting::model::{
    causal_mask, default_max_seq, has_head, missing_tensor, needed_names, Config, DecoderNames,
    EncoderNames,
};
use sting::parity::{Parity, RowError};
use sting::retrieval::{
    cache_path, embedding_input, hash_str, model_fingerprint, Cache, Retriever, MAX_EMBED_TOKENS,
};
use sting::text::{decimal_text, squeeze, strip_prefix, trim};
use sting::tokenizer::Tokenizer;
use sting::tools::{single_tool_model_json, ToolSet};

fn args(list: &[&str]) -> Result<Opts, UsageError> {
    parse_args(&list.iter().map(|s| s.to_string()).collect())
}

#[test]
fn options_by_default() {
    let o = args(&[]).unwrap();
    assert_eq!(o.top_k, 6);
    assert!(o.query.is_none() && o.tools_path.is_none() && o.model_dir.is_none());
    assert!(!o.repl && !o.dry_run && !o.assume_yes && !o.raw && !o.no_constrain && !o.timing);
}

#[test]
fn options_are_read() {
    let o = args(&[
        "--tools", "t.json", "--model-dir", "m", "--dry-run", "-y", "--raw", "--no-constrain",
        "--top-k", "3", "--time", "--repl", "--tools-raw", "r.json", "torch on",
    ])
    .unwrap();
    assert_eq!(o.tools_path.as_deref(), Some("t.json"));
    assert_eq!(o.tools_raw_path.as_deref(), Some("r.json"));
    assert_eq!(o.model_dir.as_deref(), Some("m"));
    assert_eq!(o.query.as_deref(), Some("torch on"));
    assert_eq!(o.top_k, 3);
    assert!(o.dry_run && o.assume_yes && o.raw && o.no_constrain && o.timing && o.repl);
    assert!(args(&["--yes"]).unwrap().assume_yes);
    assert_eq!(args(&["verify-tokenizer", "p"]).unwrap().verify_tokenizer.as_deref(), Some("p"));
    assert_eq!(args(&["tokenize", "c"]).unwrap().tokenize.as_deref(), Some("c"));
}

#[test]
fn later_options_win() {
    assert_eq!(args(&["a", "b"]).unwrap().query.as_deref(), Some("b"));
    assert_eq!(args(&["--tools", "a", "--tools", "b"]).unwrap().tools_path.as_deref(), Some("b"));
    // A flag without its value takes the earlier one back.
    assert!(args(&["--tools", "a", "--tools"]).unwrap().tools_path.is_none());
    // What follows a flag is its value, whatever it looks like.
    assert_eq!(args(&["--tools", "--repl"]).unwrap().tools_path.as_deref(), Some("--repl"));
    assert_eq!(args(&["--top-k", "0", "--top-k", "2"]).unwrap().top_k, 2);
    assert_eq!(args(&[""]).unwrap().query.as_deref(), Some(""));
}

#[test]
fn bad_options() {
    assert!(matches!(args(&["-h"]), Err(UsageError::Help)));
    assert!(matches!(args(&["x", "--help", "--nope"]), Err(UsageError::Help)));
    assert!(matches!(args(&["--top-k"]), Err(UsageError::TopK)));
    assert!(matches!(args(&["--top-k", "six"]), Err(UsageError::TopK)));
    assert!(matches!(args(&["--nope", "-h"]), Err(UsageError::UnknownFlag(s)) if s == "--nope"));
    assert!(matches!(args(&["-"]), Err(UsageError::UnknownFlag(s)) if s == "-"));
}

#[test]
fn numbers_are_read_like_the_standard_library_does() {
    for s in [
        "0", "7", "+7", "007", "18446744073709551615", "18446744073709551616",
        "99999999999999999999999", "", "+", "-", "-1", "++1", "1 ", " 1", "1.0", "1e3", "٣", "+0",
    ] {
        assert_eq!(parse_number(s), s.parse::<usize>().ok(), "{s:?}");
    }
}

#[test]
fn locations() {
    let s = |x: &str| Some(x.to_string());
    assert!(matches!(resolve(s("p"), s("h"), "model", "f"), Location::At(p) if p == "p"));
    assert!(matches!(
        resolve(None, s("h"), "model", "f"),
        Location::InHome { home, sub } if home == "h" && sub == "model"
    ));
    assert!(matches!(resolve(None, None, "model", "f"), Location::At(p) if p == "f"));
}

#[test]
fn retrieval_is_used_for_many_tools() {
    assert!(use_retrieval(false, 6, 7, true));
    assert!(!use_retrieval(false, 6, 6, true));
    assert!(!use_retrieval(false, 0, 7, true));
    assert!(!use_retrieval(true, 6, 7, true));
    assert!(!use_retrieval(false, 6, 7, false));
}

#[test]
fn lines_of_the_interactive_mode() {
    assert!(matches!(read_line(" \n"), ReplInput::Skip));
    for line in ["q\n", " quit ", "exit"] {
        assert!(matches!(read_line(line), ReplInput::Quit));
    }
    assert!(matches!(read_line(" Q \n"), ReplInput::Request(r) if r == "Q"));
    assert!(matches!(read_line("torch on\n"), ReplInput::Request(r) if r == "torch on"));
}

fn tokenizer() -> Tokenizer {
    let text = "{\"pieces\":[[\"\u{2581}\",0,1],[\"a\",0,1],[\"b\",0,1]]}";
    Tokenizer::from_spec_text(text, &Vec::new()).unwrap()
}

#[test]
fn token_lines() {
    assert_eq!(token_line(&tokenizer(), "ab a"), "0 1 2 0 1");
    assert_eq!(token_line(&tokenizer(), ""), "");
}

#[test]
fn parity_counts() {
    let tok = tokenizer();
    let mut p = Parity::new();
    p.check_line(&tok, "{\"text\":\"a\",\"ids\":[0,1],\"decoded\":\"a\"}").unwrap();
    p.check_line(&tok, "   ").unwrap();
    assert!(p.passed());
    let r = p.check_line(&tok, "{\"text\":\"b\",\"ids\":[0,1]}").unwrap();
    let m = r.encode.unwrap();
    assert_eq!((m.text.as_str(), m.want, m.got), ("b", vec![0, 1], vec![0, 2]));
    assert!(r.decode.is_none());
    let r = p.check_line(&tok, "{\"text\":\"a\",\"ids\":[0,1],\"decoded\":\"b\"}").unwrap();
    assert!(r.encode.is_none());
    let m = r.decode.unwrap();
    assert_eq!((m.want.as_str(), m.got.as_str()), ("b", "a"));
    assert!(!p.passed());
    assert_eq!(
        p.summary(),
        "tokenizer parity: 3 rows, 1 encode mismatches, 1 decode mismatches"
    );
}

#[test]
fn parity_tells_the_first_few() {
    let tok = tokenizer();
    let mut p = Parity::new();
    let told: Vec<bool> = (0..7)
        .map(|_| p.check_line(&tok, "{\"text\":\"b\",\"ids\":[]}").unwrap().encode.is_some())
        .collect();
    assert_eq!(told, vec![true, true, true, true, true, false, false]);
    assert_eq!(p.enc_fail, 7);
}

#[test]
fn parity_ids_are_lenient() {
    let tok = tokenizer();
    let mut p = Parity::new();
    // Not an id counts as zero; the lowest 32 bits of a large one count.
    p.check_line(&tok, "{\"text\":\"a\",\"ids\":[\"x\",4294967297]}").unwrap();
    assert!(p.passed());
}

#[test]
fn parity_errors() {
    let tok = tokenizer();
    let mut p = Parity::new();
    assert!(matches!(p.check_line(&tok, "{"), Err(RowError::Json(_))));
    assert!(matches!(p.check_line(&tok, "{\"ids\":[]}"), Err(RowError::NoText)));
    assert!(matches!(p.check_line(&tok, "{\"text\":\"a\"}"), Err(RowError::NoIds)));
    assert_eq!(p.total, 0);
}

#[test]
fn hashes_are_those_of_the_default_hasher() {
    for s in ["", "a", "{\"name\":\"é\"}"] {
        let mut h = DefaultHasher::new();
        s.hash(&mut h);
        assert_eq!(hash_str(s), h.finish());
    }
    assert_ne!(hash_str("a"), hash_str("b"));
}

#[test]
fn fingerprints_and_paths() {
    assert_eq!(model_fingerprint(Some((52, 1700000000))), "52:1700000000");
    assert_eq!(model_fingerprint(None), "unknown");
    assert_eq!(cache_path("dir/tools.json"), "dir/tools.json.embcache");
}

fn toolset(description: &str) -> ToolSet {
    let config =
        format!("[{{\"name\":\"a\",\"description\":\"{description}\"}},{{\"name\":\"b\"}}]");
    ToolSet::from_config(&config).unwrap()
}

/// Goes once over the tools; says which ones were embedded. The embedding of a
/// tool is the number of its tokens.
fn refresh(r: &mut Retriever, set: &ToolSet) -> Vec<usize> {
    let done: Result<Vec<usize>, ()> =
        r.refresh(&tokenizer(), set, |ids: &Vec<u32>| Ok(vec![ids.len() as u32]));
    done.unwrap()
}

/// The embedding that `refresh` makes for a tool.
fn made(set: &ToolSet, i: usize) -> Vec<u32> {
    vec![embedding_input(&tokenizer(), &single_tool_model_json(&set.tools[i])).len() as u32]
}

#[test]
fn embeddings_are_kept() {
    let set = toolset("x");
    let mut r = Retriever::new(None, "fp".into());
    assert!(!r.take_dirty());
    assert!(r.embedding(&set.tools[0]).is_none());
    assert_eq!(refresh(&mut r, &set), vec![0, 1]);
    assert!(r.take_dirty());
    assert!(!r.take_dirty());
    assert_eq!(refresh(&mut r, &set), Vec::<usize>::new());
    assert!(!r.take_dirty());
    assert_eq!(r.embedding(&set.tools[1]).unwrap(), &made(&set, 1));
}

#[test]
fn editing_a_tool_makes_its_embedding_stale() {
    let mut r = Retriever::new(None, "fp".into());
    refresh(&mut r, &toolset("x"));
    let kept = r.cache().get("b").unwrap().embedding.clone();
    assert_eq!(refresh(&mut r, &toolset("yy")), vec![0]);
    assert_eq!(r.cache().entries().len(), 2);
    assert_eq!(r.cache().get("b").unwrap().embedding, kept);
    assert_eq!(r.embedding(&toolset("yy").tools[0]).unwrap(), &made(&toolset("yy"), 0));
}

#[test]
fn an_error_ends_the_pass_and_keeps_what_was_made() {
    let set = toolset("x");
    let first = made(&set, 0)[0];
    let mut r = Retriever::new(None, "fp".into());
    let out = r.refresh(&tokenizer(), &set, |ids: &Vec<u32>| {
        if ids.len() as u32 == first {
            Ok(vec![7])
        } else {
            Err("no model")
        }
    });
    assert_eq!(out, Err("no model"));
    assert!(r.take_dirty());
    assert_eq!(r.embedding(&set.tools[0]).unwrap(), &vec![7]);
    assert!(r.embedding(&set.tools[1]).is_none());
}

#[test]
fn embeddings_under_other_names_stay() {
    let mut c = Cache::new("fp".into());
    c.put("old".into(), 1, vec![9]);
    let mut r = Retriever::new(Some(c), "fp".into());
    refresh(&mut r, &toolset("x"));
    assert_eq!(r.cache().entries().len(), 3);
    assert_eq!(r.cache().get("old").unwrap().embedding, vec![9]);
}

#[test]
fn another_model_makes_all_embeddings_stale() {
    let set = toolset("x");
    let saved = |fp: &str| {
        let mut c = Cache::new(fp.into());
        for t in &set.tools {
            c.put(t.name.clone(), hash_str(&single_tool_model_json(t)), vec![1]);
        }
        c
    };
    let mut same = Retriever::new(Some(saved("1:2")), "1:2".into());
    assert_eq!(refresh(&mut same, &set), Vec::<usize>::new());
    let mut other = Retriever::new(Some(saved("1:2")), "1:3".into());
    assert_eq!(other.cache().fingerprint(), "1:3");
    assert_eq!(refresh(&mut other, &set), vec![0, 1]);
}

#[test]
fn tools_that_share_a_name_are_embedded_in_turn() {
    let set = ToolSet::from_config("[{\"name\":\"a\",\"description\":\"1\"},{\"name\":\"a\"}]").unwrap();
    let mut r = Retriever::new(None, "fp".into());
    assert_eq!(refresh(&mut r, &set), vec![0, 1]);
    // The later one holds the place, so the earlier one is stale again.
    assert_eq!(r.embedding(&set.tools[0]).unwrap(), &made(&set, 1));
    assert_eq!(refresh(&mut r, &set), vec![0, 1]);
}

#[test]
fn caches_hold_one_entry_per_name() {
    let mut c = Cache::new("fp".into());
    c.put("a".into(), 1, vec![1]);
    c.put("b".into(), 2, vec![2]);
    c.put("a".into(), 3, vec![3]);
    assert_eq!(c.entries().len(), 2);
    assert_eq!(c.get("a").unwrap().hash, 3);
    assert_eq!(c.get("a").unwrap().embedding, vec![3]);
    assert!(c.get("c").is_none());
    assert!(c.holds("a", 3));
    assert!(!c.holds("a", 1));
    assert!(!c.holds("c", 3));
}

#[test]
fn shortlists_keep_the_order_of_the_tools() {
    let r = Retriever::new(None, "fp".into());
    let s: Vec<u32> = [0.1f32, 0.8, -0.5, 0.9].iter().map(|x| x.to_bits()).collect();
    assert_eq!(r.shortlist(&s, 2), vec![1, 3]);
}

#[test]
fn embedded_texts_are_capped() {
    let tok = tokenizer();
    assert_eq!(embedding_input(&tok, "ab"), vec![0, 1, 2]);
    assert_eq!(embedding_input(&tok, &"a".repeat(999)).len(), MAX_EMBED_TOKENS);
}

fn config() -> Config {
    Config {
        vocab_size: 8192,
        d_model: 512,
        num_heads: 8,
        num_kv_heads: 4,
        num_encoder_layers: 1,
        num_decoder_layers: 2,
        max_seq_len: default_max_seq(),
    }
}

#[test]
fn needed_tensors_in_order() {
    let names = needed_names(&config());
    assert_eq!(names.len(), 8 + 2 * 16 + 3);
    assert_eq!(names[0], "encoder.layers.0.norm1.scale");
    assert_eq!(names[7], "encoder.layers.0.attn_gate");
    assert_eq!(names[8], "decoder.layers.0.norm1.scale");
    assert_eq!(names[23], "decoder.layers.0.cross_attn_gate");
    assert_eq!(names[24], "decoder.layers.1.norm1.scale");
    assert_eq!(names[42], "decoder.final_norm.scale");
}

#[test]
fn missing_tensors_are_told() {
    let cfg = config();
    let mut names = needed_names(&cfg);
    names.reverse();
    assert!(missing_tensor(&cfg, &names).is_none());
    names.retain(|n| n != "decoder.layers.1.norm2.scale" && n != "embedding.weight");
    assert_eq!(missing_tensor(&cfg, &names).unwrap(), "decoder.layers.1.norm2.scale");
    assert_eq!(missing_tensor(&cfg, &Vec::new()).unwrap(), "encoder.layers.0.norm1.scale");
}

#[test]
fn the_retrieval_head_is_whole_or_absent() {
    let mut names: Vec<String> = ["hidden.weight", "hidden.bias", "proj.weight"]
        .iter()
        .map(|n| format!("contrastive_{n}"))
        .collect();
    assert!(has_head(&names));
    names.remove(1);
    assert!(!has_head(&names));
}

#[test]
fn dimensions() {
    let cfg = config();
    assert_eq!((cfg.head_dim(), cfg.kv_repeats(), cfg.max_seq_len), (64, 2, 1024));
}

#[test]
fn tensor_names() {
    let e = EncoderNames::of(3);
    assert_eq!(e.norm1, "encoder.layers.3.norm1.scale");
    assert_eq!(e.self_attn.q_proj, "encoder.layers.3.self_attn.q_proj.weight");
    assert_eq!(e.self_attn.k_norm, "encoder.layers.3.self_attn.k_norm.scale");
    assert_eq!(e.attn_gate, "encoder.layers.3.attn_gate");
    let d = DecoderNames::of(10);
    assert_eq!(d.norm2, "decoder.layers.10.norm2.scale");
    assert_eq!(d.self_gate, "decoder.layers.10.self_attn_gate");
    assert_eq!(d.cross_attn.out_proj, "decoder.layers.10.cross_attn.out_proj.weight");
    assert_eq!(d.cross_gate, "decoder.layers.10.cross_attn_gate");
}

#[test]
fn causal_masks() {
    assert_eq!(
        causal_mask(2, 3),
        vec![false, true, true, false, false, true]
    );
    assert!(causal_mask(0, 5).is_empty());
}

#[test]
fn white_space_is_trimmed() {
    for u in (0..0x11_0000u32).filter_map(char::from_u32) {
        let s = format!("{u}a{u}");
        assert_eq!(trim(&s), s.trim(), "{:x}", u as u32);
    }
}

#[test]
fn parity_passes_where_every_row_is_right() {
    let tok = tokenizer();
    let good = "{\"text\":\"ab\",\"ids\":[0,1,2],\"decoded\":\"ab\"}";
    let bad = "{\"text\":\"ab\",\"ids\":[0,1,2],\"decoded\":\"b\"}";
    for (rows, passes) in [(vec![good, good], true), (vec![good, bad, good], false)] {
        let mut p = Parity::new();
        for row in &rows {
            p.check_line(&tok, row).unwrap();
        }
        assert_eq!(p.passed(), passes);
        assert_eq!(p.total, rows.len() as u64);
    }
}

#[test]
fn text_helpers() {
    assert_eq!(trim("\u{a0}\t a b \r\n"), "a b");
    assert_eq!(trim(" \n"), "");
    assert_eq!(decimal_text(u64::MAX), "18446744073709551615");
    assert_eq!(decimal_text(0), "0");
    assert_eq!(strip_prefix("<tool_call>[]", "<tool_call>"), "[]");
    assert_eq!(strip_prefix("[]", "<tool_call>"), "[]");
    assert_eq!(squeeze(&"__a__b_".chars().collect(), '_'), vec!['a', '_', 'b']);
}
