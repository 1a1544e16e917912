//! What each argument of the program does to the settings, wherever it stands.

use crate::cli::{
    after_value, all_arguments, asked, default_settings, digits_value, is_shortened, number_in,
    numerals, one_argument, place_of, value_after, Asked, Place, Refusal, Settings,
};
use crate::laws::texts::{
    all_white, is_bare, joining_puts_one_between, trimming_takes_the_white_space_around,
    zeros_and_signs_in_front_change_nothing,
};
use crate::text::{decimal, joined};
use vstd::prelude::*;

verus! {

/// Is the argument one that takes the next one as its value?
pub open spec fn takes_value(arg: Seq<char>) -> bool {
    ||| arg == "--tools"@
    ||| arg == "--tools-raw"@
    ||| arg == "--model-dir"@
    ||| arg == "--top-k"@
    ||| arg == "verify-tokenizer"@
    ||| arg == "tokenize"@
}

/// Has every argument that takes a value one?
pub open spec fn is_whole(args: Seq<Seq<char>>) -> bool
    decreases args.len(),
{
    if args.len() == 0 {
        true
    } else if takes_value(args[0]) {
        args.len() > 1 && is_whole(args.skip(2))
    } else {
        is_whole(args.skip(1))
    }
}

/// Arguments are taken one after the other: what comes later starts from the
/// settings that what came before leaves, and a refusal ends it.
pub proof fn arguments_are_taken_in_order(s: Settings, a: Seq<Seq<char>>, b: Seq<Seq<char>>)
    requires
        is_whole(a),
    ensures
        all_arguments(s, a + b) == (match all_arguments(s, a) {
            Ok(t) => all_arguments(t, b),
            Err(e) => Err(e),
        }),
    decreases a.len(),
{
    if a.len() == 0 {
        assert(a + b =~= b);
    } else {
        let all = a + b;
        assert(all[0] == a[0]);
        assert(one_argument(s, all) == one_argument(s, a)) by {
            if a.len() > 1 {
                assert(all[1] == a[1]);
            }
        }
        if takes_value(a[0]) {
            assert(after_value(all) =~= a.skip(2) + b);
        } else {
            assert(all.skip(1) =~= a.skip(1) + b);
        }
        match one_argument(s, a) {
            Ok((next, two)) => {
                lemma_takes_two(s, a);
                if two {
                    arguments_are_taken_in_order(next, a.skip(2), b);
                } else {
                    arguments_are_taken_in_order(next, a.skip(1), b);
                }
            },
            Err(_) => {},
        }
    }
}

/// The flags and words of the program are all different.
proof fn lemma_words()
    ensures
        "--tools"@.len() == 7,
        "--tools-raw"@.len() == 11,
        "--model-dir"@.len() == 11,
        "--repl"@.len() == 6,
        "--dry-run"@.len() == 9,
        "-y"@.len() == 2,
        "--yes"@.len() == 5,
        "--raw"@.len() == 5,
        "--no-constrain"@.len() == 14,
        "--top-k"@.len() == 7,
        "--time"@.len() == 6,
        "verify-tokenizer"@.len() == 16,
        "tokenize"@.len() == 8,
        "-h"@.len() == 2,
        "--help"@.len() == 6,
        "--tools"@[2] == 't' && "--tools"@[4] == 'o',
        "--tools-raw"@[2] == 't',
        "--model-dir"@[2] == 'm',
        "--repl"@[2] == 'r',
        "--time"@[2] == 't',
        "--help"@[2] == 'h',
        "--top-k"@[4] == 'p',
        "--yes"@[2] == 'y',
        "--raw"@[2] == 'r',
        "-y"@[1] == 'y',
        "-h"@[1] == 'h',
        "verify-tokenizer"@[0] == 'v',
        "tokenize"@[0] == 't',
{
    reveal_strlit("--tools");
    reveal_strlit("--tools-raw");
    reveal_strlit("--model-dir");
    reveal_strlit("--repl");
    reveal_strlit("--dry-run");
    reveal_strlit("-y");
    reveal_strlit("--yes");
    reveal_strlit("--raw");
    reveal_strlit("--no-constrain");
    reveal_strlit("--top-k");
    reveal_strlit("--time");
    reveal_strlit("verify-tokenizer");
    reveal_strlit("tokenize");
    reveal_strlit("-h");
    reveal_strlit("--help");
}

proof fn lemma_takes_two(s: Settings, args: Seq<Seq<char>>)
    requires
        args.len() > 0,
        one_argument(s, args) is Ok,
    ensures
        one_argument(s, args)->Ok_0.1 == takes_value(args[0]),
{
    lemma_words();
}

/// The settings after one argument that takes no value.
proof fn lemma_one(s: Settings, arg: Seq<char>)
    requires
        !takes_value(arg),
    ensures
        all_arguments(s, seq![arg]) == (match one_argument(s, seq![arg]) {
            Ok((next, _)) => Ok(next),
            Err(e) => Err(e),
        }),
{
    let args = seq![arg];
    assert(args[0] == arg);
    if let Ok((next, two)) = one_argument(s, args) {
        lemma_takes_two(s, args);
        assert(args.skip(1) =~= Seq::empty());
        assert(all_arguments(next, Seq::empty()) == Ok::<Settings, Refusal>(next));
    }
}

/// The settings after one argument and its value.
proof fn lemma_two(s: Settings, arg: Seq<char>, value: Seq<char>)
    requires
        takes_value(arg),
    ensures
        all_arguments(s, seq![arg, value]) == (match one_argument(s, seq![arg, value]) {
            Ok((next, _)) => Ok(next),
            Err(e) => Err(e),
        }),
        value_after(seq![arg, value]) == Some(value),
{
    let args = seq![arg, value];
    assert(args[0] == arg);
    assert(args[1] == value);
    if let Ok((next, two)) = one_argument(s, args) {
        lemma_takes_two(s, args);
        assert(after_value(args) =~= Seq::empty());
        assert(all_arguments(next, Seq::empty()) == Ok::<Settings, Refusal>(next));
    }
}

/// Without arguments there is a shortlist of six tools and nothing else is set.
pub proof fn no_arguments_leave_the_defaults()
    ensures
        all_arguments(default_settings(), Seq::empty()) == Ok::<Settings, Refusal>(
            Settings {
                query: None,
                tools_path: None,
                tools_raw_path: None,
                model_dir: None,
                repl: false,
                dry_run: false,
                assume_yes: false,
                raw: false,
                no_constrain: false,
                timing: false,
                top_k: 6,
                verify_tokenizer: None,
                tokenize: None,
            },
        ),
{
}

/// Behind accepted arguments, the size of the shortlist is set to any number
/// that a numeral behind its flag stands for, zero included, and nothing else
/// changes.
pub proof fn the_shortlist_gets_the_size_that_is_asked_for(
    start: Settings,
    a: Seq<Seq<char>>,
    digits: Seq<char>,
    k: usize,
    plus: bool,
)
    requires
        is_whole(a),
        all_arguments(start, a) is Ok,
        digits.len() > 0,
        forall|i: int| 0 <= i < digits.len() ==> '0' <= #[trigger] digits[i] <= '9',
        digits_value(digits) == k,
    ensures
        ({
            let n = if plus {
                seq!['+'] + digits
            } else {
                digits
            };
            all_arguments(start, a + seq!["--top-k"@, n]) == Ok::<Settings, Refusal>(
                Settings { top_k: k, ..all_arguments(start, a)->Ok_0 },
            )
        }),
{
    let n = if plus {
        seq!['+'] + digits
    } else {
        digits
    };
    let s = all_arguments(start, a)->Ok_0;
    arguments_are_taken_in_order(start, a, seq!["--top-k"@, n]);
    lemma_two(s, "--top-k"@, n);
    lemma_words();
    zeros_and_signs_in_front_change_nothing(digits);
    assert(number_in(n) == Some(k));
    assert(seq!["--top-k"@, n][0] == "--top-k"@);
}

/// Is the text no numeral of a number that fits?
pub open spec fn is_no_number(n: Seq<char>) -> bool {
    let digits = if n.len() > 0 && n[0] == '+' {
        n.skip(1)
    } else {
        n
    };
    ||| digits.len() == 0
    ||| exists|i: int| 0 <= i < digits.len() && !('0' <= #[trigger] digits[i] <= '9')
    ||| digits_value(digits) > usize::MAX
}

/// A size of the shortlist that is missing or no number is refused.
pub proof fn a_shortlist_without_a_size_is_refused(s: Settings, n: Seq<char>)
    ensures
        all_arguments(s, seq!["--top-k"@]) == Err::<Settings, Refusal>(Refusal::TopK),
        is_no_number(n) ==> all_arguments(s, seq!["--top-k"@, n]) == Err::<Settings, Refusal>(
            Refusal::TopK,
        ),
{
    lemma_words();
    lemma_two(s, "--top-k"@, n);
    assert(seq!["--top-k"@][0] == "--top-k"@);
    assert(seq!["--top-k"@, n][0] == "--top-k"@);
    if is_no_number(n) {
        assert(number_in(n) is None);
    }
}

/// A flag with a value sets that one setting to the value, whatever it is.
pub proof fn values_go_where_their_flags_say(s: Settings, v: Seq<char>)
    ensures
        all_arguments(s, seq!["--tools"@, v]) == Ok::<Settings, Refusal>(
            Settings { tools_path: Some(v), ..s },
        ),
        all_arguments(s, seq!["--tools-raw"@, v]) == Ok::<Settings, Refusal>(
            Settings { tools_raw_path: Some(v), ..s },
        ),
        all_arguments(s, seq!["--model-dir"@, v]) == Ok::<Settings, Refusal>(
            Settings { model_dir: Some(v), ..s },
        ),
        all_arguments(s, seq!["verify-tokenizer"@, v]) == Ok::<Settings, Refusal>(
            Settings { verify_tokenizer: Some(v), ..s },
        ),
        all_arguments(s, seq!["tokenize"@, v]) == Ok::<Settings, Refusal>(
            Settings { tokenize: Some(v), ..s },
        ),
{
    lemma_words();
    lemma_two(s, "--tools"@, v);
    lemma_two(s, "--tools-raw"@, v);
    lemma_two(s, "--model-dir"@, v);
    lemma_two(s, "verify-tokenizer"@, v);
    lemma_two(s, "tokenize"@, v);
    assert(seq!["--tools"@, v][0] == "--tools"@);
    assert(seq!["--tools-raw"@, v][0] == "--tools-raw"@);
    assert(seq!["--model-dir"@, v][0] == "--model-dir"@);
    assert(seq!["verify-tokenizer"@, v][0] == "verify-tokenizer"@);
    assert(seq!["tokenize"@, v][0] == "tokenize"@);
}

/// A flag with a value that is the last argument leaves its setting empty.
pub proof fn flags_without_their_value_set_nothing(s: Settings)
    ensures
        all_arguments(s, seq!["--tools"@]) == Ok::<Settings, Refusal>(
            Settings { tools_path: None, ..s },
        ),
        all_arguments(s, seq!["--tools-raw"@]) == Ok::<Settings, Refusal>(
            Settings { tools_raw_path: None, ..s },
        ),
        all_arguments(s, seq!["--model-dir"@]) == Ok::<Settings, Refusal>(
            Settings { model_dir: None, ..s },
        ),
        all_arguments(s, seq!["verify-tokenizer"@]) == Ok::<Settings, Refusal>(
            Settings { verify_tokenizer: None, ..s },
        ),
        all_arguments(s, seq!["tokenize"@]) == Ok::<Settings, Refusal>(
            Settings { tokenize: None, ..s },
        ),
{
    lemma_words();
    lemma_last(s, "--tools"@);
    lemma_last(s, "--tools-raw"@);
    lemma_last(s, "--model-dir"@);
    lemma_last(s, "verify-tokenizer"@);
    lemma_last(s, "tokenize"@);
}

proof fn lemma_last(s: Settings, arg: Seq<char>)
    requires
        takes_value(arg),
    ensures
        seq![arg][0] == arg,
        value_after(seq![arg]) is None,
        all_arguments(s, seq![arg]) == (match one_argument(s, seq![arg]) {
            Ok((next, _)) => Ok(next),
            Err(e) => Err(e),
        }),
{
    let args = seq![arg];
    if let Ok((next, two)) = one_argument(s, args) {
        lemma_takes_two(s, args);
        assert(all_arguments(next, after_value(args)) == Ok::<Settings, Refusal>(next));
    }
}

/// A flag without a value turns one setting on and changes nothing else; both
/// spellings of the waiver do the same.
pub proof fn flags_turn_on_what_they_say(s: Settings)
    ensures
        all_arguments(s, seq!["--repl"@]) == Ok::<Settings, Refusal>(Settings { repl: true, ..s }),
        all_arguments(s, seq!["--dry-run"@]) == Ok::<Settings, Refusal>(
            Settings { dry_run: true, ..s },
        ),
        all_arguments(s, seq!["-y"@]) == Ok::<Settings, Refusal>(
            Settings { assume_yes: true, ..s },
        ),
        all_arguments(s, seq!["--yes"@]) == Ok::<Settings, Refusal>(
            Settings { assume_yes: true, ..s },
        ),
        all_arguments(s, seq!["--raw"@]) == Ok::<Settings, Refusal>(Settings { raw: true, ..s }),
        all_arguments(s, seq!["--no-constrain"@]) == Ok::<Settings, Refusal>(
            Settings { no_constrain: true, ..s },
        ),
        all_arguments(s, seq!["--time"@]) == Ok::<Settings, Refusal>(Settings { timing: true, ..s }),
        all_arguments(s, seq!["-h"@]) == Err::<Settings, Refusal>(Refusal::Help),
        all_arguments(s, seq!["--help"@]) == Err::<Settings, Refusal>(Refusal::Help),
{
    lemma_words();
    lemma_one(s, "--repl"@);
    lemma_one(s, "--dry-run"@);
    lemma_one(s, "-y"@);
    lemma_one(s, "--yes"@);
    lemma_one(s, "--raw"@);
    lemma_one(s, "--no-constrain"@);
    lemma_one(s, "--time"@);
    lemma_one(s, "-h"@);
    lemma_one(s, "--help"@);
    assert(seq!["--repl"@][0] == "--repl"@);
    assert(seq!["--dry-run"@][0] == "--dry-run"@);
    assert(seq!["-y"@][0] == "-y"@);
    assert(seq!["--yes"@][0] == "--yes"@);
    assert(seq!["--raw"@][0] == "--raw"@);
    assert(seq!["--no-constrain"@][0] == "--no-constrain"@);
    assert(seq!["--time"@][0] == "--time"@);
    assert(seq!["-h"@][0] == "-h"@);
    assert(seq!["--help"@][0] == "--help"@);
}

/// Is it one of the flags of the program?
pub open spec fn is_known_flag(arg: Seq<char>) -> bool {
    ||| takes_value(arg)
    ||| arg == "--repl"@
    ||| arg == "--dry-run"@
    ||| arg == "-y"@
    ||| arg == "--yes"@
    ||| arg == "--raw"@
    ||| arg == "--no-constrain"@
    ||| arg == "--time"@
    ||| arg == "-h"@
    ||| arg == "--help"@
}

/// What is neither a flag nor a word of the program is the request, unless it
/// looks like a flag: then it is refused by its name.
pub proof fn other_arguments_are_the_request(s: Settings, arg: Seq<char>)
    requires
        !is_known_flag(arg),
    ensures
        !(arg.len() > 0 && arg[0] == '-') ==> all_arguments(s, seq![arg]) == Ok::<
            Settings,
            Refusal,
        >(Settings { query: Some(arg), ..s }),
        arg.len() > 0 && arg[0] == '-' ==> all_arguments(s, seq![arg]) == Err::<Settings, Refusal>(
            Refusal::UnknownFlag(arg),
        ),
{
    lemma_one(s, arg);
    assert(seq![arg][0] == arg);
}

/// A line of the interactive mode without its white space around it asks for
/// nothing where it is empty, to leave where it is `q`, `quit` or `exit`, and
/// for itself otherwise.
pub proof fn lines_ask_for_themselves(a: Seq<char>, word: Seq<char>, b: Seq<char>)
    requires
        all_white(a),
        is_bare(word),
        all_white(b),
    ensures
        word.len() == 0 ==> asked(a + word + b) == Asked::Nothing,
        word == seq!['q'] || word == seq!['q', 'u', 'i', 't'] || word == seq!['e', 'x', 'i', 't']
            ==> asked(a + word + b) == Asked::ToLeave,
        word.len() > 0 && !(word == seq!['q'] || word == seq!['q', 'u', 'i', 't'] || word == seq![
            'e',
            'x',
            'i',
            't',
        ]) ==> asked(a + word + b) == Asked::Request(word),
{
    trimming_takes_the_white_space_around(a, word, b);
    reveal_strlit("q");
    reveal_strlit("quit");
    reveal_strlit("exit");
    assert("q"@ =~= seq!['q']);
    assert("quit"@ =~= seq!['q', 'u', 'i', 't']);
    assert("exit"@ =~= seq!['e', 'x', 'i', 't']);
}

/// A file is looked for where the options say; where they do not, inside the
/// home directory; and where there is none, at the fallback.
pub proof fn options_win_over_home_and_home_over_the_fallback(
    path: Seq<char>,
    home: Option<Seq<char>>,
    dir: Seq<char>,
    sub: Seq<char>,
    fallback: Seq<char>,
)
    ensures
        place_of(Some(path), home, sub, fallback) == Place::At(path),
        place_of(None, Some(dir), sub, fallback) == (Place::InHome { home: dir, sub }),
        place_of(None, None, sub, fallback) == Place::At(fallback),
{
}

/// Without a size of the shortlist, with no more tools than that, with a list
/// that is given word for word and with a model that cannot embed, all tools go
/// into the prompt; otherwise the list is shortened.
pub proof fn the_list_is_shortened_where_it_can_be(
    raw_tools: bool,
    top_k: nat,
    tools: nat,
    has_head: bool,
)
    ensures
        !is_shortened(raw_tools, 0, tools as int, has_head),
        !is_shortened(true, top_k as int, tools as int, has_head),
        !is_shortened(raw_tools, top_k as int, tools as int, false),
        tools <= top_k ==> !is_shortened(raw_tools, top_k as int, tools as int, has_head),
        0 < top_k < tools ==> is_shortened(false, top_k as int, tools as int, true),
{
}

/// The ids of a line are shown in order, each by its numeral, with a space
/// between each two.
pub proof fn ids_are_shown_in_order(a: Seq<u32>, id: u32)
    ensures
        joined(numerals(seq![id]), ' ') == decimal(id as nat),
        a.len() > 0 ==> joined(numerals(a.push(id)), ' ') == joined(numerals(a), ' ') + seq![' ']
            + decimal(id as nat),
{
    let one = numerals(seq![id]);
    joining_puts_one_between(one, Seq::empty(), ' ');
    assert(one[0] == decimal(id as nat));
    assert(numerals(a.push(id)) =~= numerals(a) + one);
    joining_puts_one_between(numerals(a), one, ' ');
}

} // verus!
