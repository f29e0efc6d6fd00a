use patmatch::regex::CompileError;
use patmatch::regex::RegEx;
use patmatch::regex::RegexToken;

fn compile(pattern: &str) -> RegEx {
    let r: Result<RegEx, CompileError> = RegEx::from_str(pattern);
    r.unwrap()
}

fn groups(re: &RegEx) -> Vec<Vec<char>> {
    re.tokens
        .iter()
        .map(|t| match t {
            RegexToken::CharacterGroup(g) => g.clone(),
        })
        .collect()
}

#[test]
fn scenario_cat_in_line() {
    let re = compile("cat");
    assert_eq!(groups(&re), vec![vec!['c'], vec!['a'], vec!['t']]);
    assert!(re.search("a cat sat"));
}

#[test]
fn scenario_dog_not_in_line() {
    let re = compile("dog");
    assert!(!re.search("a cat sat"));
}

#[test]
fn scenario_empty_pattern_matches_any_line() {
    let re = compile("");
    assert_eq!(re.tokens.len(), 0);
    assert!(re.search("anything"));
}

#[test]
fn scenario_nonempty_pattern_misses_empty_line() {
    let re = compile("z");
    assert!(!re.search(""));
}

#[test]
fn scenario_match_away_from_start() {
    let re = compile("aa");
    assert!(re.search("baa"));
    assert!(re.search_from(1, &['a', 'a']));
    assert!(!re.search_from(0, &['b', 'a', 'a']));
}

#[test]
fn empty_pattern_matches_empty_line() {
    let re = compile("");
    assert!(re.search(""));
}

#[test]
fn compilation_never_fails() {
    for pattern in ["", "a", "hello world", "!@# $%^", "\u{00e9}\u{6f22}"] {
        assert!(RegEx::from_str(pattern).is_ok());
    }
}

#[test]
fn compilation_is_one_token_per_character() {
    let re = compile("ab c");
    assert_eq!(groups(&re), vec![vec!['a'], vec!['b'], vec![' '], vec!['c']]);
}

#[test]
fn compiling_twice_is_structurally_identical() {
    let first = compile("lorem ipsum");
    let second = compile("lorem ipsum");
    assert_eq!(first.tokens, second.tokens);
}

#[test]
fn compiling_twice_behaves_identically() {
    let first = compile("sat");
    let second = compile("sat");
    for line in ["a cat sat", "sit still", "", "sat", "s a t"] {
        assert_eq!(first.search(line), second.search(line));
    }
}

#[test]
fn pattern_longer_than_line_never_matches() {
    let re = compile("abc");
    assert!(!re.search("ab"));
    assert!(!re.search_from(0, &['a', 'b']));
}

#[test]
fn anchored_match_consumes_tokens_in_order() {
    let re = compile("cat");
    assert!(re.search_from(0, &['c', 'a', 't']));
    assert!(re.search_from(0, &['c', 'a', 't', 's']));
    assert!(!re.search_from(0, &['c', 't', 'a']));
    assert!(!re.search_from(0, &[]));
}

#[test]
fn empty_pattern_anchors_anywhere() {
    let re = compile("");
    assert!(re.search_from(0, &[]));
    assert!(re.search_from(3, &['x']));
}

#[test]
fn token_membership() {
    let token = RegexToken::CharacterGroup(vec!['a', 'b']);
    assert!(token.matches_char('a'));
    assert!(token.matches_char('b'));
    assert!(!token.matches_char('c'));
    let empty = RegexToken::CharacterGroup(vec![]);
    assert!(!empty.matches_char('a'));
}

#[test]
fn unicode_pattern_matches_unicode_line() {
    let re = compile("\u{00e9}t\u{00e9}");
    assert!(re.search("un \u{00e9}t\u{00e9} chaud"));
    assert!(!re.search("un ete chaud"));
}

#[test]
fn match_at_line_start_and_end() {
    let re = compile("ab");
    assert!(re.search("abxx"));
    assert!(re.search("xxab"));
    assert!(re.search("ab"));
    assert!(!re.search("a b"));
}

#[test]
fn repeated_candidate_offsets_are_all_tried() {
    let re = compile("aab");
    assert!(re.search("aaab"));
    assert!(!re.search("aacab"));
}
