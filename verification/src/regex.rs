//! Pattern compilation and leftmost-success substring search.

use vstd::prelude::*;

verus! {

/// One positional constraint on the input line.
///
/// The single variant in scope matches exactly one input character if it is a
/// member of the group.  Future token kinds (wildcard, negated group,
/// repetition) attach here without changing the matcher's outer scan.
#[derive(Debug, PartialEq, Eq)]
pub enum RegexToken {
    CharacterGroup(Vec<char>),
}

impl RegexToken {
    /// The set of characters this token allows, as a sequence.
    pub open spec fn group(self) -> Seq<char> {
        match self {
            RegexToken::CharacterGroup(group) => group@,
        }
    }

    /// Whether this token allows the character `c` at its position.
    pub open spec fn accepts(self, c: char) -> bool {
        self.group().contains(c)
    }

    /// Executable membership test: does this token allow `c`?
    pub fn matches_char(&self, c: char) -> (r: bool)
        ensures
            r == self.accepts(c),
    {
        match self {
            RegexToken::CharacterGroup(group) => {
                let n = group.len();
                let mut i: usize = 0;
                while i < n
                    invariant
                        self.group() == group@,
                        n == group@.len(),
                        i <= n,
                        forall|k: int| 0 <= k < i ==> group@[k] != c,
                    decreases n - i,
                {
                    if group[i] == c {
                        assert(group@.contains(c));
                        return true;
                    }
                    i += 1;
                }
                false
            },
        }
    }
}

/// The anchored match: the whole token sequence is satisfied by consecutive
/// characters of `line` starting exactly at offset `i`.
pub open spec fn matches_at(tokens: Seq<RegexToken>, line: Seq<char>, i: int) -> bool {
    &&& 0 <= i
    &&& i + tokens.len() <= line.len()
    &&& forall|k: int| 0 <= k < tokens.len() ==> tokens[k].accepts(line[i + k])
}

/// The search result: some offset of `line` carries an anchored match of the
/// whole token sequence.
pub open spec fn matches_somewhere(tokens: Seq<RegexToken>, line: Seq<char>) -> bool {
    exists|i: int| matches_at(tokens, line, i)
}

/// The token allows exactly the one character `c`.
pub open spec fn is_singleton_group(t: RegexToken, c: char) -> bool {
    t.group() == seq![c]
}

/// What compilation produces from a pattern: one token per pattern character,
/// in order, each a singleton group holding exactly that character.
pub open spec fn compiled_from(tokens: Seq<RegexToken>, pattern: Seq<char>) -> bool {
    &&& tokens.len() == pattern.len()
    &&& forall|k: int| 0 <= k < pattern.len() ==> is_singleton_group(tokens[k], pattern[k])
}

/// The pattern occurs in the line as a contiguous substring starting at `i`.
pub open spec fn occurs_at(pattern: Seq<char>, line: Seq<char>, i: int) -> bool {
    &&& 0 <= i
    &&& i + pattern.len() <= line.len()
    &&& line.subrange(i, i + pattern.len() as int) == pattern
}

/// The pattern occurs somewhere in the line as a contiguous substring.
pub open spec fn occurs_in(pattern: Seq<char>, line: Seq<char>) -> bool {
    exists|i: int| occurs_at(pattern, line, i)
}

/// A singleton character group accepts exactly its one character.
proof fn lemma_singleton_accepts(t: RegexToken, c: char, x: char)
    requires
        is_singleton_group(t, c),
    ensures
        t.accepts(x) <==> x == c,
{
    if x == c {
        assert(t.group()[0] == c);
        assert(t.group().contains(x));
    }
    if t.accepts(x) {
        let j = choose|j: int| 0 <= j < t.group().len() && t.group()[j] == x;
        assert(t.group()[j] == c);
    }
}

/// A token sequence compiled from a literal pattern matches a line exactly
/// when the pattern occurs in the line as a contiguous substring: an anchored
/// match at some offset holds iff the substring of the pattern's length at
/// that offset equals the pattern, position by position.
pub proof fn lemma_compiled_match_is_substring(
    tokens: Seq<RegexToken>,
    pattern: Seq<char>,
    line: Seq<char>,
)
    requires
        compiled_from(tokens, pattern),
    ensures
        matches_somewhere(tokens, line) <==> occurs_in(pattern, line),
{
    if matches_somewhere(tokens, line) {
        let i = choose|i: int| matches_at(tokens, line, i);
        let sub = line.subrange(i, i + pattern.len() as int);
        assert forall|k: int| 0 <= k < pattern.len() implies sub[k] == pattern[k] by {
            lemma_singleton_accepts(tokens[k], pattern[k], line[i + k]);
        }
        assert(sub =~= pattern);
        assert(occurs_at(pattern, line, i));
    }
    if occurs_in(pattern, line) {
        let i = choose|i: int| occurs_at(pattern, line, i);
        let sub = line.subrange(i, i + pattern.len() as int);
        assert forall|k: int| 0 <= k < tokens.len() implies tokens[k].accepts(line[i + k]) by {
            assert(sub[k] == pattern[k]);
            lemma_singleton_accepts(tokens[k], pattern[k], line[i + k]);
        }
        assert(matches_at(tokens, line, i));
    }
}

/// Compiling the empty pattern yields a token sequence of length 0, and an
/// empty token sequence matches every line, the empty line included.
pub proof fn lemma_empty_pattern_matches(tokens: Seq<RegexToken>, line: Seq<char>)
    requires
        compiled_from(tokens, Seq::<char>::empty()),
    ensures
        tokens.len() == 0,
        matches_somewhere(tokens, line),
{
    assert(matches_at(tokens, line, 0));
}

/// A non-empty token sequence never matches the empty line.
pub proof fn lemma_nonempty_pattern_misses_empty_line(tokens: Seq<RegexToken>)
    requires
        tokens.len() > 0,
    ensures
        !matches_somewhere(tokens, Seq::<char>::empty()),
{
    assert forall|i: int| !matches_at(tokens, Seq::<char>::empty(), i) by {
        assert(Seq::<char>::empty().len() == 0);
    }
}

/// Compiling the same pattern twice yields structurally identical token
/// sequences — the same length, and at each position the same character group
/// — and the two behave identically under the matcher, on every line.
pub proof fn lemma_compile_deterministic(
    t1: Seq<RegexToken>,
    t2: Seq<RegexToken>,
    pattern: Seq<char>,
    line: Seq<char>,
)
    requires
        compiled_from(t1, pattern),
        compiled_from(t2, pattern),
    ensures
        t1.len() == t2.len(),
        forall|k: int| 0 <= k < t1.len() ==> #[trigger] t1[k].group() == t2[k].group(),
        matches_somewhere(t1, line) == matches_somewhere(t2, line),
{
    assert forall|k: int| 0 <= k < t1.len() implies #[trigger] t1[k].group() == t2[k].group() by {
        assert(is_singleton_group(t1[k], pattern[k]));
        assert(is_singleton_group(t2[k], pattern[k]));
    }
    lemma_compiled_match_is_substring(t1, pattern, line);
    lemma_compiled_match_is_substring(t2, pattern, line);
}

/// An anchored match at offset `i` of a line is the same as an anchored match
/// at offset 0 of the line's suffix starting at `i`.
proof fn lemma_match_at_offset_of_suffix(tokens: Seq<RegexToken>, line: Seq<char>, i: int)
    requires
        0 <= i <= line.len(),
    ensures
        matches_at(tokens, line, i) == matches_at(tokens, line.subrange(i, line.len() as int), 0),
{
    let suffix = line.subrange(i, line.len() as int);
    if matches_at(tokens, line, i) {
        assert forall|k: int| 0 <= k < tokens.len() implies tokens[k].accepts(suffix[k]) by {
            assert(suffix[k] == line[i + k]);
        }
        assert(matches_at(tokens, suffix, 0));
    }
    if matches_at(tokens, suffix, 0) {
        assert forall|k: int| 0 <= k < tokens.len() implies tokens[k].accepts(line[i + k]) by {
            assert(suffix[k] == line[i + k]);
        }
        assert(matches_at(tokens, line, i));
    }
}

/// Pattern syntax that the compiler cannot recognize.
///
/// The literal-only grammar in scope rejects nothing, so no function currently
/// returns this; it is the defined failure channel for future syntax
/// extensions, kept distinct from a "no match" search result.
#[derive(Debug, PartialEq, Eq, Structural, Clone, Copy)]
pub enum CompileError {
    UnrecognizedSyntax,
}

/// An ordered, immutable sequence of match tokens compiled from a pattern.
#[derive(Debug)]
pub struct RegEx {
    pub tokens: Vec<RegexToken>,
}

impl RegEx {
    /// Compiles a pattern string, consuming it left to right, one character
    /// per emitted token.  The literal-only grammar never fails: every
    /// character maps to a singleton character group.
    pub fn from_str(s: &str) -> (r: Result<RegEx, CompileError>)
        ensures
            r is Ok,
            compiled_from(r->Ok_0.tokens@, s@),
    {
        let n = s.unicode_len();
        let mut tokens: Vec<RegexToken> = Vec::new();
        let mut i: usize = 0;
        while i < n
            invariant
                n == s@.len(),
                i <= n,
                tokens@.len() == i,
                forall|k: int| 0 <= k < i ==> is_singleton_group(tokens@[k], s@[k]),
            decreases n - i,
        {
            let c = s.get_char(i);
            match c {
                _ => {
                    let mut group: Vec<char> = Vec::new();
                    group.push(c);
                    assert(group@ =~= seq![c]);
                    tokens.push(RegexToken::CharacterGroup(group));
                },
            }
            i += 1;
        }
        Ok(RegEx { tokens })
    }

    /// The leftmost-success scan: candidate start offsets are tried in
    /// increasing order, from 0 up to and including the line length, and the
    /// first offset whose anchored match succeeds decides the result.  The
    /// result is a pure function of the compiled pattern and the line: true
    /// exactly when some offset carries an anchored match of every token.
    pub fn search(&self, s: &str) -> (r: bool)
        ensures
            r == matches_somewhere(self.tokens@, s@),
    {
        let n = s.unicode_len();
        let mut chars: Vec<char> = Vec::new();
        let mut i: usize = 0;
        while i < n
            invariant
                n == s@.len(),
                i <= n,
                chars@ == s@.subrange(0, i as int),
            decreases n - i,
        {
            let c = s.get_char(i);
            chars.push(c);
            assert(chars@ =~= s@.subrange(0, i + 1));
            i += 1;
        }
        assert(chars@ =~= s@);

        let mut i: usize = 0;
        while i < n
            invariant
                n == s@.len(),
                chars@ == s@,
                i <= n,
                forall|k: int| 0 <= k < i ==> !matches_at(self.tokens@, s@, k),
            decreases n - i,
        {
            let suffix = vstd::slice::slice_subrange(chars.as_slice(), i, n);
            proof {
                lemma_match_at_offset_of_suffix(self.tokens@, s@, i as int);
            }
            if self.search_from(i, suffix) {
                assert(matches_at(self.tokens@, s@, i as int));
                return true;
            }
            i += 1;
        }
        let empty_suffix = vstd::slice::slice_subrange(chars.as_slice(), n, n);
        proof {
            lemma_match_at_offset_of_suffix(self.tokens@, s@, n as int);
        }
        if self.search_from(n, empty_suffix) {
            assert(matches_at(self.tokens@, s@, n as int));
            return true;
        }
        proof {
            assert forall|j: int| !matches_at(self.tokens@, s@, j) by {
                if 0 <= j <= n {
                } else {
                    assert(!(0 <= j && j + self.tokens@.len() <= n));
                }
            }
        }
        false
    }

    /// The anchored match at the head of the given suffix of the line: walks
    /// the token sequence in order, requiring one remaining character per
    /// token and membership in that token's group.  Never reads past the end
    /// of the suffix.
    pub fn search_from(&self, _start: usize, s: &[char]) -> (r: bool)
        ensures
            r == matches_at(self.tokens@, s@, 0),
    {
        let m = self.tokens.len();
        let mut j: usize = 0;
        while j < m
            invariant
                m == self.tokens@.len(),
                j <= m,
                j <= s@.len(),
                forall|k: int| 0 <= k < j ==> self.tokens@[k].accepts(s@[k]),
            decreases m - j,
        {
            if j >= s.len() {
                assert(self.tokens@.len() > s@.len());
                return false;
            }
            let token = &self.tokens[j];
            if !token.matches_char(*vstd::slice::slice_index_get(s, j)) {
                assert(!self.tokens@[j as int].accepts(s@[j as int]));
                return false;
            }
            j += 1;
        }
        true
    }
}

} // verus!
