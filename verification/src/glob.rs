//! Glob patterns over relative paths.
//!
//! A path is a sequence of components joined by `/`, whatever the host's own
//! separator is. In a pattern `?` stands for one character of a component,
//! `*` for any run of characters of a component, `**/` at the start of a
//! component for any number of whole directories, and `**` anywhere else for
//! any run of characters. Every other character stands for itself; matching
//! keeps case.

use vstd::prelude::*;
use vstd::std_specs::iter::IteratorSpec;
use vstd::string::StringExecFns;

use crate::text::texts;

verus! {

/// One element of a compiled pattern, over characters of type `C`.
#[derive(Copy, Debug, PartialEq, Eq)]
pub enum Token<C> {
    /// This character itself.
    Literal(C),
    /// `?`: one character other than the separator.
    One,
    /// `*`: a run of characters other than the separator.
    Many,
    /// `**/` at the start of a component: any number of whole directories.
    Dirs,
    /// `**` anywhere else: a run of any characters.
    Any,
}

impl<C: Copy> Clone for Token<C> {
    fn clone(&self) -> (copy: Self)
        ensures
            copy == *self,
    {
        *self
    }
}

/// Whether `token` can stand for `piece`.
pub open spec fn admits(token: Token<char>, piece: Seq<char>) -> bool {
    match token {
        Token::Literal(c) => piece == seq![c],
        Token::One => piece.len() == 1 && piece[0] != '/',
        Token::Many => forall|x: int| 0 <= x < piece.len() ==> piece[x] != '/',
        Token::Dirs => piece.len() == 0 || piece.last() == '/',
        Token::Any => true,
    }
}

/// Whether `text` can be cut into one piece for each token, in order, each
/// token admitting its piece.
pub open spec fn tokens_match(tokens: Seq<Token<char>>, text: Seq<char>) -> bool
    decreases tokens.len(),
{
    if tokens.len() == 0 {
        text.len() == 0
    } else {
        exists|k: int|
            0 <= k <= text.len() && admits(tokens[0], text.take(k)) && tokens_match(
                tokens.skip(1),
                #[trigger] text.skip(k),
            )
    }
}

/// The tokens of a pattern. `at_start` says whether the pattern begins at the
/// start of a component.
pub open spec fn tokenize(pattern: Seq<char>, at_start: bool) -> Seq<Token<char>>
    decreases pattern.len(),
{
    if pattern.len() == 0 {
        Seq::empty()
    } else if pattern[0] == '*' {
        if pattern.len() >= 2 && pattern[1] == '*' {
            if at_start && pattern.len() >= 3 && pattern[2] == '/' {
                seq![Token::Dirs] + tokenize(pattern.skip(3), true)
            } else {
                seq![Token::Any] + tokenize(pattern.skip(2), false)
            }
        } else {
            seq![Token::Many] + tokenize(pattern.skip(1), false)
        }
    } else if pattern[0] == '?' {
        seq![Token::One] + tokenize(pattern.skip(1), false)
    } else {
        seq![Token::Literal(pattern[0])] + tokenize(pattern.skip(1), pattern[0] == '/')
    }
}

/// Whether the glob `pattern` matches the whole of `path`.
pub open spec fn glob_matches(pattern: Seq<char>, path: Seq<char>) -> bool {
    tokens_match(tokenize(pattern, true), path)
}

/// Whether one of `patterns` matches `path`.
pub open spec fn any_matches(patterns: Seq<Seq<char>>, path: Seq<char>) -> bool {
    exists|i: int| 0 <= i < patterns.len() && glob_matches(#[trigger] patterns[i], path)
}

/// Whether the tokens from the `i`-th on match the text from position `j` on.
spec fn reach(tokens: Seq<Token<char>>, text: Seq<char>, i: int, j: int) -> bool {
    tokens_match(tokens.skip(i), text.skip(j))
}

/// Whether token `i` can take the `k` characters from position `j` and the
/// tokens after it the rest.
spec fn cut_at(tokens: Seq<Token<char>>, text: Seq<char>, i: int, j: int, k: int) -> bool {
    &&& 0 <= k <= text.len() - j
    &&& admits(tokens[i], text.subrange(j, j + k))
    &&& reach(tokens, text, i + 1, j + k)
}

/// Whether the directories that token `i` stands for can end after position
/// `j`, right behind a separator, with the later tokens taking the rest.
spec fn later_dir(tokens: Seq<Token<char>>, text: Seq<char>, i: int, j: int) -> bool {
    exists|m: int| j < m <= text.len() && text[m - 1] == '/' && #[trigger] reach(tokens, text, i + 1, m)
}

proof fn lemma_cut_at(tokens: Seq<Token<char>>, text: Seq<char>, i: int, j: int, k: int)
    requires
        0 <= i < tokens.len(),
        0 <= j <= text.len(),
        0 <= k <= text.len() - j,
    ensures
        cut_at(tokens, text, i, j, k) <==> admits(tokens.skip(i)[0], text.skip(j).take(k))
            && tokens_match(tokens.skip(i).skip(1), text.skip(j).skip(k)),
{
    assert(text.skip(j).take(k) =~= text.subrange(j, j + k));
    assert(text.skip(j).skip(k) =~= text.skip(j + k));
    assert(tokens.skip(i).skip(1) =~= tokens.skip(i + 1));
}

proof fn lemma_reach_unfold(tokens: Seq<Token<char>>, text: Seq<char>, i: int, j: int)
    requires
        0 <= i < tokens.len(),
        0 <= j <= text.len(),
    ensures
        reach(tokens, text, i, j) <==> exists|k: int| #[trigger] cut_at(tokens, text, i, j, k),
{
    let rest = tokens.skip(i);
    let tail = text.skip(j);
    if reach(tokens, text, i, j) {
        let k = choose|k: int|
            0 <= k <= tail.len() && admits(rest[0], tail.take(k)) && tokens_match(
                rest.skip(1),
                #[trigger] tail.skip(k),
            );
        lemma_cut_at(tokens, text, i, j, k);
        assert(cut_at(tokens, text, i, j, k));
    }
    if exists|k: int| #[trigger] cut_at(tokens, text, i, j, k) {
        let k = choose|k: int| #[trigger] cut_at(tokens, text, i, j, k);
        lemma_cut_at(tokens, text, i, j, k);
        assert(0 <= k <= tail.len() && admits(rest[0], tail.take(k)) && tokens_match(
            rest.skip(1),
            tail.skip(k),
        ));
    }
}

proof fn lemma_reach_end(tokens: Seq<Token<char>>, text: Seq<char>, j: int)
    requires
        0 <= j <= text.len(),
    ensures
        reach(tokens, text, tokens.len() as int, j) <==> j == text.len(),
{
    assert(tokens.skip(tokens.len() as int).len() == 0);
    assert(text.skip(j).len() == text.len() - j);
}

proof fn lemma_reach_single(tokens: Seq<Token<char>>, text: Seq<char>, i: int, j: int)
    requires
        0 <= i < tokens.len(),
        0 <= j <= text.len(),
        tokens[i] is Literal || tokens[i] is One,
    ensures
        reach(tokens, text, i, j) <==> j < text.len() && admits(tokens[i], seq![text[j]]) && reach(
            tokens,
            text,
            i + 1,
            j + 1,
        ),
{
    lemma_reach_unfold(tokens, text, i, j);
    if reach(tokens, text, i, j) {
        let k = choose|k: int| #[trigger] cut_at(tokens, text, i, j, k);
        assert(text.subrange(j, j + k).len() == 1);
        assert(text.subrange(j, j + 1) =~= seq![text[j]]);
    }
    if j < text.len() && admits(tokens[i], seq![text[j]]) && reach(tokens, text, i + 1, j + 1) {
        assert(text.subrange(j, j + 1) =~= seq![text[j]]);
        assert(cut_at(tokens, text, i, j, 1));
    }
}

proof fn lemma_reach_run(tokens: Seq<Token<char>>, text: Seq<char>, i: int, j: int)
    requires
        0 <= i < tokens.len(),
        0 <= j <= text.len(),
        tokens[i] is Many || tokens[i] is Any,
    ensures
        reach(tokens, text, i, j) <==> reach(tokens, text, i + 1, j) || (j < text.len() && (
        tokens[i] is Any || text[j] != '/') && reach(tokens, text, i, j + 1)),
{
    lemma_reach_unfold(tokens, text, i, j);
    if reach(tokens, text, i, j) {
        let k = choose|k: int| #[trigger] cut_at(tokens, text, i, j, k);
        if k > 0 {
            let piece = text.subrange(j, j + k);
            let shorter = text.subrange(j + 1, j + k);
            assert(piece[0] == text[j]);
            assert forall|x: int| 0 <= x < shorter.len() implies shorter[x] == piece[x + 1] by {}
            assert(admits(tokens[i], shorter));
            assert(cut_at(tokens, text, i, j + 1, k - 1));
            lemma_reach_unfold(tokens, text, i, j + 1);
        }
    }
    if reach(tokens, text, i + 1, j) {
        assert(text.subrange(j, j + 0).len() == 0);
        assert(cut_at(tokens, text, i, j, 0));
    }
    if j < text.len() && (tokens[i] is Any || text[j] != '/') && reach(tokens, text, i, j + 1) {
        lemma_reach_unfold(tokens, text, i, j + 1);
        let k = choose|k: int| #[trigger] cut_at(tokens, text, i, j + 1, k);
        let piece = text.subrange(j, j + 1 + k);
        let shorter = text.subrange(j + 1, j + 1 + k);
        assert forall|x: int| 0 <= x < piece.len() implies piece[x] == (if x == 0 {
            text[j]
        } else {
            shorter[x - 1]
        }) by {}
        assert(admits(tokens[i], piece));
        assert(cut_at(tokens, text, i, j, k + 1));
    }
}

proof fn lemma_reach_dirs(tokens: Seq<Token<char>>, text: Seq<char>, i: int, j: int)
    requires
        0 <= i < tokens.len(),
        0 <= j <= text.len(),
        tokens[i] is Dirs,
    ensures
        reach(tokens, text, i, j) <==> reach(tokens, text, i + 1, j) || later_dir(
            tokens,
            text,
            i,
            j,
        ),
        later_dir(tokens, text, i, j) <==> j < text.len() && ((text[j] == '/' && reach(
            tokens,
            text,
            i + 1,
            j + 1,
        )) || later_dir(tokens, text, i, j + 1)),
{
    lemma_reach_unfold(tokens, text, i, j);
    if reach(tokens, text, i, j) {
        let k = choose|k: int| #[trigger] cut_at(tokens, text, i, j, k);
        if k > 0 {
            assert(text.subrange(j, j + k).last() == text[j + k - 1]);
            assert(reach(tokens, text, i + 1, j + k));
        }
    }
    if reach(tokens, text, i + 1, j) {
        assert(text.subrange(j, j + 0).len() == 0);
        assert(cut_at(tokens, text, i, j, 0));
    }
    if later_dir(tokens, text, i, j) {
        let m = choose|m: int|
            j < m <= text.len() && text[m - 1] == '/' && #[trigger] reach(tokens, text, i + 1, m);
        assert(text.subrange(j, j + (m - j)).last() == text[m - 1]);
        assert(cut_at(tokens, text, i, j, m - j));
        if m > j + 1 {
            assert(later_dir(tokens, text, i, j + 1));
        }
    }
    if j < text.len() {
        if text[j] == '/' && reach(tokens, text, i + 1, j + 1) {
            assert(later_dir(tokens, text, i, j));
        }
        if later_dir(tokens, text, i, j + 1) {
            let m = choose|m: int|
                j + 1 < m <= text.len() && text[m - 1] == '/' && #[trigger] reach(
                    tokens,
                    text,
                    i + 1,
                    m,
                );
            assert(later_dir(tokens, text, i, j));
        }
    }
}

/// Whether `row` and `end` say, for each position of the text, whether the
/// tokens from the `i`-th on match from there; `end` speaks of the position
/// behind the last character.
spec fn row_holds(
    tokens: Seq<Token<char>>,
    text: Seq<char>,
    i: int,
    row: Seq<bool>,
    end: bool,
    from: int,
) -> bool {
    &&& row.len() == text.len()
    &&& end == reach(tokens, text, i, text.len() as int)
    &&& forall|j: int| from <= j < row.len() ==> row[j] == #[trigger] reach(tokens, text, i, j)
}

fn blank_row(n: usize) -> (row: Vec<bool>)
    ensures
        row.len() == n,
        forall|j: int| 0 <= j < n ==> !row[j],
{
    let mut row: Vec<bool> = Vec::new();
    while row.len() < n
        invariant
            row.len() <= n,
            forall|j: int| 0 <= j < row.len() ==> !row[j],
        decreases n - row.len(),
    {
        row.push(false);
    }
    row
}

/// Tells whether the tokens match the whole text, in time proportional to
/// the product of the two lengths.
pub fn match_tokens(tokens: &Vec<Token<char>>, text: &Vec<char>) -> (yes: bool)
    ensures
        yes == tokens_match(tokens@, text@),
{
    let n = text.len();
    let mut next = blank_row(n);
    let mut next_end = true;
    let mut i = tokens.len();
    proof {
        assert forall|j: int| 0 <= j <= n implies (reach(tokens@, text@, i as int, j) <==> j
            == n) by {
            lemma_reach_end(tokens@, text@, j);
        }
    }
    while i > 0
        invariant
            i <= tokens.len(),
            n == text.len(),
            row_holds(tokens@, text@, i as int, next@, next_end, 0),
        decreases i,
    {
        i -= 1;
        let token = tokens[i];
        let mut cur = blank_row(n);
        let cur_end = match token {
            Token::Literal(_) | Token::One => false,
            _ => next_end,
        };
        let mut later = false;
        let mut j = n;
        proof {
            let end = n as int;
            match token {
                Token::Literal(_) | Token::One => {
                    lemma_reach_single(tokens@, text@, i as int, end);
                },
                Token::Many | Token::Any => {
                    lemma_reach_run(tokens@, text@, i as int, end);
                },
                Token::Dirs => {
                    lemma_reach_dirs(tokens@, text@, i as int, end);
                },
            }
        }
        while j > 0
            invariant
                i < tokens.len(),
                token == tokens[i as int],
                j <= n,
                n == text.len(),
                row_holds(tokens@, text@, i + 1, next@, next_end, 0),
                row_holds(tokens@, text@, i as int, cur@, cur_end, j as int),
                token is Dirs ==> later == later_dir(tokens@, text@, i as int, j as int),
            decreases j,
        {
            j -= 1;
            let c = text[j];
            let ahead = if j + 1 < n {
                next[j + 1]
            } else {
                next_end
            };
            let here = match token {
                Token::Literal(want) => c == want && ahead,
                Token::One => c != '/' && ahead,
                Token::Many => next[j] || (c != '/' && (if j + 1 < n {
                    cur[j + 1]
                } else {
                    cur_end
                })),
                Token::Any => next[j] || (if j + 1 < n {
                    cur[j + 1]
                } else {
                    cur_end
                }),
                Token::Dirs => {
                    later = (c == '/' && ahead) || later;
                    next[j] || later
                },
            };
            proof {
                assert(ahead == reach(tokens@, text@, i + 1, j + 1));
                assert(next[j as int] == reach(tokens@, text@, i + 1, j as int));
                match token {
                    Token::Literal(_) | Token::One => {
                        lemma_reach_single(tokens@, text@, i as int, j as int);
                        assert(seq![text@[j as int]][0] == text@[j as int]);
                    },
                    Token::Many | Token::Any => {
                        lemma_reach_run(tokens@, text@, i as int, j as int);
                    },
                    Token::Dirs => {
                        lemma_reach_dirs(tokens@, text@, i as int, j as int);
                    },
                }
                assert(here == reach(tokens@, text@, i as int, j as int));
            }
            cur.set(j, here);
        }
        next = cur;
        next_end = cur_end;
    }
    proof {
        assert(tokens@.skip(0) =~= tokens@);
        assert(text@.skip(0) =~= text@);
        assert(n > 0 ==> next@[0] == reach(tokens@, text@, 0, 0));
    }
    if n > 0 {
        next[0]
    } else {
        next_end
    }
}

/// Reads the token that starts at position `i`: the token, the number of
/// characters it takes, and whether a component starts behind it.
fn scan(pattern: &Vec<char>, i: usize, at_start: bool) -> (found: (Token<char>, usize, bool))
    requires
        i < pattern.len(),
    ensures
        1 <= found.1 <= pattern.len() - i,
        tokenize(pattern@.skip(i as int), at_start) == seq![found.0] + tokenize(
            pattern@.skip(i + found.1),
            found.2,
        ),
{
    let n = pattern.len();
    let c = pattern[i];
    proof {
        let rest = pattern@.skip(i as int);
        assert(rest.len() == n - i);
        assert(rest[0] == c);
        assert(rest.len() >= 2 ==> rest[1] == pattern@[i + 1]);
        assert(rest.len() >= 3 ==> rest[2] == pattern@[i + 2]);
        assert(rest.skip(1) =~= pattern@.skip(i + 1));
        assert(rest.len() >= 2 ==> rest.skip(2) =~= pattern@.skip(i + 2));
        assert(rest.len() >= 3 ==> rest.skip(3) =~= pattern@.skip(i + 3));
    }
    if c == '*' {
        if n - i >= 2 && pattern[i + 1] == '*' {
            if at_start && n - i >= 3 && pattern[i + 2] == '/' {
                (Token::Dirs, 3, true)
            } else {
                (Token::Any, 2, false)
            }
        } else {
            (Token::Many, 1, false)
        }
    } else if c == '?' {
        (Token::One, 1, false)
    } else {
        (Token::Literal(c), 1, c == '/')
    }
}

/// Compiles the characters of a pattern into its tokens.
pub fn compile(pattern: &Vec<char>) -> (compiled: Vec<Token<char>>)
    ensures
        compiled@ == tokenize(pattern@, true),
{
    let n = pattern.len();
    let mut out: Vec<Token<char>> = Vec::new();
    let mut at_start = true;
    let mut i: usize = 0;
    proof {
        assert(pattern@.skip(0) =~= pattern@);
    }
    while i < n
        invariant
            i <= n,
            n == pattern.len(),
            tokenize(pattern@, true) == out@ + tokenize(pattern@.skip(i as int), at_start),
        decreases n - i,
    {
        let ghost sofar = out@;
        let found = scan(pattern, i, at_start);
        out.push(found.0);
        proof {
            let rest = tokenize(pattern@.skip(i + found.1), found.2);
            assert(out@ + rest =~= sofar + (seq![found.0] + rest));
        }
        at_start = found.2;
        i += found.1;
    }
    proof {
        assert(out@ + Seq::<Token<char>>::empty() =~= out@);
    }
    out
}

/// The characters of a string, one by one.
pub fn chars_of(s: &str) -> (chars: Vec<char>)
    ensures
        chars@ == s@,
{
    let mut chars: Vec<char> = Vec::new();
    let mut rest = s.chars();
    loop
        invariant
            chars@ + rest.remaining() == s@,
            rest.obeys_prophetic_iter_laws(),
            rest.decrease() is Some,
        ensures
            chars@ == s@,
        decreases rest.decrease()->0,
    {
        let ghost before = rest.remaining();
        match rest.next() {
            Some(c) => {
                chars.push(c);
                assert(chars@ + rest.remaining() =~= s@) by {
                    assert(before =~= seq![c] + before.drop_first());
                }
            },
            None => {
                assert(chars@ + before =~= chars@);
                break ;
            },
        }
    }
    chars
}

/// A compiled glob pattern. Its view is the text it was written as.
#[derive(Debug)]
pub struct Pattern {
    source: String,
    tokens: Vec<Token<char>>,
}

impl View for Pattern {
    type V = Seq<char>;

    closed spec fn view(&self) -> Seq<char> {
        self.source@
    }
}

impl Pattern {
    #[verifier::type_invariant]
    spec fn compiled(self) -> bool {
        self.tokens@ == tokenize(self.source@, true)
    }

    /// Compiles `pattern`. Every text is a pattern.
    pub fn new(pattern: &str) -> (compiled: Pattern)
        ensures
            compiled@ == pattern@,
    {
        let chars = chars_of(pattern);
        Pattern { source: String::from_str(pattern), tokens: compile(&chars) }
    }

    /// The text of the pattern.
    pub fn as_str(&self) -> (text: &str)
        ensures
            text@ == self@,
    {
        self.source.as_str()
    }

    /// Tells whether the pattern matches the whole of `path`.
    pub fn matches(&self, path: &str) -> (yes: bool)
        ensures
            yes == glob_matches(self@, path@),
    {
        let chars = chars_of(path);
        self.matches_chars(&chars)
    }

    fn matches_chars(&self, path: &Vec<char>) -> (yes: bool)
        ensures
            yes == glob_matches(self@, path@),
    {
        proof {
            use_type_invariant(self);
        }
        match_tokens(&self.tokens, path)
    }
}

/// The inclusion patterns of a walk, in the order they were given. A path is
/// selected when one of them matches it.
#[derive(Debug)]
pub struct PatternSet {
    patterns: Vec<Pattern>,
}

impl View for PatternSet {
    type V = Seq<Seq<char>>;

    closed spec fn view(&self) -> Seq<Seq<char>> {
        self.patterns@.map_values(|pattern: Pattern| pattern@)
    }
}

impl PatternSet {
    /// A set without patterns, which selects nothing.
    pub fn new() -> (set: PatternSet)
        ensures
            set@ == Seq::<Seq<char>>::empty(),
    {
        let set = PatternSet { patterns: Vec::new() };
        assert(set@ =~= Seq::<Seq<char>>::empty());
        set
    }

    /// Adds one pattern at the end.
    pub fn add(&mut self, pattern: &str)
        ensures
            final(self)@ == old(self)@.push(pattern@),
    {
        self.patterns.push(Pattern::new(pattern));
        assert(self@ =~= old(self)@.push(pattern@));
    }

    /// The set of the given patterns, in their order.
    pub fn of(patterns: &Vec<String>) -> (set: PatternSet)
        ensures
            set@ == texts(patterns@),
    {
        let mut set = PatternSet::new();
        let mut i: usize = 0;
        while i < patterns.len()
            invariant
                i <= patterns.len(),
                set@ == texts(patterns@.take(i as int)),
            decreases patterns.len() - i,
        {
            set.add(patterns[i].as_str());
            assert(texts(patterns@.take(i + 1)) =~= texts(patterns@.take(i as int)).push(
                patterns@[i as int]@,
            ));
            i += 1;
        }
        assert(patterns@.take(patterns.len() as int) =~= patterns@);
        set
    }

    /// The number of patterns.
    pub fn len(&self) -> (n: usize)
        ensures
            n == self@.len(),
    {
        self.patterns.len()
    }

    /// Whether the set holds no pattern.
    pub fn is_empty(&self) -> (yes: bool)
        ensures
            yes == (self@.len() == 0),
    {
        self.patterns.len() == 0
    }

    /// Tells whether one of the patterns matches the whole of `path`.
    pub fn matches(&self, path: &str) -> (yes: bool)
        ensures
            yes == any_matches(self@, path@),
    {
        let chars = chars_of(path);
        let mut i: usize = 0;
        while i < self.patterns.len()
            invariant
                i <= self.patterns.len(),
                chars@ == path@,
                forall|k: int| 0 <= k < i ==> !glob_matches(#[trigger] self@[k], path@),
            decreases self.patterns.len() - i,
        {
            if self.patterns[i].matches_chars(&chars) {
                assert(glob_matches(self@[i as int], path@));
                return true;
            }
            i += 1;
        }
        false
    }
}

} // verus!
