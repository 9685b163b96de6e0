use vstd::prelude::*;
use vstd::string::{StrSliceExecFns, StringExecFns};
use crate::kind::SyntaxKind;

verus! {

/// A lexical token of the query text.
#[derive(Debug)]
pub enum Token {
    Select,
    From,
    Text(String),
    Identifier(String),
    All,
    Comma,
}

/// Why a text could not be tokenized or parsed.
#[derive(Debug)]
pub enum AstError {
    InvalidToken(String),
    TrailingComma,
}

/// A token as the tree sees it: its kind and the text of its leaf.
pub type Leaf = (SyntaxKind, Seq<char>);

impl Token {
    pub open spec fn leaf(&self) -> Leaf {
        match self {
            Token::Select => (SyntaxKind::SELECT, seq!['S', 'E', 'L', 'E', 'C', 'T']),
            Token::From => (SyntaxKind::FROM, seq!['F', 'R', 'O', 'M']),
            Token::Text(t) => (SyntaxKind::TEXT, t@),
            Token::Identifier(i) => (SyntaxKind::IDENTIFIER, i@),
            Token::All => (SyntaxKind::ALL, seq!['*']),
            Token::Comma => (SyntaxKind::COMMA, seq![',']),
        }
    }

    /// The kind of this token and the text it stands for in the tree:
    /// keywords and punctuation in their canonical spelling, identifiers and
    /// text literals as carried.
    pub fn to_syntax(&self) -> (r: (SyntaxKind, String))
        ensures
            (r.0, r.1@) == self.leaf(),
    {
        match self {
            Token::All => {
                proof { reveal_strlit("*"); }
                (SyntaxKind::ALL, "*".to_owned())
            },
            Token::Select => {
                proof { reveal_strlit("SELECT"); }
                (SyntaxKind::SELECT, "SELECT".to_owned())
            },
            Token::Identifier(i) => (SyntaxKind::IDENTIFIER, i.clone()),
            Token::From => {
                proof { reveal_strlit("FROM"); }
                (SyntaxKind::FROM, "FROM".to_owned())
            },
            Token::Text(t) => (SyntaxKind::TEXT, t.clone()),
            Token::Comma => {
                proof { reveal_strlit(","); }
                (SyntaxKind::COMMA, ",".to_owned())
            },
        }
    }
}

pub open spec fn is_space(c: char) -> bool {
    c == ' ' || c == '\t' || c == '\n' || c == '\x0C'
}

pub open spec fn is_letter(c: char) -> bool {
    ('a' <= c && c <= 'z') || ('A' <= c && c <= 'Z')
}

pub open spec fn is_word_start(c: char) -> bool {
    is_letter(c) || c == '_'
}

pub open spec fn is_word_char(c: char) -> bool {
    is_word_start(c) || ('0' <= c && c <= '9')
}

pub open spec fn is_quote(c: char) -> bool {
    c == '"' || c == '\''
}

/// A character with which no token can begin.
pub open spec fn is_stray(c: char) -> bool {
    !is_space(c) && !is_word_start(c) && !is_quote(c) && c != '*' && c != ','
}

/// `w` spells the word whose lower-case letters are `lo` and upper-case
/// letters are `up`, in any mix of cases.
pub open spec fn spells(w: Seq<char>, lo: Seq<char>, up: Seq<char>) -> bool {
    w.len() == lo.len() && w.len() == up.len() && forall|k: int|
        0 <= k < w.len() ==> (#[trigger] w[k] == lo[k] || w[k] == up[k])
}

/// End of the run of word characters that starts at `i`.
pub open spec fn word_end(s: Seq<char>, i: int) -> int
    decreases s.len() - i,
{
    if i < 0 || i >= s.len() || !is_word_char(s[i]) {
        i
    } else {
        word_end(s, i + 1)
    }
}

/// Position of the first `q` at or after `i`, or the length.
pub open spec fn quote_end(s: Seq<char>, i: int, q: char) -> int
    decreases s.len() - i,
{
    if i < 0 || i >= s.len() || s[i] == q {
        i
    } else {
        quote_end(s, i + 1, q)
    }
}

/// End of the run of stray characters that starts at `i`.
pub open spec fn stray_end(s: Seq<char>, i: int) -> int
    decreases s.len() - i,
{
    if i < 0 || i >= s.len() || !is_stray(s[i]) {
        i
    } else {
        stray_end(s, i + 1)
    }
}

/// The leaf of a word: a keyword in canonical spelling, else an identifier.
pub open spec fn word_leaf(w: Seq<char>) -> Leaf {
    if spells(w, seq!['s', 'e', 'l', 'e', 'c', 't'], seq!['S', 'E', 'L', 'E', 'C', 'T']) {
        (SyntaxKind::SELECT, seq!['S', 'E', 'L', 'E', 'C', 'T'])
    } else if spells(w, seq!['f', 'r', 'o', 'm'], seq!['F', 'R', 'O', 'M']) {
        (SyntaxKind::FROM, seq!['F', 'R', 'O', 'M'])
    } else {
        (SyntaxKind::IDENTIFIER, w)
    }
}

pub open spec fn prepend(l: Leaf, r: Result<Seq<Leaf>, Seq<char>>) -> Result<Seq<Leaf>, Seq<char>> {
    match r {
        Ok(t) => Ok(seq![l] + t),
        Err(e) => Err(e),
    }
}

/// The leaves `a` put before the outcome `r` of a later scan.
pub open spec fn after(a: Seq<Leaf>, r: Result<Seq<Leaf>, Seq<char>>) -> Result<Seq<Leaf>, Seq<char>> {
    match r {
        Ok(t) => Ok(a + t),
        Err(e) => Err(e),
    }
}

proof fn lemma_after_prepend(a: Seq<Leaf>, l: Leaf, r: Result<Seq<Leaf>, Seq<char>>)
    ensures
        after(a, prepend(l, r)) == after(a.push(l), r),
{
    if let Ok(t) = r {
        assert(a + (seq![l] + t) == a.push(l) + t);
    }
}

/// The leaves of the tokens of `s` from position `i` on, or the first slice
/// of text that no rule matches.
pub open spec fn scan(s: Seq<char>, i: int) -> Result<Seq<Leaf>, Seq<char>>
    decreases s.len() - i, 1int,
{
    if i < 0 || i >= s.len() {
        Ok(seq![])
    } else {
        let c = s[i];
        if is_space(c) {
            scan(s, i + 1)
        } else if c == '*' {
            prepend((SyntaxKind::ALL, seq!['*']), scan(s, i + 1))
        } else if c == ',' {
            prepend((SyntaxKind::COMMA, seq![',']), scan(s, i + 1))
        } else if is_quote(c) {
            let j = quote_end(s, i + 1, c);
            if j >= s.len() {
                Err(s.subrange(i, s.len() as int))
            } else {
                prepend((SyntaxKind::TEXT, s.subrange(i + 1, j)), scan_from(s, i, j + 1))
            }
        } else if is_word_start(c) {
            let j = word_end(s, i + 1);
            prepend(word_leaf(s.subrange(i, j)), scan_from(s, i, j))
        } else {
            Err(s.subrange(i, stray_end(s, i + 1)))
        }
    }
}

/// `scan` resumed at `j`, which lies past `i`.
pub open spec fn scan_from(s: Seq<char>, i: int, j: int) -> Result<Seq<Leaf>, Seq<char>>
    decreases s.len() - i, 0int,
{
    if i < j <= s.len() {
        scan(s, j)
    } else {
        Err(seq![])
    }
}

proof fn lemma_ends(s: Seq<char>, i: int, q: char)
    requires
        0 <= i <= s.len(),
    ensures
        i <= word_end(s, i) <= s.len(),
        i <= quote_end(s, i, q) <= s.len(),
        i <= stray_end(s, i) <= s.len(),
    decreases s.len() - i,
{
    if i < s.len() {
        lemma_ends(s, i + 1, q);
    }
}

/// Relies on str::chars: the characters of the text, in order.
#[verifier::external_body]
fn chars_of(s: &str) -> (r: Vec<char>)
    ensures
        r@ == s@,
{
    s.chars().collect()
}

/// The characters `i..j` of `src` as a new string.
fn slice_string(src: &str, i: usize, j: usize) -> (r: String)
    requires
        i <= j <= src@.len(),
    ensures
        r@ == src@.subrange(i as int, j as int),
{
    String::from_str(src.substring_char(i, j))
}

fn spells_word(s: &Vec<char>, i: usize, j: usize, lo: &Vec<char>, up: &Vec<char>) -> (r: bool)
    requires
        i <= j <= s@.len(),
        lo@.len() == up@.len(),
    ensures
        r == spells(s@.subrange(i as int, j as int), lo@, up@),
{
    if j - i != lo.len() {
        return false;
    }
    let mut k: usize = 0;
    while k < lo.len()
        invariant
            j - i == lo@.len(),
            lo@.len() == up@.len(),
            i <= j <= s@.len(),
            k <= lo@.len(),
            forall|m: int| 0 <= m < k ==> (s@[i + m] == lo@[m] || s@[i + m] == up@[m]),
        decreases lo@.len() - k,
    {
        if s[i + k] != lo[k] && s[i + k] != up[k] {
            assert(s@.subrange(i as int, j as int)[k as int] == s@[i + k]);
            return false;
        }
        k = k + 1;
    }
    assert forall|m: int| 0 <= m < s@.subrange(i as int, j as int).len() implies
        (#[trigger] s@.subrange(i as int, j as int)[m] == lo@[m] || s@.subrange(i as int, j as int)[m] == up@[m]) by {
        assert(s@.subrange(i as int, j as int)[m] == s@[i + m]);
    }
    true
}

/// Splits the text into tokens, skipping spaces, tabs, newlines and form
/// feeds; fails with the first slice of text that no rule matches.
pub fn tokenize(src: &str) -> (r: Result<Vec<Token>, AstError>)
    ensures
        match (r, scan(src@, 0)) {
            (Ok(v), Ok(t)) => v@.map_values(|x: Token| x.leaf()) == t,
            (Err(AstError::InvalidToken(e)), Err(b)) => e@ == b,
            _ => false,
        },
{
    let s = chars_of(src);
    let n = s.len();
    let ghost sv = s@;
    let mut out: Vec<Token> = Vec::new();
    let mut i: usize = 0;
    let select_lo: Vec<char> = vec!['s', 'e', 'l', 'e', 'c', 't'];
    let select_up: Vec<char> = vec!['S', 'E', 'L', 'E', 'C', 'T'];
    let from_lo: Vec<char> = vec!['f', 'r', 'o', 'm'];
    let from_up: Vec<char> = vec!['F', 'R', 'O', 'M'];
    while i < n
        invariant
            s@ == sv,
            sv == src@,
            n == sv.len(),
            i <= n,
            select_lo@ == seq!['s', 'e', 'l', 'e', 'c', 't'],
            select_up@ == seq!['S', 'E', 'L', 'E', 'C', 'T'],
            from_lo@ == seq!['f', 'r', 'o', 'm'],
            from_up@ == seq!['F', 'R', 'O', 'M'],
            scan(sv, 0) == after(out@.map_values(|x: Token| x.leaf()), scan(sv, i as int)),
        decreases n - i,
    {
        let c = s[i];
        proof {
            lemma_ends(sv, i + 1, c);
        }
        let ghost before = out@.map_values(|x: Token| x.leaf());
        if c == ' ' || c == '\t' || c == '\n' || c == '\x0C' {
            i = i + 1;
        } else if c == '*' || c == ',' {
            let t = if c == '*' { Token::All } else { Token::Comma };
            assert(scan(sv, i as int) == prepend(t.leaf(), scan(sv, i as int + 1)));
            out.push(t);
            assert(out@.map_values(|x: Token| x.leaf()) == before.push(t.leaf()));
            proof { lemma_after_prepend(before, t.leaf(), scan(sv, i as int + 1)); }
            i = i + 1;
        } else if c == '"' || c == '\'' {
            let mut j = i + 1;
            while j < n && s[j] != c
                invariant
                    s@ == sv,
                    n == sv.len(),
                    i < j <= n,
                    quote_end(sv, i + 1, c) == quote_end(sv, j as int, c),
                decreases n - j,
            {
                j = j + 1;
            }
            if j >= n {
                return Err(AstError::InvalidToken(slice_string(src, i, n)));
            }
            let t = Token::Text(slice_string(src, i + 1, j));
            assert(quote_end(sv, j as int, c) == j);
            assert(scan_from(sv, i as int, j as int + 1) == scan(sv, j as int + 1));
            assert(scan(sv, i as int) == prepend(t.leaf(), scan(sv, j as int + 1)));
            out.push(t);
            assert(out@.map_values(|x: Token| x.leaf()) == before.push(t.leaf()));
            proof { lemma_after_prepend(before, t.leaf(), scan(sv, j as int + 1)); }
            i = j + 1;
        } else if ('a' <= c && c <= 'z') || ('A' <= c && c <= 'Z') || c == '_' {
            let mut j = i + 1;
            while j < n && (('a' <= s[j] && s[j] <= 'z') || ('A' <= s[j] && s[j] <= 'Z')
                || s[j] == '_' || ('0' <= s[j] && s[j] <= '9'))
                invariant
                    s@ == sv,
                    n == sv.len(),
                    i < j <= n,
                    word_end(sv, i + 1) == word_end(sv, j as int),
                decreases n - j,
            {
                j = j + 1;
            }
            let t = if spells_word(&s, i, j, &select_lo, &select_up) {
                Token::Select
            } else if spells_word(&s, i, j, &from_lo, &from_up) {
                Token::From
            } else {
                Token::Identifier(slice_string(src, i, j))
            };
            assert(t.leaf() == word_leaf(sv.subrange(i as int, j as int)));
            assert(word_end(sv, j as int) == j);
            assert(scan_from(sv, i as int, j as int) == scan(sv, j as int));
            assert(scan(sv, i as int) == prepend(t.leaf(), scan(sv, j as int)));
            out.push(t);
            assert(out@.map_values(|x: Token| x.leaf()) == before.push(t.leaf()));
            proof { lemma_after_prepend(before, t.leaf(), scan(sv, j as int)); }
            i = j;
        } else {
            let mut j = i + 1;
            while j < n && !(s[j] == ' ' || s[j] == '\t' || s[j] == '\n' || s[j] == '\x0C'
                || ('a' <= s[j] && s[j] <= 'z') || ('A' <= s[j] && s[j] <= 'Z') || s[j] == '_'
                || s[j] == '"' || s[j] == '\'' || s[j] == '*' || s[j] == ',')
                invariant
                    s@ == sv,
                    n == sv.len(),
                    i < j <= n,
                    stray_end(sv, i + 1) == stray_end(sv, j as int),
                decreases n - j,
            {
                j = j + 1;
            }
            return Err(AstError::InvalidToken(slice_string(src, i, j)));
        }
    }
    assert(out@.map_values(|x: Token| x.leaf()) + seq![] == out@.map_values(|x: Token| x.leaf()));
    Ok(out)
}

} // verus!
