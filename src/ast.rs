use vstd::prelude::*;
use crate::kind::SyntaxKind;
use crate::lexer::{AstError, Leaf, Token, scan, tokenize};

verus! {

/// A SELECT node of the tree: the leaves of its column list, in source
/// order and commas included, then its FROM node, given by the leaves it holds.
pub struct SelectNode {
    pub columns: Vec<(SyntaxKind, String)>,
    pub from: Vec<(SyntaxKind, String)>,
}

/// The tree of a whole text: a ROOT node holding SELECT nodes.
pub struct SyntaxTree {
    pub statements: Vec<SelectNode>,
}

/// A child of a node, in document order: a leaf token with its text, or a
/// node of the given kind.
#[derive(Debug)]
pub enum Child {
    Token(SyntaxKind, String),
    Node(SyntaxKind),
}

/// `c` is the leaf token `l`.
pub open spec fn is_leaf_child(c: Child, l: (SyntaxKind, String)) -> bool {
    match c {
        Child::Token(kd, s) => kd == l.0 && s@ == l.1@,
        Child::Node(_) => false,
    }
}

/// The leaves `v` as children, in order.
fn token_children(v: &Vec<(SyntaxKind, String)>) -> (r: Vec<Child>)
    ensures
        r@.len() == v@.len(),
        forall|k: int| 0 <= k < v@.len() ==> is_leaf_child(#[trigger] r@[k], v@[k]),
{
    let mut r: Vec<Child> = Vec::new();
    let mut i: usize = 0;
    while i < v.len()
        invariant
            i <= v@.len(),
            r@.len() == i,
            forall|k: int| 0 <= k < i ==> is_leaf_child(#[trigger] r@[k], v@[k]),
        decreases v@.len() - i,
    {
        r.push(Child::Token(v[i].0, v[i].1.clone()));
        i = i + 1;
    }
    r
}

impl SelectNode {
    pub fn kind(&self) -> (r: SyntaxKind)
        ensures
            r == SyntaxKind::SELECT,
    {
        SyntaxKind::SELECT
    }

    /// The column leaves, then the FROM node.
    pub fn children(&self) -> (r: Vec<Child>)
        ensures
            r@.len() == self.columns@.len() + 1,
            forall|k: int| 0 <= k < self.columns@.len() ==> is_leaf_child(#[trigger] r@[k], self.columns@[k]),
            r@.last() == Child::Node(SyntaxKind::FROM),
    {
        let mut r = token_children(&self.columns);
        r.push(Child::Node(SyntaxKind::FROM));
        r
    }

    /// The leaves of the FROM node.
    pub fn from_children(&self) -> (r: Vec<Child>)
        ensures
            r@.len() == self.from@.len(),
            forall|k: int| 0 <= k < self.from@.len() ==> is_leaf_child(#[trigger] r@[k], self.from@[k]),
    {
        token_children(&self.from)
    }
}

impl SyntaxTree {
    pub fn kind(&self) -> (r: SyntaxKind)
        ensures
            r == SyntaxKind::ROOT,
    {
        SyntaxKind::ROOT
    }

    /// One SELECT node per statement.
    pub fn children(&self) -> (r: Vec<Child>)
        ensures
            r@.len() == self.statements@.len(),
            forall|k: int| 0 <= k < r@.len() ==> #[trigger] r@[k] == Child::Node(SyntaxKind::SELECT),
    {
        let mut r: Vec<Child> = Vec::new();
        let mut i: usize = 0;
        while i < self.statements.len()
            invariant
                i <= self.statements@.len(),
                r@.len() == i,
                forall|k: int| 0 <= k < i ==> #[trigger] r@[k] == Child::Node(SyntaxKind::SELECT),
            decreases self.statements@.len() - i,
        {
            r.push(Child::Node(SyntaxKind::SELECT));
            i = i + 1;
        }
        r
    }
}

/// A statement as the contracts see it.
pub type Stmt = (Seq<Leaf>, Seq<Leaf>);

pub open spec fn leaves_of(v: Seq<(SyntaxKind, String)>) -> Seq<Leaf> {
    v.map_values(|p: (SyntaxKind, String)| (p.0, p.1@))
}

impl SelectNode {
    pub open spec fn view(&self) -> Stmt {
        (leaves_of(self.columns@), leaves_of(self.from@))
    }
}

impl SyntaxTree {
    pub open spec fn view(&self) -> Seq<Stmt> {
        self.statements@.map_values(|s: SelectNode| s@)
    }
}

/// First position at or after `i` that holds a leaf of kind `k`, or the length.
pub open spec fn next_of(t: Seq<Leaf>, i: int, k: SyntaxKind) -> int
    decreases t.len() - i,
{
    if i < 0 || i >= t.len() || t[i].0 == k {
        i
    } else {
        next_of(t, i + 1, k)
    }
}

/// The leaf at `k`, if it is a comma, is followed by an identifier.
pub open spec fn comma_ok_at(t: Seq<Leaf>, k: int) -> bool {
    t[k].0 == SyntaxKind::COMMA ==> k + 1 < t.len() && t[k + 1].0 == SyntaxKind::IDENTIFIER
}

/// Every comma in `t[a..b]` is followed by an identifier.
pub open spec fn commas_followed(t: Seq<Leaf>, a: int, b: int) -> bool {
    forall|k: int| a <= k < b ==> #[trigger] comma_ok_at(t, k)
}

/// The leaves of `s` but its commas.
pub open spec fn without_commas(s: Seq<Leaf>) -> Seq<Leaf>
    decreases s.len(),
{
    if s.len() == 0 {
        seq![]
    } else if s.last().0 == SyntaxKind::COMMA {
        without_commas(s.drop_last())
    } else {
        without_commas(s.drop_last()).push(s.last())
    }
}

pub open spec fn after(a: Seq<Stmt>, r: Result<Seq<Stmt>, ()>) -> Result<Seq<Stmt>, ()> {
    match r {
        Ok(v) => Ok(a + v),
        Err(e) => Err(e),
    }
}

pub open spec fn cons(s: Stmt, r: Result<Seq<Stmt>, ()>) -> Result<Seq<Stmt>, ()> {
    match r {
        Ok(v) => Ok(seq![s] + v),
        Err(e) => Err(e),
    }
}

/// Every SELECT has a FROM somewhere after it.
#[verifier::opaque]
pub open spec fn selects_have_from(t: Seq<Leaf>) -> bool {
    forall|i: int| 0 <= i < t.len() && (#[trigger] t[i]).0 == SyntaxKind::SELECT
        ==> next_of(t, i + 1, SyntaxKind::FROM) < t.len()
}

/// Where the FROM clause of the statement that starts at `i` stands.
pub open spec fn from_at(t: Seq<Leaf>, i: int) -> int {
    next_of(t, i + 1, SyntaxKind::FROM)
}

/// Where the statement that starts at `i` ends: at the first SELECT after
/// its FROM, or at the end.
pub open spec fn statement_end(t: Seq<Leaf>, i: int) -> int {
    next_of(t, from_at(t, i) + 1, SyntaxKind::SELECT)
}

/// The statement that starts at the SELECT at `i`: its columns run up to the
/// next FROM, and its FROM clause, commas left out, up to the next SELECT.
/// `None` where a comma, in either part, is not followed by an identifier.
pub open spec fn statement_at(t: Seq<Leaf>, i: int) -> Option<Stmt> {
    let c = from_at(t, i);
    let f = statement_end(t, i);
    if commas_followed(t, i + 1, c) && commas_followed(t, c + 1, f) {
        Some((t.subrange(i + 1, c), without_commas(t.subrange(c + 1, f))))
    } else {
        None
    }
}

/// The statements that the leaves from `i` on make. Leaves before a
/// statement are passed over. `Err` stands for a comma that no identifier
/// follows.
#[verifier::opaque]
pub open spec fn statements(t: Seq<Leaf>, i: int) -> Result<Seq<Stmt>, ()>
    decreases t.len() - i,
{
    if i < 0 || i >= t.len() {
        Ok(seq![])
    } else if t[i].0 != SyntaxKind::SELECT {
        statements(t, i + 1)
    } else if !(i < statement_end(t, i) <= t.len()) {
        Err(())
    } else {
        match statement_at(t, i) {
            Some(st) => cons(st, statements(t, statement_end(t, i))),
            None => Err(()),
        }
    }
}

proof fn lemma_statement_step(t: Seq<Leaf>, i: int)
    requires
        0 <= i < t.len(),
        t[i].0 == SyntaxKind::SELECT,
        i < statement_end(t, i) <= t.len(),
    ensures
        statements(t, i) == (match statement_at(t, i) {
            Some(st) => cons(st, statements(t, statement_end(t, i))),
            None => Err(()),
        }),
{
    reveal(statements);
}

proof fn lemma_pass_over(t: Seq<Leaf>, i: int)
    requires
        0 <= i < t.len(),
        t[i].0 != SyntaxKind::SELECT,
    ensures
        statements(t, i) == statements(t, i + 1),
{
    reveal(statements);
}

proof fn lemma_at_end(t: Seq<Leaf>, i: int)
    requires
        i == t.len(),
    ensures
        statements(t, i) == Ok::<Seq<Stmt>, ()>(seq![]),
{
    reveal(statements);
}

pub proof fn lemma_next_of_bounds(t: Seq<Leaf>, i: int, k: SyntaxKind)
    requires
        0 <= i <= t.len(),
    ensures
        i <= next_of(t, i, k) <= t.len(),
        next_of(t, i, k) < t.len() ==> t[next_of(t, i, k)].0 == k,
    decreases t.len() - i,
{
    if i < t.len() {
        lemma_next_of_bounds(t, i + 1, k);
    }
}

/// Builds the tree from the tokens of one text.
pub struct Parser {
    tokens: Vec<(SyntaxKind, String)>,
}

impl Parser {
    pub closed spec fn leaves(&self) -> Seq<Leaf> {
        leaves_of(self.tokens@)
    }

    /// A parser over the given tokens, each taken as its kind and leaf text.
    pub fn from_tokens(tokens: &Vec<Token>) -> (r: Parser)
        ensures
            r.leaves() == tokens@.map_values(|x: Token| x.leaf()),
    {
        let mut v: Vec<(SyntaxKind, String)> = Vec::new();
        let mut i: usize = 0;
        while i < tokens.len()
            invariant
                i <= tokens@.len(),
                leaves_of(v@) == tokens@.subrange(0, i as int).map_values(|x: Token| x.leaf()),
            decreases tokens@.len() - i,
        {
            let p = tokens[i].to_syntax();
            let ghost old_v = v@;
            v.push(p);
            assert(tokens@.subrange(0, i + 1) == tokens@.subrange(0, i as int).push(tokens@[i as int]));
            assert(leaves_of(v@) =~= leaves_of(old_v).push((p.0, p.1@)));
            assert(tokens@.subrange(0, i + 1).map_values(|x: Token| x.leaf())
                =~= tokens@.subrange(0, i as int).map_values(|x: Token| x.leaf()).push(tokens@[i as int].leaf()));
            i = i + 1;
        }
        assert(tokens@.subrange(0, i as int) == tokens@);
        Parser { tokens: v }
    }

    /// First position at or after `i` whose token is of kind `k`, or the count.
    fn next_kind(&self, i: usize, k: SyntaxKind) -> (r: usize)
        requires
            i <= self.leaves().len(),
        ensures
            r == next_of(self.leaves(), i as int, k),
            i <= r <= self.leaves().len(),
    {
        let ghost t = self.leaves();
        proof { lemma_next_of_bounds(t, i as int, k); }
        let mut j = i;
        while j < self.tokens.len() && self.tokens[j].0 != k
            invariant
                t == self.leaves(),
                t.len() == self.tokens@.len(),
                i <= j <= t.len(),
                next_of(t, i as int, k) == next_of(t, j as int, k),
            decreases t.len() - j,
        {
            j = j + 1;
        }
        j
    }

    /// Copies of the tokens `a..b`.
    fn copy_range(&self, a: usize, b: usize) -> (r: Vec<(SyntaxKind, String)>)
        requires
            a <= b <= self.leaves().len(),
        ensures
            leaves_of(r@) == self.leaves().subrange(a as int, b as int),
    {
        let ghost t = self.leaves();
        let mut cols: Vec<(SyntaxKind, String)> = Vec::new();
        let mut k = a;
        while k < b
            invariant
                t == self.leaves(),
                t.len() == self.tokens@.len(),
                a <= k <= b <= t.len(),
                leaves_of(cols@) == t.subrange(a as int, k as int),
            decreases b - k,
        {
            let p = (self.tokens[k].0, self.tokens[k].1.clone());
            let ghost old_c = cols@;
            cols.push(p);
            assert(leaves_of(cols@) =~= leaves_of(old_c).push((p.0, p.1@)));
            assert(t.subrange(a as int, k + 1) == t.subrange(a as int, k as int).push(t[k as int]));
            k = k + 1;
        }
        cols
    }

    /// The leaves `a..b` of the tokens, commas left out; fails where a comma
    /// is not followed by an identifier.
    #[verifier::rlimit(100)]
    fn from_clause(&self, a: usize, b: usize) -> (r: Result<Vec<(SyntaxKind, String)>, AstError>)
        requires
            a <= b <= self.leaves().len(),
        ensures
            r is Ok <==> commas_followed(self.leaves(), a as int, b as int),
            r matches Ok(v) ==> leaves_of(v@) == without_commas(self.leaves().subrange(a as int, b as int)),
            r matches Err(e) ==> e is TrailingComma,
    {
        let ghost t = self.leaves();
        let mut v: Vec<(SyntaxKind, String)> = Vec::new();
        let mut k = a;
        while k < b
            invariant
                t == self.leaves(),
                t.len() == self.tokens@.len(),
                a <= k <= b <= t.len(),
                commas_followed(t, a as int, k as int),
                leaves_of(v@) == without_commas(t.subrange(a as int, k as int)),
            decreases b - k,
        {
            assert(t.subrange(a as int, k + 1).drop_last() == t.subrange(a as int, k as int));
            if self.tokens[k].0 == SyntaxKind::COMMA {
                if k + 1 >= self.tokens.len() || self.tokens[k + 1].0 != SyntaxKind::IDENTIFIER {
                    assert(!comma_ok_at(t, k as int));
                    return Err(AstError::TrailingComma);
                }
            } else {
                let p = (self.tokens[k].0, self.tokens[k].1.clone());
                let ghost old_v = v@;
                v.push(p);
                assert(leaves_of(v@) =~= leaves_of(old_v).push((p.0, p.1@)));
            }
            k = k + 1;
        }
        Ok(v)
    }

    /// Whether every comma among the tokens `a..b` is followed by an identifier.
    fn commas_ok(&self, a: usize, b: usize) -> (r: bool)
        requires
            a <= b <= self.leaves().len(),
        ensures
            r == commas_followed(self.leaves(), a as int, b as int),
    {
        let ghost t = self.leaves();
        let mut k = a;
        while k < b
            invariant
                t == self.leaves(),
                t.len() == self.tokens@.len(),
                a <= k <= b <= t.len(),
                commas_followed(t, a as int, k as int),
            decreases b - k,
        {
            if self.tokens[k].0 == SyntaxKind::COMMA {
                if k + 1 >= self.tokens.len() || self.tokens[k + 1].0 != SyntaxKind::IDENTIFIER {
                    assert(!comma_ok_at(t, k as int));
                    return false;
                }
            }
            k = k + 1;
        }
        true
    }

    /// The SELECT node that starts at `i`, and the position after it.
    fn statement(&self, i: usize) -> (r: Result<(SelectNode, usize), AstError>)
        requires
            i < self.leaves().len(),
            self.leaves()[i as int].0 == SyntaxKind::SELECT,
            selects_have_from(self.leaves()),
        ensures
            r is Ok <==> statement_at(self.leaves(), i as int) is Some,
            r matches Ok((node, j)) ==> statement_at(self.leaves(), i as int) == Some(node@)
                && j == statement_end(self.leaves(), i as int),
            r matches Err(e) ==> e is TrailingComma,
            i < statement_end(self.leaves(), i as int) <= self.leaves().len(),
    {
        let ghost t = self.leaves();
        assert(t.len() == self.tokens@.len());
        assert(from_at(t, i as int) < t.len()) by {
            reveal(selects_have_from);
        }
        let n = self.tokens.len();
        let c = self.next_kind(i + 1, SyntaxKind::FROM);
        assert(c < n);
        let f = self.next_kind(c + 1, SyntaxKind::SELECT);
        if !self.commas_ok(i + 1, c) {
            return Err(AstError::TrailingComma);
        }
        let cols = self.copy_range(i + 1, c);
        match self.from_clause(c + 1, f) {
            Err(e) => Err(e),
            Ok(fv) => Ok((SelectNode { columns: cols, from: fv }, f)),
        }
    }

    /// Builds the tree: a ROOT holding one SELECT node per statement.
    /// Every SELECT must have a FROM after it.
    pub fn parse(self) -> (r: Result<SyntaxTree, AstError>)
        requires
            selects_have_from(self.leaves()),
        ensures
            match (r, statements(self.leaves(), 0)) {
                (Ok(tree), Ok(s)) => tree@ == s,
                (Err(AstError::TrailingComma), Err(_)) => true,
                _ => false,
            },
    {
        let ghost t = self.leaves();
        let n = self.tokens.len();
        let mut out: Vec<SelectNode> = Vec::new();
        let mut i: usize = 0;
        while i < n
            invariant
                t == self.leaves(),
                n == t.len(),
                i <= n,
                selects_have_from(t),
                statements(t, 0) == after(out@.map_values(|s: SelectNode| s@), statements(t, i as int)),
            decreases n - i,
        {
            if self.tokens[i].0 != SyntaxKind::SELECT {
                proof { lemma_pass_over(t, i as int); }
                i = i + 1;
            } else {
                let st = self.statement(i);
                proof { lemma_statement_step(t, i as int); }
                match st {
                    Err(e) => {
                        return Err(e);
                    },
                    Ok((node, j)) => {
                        let ghost before = out@.map_values(|s: SelectNode| s@);
                        out.push(node);
                        assert(out@.map_values(|s: SelectNode| s@) =~= before.push(node@));
                        proof {
                            if let Ok(v) = statements(t, j as int) {
                                assert(before + (seq![node@] + v) == before.push(node@) + v);
                            }
                        }
                        i = j;
                    },
                }
            }
        }
        proof { lemma_at_end(t, n as int); }
        assert(out@.map_values(|s: SelectNode| s@) + seq![] == out@.map_values(|s: SelectNode| s@));
        Ok(SyntaxTree { statements: out })
    }
}

impl From<String> for SqlBuilder {
    fn from(code: String) -> (r: SqlBuilder) {
        SqlBuilder { code }
    }
}

impl vstd::std_specs::convert::FromSpecImpl<String> for SqlBuilder {
    open spec fn obeys_from_spec() -> bool {
        true
    }

    open spec fn from_spec(code: String) -> SqlBuilder {
        SqlBuilder { code }
    }
}

/// Holds the text of one query until it is built into a tree.
pub struct SqlBuilder {
    pub code: String,
}

impl SqlBuilder {
    /// Tokenizes the text and builds its tree.
    /// Every SELECT of the text must have a FROM after it.
    pub fn build(self) -> (r: Result<SyntaxTree, AstError>)
        requires
            scan(self.code@, 0) matches Ok(t) ==> selects_have_from(t),
        ensures
            match (r, scan(self.code@, 0)) {
                (Err(AstError::InvalidToken(e)), Err(b)) => e@ == b,
                (Err(AstError::TrailingComma), Ok(t)) => statements(t, 0) is Err,
                (Ok(tree), Ok(t)) => statements(t, 0) == Ok::<Seq<Stmt>, ()>(tree@),
                _ => false,
            },
    {
        let tokens = tokenize(self.code.as_str());
        match tokens {
            Err(e) => Err(e),
            Ok(v) => {
                let p = Parser::from_tokens(&v);
                p.parse()
            },
        }
    }
}

} // verus!
