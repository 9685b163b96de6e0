use vstd::prelude::*;
use crate::kind::SyntaxKind;
use crate::lexer::{Leaf, is_quote, quote_end, scan, scan_from, spells, word_leaf, prepend};
use crate::ast::{Stmt, next_of, statements, commas_followed, comma_ok_at, without_commas, from_at, statement_end, statement_at};

verus! {

pub open spec fn select_leaf() -> Leaf {
    (SyntaxKind::SELECT, seq!['S', 'E', 'L', 'E', 'C', 'T'])
}

pub open spec fn from_leaf() -> Leaf {
    (SyntaxKind::FROM, seq!['F', 'R', 'O', 'M'])
}

pub open spec fn all_leaf() -> Leaf {
    (SyntaxKind::ALL, seq!['*'])
}

proof fn lemma_next_of_skip(t: Seq<Leaf>, i: int, j: int, k: SyntaxKind)
    requires
        0 <= i <= j <= t.len(),
        forall|m: int| i <= m < j ==> (#[trigger] t[m]).0 != k,
        j == t.len() || t[j].0 == k,
    ensures
        next_of(t, i, k) == j,
    decreases j - i,
{
    if i < j {
        lemma_next_of_skip(t, i + 1, j, k);
    }
}

/// A valid column list: identifiers and commas in turn, starting and ending
/// with an identifier.
pub open spec fn is_column_list(cols: Seq<Leaf>) -> bool {
    cols.len() % 2 == 1 && forall|m: int| 0 <= m < cols.len() ==>
        (#[trigger] cols[m]).0 == (if m % 2 == 0 { SyntaxKind::IDENTIFIER } else { SyntaxKind::COMMA })
}

#[verifier::rlimit(100)]
proof fn lemma_single_statement(cols: Seq<Leaf>, name: Leaf)
    requires
        forall|m: int| 0 <= m < cols.len() ==> (#[trigger] cols[m]).0 != SyntaxKind::FROM
            && cols[m].0 != SyntaxKind::SELECT,
        forall|m: int| 0 <= m < cols.len() && (#[trigger] cols[m]).0 == SyntaxKind::COMMA
            ==> m + 1 < cols.len() && cols[m + 1].0 == SyntaxKind::IDENTIFIER,
        name.0 != SyntaxKind::SELECT,
        name.0 != SyntaxKind::COMMA,
    ensures
        statements(seq![select_leaf()] + cols + seq![from_leaf(), name], 0)
            == Ok::<Seq<Stmt>, ()>(seq![(cols, seq![name])]),
{
    reveal(statements);
    let t = seq![select_leaf()] + cols + seq![from_leaf(), name];
    let c = cols.len() as int + 1;
    assert(t.len() == c + 2);
    assert forall|m: int| 1 <= m < c implies (#[trigger] t[m]).0 != SyntaxKind::FROM by {
        assert(t[m] == cols[m - 1]);
    }
    assert(t[0] == select_leaf());
    assert(t[c] == from_leaf());
    assert(t[c + 1] == name);
    lemma_next_of_skip(t, 1, c, SyntaxKind::FROM);
    lemma_next_of_skip(t, c + 1, c + 2, SyntaxKind::SELECT);
    assert(from_at(t, 0) == c);
    assert(statement_end(t, 0) == c + 2);
    assert forall|k: int| 1 <= k < c implies #[trigger] comma_ok_at(t, k) by {
        assert(t[k] == cols[k - 1]);
        assert(t[k + 1] == if k < c - 1 { cols[k] } else { from_leaf() });
    }
    assert(comma_ok_at(t, c + 1));
    assert(commas_followed(t, 1, c));
    assert(commas_followed(t, c + 1, c + 2));
    assert(t.subrange(1, c) =~= cols);
    let u = t.subrange(c + 1, c + 2);
    assert(u =~= seq![name]);
    assert(u.last() == name);
    assert(u.drop_last() =~= Seq::<Leaf>::empty());
    assert(without_commas(u.drop_last()) == Seq::<Leaf>::empty());
    assert(Seq::<Leaf>::empty().push(name) =~= seq![name]);
    assert(without_commas(u) == seq![name]);
    assert(statement_at(t, 0) == Some::<Stmt>((cols, seq![name])));
    assert(statements(t, c + 2) == Ok::<Seq<Stmt>, ()>(seq![]));
    assert(seq![(cols, seq![name])] + seq![] =~= seq![(cols, seq![name])]);
}

/// A lone `SELECT * FROM <name>` gives one SELECT node whose children are
/// the `*` leaf and a FROM node holding the name's leaf alone.
pub proof fn lemma_select_all_from(name: Leaf)
    requires
        name.0 != SyntaxKind::SELECT,
        name.0 != SyntaxKind::COMMA,
    ensures
        statements(seq![select_leaf(), all_leaf(), from_leaf(), name], 0)
            == Ok::<Seq<Stmt>, ()>(seq![(seq![all_leaf()], seq![name])]),
{
    lemma_single_statement(seq![all_leaf()], name);
    assert(seq![select_leaf()] + seq![all_leaf()] + seq![from_leaf(), name]
        =~= seq![select_leaf(), all_leaf(), from_leaf(), name]);
}

/// For a valid column list, the leaves of the SELECT node before its FROM
/// node are the list's identifiers and commas, in source order.
pub proof fn lemma_column_list(cols: Seq<Leaf>, name: Leaf)
    requires
        is_column_list(cols),
        name.0 != SyntaxKind::SELECT,
        name.0 != SyntaxKind::COMMA,
    ensures
        statements(seq![select_leaf()] + cols + seq![from_leaf(), name], 0)
            == Ok::<Seq<Stmt>, ()>(seq![(cols, seq![name])]),
{
    assert forall|m: int| 0 <= m < cols.len() && (#[trigger] cols[m]).0 == SyntaxKind::COMMA
        implies m + 1 < cols.len() && cols[m + 1].0 == SyntaxKind::IDENTIFIER by {
        assert(m % 2 == 1);
        assert((m + 1) % 2 == 0);
    }
    lemma_single_statement(cols, name);
}

/// Keywords are matched in any mix of cases and always give their
/// upper-case leaf.
pub proof fn lemma_keywords_any_case(w: Seq<char>)
    ensures
        spells(w, seq!['s', 'e', 'l', 'e', 'c', 't'], seq!['S', 'E', 'L', 'E', 'C', 'T'])
            ==> word_leaf(w) == select_leaf(),
        spells(w, seq!['f', 'r', 'o', 'm'], seq!['F', 'R', 'O', 'M'])
            ==> word_leaf(w) == from_leaf(),
{
    if spells(w, seq!['f', 'r', 'o', 'm'], seq!['F', 'R', 'O', 'M'])
        && spells(w, seq!['s', 'e', 'l', 'e', 'c', 't'], seq!['S', 'E', 'L', 'E', 'C', 'T']) {
        assert(false);
    }
}

proof fn lemma_quote_skip(s: Seq<char>, i: int, j: int, q: char)
    requires
        0 <= i <= j <= s.len(),
        forall|m: int| i <= m < j ==> (#[trigger] s[m]) != q,
        j == s.len() || s[j] == q,
    ensures
        quote_end(s, i, q) == j,
    decreases j - i,
{
    if i < j {
        lemma_quote_skip(s, i + 1, j, q);
    }
}

/// A quoted literal gives a TEXT leaf holding what stands between its two
/// quote characters, without them.
pub proof fn lemma_quotes_stripped(q: char, body: Seq<char>)
    requires
        is_quote(q),
        forall|m: int| 0 <= m < body.len() ==> (#[trigger] body[m]) != q,
    ensures
        scan(seq![q] + body + seq![q], 0) == Ok::<Seq<Leaf>, Seq<char>>(seq![(SyntaxKind::TEXT, body)]),
{
    let s = seq![q] + body + seq![q];
    let j = body.len() as int + 1;
    assert forall|m: int| 1 <= m < j implies (#[trigger] s[m]) != q by {
        assert(s[m] == body[m - 1]);
    }
    lemma_quote_skip(s, 1, j, q);
    assert(s.subrange(1, j) =~= body);
    assert(scan(s, j + 1) == Ok::<Seq<Leaf>, Seq<char>>(seq![]));
    assert(scan_from(s, 0, j + 1) == scan(s, j + 1));
    assert(seq![(SyntaxKind::TEXT, body)] + seq![] =~= seq![(SyntaxKind::TEXT, body)]);
    assert(scan(s, 0) == prepend((SyntaxKind::TEXT, body), scan(s, j + 1)));
}

} // verus!
