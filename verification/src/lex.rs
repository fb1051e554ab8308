//! The lexer: splitting source text into statements, and statements into
//! whitespace-separated tokens.
//!
//! Lexing never fails: empty or whitespace-only statements are legal and
//! later parse to nothing.

use vstd::prelude::*;

verus! {

broadcast use vstd::string::group_string_axioms;

/// Whether `c` separates two statements.
pub open spec fn is_sep(c: char) -> bool {
    c == ';' || c == '\n'
}

/// Whether `c` is whitespace between tokens (the ASCII whitespace
/// characters).
pub open spec fn is_space(c: char) -> bool {
    c == ' ' || c == '\t' || c == '\n' || c == '\r' || c == '\x0b' || c == '\x0c'
}

/// The statements of `s` from position `start`, scanning at position `i`:
/// the text between consecutive separators, including the possibly empty
/// text after the last one.
pub open spec fn split_from(s: Seq<char>, start: int, i: int) -> Seq<Seq<char>>
    recommends
        0 <= start <= i <= s.len(),
    decreases s.len() - i,
{
    if i >= s.len() {
        seq![s.subrange(start, s.len() as int)]
    } else if is_sep(s[i]) {
        seq![s.subrange(start, i)] + split_from(s, i + 1, i + 1)
    } else {
        split_from(s, start, i + 1)
    }
}

/// The statements of a source text: the runs between `;` and newline
/// separators.  A text with `n` separators has exactly `n + 1` statements,
/// some possibly empty.
pub open spec fn split_stmts(s: Seq<char>) -> Seq<Seq<char>> {
    split_from(s, 0, 0)
}

/// The tokens of `s` from position `i`, with `cur` the token being
/// accumulated.
pub open spec fn tok_rec(s: Seq<char>, i: int, cur: Seq<char>) -> Seq<Seq<char>>
    recommends
        0 <= i <= s.len(),
    decreases s.len() - i,
{
    if i >= s.len() {
        if cur.len() > 0 {
            seq![cur]
        } else {
            Seq::empty()
        }
    } else if is_space(s[i]) {
        if cur.len() > 0 {
            seq![cur] + tok_rec(s, i + 1, Seq::empty())
        } else {
            tok_rec(s, i + 1, Seq::empty())
        }
    } else {
        tok_rec(s, i + 1, cur.push(s[i]))
    }
}

/// The tokens of a statement: its maximal runs of non-whitespace characters.
pub open spec fn tokens_of(s: Seq<char>) -> Seq<Seq<char>> {
    tok_rec(s, 0, Seq::empty())
}

fn is_sep_char(c: char) -> (r: bool)
    ensures
        r == is_sep(c),
{
    c == ';' || c == '\n'
}

fn is_space_char(c: char) -> (r: bool)
    ensures
        r == is_space(c),
{
    c == ' ' || c == '\t' || c == '\n' || c == '\r' || c == '\x0b' || c == '\x0c'
}

/// Split a source text into statements on `;` and newlines.
pub fn lex(s: &str) -> (r: Vec<String>)
    ensures
        r.deep_view() == split_stmts(s@),
{
    let n = s.unicode_len();
    let mut r: Vec<String> = Vec::new();
    let mut start: usize = 0;
    let mut i: usize = 0;
    while i < n
        invariant
            0 <= start <= i <= n == s@.len(),
            r.deep_view() + split_from(s@, start as int, i as int) == split_stmts(s@),
        decreases n - i,
    {
        let c = s.get_char(i);
        if is_sep_char(c) {
            let stmt = s.substring_char(start, i).to_owned();
            let ghost prev = r.deep_view();
            r.push(stmt);
            proof {
                assert(r.deep_view() =~= prev.push(s@.subrange(start as int, i as int)));
                assert(r.deep_view() + split_from(s@, i as int + 1, i as int + 1) =~= prev
                    + split_from(s@, start as int, i as int));
            }
            start = i + 1;
        }
        i = i + 1;
    }
    let last = s.substring_char(start, n).to_owned();
    let ghost prev = r.deep_view();
    r.push(last);
    proof {
        assert(r.deep_view() =~= prev.push(s@.subrange(start as int, n as int)));
        assert(r.deep_view() =~= split_stmts(s@));
    }
    r
}

/// Split a statement into its whitespace-separated tokens.
pub fn tokenize(s: &str) -> (r: Vec<String>)
    ensures
        r.deep_view() == tokens_of(s@),
{
    let n = s.unicode_len();
    let mut r: Vec<String> = Vec::new();
    // start of the token being accumulated, if one is
    let mut start: Option<usize> = None;
    let mut i: usize = 0;
    while i < n
        invariant
            0 <= i <= n == s@.len(),
            match start {
                Some(st) => st < i && r.deep_view() + tok_rec(
                    s@,
                    i as int,
                    s@.subrange(st as int, i as int),
                ) == tokens_of(s@),
                None => r.deep_view() + tok_rec(s@, i as int, Seq::empty()) == tokens_of(s@),
            },
        decreases n - i,
    {
        let c = s.get_char(i);
        if is_space_char(c) {
            if let Some(st) = start {
                let tok = s.substring_char(st, i).to_owned();
                let ghost prev = r.deep_view();
                r.push(tok);
                proof {
                    assert(r.deep_view() =~= prev.push(s@.subrange(st as int, i as int)));
                    assert(r.deep_view() + tok_rec(s@, i as int + 1, Seq::empty()) =~= prev
                        + tok_rec(s@, i as int, s@.subrange(st as int, i as int)));
                }
                start = None;
            } else {
                proof {
                    assert(r.deep_view() + tok_rec(s@, i as int + 1, Seq::empty()) =~= r.deep_view()
                        + tok_rec(s@, i as int, Seq::empty()));
                }
            }
        } else {
            match start {
                Some(st) => {
                    proof {
                        assert(s@.subrange(st as int, i as int + 1) =~= s@.subrange(
                            st as int,
                            i as int,
                        ).push(s@[i as int]));
                    }
                },
                None => {
                    start = Some(i);
                    proof {
                        assert(s@.subrange(i as int, i as int + 1) =~= Seq::empty().push(
                            s@[i as int],
                        ));
                    }
                },
            }
        }
        i = i + 1;
    }
    if let Some(st) = start {
        let tok = s.substring_char(st, n).to_owned();
        let ghost prev = r.deep_view();
        r.push(tok);
        proof {
            assert(r.deep_view() =~= prev.push(s@.subrange(st as int, n as int)));
            assert(r.deep_view() =~= tokens_of(s@));
        }
    } else {
        proof {
            assert(r.deep_view() =~= tokens_of(s@));
        }
    }
    r
}

/// Whether two strings hold the same characters.
pub fn str_eq(a: &str, b: &str) -> (r: bool)
    ensures
        r == (a@ == b@),
{
    let na = a.unicode_len();
    let nb = b.unicode_len();
    if na != nb {
        return false;
    }
    let mut i: usize = 0;
    while i < na
        invariant
            0 <= i <= na == a@.len(),
            na == nb == b@.len(),
            forall|j: int| 0 <= j < i ==> a@[j] == b@[j],
        decreases na - i,
    {
        if a.get_char(i) != b.get_char(i) {
            return false;
        }
        i = i + 1;
    }
    proof {
        assert(a@ =~= b@);
    }
    true
}

} // verus!
