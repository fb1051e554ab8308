//! The parser: turning a stream of statements into an abstract syntax tree.
//!
//! Each statement is whitespace-tokenized and parsed as a prefix expression:
//! an operator consumes two following operand parses, keywords consume a
//! name and/or a nested operand parse, and a bare identifier is a call (when
//! it names a known function), a number (when it parses as one) or a
//! variable reference.
//!
//! The functions [`parse_sentence_s`], [`parse_args_s`] and
//! [`parse_block_s`] are the specification of the parser; the executable
//! parser returns exactly what they describe.  Each carries a recursion
//! budget (`fuel`) so that it is well defined on all inputs; the contracts
//! of the executable parser show that at the budgets they name the budget is
//! never exhausted.

use vstd::prelude::*;
use vstd::string::StringExecFns;
use vstd::string::StrSliceExecFns;

use crate::ast::BinaryExpr;
use crate::ast::BindExpr;
use crate::ast::FnCallExpr;
use crate::ast::FnExpr;
use crate::ast::FnExprS;
use crate::ast::IfExpr;
use crate::ast::MutateExpr;
use crate::ast::Node;
use crate::ast::NodeS;
use crate::ast::Op;
use crate::ast::PrintStdoutExpr;
use crate::ast::ReturnExpr;
use crate::ast::WhileExpr;
use crate::ast::lemma_nodes_view;
use crate::ast::lemma_nodes_view_push;
use crate::ast::nodes_view;
use crate::ast::op_of;
use crate::lex::str_eq;
use crate::lex::tokenize;
use crate::lex::tokens_of;
use crate::num::parse_bits;
use crate::tables::FnTable;

verus! {

broadcast use vstd::string::group_string_axioms;

/// A parse failure.  Parsing is fail-fast: the first malformed construct
/// ends the parse, and callers get no partial tree.
#[derive(Debug, PartialEq, Eq, Structural, Clone, Copy)]
pub enum ParseError {
    /// A sentence with no tokens was parsed where a value was required.
    EmptySentence,
    /// An operator or keyword did not find the operand it consumes.
    MissingOperand,
    /// `let`, `:=` or `fn` without a following name.
    MissingName,
    /// A call's arguments did not form a parenthesized list `(arg1 arg2 ...)`.
    InvalidArgList,
}

/// The measure that parsing consumes: the total length of the remaining
/// tokens, counting one separating space after each.
pub open spec fn toks_measure(toks: Seq<Seq<char>>) -> nat
    decreases toks.len(),
{
    if toks.len() == 0 {
        0
    } else {
        toks[0].len() + 1 + toks_measure(toks.drop_first())
    }
}

/// The tokens joined back into one text with single spaces between them.
pub open spec fn join_sp(ts: Seq<Seq<char>>) -> Seq<char>
    decreases ts.len(),
{
    if ts.len() == 0 {
        Seq::empty()
    } else if ts.len() == 1 {
        ts[0]
    } else {
        ts[0] + seq![' '] + join_sp(ts.drop_first())
    }
}

/// The text with its first and last character removed.
pub open spec fn inner_of(s: Seq<char>) -> Seq<char> {
    if s.len() <= 1 {
        Seq::empty()
    } else {
        s.subrange(1, s.len() - 1)
    }
}

/// The tokens of a text weigh no more than the text plus one.
proof fn lemma_tok_rec_measure(s: Seq<char>, i: int, cur: Seq<char>)
    requires
        0 <= i <= s.len(),
    ensures
        toks_measure(crate::lex::tok_rec(s, i, cur)) <= s.len() - i + cur.len() + 1,
    decreases s.len() - i,
{
    if i >= s.len() {
        if cur.len() > 0 {
            let r = seq![cur];
            assert(r.drop_first() =~= Seq::<Seq<char>>::empty());
            assert(toks_measure(r) == cur.len() + 1 + toks_measure(r.drop_first()));
            assert(toks_measure(Seq::<Seq<char>>::empty()) == 0);
        } else {
            assert(toks_measure(Seq::<Seq<char>>::empty()) == 0);
        }
    } else if crate::lex::is_space(s[i]) {
        lemma_tok_rec_measure(s, i + 1, Seq::empty());
        let rest = crate::lex::tok_rec(s, i + 1, Seq::empty());
        if cur.len() > 0 {
            let r = seq![cur] + rest;
            assert(r.drop_first() =~= rest);
            assert(r[0] == cur);
            assert(toks_measure(r) == cur.len() + 1 + toks_measure(rest));
        }
    } else {
        lemma_tok_rec_measure(s, i + 1, cur.push(s[i]));
        assert(crate::lex::tok_rec(s, i, cur) == crate::lex::tok_rec(s, i + 1, cur.push(s[i])));
    }
}

/// Joining tokens with spaces yields one character less than their measure.
proof fn lemma_join_measure(ts: Seq<Seq<char>>)
    ensures
        ts.len() == 0 ==> join_sp(ts).len() == 0,
        ts.len() > 0 ==> toks_measure(ts) == join_sp(ts).len() + 1,
    decreases ts.len(),
{
    if ts.len() == 1 {
        assert(ts.drop_first().len() == 0);
        assert(toks_measure(ts.drop_first()) == 0);
        assert(toks_measure(ts) == ts[0].len() + 1);
    } else if ts.len() > 1 {
        lemma_join_measure(ts.drop_first());
        assert(toks_measure(ts) == ts[0].len() + 1 + toks_measure(ts.drop_first()));
        assert(join_sp(ts).len() == ts[0].len() + 1 + join_sp(ts.drop_first()).len());
    }
}

/// The argument items of a token suffix weigh no more than the suffix.
pub proof fn lemma_args_measure(ts: Seq<Seq<char>>)
    requires
        join_sp(ts).len() > 0,
    ensures
        toks_measure(tokens_of(inner_of(join_sp(ts)))) <= toks_measure(ts),
{
    let j = join_sp(ts);
    lemma_join_measure(ts);
    lemma_tok_rec_measure(inner_of(j), 0, Seq::empty());
}

/// The lengths and leading characters of the language's keywords, enough to
/// tell any two of them apart.
pub proof fn lemma_keywords()
    ensures
        "let"@.len() == 3,
        "//"@.len() == 2,
        "return"@.len() == 6,
        ":="@.len() == 2,
        "while"@.len() == 5,
        "if"@.len() == 2,
        "fn"@.len() == 2,
        "print"@.len() == 5,
        "end"@.len() == 3,
        "else"@.len() == 4,
        "//"@[0] == '/',
        ":="@[0] == ':',
        "if"@[0] == 'i',
        "fn"@[0] == 'f',
        "let"@[0] == 'l',
        "end"@[0] == 'e',
        "while"@[0] == 'w',
        "print"@[0] == 'p',
        "return"@[0] == 'r',
        "+"@.len() == 1,
        "-"@.len() == 1,
        "*"@.len() == 1,
        "/"@.len() == 1,
        ">"@.len() == 1,
        "<"@.len() == 1,
        "%"@.len() == 1,
        "=="@.len() == 2,
        "=="@[0] == '=',
{
    reveal_strlit("+");
    reveal_strlit("-");
    reveal_strlit("*");
    reveal_strlit("/");
    reveal_strlit(">");
    reveal_strlit("<");
    reveal_strlit("%");
    reveal_strlit("==");
    reveal_strlit("let");
    reveal_strlit("//");
    reveal_strlit("return");
    reveal_strlit(":=");
    reveal_strlit("while");
    reveal_strlit("if");
    reveal_strlit("fn");
    reveal_strlit("print");
    reveal_strlit("end");
    reveal_strlit("else");
}

/// What parsing one prefix expression from the front of `toks` yields: the
/// nodes it produces (an empty sequence for a comment), the tokens left
/// over, and the function table extended with any `fn` constructs seen.
/// `None` only when the budget `fuel` runs out.
pub open spec fn parse_sentence_s(
    fuel: nat,
    toks: Seq<Seq<char>>,
    fns: Map<Seq<char>, FnExprS>,
) -> Option<Result<(Seq<NodeS>, Seq<Seq<char>>, Map<Seq<char>, FnExprS>), ParseError>>
    decreases fuel,
{
    if toks.len() == 0 {
        Some(Err(ParseError::EmptySentence))
    } else if fuel == 0 {
        None
    } else {
        let t = toks[0];
        let rest = toks.drop_first();
        if op_of(t) is Some {
            let op = op_of(t)->Some_0;
            match parse_sentence_s((fuel - 1) as nat, rest, fns) {
                None => None,
                Some(Err(ParseError::EmptySentence)) => Some(Err(ParseError::MissingOperand)),
                Some(Err(e)) => Some(Err(e)),
                Some(Ok((lhs, rest1, fns1))) => match parse_sentence_s(
                    (fuel - 1) as nat,
                    rest1,
                    fns1,
                ) {
                    None => None,
                    Some(Err(ParseError::EmptySentence)) => Some(
                        Err(ParseError::MissingOperand),
                    ),
                    Some(Err(e)) => Some(Err(e)),
                    Some(Ok((rhs, rest2, fns2))) => Some(
                        Ok((seq![NodeS::Binary { op, lhs, rhs }], rest2, fns2)),
                    ),
                },
            }
        } else if t == "let"@ {
            if rest.len() == 0 {
                Some(Err(ParseError::MissingName))
            } else {
                match parse_sentence_s((fuel - 1) as nat, rest.drop_first(), fns) {
                    None => None,
                    Some(Err(ParseError::EmptySentence)) => Some(
                        Err(ParseError::MissingOperand),
                    ),
                    Some(Err(e)) => Some(Err(e)),
                    Some(Ok((value, rest1, fns1))) => Some(
                        Ok((seq![NodeS::Bind { name: rest[0], value }], rest1, fns1)),
                    ),
                }
            }
        } else if t == "//"@ {
            Some(Ok((Seq::empty(), rest, fns)))
        } else if t == "return"@ {
            match parse_sentence_s((fuel - 1) as nat, rest, fns) {
                None => None,
                Some(Err(ParseError::EmptySentence)) => Some(Err(ParseError::MissingOperand)),
                Some(Err(e)) => Some(Err(e)),
                Some(Ok((value, rest1, fns1))) => Some(
                    Ok((seq![NodeS::Return { value }], rest1, fns1)),
                ),
            }
        } else if t == ":="@ {
            if rest.len() == 0 {
                Some(Err(ParseError::MissingName))
            } else {
                match parse_sentence_s((fuel - 1) as nat, rest.drop_first(), fns) {
                    None => None,
                    Some(Err(ParseError::EmptySentence)) => Some(
                        Err(ParseError::MissingOperand),
                    ),
                    Some(Err(e)) => Some(Err(e)),
                    Some(Ok((value, rest1, fns1))) => Some(
                        Ok((seq![NodeS::Mutate { name: rest[0], value }], rest1, fns1)),
                    ),
                }
            }
        } else if t == "while"@ {
            match parse_sentence_s((fuel - 1) as nat, rest, fns) {
                None => None,
                Some(Err(ParseError::EmptySentence)) => Some(Err(ParseError::MissingOperand)),
                Some(Err(e)) => Some(Err(e)),
                Some(Ok((condition, rest1, fns1))) => Some(
                    Ok((seq![NodeS::While { condition, body: Seq::empty() }], rest1, fns1)),
                ),
            }
        } else if t == "if"@ {
            match parse_sentence_s((fuel - 1) as nat, rest, fns) {
                None => None,
                Some(Err(ParseError::EmptySentence)) => Some(Err(ParseError::MissingOperand)),
                Some(Err(e)) => Some(Err(e)),
                Some(Ok((condition, rest1, fns1))) => Some(
                    Ok(
                        (
                            seq![NodeS::If {
                                condition,
                                body: Seq::empty(),
                                else_body: Seq::empty(),
                            }],
                            rest1,
                            fns1,
                        ),
                    ),
                ),
            }
        } else if t == "fn"@ {
            if rest.len() == 0 {
                Some(Err(ParseError::MissingName))
            } else {
                match parse_args_s((fuel - 1) as nat, rest.drop_first(), fns) {
                    None => None,
                    Some(Err(e)) => Some(Err(e)),
                    Some(Ok((args, fns1))) => {
                        let f = FnExprS { name: rest[0], args, body: Seq::empty() };
                        Some(Ok((seq![NodeS::Fn(f)], Seq::empty(), fns1.insert(rest[0], f))))
                    },
                }
            }
        } else if t == "print"@ {
            match parse_sentence_s((fuel - 1) as nat, rest, fns) {
                None => None,
                Some(Err(ParseError::EmptySentence)) => Some(Err(ParseError::MissingOperand)),
                Some(Err(e)) => Some(Err(e)),
                Some(Ok((value, rest1, fns1))) => Some(
                    Ok((seq![NodeS::Print { value }], rest1, fns1)),
                ),
            }
        } else if fns.contains_key(t) {
            match parse_args_s((fuel - 1) as nat, rest, fns) {
                None => None,
                Some(Err(e)) => Some(Err(e)),
                Some(Ok((args, fns1))) => Some(
                    Ok((seq![NodeS::Call { name: t, args }], Seq::empty(), fns1)),
                ),
            }
        } else {
            match parse_bits(t) {
                Some(bits) => Some(Ok((seq![NodeS::Number(bits)], rest, fns))),
                None => Some(Ok((seq![NodeS::Variable(t)], rest, fns))),
            }
        }
    }
}

/// What parsing a call's argument list yields.  The remaining tokens are
/// joined back into one text, which must begin with `(` or end with `)`;
/// its first and last characters are dropped, and each whitespace-separated
/// item of what is left is parsed as its own prefix expression.
pub open spec fn parse_args_s(fuel: nat, ts: Seq<Seq<char>>, fns: Map<Seq<char>, FnExprS>) -> Option<
    Result<(Seq<NodeS>, Map<Seq<char>, FnExprS>), ParseError>,
>
    decreases fuel,
{
    if fuel == 0 {
        None
    } else {
        let j = join_sp(ts);
        let starts = j.len() > 0 && j[0] == '(';
        let ends = j.len() > 0 && j[j.len() - 1] == ')';
        if !starts && !ends {
            Some(Err(ParseError::InvalidArgList))
        } else {
            parse_args_items_s((fuel - 1) as nat, tokens_of(inner_of(j)), fns)
        }
    }
}

/// What parsing the argument items yields: each item parsed independently,
/// in order, threading the function table through.  An item that parses to
/// nothing contributes nothing.
pub open spec fn parse_args_items_s(
    fuel: nat,
    items: Seq<Seq<char>>,
    fns: Map<Seq<char>, FnExprS>,
) -> Option<Result<(Seq<NodeS>, Map<Seq<char>, FnExprS>), ParseError>>
    decreases fuel,
{
    if items.len() == 0 {
        Some(Ok((Seq::empty(), fns)))
    } else if fuel == 0 {
        None
    } else {
        match parse_sentence_s((fuel - 1) as nat, seq![items[0]], fns) {
            None => None,
            Some(Err(ParseError::EmptySentence)) => parse_args_items_s(
                (fuel - 1) as nat,
                items.drop_first(),
                fns,
            ),
            Some(Err(e)) => Some(Err(e)),
            Some(Ok((ns, _rem, fns1))) => match parse_args_items_s(
                (fuel - 1) as nat,
                items.drop_first(),
                fns1,
            ) {
                None => None,
                Some(Err(e)) => Some(Err(e)),
                Some(Ok((ns2, fns2))) => Some(Ok((ns + ns2, fns2))),
            },
        }
    }
}

/// At every sufficient budget, parsing a sentence from `toks` with table
/// `fns0` yields the nodes `nv`, the leftover tokens `rem` and the table
/// `fns1`.
pub open spec fn sentence_ok(
    toks: Seq<Seq<char>>,
    fns0: Map<Seq<char>, FnExprS>,
    nv: Seq<NodeS>,
    rem: Seq<Seq<char>>,
    fns1: Map<Seq<char>, FnExprS>,
) -> bool {
    forall|fuel: nat|
        fuel >= 3 * toks_measure(toks) + 10 ==> parse_sentence_s(fuel, toks, fns0) == Some(
            Ok::<_, ParseError>((nv, rem, fns1)),
        )
}

/// At every sufficient budget, parsing a sentence from `toks` fails with `e`.
pub open spec fn sentence_err(
    toks: Seq<Seq<char>>,
    fns0: Map<Seq<char>, FnExprS>,
    e: ParseError,
) -> bool {
    forall|fuel: nat|
        fuel >= 3 * toks_measure(toks) + 10 ==> parse_sentence_s(fuel, toks, fns0) == Some(
            Err::<(Seq<NodeS>, Seq<Seq<char>>, Map<Seq<char>, FnExprS>), ParseError>(e),
        )
}

/// At every sufficient budget, parsing an argument list from `ts` yields the
/// nodes `nv` and the table `fns1`.
pub open spec fn args_ok(
    ts: Seq<Seq<char>>,
    fns0: Map<Seq<char>, FnExprS>,
    nv: Seq<NodeS>,
    fns1: Map<Seq<char>, FnExprS>,
) -> bool {
    forall|fuel: nat|
        fuel >= 3 * toks_measure(ts) + 12 ==> parse_args_s(fuel, ts, fns0) == Some(
            Ok::<_, ParseError>((nv, fns1)),
        )
}

/// At every sufficient budget, parsing an argument list from `ts` fails with `e`.
pub open spec fn args_err(ts: Seq<Seq<char>>, fns0: Map<Seq<char>, FnExprS>, e: ParseError) -> bool {
    forall|fuel: nat|
        fuel >= 3 * toks_measure(ts) + 12 ==> parse_args_s(fuel, ts, fns0) == Some(
            Err::<(Seq<NodeS>, Map<Seq<char>, FnExprS>), ParseError>(e),
        )
}

/// At every sufficient budget, parsing the argument items `items` yields the
/// nodes `nv` and the table `fns1`.
pub open spec fn items_ok(
    items: Seq<Seq<char>>,
    fns0: Map<Seq<char>, FnExprS>,
    nv: Seq<NodeS>,
    fns1: Map<Seq<char>, FnExprS>,
) -> bool {
    forall|fuel: nat|
        fuel >= 3 * toks_measure(items) + 11 ==> parse_args_items_s(fuel, items, fns0) == Some(
            Ok::<_, ParseError>((nv, fns1)),
        )
}

/// At every sufficient budget, parsing the argument items `items` fails with `e`.
pub open spec fn items_err(
    items: Seq<Seq<char>>,
    fns0: Map<Seq<char>, FnExprS>,
    e: ParseError,
) -> bool {
    forall|fuel: nat|
        fuel >= 3 * toks_measure(items) + 11 ==> parse_args_items_s(fuel, items, fns0) == Some(
            Err::<(Seq<NodeS>, Map<Seq<char>, FnExprS>), ParseError>(e),
        )
}

/// Joining one more token appends a space and the token.
proof fn lemma_join_snoc(ts: Seq<Seq<char>>, t: Seq<char>)
    requires
        ts.len() >= 1,
    ensures
        join_sp(ts.push(t)) == join_sp(ts) + seq![' '] + t,
    decreases ts.len(),
{
    if ts.len() == 1 {
        assert(ts.push(t).drop_first() =~= seq![t]);
        assert(join_sp(seq![t]) == t);
        assert(join_sp(ts.push(t)) =~= join_sp(ts) + seq![' '] + t);
    } else {
        lemma_join_snoc(ts.drop_first(), t);
        assert(ts.push(t).drop_first() =~= ts.drop_first().push(t));
        assert(join_sp(ts.push(t)) =~= join_sp(ts) + seq![' '] + t);
    }
}

/// Join the tokens from position `from` on into one text with single spaces
/// between them.
fn join_tokens(toks: &Vec<String>, from: usize) -> (r: String)
    requires
        from <= toks@.len(),
    ensures
        r@ == join_sp(toks.deep_view().skip(from as int)),
{
    let ghost d = toks.deep_view();
    let n = toks.len();
    if from >= n {
        proof {
            assert(d.skip(from as int) =~= Seq::<Seq<char>>::empty());
        }
        return String::new();
    }
    let mut r = toks[from].clone();
    proof {
        reveal_strlit(" ");
        assert(d.subrange(from as int, from as int + 1) =~= seq![d[from as int]]);
        assert(join_sp(seq![d[from as int]]) == d[from as int]);
    }
    let mut k: usize = from + 1;
    while k < n
        invariant
            from < k <= n == toks@.len(),
            d == toks.deep_view(),
            r@ == join_sp(d.subrange(from as int, k as int)),
        decreases n - k,
    {
        r.append(" ");
        r.append(toks[k].as_str());
        proof {
            reveal_strlit(" ");
            lemma_join_snoc(d.subrange(from as int, k as int), d[k as int]);
            assert(d.subrange(from as int, k as int + 1) =~= d.subrange(
                from as int,
                k as int,
            ).push(d[k as int]));
            assert(" "@ =~= seq![' ']);
            assert(r@ =~= join_sp(d.subrange(from as int, k as int + 1)));
        }
        k = k + 1;
    }
    proof {
        assert(d.subrange(from as int, n as int) =~= d.skip(from as int));
    }
    r
}

/// A vector holding the one node `n`.
fn single_node(n: Node) -> (r: Vec<Node>)
    ensures
        nodes_view(r@) == seq![crate::ast::node_view(n)],
{
    let mut v: Vec<Node> = Vec::new();
    v.push(n);
    proof {
        lemma_nodes_view(v@);
        assert(nodes_view(v@) =~= seq![crate::ast::node_view(n)]);
    }
    v
}

/// Parse one prefix expression from the tokens starting at position `i`,
/// returning the nodes produced and the position of the first token left
/// over.  Returns exactly what [`parse_sentence_s`] describes.
#[verifier::rlimit(100)]
fn parse_sentence(toks: &Vec<String>, i: usize, fns: &mut FnTable) -> (r: Result<
    (Vec<Node>, usize),
    ParseError,
>)
    requires
        i <= toks@.len(),
    ensures
        match r {
            Ok((nodes, j)) => {
                &&& i < j <= toks@.len()
                &&& toks_measure(toks.deep_view().skip(j as int)) < toks_measure(
                    toks.deep_view().skip(i as int),
                )
                &&& sentence_ok(
                    toks.deep_view().skip(i as int),
                    old(fns)@,
                    nodes_view(nodes@),
                    toks.deep_view().skip(j as int),
                    final(fns)@,
                )
            },
            Err(e) => sentence_err(toks.deep_view().skip(i as int), old(fns)@, e) && (e
                == ParseError::EmptySentence ==> final(fns)@ == old(fns)@),
        },
    decreases toks_measure(toks.deep_view().skip(i as int)), 0int,
{
    let ghost d = toks.deep_view();
    let ghost suffix = d.skip(i as int);
    let ghost fns0 = fns@;
    let n = toks.len();
    if i >= n {
        proof {
            assert(suffix.len() == 0);
        }
        return Err(ParseError::EmptySentence);
    }
    let t = &toks[i];
    proof {
        lemma_keywords();
        assert(suffix[0] == d[i as int]);
        assert(d[i as int] == toks@[i as int]@);
        assert(suffix.drop_first() =~= d.skip(i as int + 1));
        assert(toks_measure(suffix) == suffix[0].len() + 1 + toks_measure(d.skip(i as int + 1)));
    }
    let ghost m = toks_measure(suffix);
    if let Some(op) = op_token(t.as_str()) {
        let lhs_r = parse_sentence(toks, i + 1, fns);
        match lhs_r {
            Err(e0) => {
                let e = if matches!(e0, ParseError::EmptySentence) {
                    ParseError::MissingOperand
                } else {
                    e0
                };
                proof {
                    assert forall|fuel: nat| fuel >= 3 * m + 10 implies parse_sentence_s(
                        fuel,
                        suffix,
                        fns0,
                    ) == Some(
                        Err::<(Seq<NodeS>, Seq<Seq<char>>, Map<Seq<char>, FnExprS>), ParseError>(e),
                    ) by {
                        lemma_keywords();
                        assert(parse_sentence_s((fuel - 1) as nat, d.skip(i as int + 1), fns0)
                            == Some(
                            Err::<(Seq<NodeS>, Seq<Seq<char>>, Map<Seq<char>, FnExprS>), ParseError>(
                                e0,
                            ),
                        ));
                    }
                }
                return Err(e);
            },
            Ok((lhs_nodes, j1)) => {
                let ghost fns1 = fns@;
                let rhs_r = parse_sentence(toks, j1, fns);
                match rhs_r {
                    Err(e0) => {
                        let e = if matches!(e0, ParseError::EmptySentence) {
                            ParseError::MissingOperand
                        } else {
                            e0
                        };
                        proof {
                            assert forall|fuel: nat| fuel >= 3 * m + 10 implies parse_sentence_s(
                                fuel,
                                suffix,
                                fns0,
                            ) == Some(
                                Err::<
                                    (Seq<NodeS>, Seq<Seq<char>>, Map<Seq<char>, FnExprS>),
                                    ParseError,
                                >(e),
                            ) by {
                        lemma_keywords();
                                assert(parse_sentence_s(
                                    (fuel - 1) as nat,
                                    d.skip(i as int + 1),
                                    fns0,
                                ) == Some(
                                    Ok::<_, ParseError>(
                                        (
                                            nodes_view(lhs_nodes@),
                                            d.skip(j1 as int),
                                            fns1,
                                        ),
                                    ),
                                ));
                                assert(parse_sentence_s((fuel - 1) as nat, d.skip(j1 as int), fns1)
                                    == Some(
                                    Err::<
                                        (Seq<NodeS>, Seq<Seq<char>>, Map<Seq<char>, FnExprS>),
                                        ParseError,
                                    >(e0),
                                ));
                            }
                        }
                        return Err(e);
                    },
                    Ok((rhs_nodes, j2)) => {
                        let ghost fns2 = fns@;
                        let ghost lhs_v = nodes_view(lhs_nodes@);
                        let ghost rhs_v = nodes_view(rhs_nodes@);
                        let node = Node::BinaryExpr(
                            BinaryExpr { op, lhs: lhs_nodes, rhs: rhs_nodes },
                        );
                        let out = single_node(node);
                        proof {
                            assert forall|fuel: nat| fuel >= 3 * m + 10 implies parse_sentence_s(
                                fuel,
                                suffix,
                                fns0,
                            ) == Some(
                                Ok::<_, ParseError>((nodes_view(out@), d.skip(j2 as int), fns2)),
                            ) by {
                        lemma_keywords();
                                assert(parse_sentence_s(
                                    (fuel - 1) as nat,
                                    d.skip(i as int + 1),
                                    fns0,
                                ) == Some(Ok::<_, ParseError>((lhs_v, d.skip(j1 as int), fns1))));
                                assert(parse_sentence_s((fuel - 1) as nat, d.skip(j1 as int), fns1)
                                    == Some(Ok::<_, ParseError>((rhs_v, d.skip(j2 as int), fns2))));
                            }
                        }
                        return Ok((out, j2));
                    },
                }
            },
        }
    } else if str_eq(t.as_str(), "let") || str_eq(t.as_str(), ":=") {
        let is_let = str_eq(t.as_str(), "let");
        if i + 1 >= n {
            proof {
                assert(suffix.drop_first().len() == 0);
                assert forall|fuel: nat| fuel >= 3 * m + 10 implies parse_sentence_s(
                    fuel,
                    suffix,
                    fns0,
                ) == Some(
                    Err::<(Seq<NodeS>, Seq<Seq<char>>, Map<Seq<char>, FnExprS>), ParseError>(
                        ParseError::MissingName,
                    ),
                ) by {
                        lemma_keywords();
                }
            }
            return Err(ParseError::MissingName);
        }
        let name = toks[i + 1].clone();
        proof {
            assert(suffix.drop_first()[0] == d[i as int + 1]);
            assert(d[i as int + 1] == toks@[i as int + 1]@);
            assert(d.skip(i as int + 1).drop_first() =~= d.skip(i as int + 2));
            assert(toks_measure(d.skip(i as int + 1)) == d[i as int + 1].len() + 1 + toks_measure(
                d.skip(i as int + 2),
            ));
        }
        let val_r = parse_sentence(toks, i + 2, fns);
        match val_r {
            Err(e0) => {
                let e = if matches!(e0, ParseError::EmptySentence) {
                    ParseError::MissingOperand
                } else {
                    e0
                };
                proof {
                    assert forall|fuel: nat| fuel >= 3 * m + 10 implies parse_sentence_s(
                        fuel,
                        suffix,
                        fns0,
                    ) == Some(
                        Err::<(Seq<NodeS>, Seq<Seq<char>>, Map<Seq<char>, FnExprS>), ParseError>(e),
                    ) by {
                        lemma_keywords();
                        assert(parse_sentence_s((fuel - 1) as nat, d.skip(i as int + 2), fns0)
                            == Some(
                            Err::<(Seq<NodeS>, Seq<Seq<char>>, Map<Seq<char>, FnExprS>), ParseError>(
                                e0,
                            ),
                        ));
                    }
                }
                return Err(e);
            },
            Ok((value, j)) => {
                let ghost fns2 = fns@;
                let ghost value_v = nodes_view(value@);
                let ghost name_v = name@;
                let node = if is_let {
                    Node::BindExpr(BindExpr { name, value })
                } else {
                    Node::MutateExpr(MutateExpr { name, value })
                };
                proof {
                    if is_let {
                        assert(crate::ast::node_view(node) == NodeS::Bind {
                            name: name_v,
                            value: value_v,
                        });
                    } else {
                        assert(crate::ast::node_view(node) == NodeS::Mutate {
                            name: name_v,
                            value: value_v,
                        });
                    }
                }
                let out = single_node(node);
                proof {
                    assert forall|fuel: nat| fuel >= 3 * m + 10 implies parse_sentence_s(
                        fuel,
                        suffix,
                        fns0,
                    ) == Some(Ok::<_, ParseError>((nodes_view(out@), d.skip(j as int), fns2))) by {
                        lemma_keywords();
                        assert(parse_sentence_s((fuel - 1) as nat, d.skip(i as int + 2), fns0)
                            == Some(Ok::<_, ParseError>((value_v, d.skip(j as int), fns2))));
                        assert(name_v == suffix.drop_first()[0]);
                    }
                }
                return Ok((out, j));
            },
        }
    } else if str_eq(t.as_str(), "//") {
        let out: Vec<Node> = Vec::new();
        proof {
            assert(nodes_view(out@) =~= Seq::<NodeS>::empty());
        }
        return Ok((out, i + 1));
    } else if str_eq(t.as_str(), "return") || str_eq(t.as_str(), "while") || str_eq(
        t.as_str(),
        "if",
    ) || str_eq(t.as_str(), "print") {
        let val_r = parse_sentence(toks, i + 1, fns);
        match val_r {
            Err(e0) => {
                let e = if matches!(e0, ParseError::EmptySentence) {
                    ParseError::MissingOperand
                } else {
                    e0
                };
                proof {
                    assert forall|fuel: nat| fuel >= 3 * m + 10 implies parse_sentence_s(
                        fuel,
                        suffix,
                        fns0,
                    ) == Some(
                        Err::<(Seq<NodeS>, Seq<Seq<char>>, Map<Seq<char>, FnExprS>), ParseError>(e),
                    ) by {
                        lemma_keywords();
                        assert(parse_sentence_s((fuel - 1) as nat, d.skip(i as int + 1), fns0)
                            == Some(
                            Err::<(Seq<NodeS>, Seq<Seq<char>>, Map<Seq<char>, FnExprS>), ParseError>(
                                e0,
                            ),
                        ));
                    }
                }
                return Err(e);
            },
            Ok((value, j)) => {
                let ghost fns2 = fns@;
                let ghost value_v = nodes_view(value@);
                let node = if str_eq(t.as_str(), "return") {
                    Node::ReturnExpr(ReturnExpr { value })
                } else if str_eq(t.as_str(), "while") {
                    Node::WhileExpr(WhileExpr { condition: value, body: Vec::new() })
                } else if str_eq(t.as_str(), "if") {
                    Node::IfExpr(
                        IfExpr { condition: value, body: Vec::new(), else_body: Vec::new() },
                    )
                } else {
                    Node::PrintStdoutExpr(PrintStdoutExpr { value })
                };
                proof {
                    assert(nodes_view(Seq::<Node>::empty()) =~= Seq::<NodeS>::empty());
                    if suffix[0] == "return"@ {
                        assert(crate::ast::node_view(node) == NodeS::Return { value: value_v });
                    } else if suffix[0] == "while"@ {
                        assert(crate::ast::node_view(node) == NodeS::While {
                            condition: value_v,
                            body: Seq::empty(),
                        });
                    } else if suffix[0] == "if"@ {
                        assert(crate::ast::node_view(node) == NodeS::If {
                            condition: value_v,
                            body: Seq::empty(),
                            else_body: Seq::empty(),
                        });
                    } else {
                        assert(crate::ast::node_view(node) == NodeS::Print { value: value_v });
                    }
                }
                let out = single_node(node);
                proof {
                    assert forall|fuel: nat| fuel >= 3 * m + 10 implies parse_sentence_s(
                        fuel,
                        suffix,
                        fns0,
                    ) == Some(Ok::<_, ParseError>((nodes_view(out@), d.skip(j as int), fns2))) by {
                        lemma_keywords();
                        assert(parse_sentence_s((fuel - 1) as nat, d.skip(i as int + 1), fns0)
                            == Some(Ok::<_, ParseError>((value_v, d.skip(j as int), fns2))));
                    }
                }
                return Ok((out, j));
            },
        }
    } else if str_eq(t.as_str(), "fn") {
        if i + 1 >= n {
            proof {
                assert(suffix.drop_first().len() == 0);
                assert forall|fuel: nat| fuel >= 3 * m + 10 implies parse_sentence_s(
                    fuel,
                    suffix,
                    fns0,
                ) == Some(
                    Err::<(Seq<NodeS>, Seq<Seq<char>>, Map<Seq<char>, FnExprS>), ParseError>(
                        ParseError::MissingName,
                    ),
                ) by {
                        lemma_keywords();
                }
            }
            return Err(ParseError::MissingName);
        }
        let name = toks[i + 1].clone();
        proof {
            assert(suffix.drop_first()[0] == d[i as int + 1]);
            assert(d[i as int + 1] == toks@[i as int + 1]@);
            assert(d.skip(i as int + 1).drop_first() =~= d.skip(i as int + 2));
            assert(toks_measure(d.skip(i as int + 1)) == d[i as int + 1].len() + 1 + toks_measure(
                d.skip(i as int + 2),
            ));
        }
        let args_r = parse_args(toks, i + 2, fns);
        match args_r {
            Err(e) => {
                proof {
                    assert forall|fuel: nat| fuel >= 3 * m + 10 implies parse_sentence_s(
                        fuel,
                        suffix,
                        fns0,
                    ) == Some(
                        Err::<(Seq<NodeS>, Seq<Seq<char>>, Map<Seq<char>, FnExprS>), ParseError>(e),
                    ) by {
                        lemma_keywords();
                        assert(parse_args_s((fuel - 1) as nat, d.skip(i as int + 2), fns0) == Some(
                            Err::<(Seq<NodeS>, Map<Seq<char>, FnExprS>), ParseError>(e),
                        ));
                    }
                }
                return Err(e);
            },
            Ok(args) => {
                let ghost fns1 = fns@;
                let ghost args_v = nodes_view(args@);
                let name2 = name.clone();
                let f = FnExpr { name, args, body: Vec::new() };
                let f2 = crate::ast::clone_fn_expr(&f);
                fns.insert(name2, f2);
                let ghost fns2 = fns@;
                let node = Node::FnExpr(f);
                let out = single_node(node);
                proof {
                    assert(nodes_view(Seq::<Node>::empty()) =~= Seq::<NodeS>::empty());
                    assert(d.skip(toks@.len() as int) =~= Seq::<Seq<char>>::empty());
                    assert forall|fuel: nat| fuel >= 3 * m + 10 implies parse_sentence_s(
                        fuel,
                        suffix,
                        fns0,
                    ) == Some(
                        Ok::<_, ParseError>((nodes_view(out@), Seq::<Seq<char>>::empty(), fns2)),
                    ) by {
                        lemma_keywords();
                        assert(parse_args_s((fuel - 1) as nat, d.skip(i as int + 2), fns0) == Some(
                            Ok::<_, ParseError>((args_v, fns1)),
                        ));
                    }
                }
                return Ok((out, n));
            },
        }
    } else if fns.contains_key(t.as_str()) {
        let name = toks[i].clone();
        let args_r = parse_args(toks, i + 1, fns);
        match args_r {
            Err(e) => {
                proof {
                    assert forall|fuel: nat| fuel >= 3 * m + 10 implies parse_sentence_s(
                        fuel,
                        suffix,
                        fns0,
                    ) == Some(
                        Err::<(Seq<NodeS>, Seq<Seq<char>>, Map<Seq<char>, FnExprS>), ParseError>(e),
                    ) by {
                        lemma_keywords();
                        assert(parse_args_s((fuel - 1) as nat, d.skip(i as int + 1), fns0) == Some(
                            Err::<(Seq<NodeS>, Map<Seq<char>, FnExprS>), ParseError>(e),
                        ));
                    }
                }
                return Err(e);
            },
            Ok(args) => {
                let ghost fns1 = fns@;
                let ghost args_v = nodes_view(args@);
                let node = Node::FnCallExpr(FnCallExpr { name, args });
                let out = single_node(node);
                proof {
                    assert(d.skip(toks@.len() as int) =~= Seq::<Seq<char>>::empty());
                    assert forall|fuel: nat| fuel >= 3 * m + 10 implies parse_sentence_s(
                        fuel,
                        suffix,
                        fns0,
                    ) == Some(
                        Ok::<_, ParseError>((nodes_view(out@), Seq::<Seq<char>>::empty(), fns1)),
                    ) by {
                        lemma_keywords();
                        assert(parse_args_s((fuel - 1) as nat, d.skip(i as int + 1), fns0) == Some(
                            Ok::<_, ParseError>((args_v, fns1)),
                        ));
                    }
                }
                return Ok((out, n));
            },
        }
    } else {
        match crate::num::f64_parse(t.as_str()) {
            Some(bits) => {
                let out = single_node(Node::Number(crate::num::Number(bits)));
                return Ok((out, i + 1));
            },
            None => {
                let name = toks[i].clone();
                let out = single_node(Node::Variable(name));
                return Ok((out, i + 1));
            },
        }
    }
}

/// Parse a call's argument list: the tokens from position `i` on, re-joined
/// and checked for the parenthesized form, each item parsed independently.
/// Returns exactly what [`parse_args_s`] describes.
fn parse_args(toks: &Vec<String>, i: usize, fns: &mut FnTable) -> (r: Result<Vec<Node>, ParseError>)
    requires
        i <= toks@.len(),
    ensures
        match r {
            Ok(nodes) => args_ok(
                toks.deep_view().skip(i as int),
                old(fns)@,
                nodes_view(nodes@),
                final(fns)@,
            ),
            Err(e) => args_err(toks.deep_view().skip(i as int), old(fns)@, e) && e
                != ParseError::EmptySentence,
        },
    decreases toks_measure(toks.deep_view().skip(i as int)), 2int,
{
    let ghost ts = toks.deep_view().skip(i as int);
    let ghost fns0 = fns@;
    let joined = join_tokens(toks, i);
    let ghost j = join_sp(ts);
    let jn = joined.as_str().unicode_len();
    let starts = jn > 0 && joined.as_str().get_char(0) == '(';
    let ends = jn > 0 && joined.as_str().get_char(jn - 1) == ')';
    if !starts && !ends {
        return Err(ParseError::InvalidArgList);
    }
    let inner_str = if jn <= 1 {
        String::new()
    } else {
        joined.as_str().substring_char(1, jn - 1).to_owned()
    };
    proof {
        assert(inner_str@ == inner_of(j));
    }
    let items = tokenize(inner_str.as_str());
    proof {
        lemma_args_measure(ts);
        assert(items.deep_view().skip(0) =~= items.deep_view());
    }
    let r = parse_args_items(&items, 0, fns);
    let ghost fns1 = fns@;
    match r {
        Ok(nodes) => {
            proof {
                let ghost nv = nodes_view(nodes@);
                assert forall|fuel: nat| fuel >= 3 * toks_measure(ts) + 12 implies parse_args_s(
                    fuel,
                    ts,
                    fns0,
                ) == Some(Ok::<_, ParseError>((nv, fns1))) by {
                    assert(parse_args_items_s((fuel - 1) as nat, tokens_of(inner_of(j)), fns0)
                        == Some(Ok::<_, ParseError>((nv, fns1))));
                }
            }
            Ok(nodes)
        },
        Err(e) => {
            proof {
                assert forall|fuel: nat| fuel >= 3 * toks_measure(ts) + 12 implies parse_args_s(
                    fuel,
                    ts,
                    fns0,
                ) == Some(Err::<(Seq<NodeS>, Map<Seq<char>, FnExprS>), ParseError>(e)) by {
                    assert(parse_args_items_s((fuel - 1) as nat, tokens_of(inner_of(j)), fns0)
                        == Some(Err::<(Seq<NodeS>, Map<Seq<char>, FnExprS>), ParseError>(e)));
                }
            }
            Err(e)
        },
    }
}

/// Parse the argument items from position `k` on, each as its own prefix
/// expression.  Returns exactly what [`parse_args_items_s`] describes.
fn parse_args_items(items: &Vec<String>, k: usize, fns: &mut FnTable) -> (r: Result<
    Vec<Node>,
    ParseError,
>)
    requires
        k <= items@.len(),
    ensures
        match r {
            Ok(nodes) => items_ok(
                items.deep_view().skip(k as int),
                old(fns)@,
                nodes_view(nodes@),
                final(fns)@,
            ),
            Err(e) => items_err(items.deep_view().skip(k as int), old(fns)@, e) && e
                != ParseError::EmptySentence,
        },
    decreases toks_measure(items.deep_view().skip(k as int)), 1int,
{
    let ghost d = items.deep_view();
    let ghost rem = d.skip(k as int);
    let ghost fns0 = fns@;
    let n = items.len();
    if k >= n {
        let out: Vec<Node> = Vec::new();
        proof {
            assert(rem.len() == 0);
            assert(nodes_view(out@) =~= Seq::<NodeS>::empty());
        }
        return Ok(out);
    }
    proof {
        assert(rem[0] == d[k as int]);
        assert(rem.drop_first() =~= d.skip(k as int + 1));
        assert(toks_measure(rem) == rem[0].len() + 1 + toks_measure(d.skip(k as int + 1)));
    }
    let mut sv: Vec<String> = Vec::new();
    sv.push(items[k].clone());
    proof {
        assert(sv.deep_view() =~= seq![d[k as int]]);
        assert(sv.deep_view().skip(0) =~= sv.deep_view());
        assert(toks_measure(seq![d[k as int]]) == d[k as int].len() + 1 + toks_measure(
            seq![d[k as int]].drop_first(),
        ));
        assert(seq![d[k as int]].drop_first() =~= Seq::<Seq<char>>::empty());
    }
    let r1 = parse_sentence(&sv, 0, fns);
    let ghost fns1 = fns@;
    match r1 {
        Err(ParseError::EmptySentence) => {
            proof {
                assert(fns1 == fns0);
            }
            let r2 = parse_args_items(items, k + 1, fns);
            let ghost fns2 = fns@;
            proof {
                match r2 {
                    Ok(ref nodes) => {
                        let nv = nodes_view(nodes@);
                        assert forall|fuel: nat| fuel >= 3 * toks_measure(rem) + 11 implies
                            parse_args_items_s(fuel, rem, fns0) == Some(Ok::<_, ParseError>((nv, fns2))) by {
                            assert(parse_sentence_s((fuel - 1) as nat, seq![d[k as int]], fns0)
                                == Some(
                                Err::<
                                    (Seq<NodeS>, Seq<Seq<char>>, Map<Seq<char>, FnExprS>),
                                    ParseError,
                                >(ParseError::EmptySentence),
                            ));
                            assert(parse_args_items_s(
                                (fuel - 1) as nat,
                                d.skip(k as int + 1),
                                fns0,
                            ) == Some(Ok::<_, ParseError>((nv, fns2))));
                        }
                    },
                    Err(e) => {
                        assert forall|fuel: nat| fuel >= 3 * toks_measure(rem) + 11 implies
                            parse_args_items_s(fuel, rem, fns0) == Some(
                            Err::<(Seq<NodeS>, Map<Seq<char>, FnExprS>), ParseError>(e),
                        ) by {
                            assert(parse_sentence_s((fuel - 1) as nat, seq![d[k as int]], fns0)
                                == Some(
                                Err::<
                                    (Seq<NodeS>, Seq<Seq<char>>, Map<Seq<char>, FnExprS>),
                                    ParseError,
                                >(ParseError::EmptySentence),
                            ));
                            assert(parse_args_items_s(
                                (fuel - 1) as nat,
                                d.skip(k as int + 1),
                                fns0,
                            ) == Some(Err::<(Seq<NodeS>, Map<Seq<char>, FnExprS>), ParseError>(e)));
                        }
                    },
                }
            }
            r2
        },
        Err(e) => {
            proof {
                assert forall|fuel: nat| fuel >= 3 * toks_measure(rem) + 11 implies
                    parse_args_items_s(fuel, rem, fns0) == Some(
                    Err::<(Seq<NodeS>, Map<Seq<char>, FnExprS>), ParseError>(e),
                ) by {
                    assert(parse_sentence_s((fuel - 1) as nat, seq![d[k as int]], fns0) == Some(
                        Err::<(Seq<NodeS>, Seq<Seq<char>>, Map<Seq<char>, FnExprS>), ParseError>(e),
                    ));
                }
            }
            Err(e)
        },
        Ok((ns, _j)) => {
            let ghost ns_v = nodes_view(ns@);
            let r2 = parse_args_items(items, k + 1, fns);
            let ghost fns2 = fns@;
            match r2 {
                Ok(ns2) => {
                    let ghost ns2_v = nodes_view(ns2@);
                    let ghost ns_seq = ns@;
                    let ghost ns2_seq = ns2@;
                    let mut out = ns;
                    let mut tail = ns2;
                    out.append(&mut tail);
                    proof {
                        assert(out@ == ns_seq + ns2_seq);
                        crate::ast::lemma_nodes_view_concat(ns_seq, ns2_seq);
                        assert forall|fuel: nat| fuel >= 3 * toks_measure(rem) + 11 implies
                            parse_args_items_s(fuel, rem, fns0) == Some(
                            Ok::<_, ParseError>((ns_v + ns2_v, fns2)),
                        ) by {
                            assert(parse_sentence_s((fuel - 1) as nat, seq![d[k as int]], fns0)
                                == Some(Ok::<_, ParseError>((ns_v, Seq::<Seq<char>>::empty(), fns1))));
                            assert(parse_args_items_s(
                                (fuel - 1) as nat,
                                d.skip(k as int + 1),
                                fns1,
                            ) == Some(Ok::<_, ParseError>((ns2_v, fns2))));
                        }
                    }
                    Ok(out)
                },
                Err(e) => {
                    proof {
                        assert forall|fuel: nat| fuel >= 3 * toks_measure(rem) + 11 implies
                            parse_args_items_s(fuel, rem, fns0) == Some(
                            Err::<(Seq<NodeS>, Map<Seq<char>, FnExprS>), ParseError>(e),
                        ) by {
                            assert(parse_sentence_s((fuel - 1) as nat, seq![d[k as int]], fns0)
                                == Some(Ok::<_, ParseError>((ns_v, Seq::<Seq<char>>::empty(), fns1))));
                            assert(parse_args_items_s(
                                (fuel - 1) as nat,
                                d.skip(k as int + 1),
                                fns1,
                            ) == Some(Err::<(Seq<NodeS>, Map<Seq<char>, FnExprS>), ParseError>(e)));
                        }
                    }
                    Err(e)
                },
            }
        },
    }
}

/// The first position at or after `from` holding the marker `else`.
pub open spec fn find_else_s(ns: Seq<NodeS>, from: int) -> Option<int>
    recommends
        0 <= from <= ns.len(),
    decreases ns.len() - from,
{
    if from < 0 || from >= ns.len() {
        None
    } else if ns[from] == NodeS::Variable("else"@) {
        Some(from)
    } else {
        find_else_s(ns, from + 1)
    }
}

/// An if-block split on its `else` markers: the nodes before the first
/// marker, and those between the first and the second marker (or the end).
pub open spec fn split_else(ns: Seq<NodeS>) -> (Seq<NodeS>, Seq<NodeS>) {
    match find_else_s(ns, 0) {
        None => (ns, Seq::empty()),
        Some(i) => (
            ns.take(i),
            match find_else_s(ns, i + 1) {
                None => ns.skip(i + 1),
                Some(i2) => ns.subrange(i + 1, i2),
            },
        ),
    }
}

/// What parsing a statement stream yields, with `acc` the nodes parsed so
/// far: each statement is tokenized and parsed as a sentence, a lone `end`
/// closes the block, and a block construct (`while`, `if`, `fn`) left at
/// the end of the accumulated nodes with an empty body has the following
/// block parsed and backfilled into it (an if-block further split on
/// `else`).  The budget `fuel` falls by one per statement, so any budget
/// above the number of remaining statements is never exhausted.
pub open spec fn parse_block_s(
    fuel: nat,
    stmts: Seq<Seq<char>>,
    fns: Map<Seq<char>, FnExprS>,
    acc: Seq<NodeS>,
) -> Option<Result<(Seq<NodeS>, Seq<Seq<char>>, Map<Seq<char>, FnExprS>), ParseError>>
    decreases fuel,
{
    if stmts.len() == 0 {
        Some(Ok((acc, stmts, fns)))
    } else if fuel == 0 {
        None
    } else {
        let toks = tokens_of(stmts[0]);
        let rest = stmts.drop_first();
        if toks == seq!["end"@] {
            Some(Ok((acc, rest, fns)))
        } else {
            match parse_sentence_s(3 * toks_measure(toks) + 10, toks, fns) {
                None => None,
                Some(Err(ParseError::EmptySentence)) => parse_block_s(
                    (fuel - 1) as nat,
                    rest,
                    fns,
                    acc,
                ),
                Some(Err(e)) => Some(Err(e)),
                Some(Ok((ns, _rem, fns1))) => {
                    let acc1 = acc + ns;
                    if acc1.len() > 0 && (acc1.last() matches NodeS::While { body, .. }
                        && body.len() == 0) {
                        match parse_block_s((fuel - 1) as nat, rest, fns1, Seq::empty()) {
                            None => None,
                            Some(Err(e)) => Some(Err(e)),
                            Some(Ok((body_nodes, rem1, fns2))) => {
                                let acc2 = acc1.update(
                                    acc1.len() - 1,
                                    NodeS::While {
                                        condition: acc1.last()->While_condition,
                                        body: body_nodes,
                                    },
                                );
                                parse_block_s((fuel - 1) as nat, rem1, fns2, acc2)
                            },
                        }
                    } else if acc1.len() > 0 && (acc1.last() matches NodeS::If { body, .. }
                        && body.len() == 0) {
                        match parse_block_s((fuel - 1) as nat, rest, fns1, Seq::empty()) {
                            None => None,
                            Some(Err(e)) => Some(Err(e)),
                            Some(Ok((body_all, rem1, fns2))) => {
                                let parts = split_else(body_all);
                                let acc2 = acc1.update(
                                    acc1.len() - 1,
                                    NodeS::If {
                                        condition: acc1.last()->If_condition,
                                        body: parts.0,
                                        else_body: parts.1,
                                    },
                                );
                                parse_block_s((fuel - 1) as nat, rem1, fns2, acc2)
                            },
                        }
                    } else if acc1.len() > 0 && (acc1.last() matches NodeS::Fn(f)
                        && f.body.len() == 0) {
                        match parse_block_s((fuel - 1) as nat, rest, fns1, Seq::empty()) {
                            None => None,
                            Some(Err(e)) => Some(Err(e)),
                            Some(Ok((body_nodes, rem1, fns2))) => {
                                let acc2 = acc1.update(
                                    acc1.len() - 1,
                                    NodeS::Fn(
                                        FnExprS {
                                            name: acc1.last()->Fn_0.name,
                                            args: acc1.last()->Fn_0.args,
                                            body: body_nodes,
                                        },
                                    ),
                                );
                                parse_block_s((fuel - 1) as nat, rem1, fns2, acc2)
                            },
                        }
                    } else {
                        parse_block_s((fuel - 1) as nat, rest, fns1, acc1)
                    }
                },
            }
        }
    }
}

/// At every sufficient budget, parsing the statements `stmts` on top of the
/// accumulated nodes `acc0` yields the nodes `nv`, the statements `rem`
/// after the closing `end`, and the table `fns1`.
pub open spec fn block_ok(
    stmts: Seq<Seq<char>>,
    fns0: Map<Seq<char>, FnExprS>,
    acc0: Seq<NodeS>,
    nv: Seq<NodeS>,
    rem: Seq<Seq<char>>,
    fns1: Map<Seq<char>, FnExprS>,
) -> bool {
    forall|bf: nat|
        bf >= stmts.len() + 1 ==> parse_block_s(bf, stmts, fns0, acc0) == Some(
            Ok::<_, ParseError>((nv, rem, fns1)),
        )
}

/// At every sufficient budget, parsing the statements `stmts` on top of
/// `acc0` fails with `e`.
pub open spec fn block_err(
    stmts: Seq<Seq<char>>,
    fns0: Map<Seq<char>, FnExprS>,
    acc0: Seq<NodeS>,
    e: ParseError,
) -> bool {
    forall|bf: nat|
        bf >= stmts.len() + 1 ==> parse_block_s(bf, stmts, fns0, acc0) == Some(
            Err::<(Seq<NodeS>, Seq<Seq<char>>, Map<Seq<char>, FnExprS>), ParseError>(e),
        )
}

/// Whether `n` is the block marker `else` (a bare variable of that name).
fn is_else_marker(n: &Node) -> (r: bool)
    ensures
        r == (crate::ast::node_view(*n) == NodeS::Variable("else"@)),
{
    match n {
        Node::Variable(s) => str_eq(s.as_str(), "else"),
        _ => false,
    }
}

/// The first position at or after `from` holding the marker `else`.
fn find_else(nodes: &Vec<Node>, from: usize) -> (r: Option<usize>)
    requires
        from <= nodes@.len(),
    ensures
        match r {
            Some(ix) => from <= ix < nodes@.len() && find_else_s(
                nodes_view(nodes@),
                from as int,
            ) == Some(ix as int),
            None => find_else_s(nodes_view(nodes@), from as int) is None,
        },
{
    let ghost nv = nodes_view(nodes@);
    proof {
        lemma_nodes_view(nodes@);
    }
    let n = nodes.len();
    let mut k: usize = from;
    while k < n
        invariant
            from <= k <= n == nodes@.len(),
            nv == nodes_view(nodes@),
            nv.len() == n,
            forall|j: int| 0 <= j < n ==> nv[j] == crate::ast::node_view(nodes@[j]),
            find_else_s(nv, from as int) == find_else_s(nv, k as int),
        decreases n - k,
    {
        if is_else_marker(&nodes[k]) {
            return Some(k);
        }
        k = k + 1;
    }
    None
}

/// A copy of the nodes in positions `from .. to`.
fn clone_range(nodes: &Vec<Node>, from: usize, to: usize) -> (r: Vec<Node>)
    requires
        from <= to <= nodes@.len(),
    ensures
        nodes_view(r@) == nodes_view(nodes@).subrange(from as int, to as int),
{
    proof {
        lemma_nodes_view(nodes@);
    }
    let mut r: Vec<Node> = Vec::new();
    let mut k: usize = from;
    proof {
        assert(nodes_view(r@) =~= nodes_view(nodes@).subrange(from as int, from as int));
    }
    while k < to
        invariant
            from <= k <= to <= nodes@.len(),
            nodes_view(nodes@).len() == nodes@.len(),
            forall|j: int|
                0 <= j < nodes@.len() ==> nodes_view(nodes@)[j] == crate::ast::node_view(
                    nodes@[j],
                ),
            nodes_view(r@) == nodes_view(nodes@).subrange(from as int, k as int),
        decreases to - k,
    {
        let c = crate::ast::clone_node(&nodes[k]);
        let ghost prev = r@;
        r.push(c);
        proof {
            lemma_nodes_view_push(prev, c);
            assert(nodes_view(nodes@).subrange(from as int, k as int + 1) =~= nodes_view(
                nodes@,
            ).subrange(from as int, k as int).push(nodes_view(nodes@)[k as int]));
        }
        k = k + 1;
    }
    r
}

/// Split an if-block's nodes on its `else` markers into the body and the
/// else-body.
fn split_nodes_on_else(nodes: Vec<Node>) -> (r: (Vec<Node>, Vec<Node>))
    ensures
        nodes_view(r.0@) == split_else(nodes_view(nodes@)).0,
        nodes_view(r.1@) == split_else(nodes_view(nodes@)).1,
{
    let ghost nv = nodes_view(nodes@);
    proof {
        lemma_nodes_view(nodes@);
    }
    match find_else(&nodes, 0) {
        None => {
            let e: Vec<Node> = Vec::new();
            proof {
                assert(nodes_view(e@) =~= Seq::<NodeS>::empty());
            }
            (nodes, e)
        },
        Some(i1) => {
            let nlen = nodes.len();
            let end2 = match find_else(&nodes, i1 + 1) {
                None => nlen,
                Some(i2) => i2,
            };
            let b = clone_range(&nodes, 0, i1);
            let e = clone_range(&nodes, i1 + 1, end2);
            proof {
                assert(nv.take(i1 as int) =~= nv.subrange(0, i1 as int));
                assert(nv.skip(i1 as int + 1) =~= nv.subrange(i1 as int + 1, nv.len() as int));
            }
            (b, e)
        },
    }
}

/// Parse the statements from position `i` on, on top of the already parsed
/// nodes `acc`, up to a closing `end` or the end of the stream.  Returns
/// the nodes and the position of the first statement left over.  Returns
/// exactly what [`parse_block_s`] describes.
#[verifier::rlimit(100)]
fn parse_block(stmts: &Vec<String>, i: usize, fns: &mut FnTable, acc: Vec<Node>) -> (r: Result<
    (Vec<Node>, usize),
    ParseError,
>)
    requires
        i <= stmts@.len(),
    ensures
        match r {
            Ok((nodes, j)) => {
                &&& i <= j <= stmts@.len()
                &&& block_ok(
                    stmts.deep_view().skip(i as int),
                    old(fns)@,
                    nodes_view(acc@),
                    nodes_view(nodes@),
                    stmts.deep_view().skip(j as int),
                    final(fns)@,
                )
            },
            Err(e) => block_err(stmts.deep_view().skip(i as int), old(fns)@, nodes_view(acc@), e),
        },
    decreases stmts@.len() - i,
{
    let ghost d = stmts.deep_view();
    let ghost suffix = d.skip(i as int);
    let ghost fns0 = fns@;
    let ghost acc0 = nodes_view(acc@);
    let n = stmts.len();
    if i >= n {
        proof {
            assert(suffix.len() == 0);
        }
        return Ok((acc, i));
    }
    let toks = tokenize(stmts[i].as_str());
    proof {
        assert(suffix[0] == d[i as int]);
        assert(d[i as int] == stmts@[i as int]@);
        assert(suffix.drop_first() =~= d.skip(i as int + 1));
        assert(toks.deep_view().skip(0) =~= toks.deep_view());
    }
    let is_end = toks.len() == 1 && str_eq(toks[0].as_str(), "end");
    proof {
        lemma_keywords();
        if is_end {
            assert(toks.deep_view()[0] == toks@[0]@);
            assert(toks.deep_view() =~= seq!["end"@]);
        } else {
            if toks.len() == 1 {
                assert(toks.deep_view()[0] == toks@[0]@);
                assert(seq!["end"@][0] == "end"@);
                assert(toks.deep_view() != seq!["end"@]);
            } else {
                assert(toks.deep_view().len() != 1);
                assert(seq!["end"@].len() == 1);
                assert(toks.deep_view() != seq!["end"@]);
            }
        }
    }
    if is_end {
        proof {
            assert forall|bf: nat| bf >= suffix.len() + 1 implies parse_block_s(
                bf,
                suffix,
                fns0,
                acc0,
            ) == Some(Ok::<_, ParseError>((acc0, d.skip(i as int + 1), fns0))) by {}
        }
        return Ok((acc, i + 1));
    }
    let ghost tv = toks.deep_view();
    let sent = parse_sentence(&toks, 0, fns);
    match sent {
        Err(ParseError::EmptySentence) => {
            proof {
                assert(fns@ == fns0);
            }
            let r2 = parse_block(stmts, i + 1, fns, acc);
            let ghost fns2 = fns@;
            proof {
                match r2 {
                    Ok((ref nodes, j)) => {
                        let nv = nodes_view(nodes@);
                        assert forall|bf: nat| bf >= suffix.len() + 1 implies parse_block_s(
                            bf,
                            suffix,
                            fns0,
                            acc0,
                        ) == Some(Ok::<_, ParseError>((nv, d.skip(j as int), fns2))) by {
                            assert(parse_sentence_s(3 * toks_measure(tv) + 10, tv, fns0) == Some(
                                Err::<
                                    (Seq<NodeS>, Seq<Seq<char>>, Map<Seq<char>, FnExprS>),
                                    ParseError,
                                >(ParseError::EmptySentence),
                            ));
                            assert(parse_block_s((bf - 1) as nat, d.skip(i as int + 1), fns0, acc0)
                                == Some(Ok::<_, ParseError>((nv, d.skip(j as int), fns2))));
                        }
                    },
                    Err(e) => {
                        assert forall|bf: nat| bf >= suffix.len() + 1 implies parse_block_s(
                            bf,
                            suffix,
                            fns0,
                            acc0,
                        ) == Some(
                            Err::<(Seq<NodeS>, Seq<Seq<char>>, Map<Seq<char>, FnExprS>), ParseError>(
                                e,
                            ),
                        ) by {
                            assert(parse_sentence_s(3 * toks_measure(tv) + 10, tv, fns0) == Some(
                                Err::<
                                    (Seq<NodeS>, Seq<Seq<char>>, Map<Seq<char>, FnExprS>),
                                    ParseError,
                                >(ParseError::EmptySentence),
                            ));
                            assert(parse_block_s((bf - 1) as nat, d.skip(i as int + 1), fns0, acc0)
                                == Some(
                                Err::<
                                    (Seq<NodeS>, Seq<Seq<char>>, Map<Seq<char>, FnExprS>),
                                    ParseError,
                                >(e),
                            ));
                        }
                    },
                }
            }
            return r2;
        },
        Err(e) => {
            proof {
                assert forall|bf: nat| bf >= suffix.len() + 1 implies parse_block_s(
                    bf,
                    suffix,
                    fns0,
                    acc0,
                ) == Some(
                    Err::<(Seq<NodeS>, Seq<Seq<char>>, Map<Seq<char>, FnExprS>), ParseError>(e),
                ) by {
                    assert(parse_sentence_s(3 * toks_measure(tv) + 10, tv, fns0) == Some(
                        Err::<(Seq<NodeS>, Seq<Seq<char>>, Map<Seq<char>, FnExprS>), ParseError>(e),
                    ));
                }
            }
            return Err(e);
        },
        Ok((ns, sj)) => {
            let ghost fns1 = fns@;
            let ghost ns_v = nodes_view(ns@);
            let ghost acc_seq = acc@;
            let ghost ns_seq = ns@;
            let mut acc1 = acc;
            let mut ns_mut = ns;
            acc1.append(&mut ns_mut);
            let ghost acc1_v = nodes_view(acc1@);
            proof {
                assert(acc1@ == acc_seq + ns_seq);
                crate::ast::lemma_nodes_view_concat(acc_seq, ns_seq);
                assert(acc1_v == acc0 + ns_v);
                lemma_nodes_view(acc1@);
                assert(parse_sentence_s(3 * toks_measure(tv) + 10, tv, fns0) == Some(
                    Ok::<_, ParseError>((ns_v, tv.skip(sj as int), fns1)),
                ));
            }
            // which block construct, if any, awaits its body
            let kind: u8 = if acc1.len() > 0 {
                match &acc1[acc1.len() - 1] {
                    Node::WhileExpr(e) => if e.body.len() == 0 {
                        1
                    } else {
                        0
                    },
                    Node::IfExpr(e) => if e.body.len() == 0 {
                        2
                    } else {
                        0
                    },
                    Node::FnExpr(e) => if e.body.len() == 0 {
                        3
                    } else {
                        0
                    },
                    _ => 0,
                }
            } else {
                0
            };
            proof {
                if acc1@.len() > 0 {
                    assert(acc1_v.last() == crate::ast::node_view(acc1@.last()));
                    match acc1@.last() {
                        Node::WhileExpr(e) => lemma_nodes_view(e.body@),
                        Node::IfExpr(e) => lemma_nodes_view(e.body@),
                        Node::FnExpr(e) => lemma_nodes_view(e.body@),
                        _ => (),
                    }
                }
                assert((kind == 1) == (acc1_v.len() > 0 && (acc1_v.last()
                    matches NodeS::While { body, .. } && body.len() == 0)));
                assert((kind == 2) == (acc1_v.len() > 0 && (acc1_v.last()
                    matches NodeS::If { body, .. } && body.len() == 0)));
                assert((kind == 3) == (acc1_v.len() > 0 && (acc1_v.last() matches NodeS::Fn(f)
                    && f.body.len() == 0)));
            }
            if kind == 0 {
                let r2 = parse_block(stmts, i + 1, fns, acc1);
                let ghost fns2 = fns@;
                proof {
                    match r2 {
                        Ok((ref nodes, j)) => {
                            let nv = nodes_view(nodes@);
                            assert forall|bf: nat| bf >= suffix.len() + 1 implies parse_block_s(
                                bf,
                                suffix,
                                fns0,
                                acc0,
                            ) == Some(Ok::<_, ParseError>((nv, d.skip(j as int), fns2))) by {
                                assert(parse_block_s(
                                    (bf - 1) as nat,
                                    d.skip(i as int + 1),
                                    fns1,
                                    acc1_v,
                                ) == Some(Ok::<_, ParseError>((nv, d.skip(j as int), fns2))));
                            }
                        },
                        Err(e) => {
                            assert forall|bf: nat| bf >= suffix.len() + 1 implies parse_block_s(
                                bf,
                                suffix,
                                fns0,
                                acc0,
                            ) == Some(
                                Err::<
                                    (Seq<NodeS>, Seq<Seq<char>>, Map<Seq<char>, FnExprS>),
                                    ParseError,
                                >(e),
                            ) by {
                                assert(parse_block_s(
                                    (bf - 1) as nat,
                                    d.skip(i as int + 1),
                                    fns1,
                                    acc1_v,
                                ) == Some(
                                    Err::<
                                        (Seq<NodeS>, Seq<Seq<char>>, Map<Seq<char>, FnExprS>),
                                        ParseError,
                                    >(e),
                                ));
                            }
                        },
                    }
                }
                return r2;
            }
            let br = parse_block(stmts, i + 1, fns, Vec::new());
            let ghost fns2 = fns@;
            match br {
                Err(e) => {
                    proof {
                        assert(nodes_view(Seq::<Node>::empty()) =~= Seq::<NodeS>::empty());
                        assert forall|bf: nat| bf >= suffix.len() + 1 implies parse_block_s(
                            bf,
                            suffix,
                            fns0,
                            acc0,
                        ) == Some(
                            Err::<(Seq<NodeS>, Seq<Seq<char>>, Map<Seq<char>, FnExprS>), ParseError>(
                                e,
                            ),
                        ) by {
                            assert(parse_block_s(
                                (bf - 1) as nat,
                                d.skip(i as int + 1),
                                fns1,
                                Seq::<NodeS>::empty(),
                            ) == Some(
                                Err::<
                                    (Seq<NodeS>, Seq<Seq<char>>, Map<Seq<char>, FnExprS>),
                                    ParseError,
                                >(e),
                            ));
                        }
                    }
                    return Err(e);
                },
                Ok((body_nodes, j1)) => {
                    let ghost body_v = nodes_view(body_nodes@);
                    proof {
                        assert(nodes_view(Seq::<Node>::empty()) =~= Seq::<NodeS>::empty());
                    }
                    let last_opt = acc1.pop();
                    let ghost popped = acc1@;
                    let node2: Node = match last_opt {
                        Some(Node::WhileExpr(e)) => Node::WhileExpr(
                            WhileExpr { condition: e.condition, body: body_nodes },
                        ),
                        Some(Node::IfExpr(e)) => {
                            let (b, eb) = split_nodes_on_else(body_nodes);
                            Node::IfExpr(IfExpr { condition: e.condition, body: b, else_body: eb })
                        },
                        Some(Node::FnExpr(e)) => Node::FnExpr(
                            FnExpr { name: e.name, args: e.args, body: body_nodes },
                        ),
                        _ => {
                            proof {
                                assert(false);
                            }
                            Node::Variable(String::new())
                        },
                    };
                    let ghost node2_v = crate::ast::node_view(node2);
                    acc1.push(node2);
                    let ghost acc2_v = nodes_view(acc1@);
                    proof {
                        lemma_nodes_view_push(popped, node2);
                        crate::ast::lemma_nodes_view_subrange(
                            acc_seq + ns_seq,
                            0,
                            (acc_seq + ns_seq).len() - 1,
                        );
                        assert(acc2_v =~= acc1_v.update(acc1_v.len() - 1, node2_v));
                    }
                    let r3 = parse_block(stmts, j1, fns, acc1);
                    let ghost fns3 = fns@;
                    proof {
                        match r3 {
                            Ok((ref nodes, j)) => {
                                let nv = nodes_view(nodes@);
                                assert forall|bf: nat| bf >= suffix.len() + 1 implies parse_block_s(
                                    bf,
                                    suffix,
                                    fns0,
                                    acc0,
                                ) == Some(Ok::<_, ParseError>((nv, d.skip(j as int), fns3))) by {
                                    assert(parse_block_s(
                                        (bf - 1) as nat,
                                        d.skip(i as int + 1),
                                        fns1,
                                        Seq::<NodeS>::empty(),
                                    ) == Some(
                                        Ok::<_, ParseError>(
                                            (body_v, d.skip(j1 as int), fns2),
                                        ),
                                    ));
                                    assert(parse_block_s(
                                        (bf - 1) as nat,
                                        d.skip(j1 as int),
                                        fns2,
                                        acc2_v,
                                    ) == Some(Ok::<_, ParseError>((nv, d.skip(j as int), fns3))));
                                }
                            },
                            Err(e) => {
                                assert forall|bf: nat| bf >= suffix.len() + 1 implies parse_block_s(
                                    bf,
                                    suffix,
                                    fns0,
                                    acc0,
                                ) == Some(
                                    Err::<
                                        (Seq<NodeS>, Seq<Seq<char>>, Map<Seq<char>, FnExprS>),
                                        ParseError,
                                    >(e),
                                ) by {
                                    assert(parse_block_s(
                                        (bf - 1) as nat,
                                        d.skip(i as int + 1),
                                        fns1,
                                        Seq::<NodeS>::empty(),
                                    ) == Some(
                                        Ok::<_, ParseError>(
                                            (body_v, d.skip(j1 as int), fns2),
                                        ),
                                    ));
                                    assert(parse_block_s(
                                        (bf - 1) as nat,
                                        d.skip(j1 as int),
                                        fns2,
                                        acc2_v,
                                    ) == Some(
                                        Err::<
                                            (Seq<NodeS>, Seq<Seq<char>>, Map<Seq<char>, FnExprS>),
                                            ParseError,
                                        >(e),
                                    ));
                                }
                            },
                        }
                    }
                    return r3;
                },
            }
        },
    }
}

/// Parse a stream of statements into an abstract syntax tree, recording
/// every function definition in `functions`.
pub fn parse(stmts: &Vec<String>, functions: &mut FnTable) -> (r: Result<Vec<Node>, ParseError>)
    ensures
        match r {
            Ok(nodes) => parse_block_s(
                stmts@.len() + 1,
                stmts.deep_view(),
                old(functions)@,
                Seq::empty(),
            ) matches Some(Ok((nv, rem, fns2))) && nodes_view(nodes@) == nv && final(functions)@
                == fns2,
            Err(e) => parse_block_s(
                stmts@.len() + 1,
                stmts.deep_view(),
                old(functions)@,
                Seq::empty(),
            ) == Some(
                Err::<(Seq<NodeS>, Seq<Seq<char>>, Map<Seq<char>, FnExprS>), ParseError>(e),
            ),
        },
{
    proof {
        assert(stmts.deep_view().skip(0) =~= stmts.deep_view());
        assert(nodes_view(Seq::<Node>::empty()) =~= Seq::<NodeS>::empty());
    }
    let r = parse_block(stmts, 0, functions, Vec::new());
    match r {
        Ok((nodes, _j)) => Ok(nodes),
        Err(e) => Err(e),
    }
}


/// A statement with no tokens parses to nothing: it is reported as an
/// empty sentence, which the statement parser swallows.
pub proof fn lemma_empty_sentence(fuel: nat, fns: Map<Seq<char>, FnExprS>)
    ensures
        parse_sentence_s(fuel, Seq::empty(), fns) == Some(
            Err::<(Seq<NodeS>, Seq<Seq<char>>, Map<Seq<char>, FnExprS>), ParseError>(
                ParseError::EmptySentence,
            ),
        ),
{
}

/// A comment parses to an empty node sequence, never a failure: the rest
/// of the statement is skipped and nothing is contributed.
pub proof fn lemma_comment_parses_to_nothing(
    fuel: nat,
    toks: Seq<Seq<char>>,
    fns: Map<Seq<char>, FnExprS>,
)
    requires
        fuel > 0,
        toks.len() > 0,
        toks[0] == "//"@,
    ensures
        parse_sentence_s(fuel, toks, fns) == Some(
            Ok::<(Seq<NodeS>, Seq<Seq<char>>, Map<Seq<char>, FnExprS>), ParseError>(
                (Seq::empty(), toks.drop_first(), fns),
            ),
        ),
{
    lemma_keywords();
    assert(op_of(toks[0]) is None);
}

/// The operator denoted by a token, if any.
pub fn op_token(t: &str) -> (r: Option<Op>)
    ensures
        r == op_of(t@),
{
    if str_eq(t, "+") {
        Some(Op::Add)
    } else if str_eq(t, "-") {
        Some(Op::Sub)
    } else if str_eq(t, "*") {
        Some(Op::Mul)
    } else if str_eq(t, "/") {
        Some(Op::Div)
    } else if str_eq(t, ">") {
        Some(Op::Gt)
    } else if str_eq(t, "<") {
        Some(Op::Lt)
    } else if str_eq(t, "%") {
        Some(Op::Mod)
    } else if str_eq(t, "==") {
        Some(Op::Eqt)
    } else {
        None
    }
}

} // verus!
