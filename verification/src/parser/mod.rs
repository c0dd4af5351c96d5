//! A recursive-descent parser for Turtle over the tokens of the tokenizer.
pub mod spec;

use crate::lexer::parse_tokens_str;
use crate::model::{
    lemma_pos_view, lemma_terms_view, pos_view, seq_view, term_view, terms_view, Base, BlankNode, Literal,
    NamedNode, Prefix, RDFLiteral, Term, TermV, BlankNodeV, Triple, Turtle, TurtleV, Variable, PO, POV,
};
use crate::token::{Span, Spanned, Token, TokenV};
use spec::{
    lemma_blank_node, lemma_collection, lemma_literal, lemma_named_node, lemma_object,
    lemma_object_list, lemma_objects, lemma_po, lemma_pos, lemma_predicate, lemma_skip_comments,
    lemma_splits, lemma_statement, lemma_statements, lemma_subject, lemma_token, lemma_triple,
    lemma_unnamed_bn, lemma_variable, p_base, p_blank_node, p_bn_triple, p_collection,
    p_literal, p_named_node, p_object, p_object_list, p_objects, p_po, p_pos, p_predicate,
    p_predtype, p_prefix, p_splits, p_statement, p_statements, p_subject, p_token, p_triple,
    p_unnamed_bn, p_variable, skip_comments, tspan, Toks, p_retry, next_stop, lemma_next_stop, p_recover, p_rterm, p_rpo, p_rpos, p_rtriple, p_rstatement, gap_span, at_invalid,
    po_follows, lemma_rterm, lemma_rpo, lemma_rpos, lemma_rtriple, lemma_rstatement,
    source_doc, empty_doc,
};
use vstd::prelude::*;

verus! {

/// Appending a term appends its view.
proof fn lemma_terms_view_push(v: Seq<Spanned<Term>>, t: Spanned<Term>)
    ensures
        terms_view(v.push(t)) == terms_view(v).push(t@),
{
    assert(v.push(t).subrange(0, v.len() as int) =~= v);
}

/// One step of reading objects.
proof fn lemma_objects_step(ts: Toks, i: int)
    requires
        0 <= i <= ts.len(),
    ensures
        p_object(ts, i).0 matches Some(t) ==> p_objects(ts, i) == (seq![t] + p_objects(
            ts,
            p_object(ts, i).1,
        ).0, p_objects(ts, p_object(ts, i).1).1),
        p_object(ts, i).0 is None ==> p_objects(ts, i) == (Seq::<(TermV, Span)>::empty(), i),
{
    lemma_object(ts, i);
}

/// Token ranges as pairs of integers.
pub open spec fn ranges_view(v: Seq<std::ops::Range<usize>>) -> Seq<(int, int)> {
    v.map_values(|r: std::ops::Range<usize>| (r.start as int, r.end as int))
}

/// The views of a sequence of spanned tokens.
pub open spec fn toks(tokens: Seq<Spanned<Token>>) -> Toks {
    tokens.map_values(|t: Spanned<Token>| t@)
}

pub open spec fn opt_view<T: View>(o: Option<T>) -> Option<T::V> {
    match o {
        Some(x) => Some(x@),
        None => None,
    }
}

/// The parser's state: the tokens and the position it reads at.
pub struct Ctx<'a> {
    pub last_commit: usize,
    pub tokens: &'a [Spanned<Token>],
    pub idx: usize,
}

impl<'a> Ctx<'a> {
    pub open spec fn ts(&self) -> Toks {
        toks(self.tokens@)
    }

    pub open spec fn wf(&self) -> bool {
        self.idx <= self.tokens@.len() <= usize::MAX
    }

    /// A parser at the start of `tokens`.
    pub fn new(tokens: &'a [Spanned<Token>]) -> (r: Self)
        ensures
            r.tokens == tokens,
            r.idx == 0,
            r.last_commit == 0,
            r.wf(),
    {
        let _n = tokens.len();
        Ctx { last_commit: 0, idx: 0, tokens }
    }

    fn skip_comments(&mut self)
        requires
            old(self).wf(),
        ensures
            final(self).tokens == old(self).tokens,
            final(self).idx == skip_comments(old(self).ts(), old(self).idx as int),
            final(self).wf(),
    {
        proof {
            lemma_skip_comments(self.ts(), self.idx as int);
        }
        while self.idx < self.tokens.len() && self.tokens[self.idx].0.is_comment()
            invariant
                self.tokens == old(self).tokens,
                self.wf(),
                skip_comments(self.ts(), self.idx as int) == skip_comments(
                    old(self).ts(),
                    old(self).idx as int,
                ),
            decreases self.tokens@.len() - self.idx,
        {
            self.idx = self.idx + 1;
        }
    }

    /// Skips comments; the position of the token there, if any.
    fn current(&mut self) -> (r: Option<usize>)
        requires
            old(self).wf(),
        ensures
            final(self).tokens == old(self).tokens,
            final(self).idx == skip_comments(old(self).ts(), old(self).idx as int),
            final(self).wf(),
            r == (if final(self).idx < final(self).tokens@.len() {
                Some(final(self).idx)
            } else {
                None
            }),
    {
        self.skip_comments();
        if self.idx == self.tokens.len() {
            None
        } else {
            Some(self.idx)
        }
    }

    /// Reads `token` (after comments), giving `t` with the token's span.
    fn parse_token<T>(&mut self, token: Token, t: T) -> (r: Option<Spanned<T>>)
        requires
            old(self).wf(),
        ensures
            final(self).tokens == old(self).tokens,
            final(self).wf(),
            final(self).idx == p_token(old(self).ts(), old(self).idx as int, token@).1,
            match r {
                Some(sp) => sp.0 == t && p_token(old(self).ts(), old(self).idx as int, token@).0
                    == Some(sp.1),
                None => p_token(old(self).ts(), old(self).idx as int, token@).0 is None,
            },
    {
        let c = self.current();
        match c {
            Some(j) => {
                if self.tokens[j].0 == token {
                    let span = self.tokens[j].1;
                    self.idx = self.idx + 1;
                    Some(Spanned(t, span))
                } else {
                    None
                }
            },
            None => None,
        }
    }

    fn at(&self) -> (r: usize)
        ensures
            r == self.idx,
    {
        self.idx
    }

    fn reset(&mut self, at: usize)
        ensures
            final(self).idx == at,
            final(self).tokens == old(self).tokens,
            final(self).last_commit == old(self).last_commit,
    {
        self.idx = at;
    }

    fn commit(&mut self)
        ensures
            final(self).idx == old(self).idx,
            final(self).tokens == old(self).tokens,
            final(self).last_commit == old(self).idx,
    {
        self.last_commit = self.idx;
    }

    /// The span from the start of token `start` to the end of token `end - 1`.
    fn span(&self, start: usize, end: usize) -> (r: Span)
        requires
            start < self.tokens@.len(),
            0 < end <= self.tokens@.len(),
        ensures
            r == tspan(self.ts(), start as int, end as int),
    {
        Span { start: self.tokens[start].1.start, end: self.tokens[end - 1].1.end }
    }

    fn inc(&mut self)
        requires
            old(self).idx < old(self).tokens@.len(),
            old(self).wf(),
        ensures
            final(self).idx == old(self).idx + 1,
            final(self).tokens == old(self).tokens,
            final(self).wf(),
    {
        self.idx = self.idx + 1;
    }

    /// An IRI or a prefixed name.
    fn parse_named_node(&mut self) -> (r: Option<Spanned<Term>>)
        requires
            old(self).wf(),
        ensures
            final(self).tokens == old(self).tokens,
            final(self).wf(),
            (opt_view(r), final(self).idx as int) == p_named_node(
                old(self).ts(),
                old(self).idx as int,
            ),
    {
        if self.idx == self.tokens.len() {
            return None;
        }
        let c = self.current();
        match c {
            Some(j) => {
                let tok = &self.tokens[j];
                match &tok.0 {
                    Token::IRIRef(x) => {
                        let o = Spanned(Term::NamedNode(NamedNode::Full(x.clone())), tok.1);
                        self.inc();
                        Some(o)
                    },
                    Token::PNameLN(p, v) => {
                        let prefix = match p {
                            Some(p) => p.clone(),
                            None => String::new(),
                        };
                        let o = Spanned(
                            Term::NamedNode(NamedNode::Prefixed { prefix, value: v.clone() }),
                            tok.1,
                        );
                        self.inc();
                        Some(o)
                    },
                    _ => None,
                }
            },
            None => None,
        }
    }
}

} // verus!

verus! {

impl<'a> Ctx<'a> {
    /// A query variable.
    fn parse_variable(&mut self) -> (r: Option<Spanned<Term>>)
        requires
            old(self).wf(),
        ensures
            final(self).tokens == old(self).tokens,
            final(self).wf(),
            (opt_view(r), final(self).idx as int) == p_variable(old(self).ts(), old(self).idx as int),
    {
        let c = self.current();
        match c {
            Some(j) => {
                let tok = &self.tokens[j];
                match &tok.0 {
                    Token::Variable(x) => {
                        let o = Spanned(Term::Variable(Variable(x.clone())), tok.1);
                        self.inc();
                        Some(o)
                    },
                    _ => None,
                }
            },
            None => None,
        }
    }

    /// The keyword `a`.
    fn parse_predtype(&mut self) -> (r: Option<Spanned<Term>>)
        requires
            old(self).wf(),
        ensures
            final(self).tokens == old(self).tokens,
            final(self).wf(),
            (opt_view(r), final(self).idx as int) == p_predtype(old(self).ts(), old(self).idx as int),
    {
        self.parse_token(Token::PredType, Term::NamedNode(NamedNode::A))
    }

    /// A string literal with an optional language tag or datatype, a number,
    /// or a boolean.
    fn parse_literal(&mut self) -> (r: Option<Spanned<Term>>)
        requires
            old(self).wf(),
        ensures
            final(self).tokens == old(self).tokens,
            final(self).wf(),
            (opt_view(r), final(self).idx as int) == p_literal(old(self).ts(), old(self).idx as int),
    {
        proof {
            lemma_literal(self.ts(), self.idx as int);
        }
        if self.idx == self.tokens.len() {
            return None;
        }
        let start = self.at();
        let c = self.current();
        let j = match c {
            Some(j) => j,
            None => return None,
        };
        let tok = &self.tokens[j];
        assert(self.ts()[j as int] == tok@);
        match &tok.0 {
            Token::Str(value, style) => {
                let mut literal = RDFLiteral {
                    value: value.clone(),
                    quote_style: *style,
                    lang: None,
                    ty: None,
                };
                self.inc();
                let c2 = self.current();
                match c2 {
                    Some(k) => {
                        match &self.tokens[k].0 {
                            Token::LangTag(tag) => {
                                literal.lang = Some(tag.clone());
                                self.inc();
                            },
                            Token::DataTypeDelim => {
                                self.inc();
                                proof {
                                    lemma_named_node(self.ts(), self.idx as int);
                                }
                                match self.parse_named_node() {
                                    Some(Spanned(Term::NamedNode(nn), _)) => {
                                        literal.ty = Some(nn);
                                    },
                                    _ => return None,
                                }
                            },
                            _ => {},
                        }
                    },
                    None => {},
                }
                let end = self.at();
                let span = self.span(start, end);
                let r = Some(Spanned(Term::Literal(Literal::RDF(literal)), span));
                assert((opt_view(r), self.idx as int) == p_literal(old(self).ts(), old(self).idx as int));
                r
            },
            Token::Number(v) => {
                let o = Spanned(Term::Literal(Literal::Numeric(v.clone())), tok.1);
                self.inc();
                Some(o)
            },
            _ => {
                proof {
                    lemma_skip_comments(self.ts(), start as int);
                }
                let t = self.parse_token(Token::True, Term::Literal(Literal::Boolean(true)));
                match t {
                    Some(t) => Some(t),
                    None => self.parse_token(Token::False, Term::Literal(Literal::Boolean(false))),
                }
            },
        }
    }
}

} // verus!

verus! {

impl<'a> Ctx<'a> {
    /// A blank node: a label, `[ predicate-objects ]`, or an empty `[]`.
    #[verifier::spinoff_prover]
    fn parse_blank_node(&mut self) -> (r: Option<Spanned<Term>>)
        requires
            old(self).wf(),
        ensures
            final(self).tokens == old(self).tokens,
            final(self).wf(),
            (opt_view(r), final(self).idx as int) == p_blank_node(
                old(self).ts(),
                old(self).idx as int,
            ),
        decreases old(self).tokens@.len() - old(self).idx, 9int,
    {
        if self.idx == self.tokens.len() {
            return None;
        }
        proof {
            lemma_skip_comments(self.ts(), self.idx as int);
        }
        let c = self.current();
        match c {
            Some(j) => {
                let tok = &self.tokens[j];
                match &tok.0 {
                    Token::BlankNodeLabel(l) => {
                        let o = Spanned(Term::BlankNode(BlankNode::Named(l.clone())), tok.1);
                        self.inc();
                        Some(o)
                    },
                    Token::SqOpen => self.parse_unnamed_bn(),
                    Token::ANON => {
                        let o = Spanned(Term::BlankNode(BlankNode::Unnamed(Vec::new())), tok.1);
                        self.inc();
                        proof {
                            assert(pos_view(Seq::<Spanned<PO>>::empty()) == Seq::<(POV, Span)>::empty());
                        }
                        Some(o)
                    },
                    _ => None,
                }
            },
            None => None,
        }
    }

    /// `[ predicate-objects ]`.
    fn parse_unnamed_bn(&mut self) -> (r: Option<Spanned<Term>>)
        requires
            old(self).wf(),
        ensures
            final(self).tokens == old(self).tokens,
            final(self).wf(),
            (opt_view(r), final(self).idx as int) == p_unnamed_bn(
                old(self).ts(),
                old(self).idx as int,
            ),
        decreases old(self).tokens@.len() - old(self).idx, 8int,
    {
        if self.idx == self.tokens.len() {
            return None;
        }
        let start = self.at();
        proof {
            lemma_token(self.ts(), start as int, TokenV::SqOpen);
        }
        let o = self.parse_token(Token::SqOpen, ());
        if o.is_none() {
            return None;
        }
        let po = self.parse_pos();
        let ghost k = self.idx as int;
        proof {
            lemma_token(self.ts(), k, TokenV::SqClose);
        }
        let c = self.parse_token(Token::SqClose, ());
        if c.is_none() {
            return None;
        }
        let end = self.at();
        let span = self.span(start, end);
        let r = Spanned(Term::BlankNode(BlankNode::Unnamed(po)), span);
        assert(r@.0 == TermV::BlankNode(BlankNodeV::Unnamed(pos_view(po@))));
        proof {
            let ts = old(self).ts();
            let i = start as int;
            assert(p_token(ts, i, TokenV::SqOpen).0 is Some);
            let j = p_token(ts, i, TokenV::SqOpen).1;
            lemma_pos(ts, j);
        }
        Some(r)
    }

    /// `( objects )`.
    fn parse_collection(&mut self) -> (r: Option<Spanned<Term>>)
        requires
            old(self).wf(),
        ensures
            final(self).tokens == old(self).tokens,
            final(self).wf(),
            (opt_view(r), final(self).idx as int) == p_collection(
                old(self).ts(),
                old(self).idx as int,
            ),
        decreases old(self).tokens@.len() - old(self).idx, 8int,
    {
        if self.idx == self.tokens.len() {
            return None;
        }
        let start = self.at();
        proof {
            lemma_token(self.ts(), start as int, TokenV::BracketOpen);
        }
        let o = self.parse_token(Token::BracketOpen, ());
        if o.is_none() {
            return None;
        }
        let ghost j0 = self.idx as int;
        let ghost ts = self.ts();
        proof {
            lemma_objects(ts, j0);
        }
        let mut terms: Vec<Spanned<Term>> = Vec::new();
        loop
            invariant
                self.tokens == old(self).tokens,
                self.wf(),
                ts == self.ts(),
                start < j0 <= self.idx <= ts.len(),
                start == old(self).idx,
                terms_view(terms@) + p_objects(ts, self.idx as int).0 == p_objects(ts, j0).0,
                p_objects(ts, self.idx as int).1 == p_objects(ts, j0).1,
            ensures
                self.tokens == old(self).tokens,
                self.wf(),
                start < j0 <= self.idx <= ts.len(),
                terms_view(terms@) == p_objects(ts, j0).0,
                self.idx == p_objects(ts, j0).1,
            decreases ts.len() - self.idx,
        {
            let ghost i = self.idx as int;
            proof {
                lemma_object(ts, i);
                lemma_objects_step(ts, i);
            }
            let t = self.parse_object();
            match t {
                Some(t) => {
                    let ghost before = terms@;
                    terms.push(t);
                    proof {
                        lemma_terms_view_push(before, t);
                        let j = self.idx as int;
                        assert(terms_view(terms@) + p_objects(ts, j).0 =~= terms_view(before)
                            + p_objects(ts, i).0);
                    }
                },
                None => {
                    assert(terms_view(terms@) + p_objects(ts, i).0 =~= terms_view(terms@));
                    break ;
                },
            }
        }
        let ghost k = self.idx as int;
        proof {
            lemma_token(ts, k, TokenV::BracketClose);
        }
        let c = self.parse_token(Token::BracketClose, ());
        if c.is_none() {
            return None;
        }
        let end = self.at();
        let span = self.span(start, end);
        Some(Spanned(Term::Collection(terms), span))
    }

    /// A subject: an IRI, a blank node, a collection or a variable (the first
    /// that reads).
    fn parse_subject(&mut self) -> (r: Option<Spanned<Term>>)
        requires
            old(self).wf(),
        ensures
            final(self).tokens == old(self).tokens,
            final(self).wf(),
            (opt_view(r), final(self).idx as int) == p_subject(
                old(self).ts(),
                old(self).idx as int,
            ),
        decreases old(self).tokens@.len() - old(self).idx, 10int,
    {
        let at = self.at();
        let r = self.parse_named_node();
        if r.is_some() {
            return r;
        }
        self.reset(at);
        let r = self.parse_blank_node();
        if r.is_some() {
            return r;
        }
        self.reset(at);
        let r = self.parse_collection();
        if r.is_some() {
            return r;
        }
        self.reset(at);
        let r = self.parse_variable();
        if r.is_some() {
            return r;
        }
        self.reset(at);
        None
    }

    /// An object: an IRI, a blank node, a literal, a collection or a
    /// variable (the first that reads).
    fn parse_object(&mut self) -> (r: Option<Spanned<Term>>)
        requires
            old(self).wf(),
        ensures
            final(self).tokens == old(self).tokens,
            final(self).wf(),
            (opt_view(r), final(self).idx as int) == p_object(
                old(self).ts(),
                old(self).idx as int,
            ),
        decreases old(self).tokens@.len() - old(self).idx, 10int,
    {
        let at = self.at();
        let r = self.parse_named_node();
        if r.is_some() {
            return r;
        }
        self.reset(at);
        let r = self.parse_blank_node();
        if r.is_some() {
            return r;
        }
        self.reset(at);
        let r = self.parse_literal();
        if r.is_some() {
            return r;
        }
        self.reset(at);
        let r = self.parse_collection();
        if r.is_some() {
            return r;
        }
        self.reset(at);
        let r = self.parse_variable();
        if r.is_some() {
            return r;
        }
        self.reset(at);
        None
    }

    /// A predicate: `a`, an IRI or a variable (the first that reads).
    fn parse_predicate(&mut self) -> (r: Option<Spanned<Term>>)
        requires
            old(self).wf(),
        ensures
            final(self).tokens == old(self).tokens,
            final(self).wf(),
            (opt_view(r), final(self).idx as int) == p_predicate(
                old(self).ts(),
                old(self).idx as int,
            ),
    {
        let at = self.at();
        let r = self.parse_predtype();
        if r.is_some() {
            return r;
        }
        self.reset(at);
        let r = self.parse_named_node();
        if r.is_some() {
            return r;
        }
        self.reset(at);
        let r = self.parse_variable();
        if r.is_some() {
            return r;
        }
        self.reset(at);
        None
    }

    /// A predicate with its objects, separated by commas.
    fn parse_po(&mut self) -> (r: Option<Spanned<PO>>)
        requires
            old(self).wf(),
        ensures
            final(self).tokens == old(self).tokens,
            final(self).wf(),
            (opt_view(r), final(self).idx as int) == p_po(old(self).ts(), old(self).idx as int),
        decreases old(self).tokens@.len() - old(self).idx, 12int,
    {
        let start = self.at();
        let ghost ts = self.ts();
        proof {
            lemma_predicate(ts, start as int);
        }
        let predicate = match self.parse_predicate() {
            Some(p) => p,
            None => return None,
        };
        let ghost j0 = self.idx as int;
        proof {
            lemma_object_list(ts, j0);
        }
        let mut object: Vec<Spanned<Term>> = Vec::new();
        loop
            invariant_except_break
                terms_view(object@) + p_object_list(ts, self.idx as int).0 == p_object_list(
                    ts,
                    j0,
                ).0,
                p_object_list(ts, self.idx as int).1 == p_object_list(ts, j0).1,
            invariant
                self.tokens == old(self).tokens,
                self.wf(),
                ts == self.ts(),
                start < j0 <= self.idx <= ts.len(),
                start == old(self).idx,
            ensures
                terms_view(object@) == p_object_list(ts, j0).0,
                self.idx == p_object_list(ts, j0).1,
            decreases ts.len() - self.idx,
        {
            let ghost i = self.idx as int;
            proof {
                lemma_object(ts, i);
            }
            let o = self.parse_object();
            let ghost j = self.idx as int;
            let ghost before = object@;
            match o {
                Some(t) => {
                    object.push(t);
                    proof {
                        assert(object@.subrange(0, before.len() as int) =~= before);
                    }
                },
                None => {},
            }
            let ghost head = match p_object(ts, i).0 {
                Some(t) => seq![t],
                None => Seq::<(TermV, Span)>::empty(),
            };
            assert(terms_view(object@) =~= terms_view(before) + head);
            proof {
                lemma_token(ts, j, TokenV::Comma);
            }
            let c = self.parse_token(Token::Comma, ());
            if c.is_none() {
                break ;
            }
            proof {
                let k = self.idx as int;
                lemma_object_list(ts, k);
                assert(p_object_list(ts, i).0 =~= head + p_object_list(ts, k).0);
                assert(terms_view(object@) + p_object_list(ts, k).0 =~= terms_view(before)
                    + p_object_list(ts, i).0);
            }
        }
        let end = self.at();
        let span = self.span(start, end);
        Some(Spanned(PO { predicate, object }, span))
    }

    /// Reads any number of `;`: whether there was one.
    fn parse_splits(&mut self) -> (r: bool)
        requires
            old(self).wf(),
        ensures
            final(self).tokens == old(self).tokens,
            final(self).wf(),
            (r, final(self).idx as int) == p_splits(old(self).ts(), old(self).idx as int),
    {
        let ghost ts = self.ts();
        let ghost j0 = self.idx as int;
        let mut split = false;
        loop
            invariant_except_break
                p_splits(ts, j0).1 == p_splits(ts, self.idx as int).1,
                !split ==> self.idx == j0,
            invariant
                self.tokens == old(self).tokens,
                self.wf(),
                ts == self.ts(),
                j0 == old(self).idx,
                j0 <= self.idx <= ts.len(),
                split ==> p_splits(ts, j0).0,
            ensures
                (split, self.idx as int) == p_splits(ts, j0),
            decreases ts.len() - self.idx,
        {
            let ghost i = self.idx as int;
            proof {
                lemma_token(ts, i, TokenV::PredicateSplit);
            }
            let t = self.parse_token(Token::PredicateSplit, ());
            if t.is_none() {
                break ;
            }
            split = true;
        }
        split
    }

    /// Predicate-objects separated by one or more `;`.
    fn parse_pos(&mut self) -> (r: Vec<Spanned<PO>>)
        requires
            old(self).wf(),
        ensures
            final(self).tokens == old(self).tokens,
            final(self).wf(),
            (pos_view(r@), final(self).idx as int) == p_pos(old(self).ts(), old(self).idx as int),
        decreases old(self).tokens@.len() - old(self).idx, 13int,
    {
        let ghost ts = self.ts();
        let ghost i0 = self.idx as int;
        proof {
            lemma_pos(ts, i0);
        }
        let mut po: Vec<Spanned<PO>> = Vec::new();
        loop
            invariant_except_break
                pos_view(po@) + p_pos(ts, self.idx as int).0 == p_pos(ts, i0).0,
                p_pos(ts, self.idx as int).1 == p_pos(ts, i0).1,
            invariant
                self.tokens == old(self).tokens,
                self.wf(),
                ts == self.ts(),
                i0 == old(self).idx,
                i0 <= self.idx <= ts.len(),
            ensures
                pos_view(po@) == p_pos(ts, i0).0,
                self.idx == p_pos(ts, i0).1,
            decreases ts.len() - self.idx,
        {
            let ghost i = self.idx as int;
            proof {
                lemma_po(ts, i);
            }
            let o = self.parse_po();
            let ghost j = self.idx as int;
            let ghost before = po@;
            match o {
                Some(p) => {
                    po.push(p);
                    proof {
                        assert(po@.subrange(0, before.len() as int) =~= before);
                    }
                },
                None => {},
            }
            let ghost head = match p_po(ts, i).0 {
                Some(p) => seq![p],
                None => Seq::<(POV, Span)>::empty(),
            };
            assert(pos_view(po@) =~= pos_view(before) + head);
            proof {
                lemma_splits(ts, j);
            }
            let split = self.parse_splits();
            if !split {
                break ;
            }
            proof {
                let k = self.idx as int;
                lemma_pos(ts, k);
                assert(p_pos(ts, i).0 =~= head + p_pos(ts, k).0);
                assert(pos_view(po@) + p_pos(ts, k).0 =~= pos_view(before) + p_pos(ts, i).0);
            }
        }
        po
    }
}

} // verus!

verus! {

impl<'a> Ctx<'a> {
    /// `subject predicate-objects .`
    pub fn parse_triple(&mut self) -> (r: Option<Spanned<Triple>>)
        requires
            old(self).wf(),
        ensures
            final(self).tokens == old(self).tokens,
            final(self).wf(),
            (opt_view(r), final(self).idx as int) == p_triple(old(self).ts(), old(self).idx as int),
    {
        let start = self.at();
        let ghost ts = self.ts();
        proof {
            lemma_subject(ts, start as int);
        }
        let subject = match self.parse_subject() {
            Some(s) => s,
            None => return None,
        };
        let ghost j = self.idx as int;
        proof {
            lemma_pos(ts, j);
        }
        let po = self.parse_pos();
        if po.len() == 0 {
            proof {
                assert(pos_view(po@).len() == 0);
            }
            return None;
        }
        proof {
            assert(pos_view(po@).len() != 0);
            lemma_token(ts, self.idx as int, TokenV::Stop);
        }
        let stop = self.parse_token(Token::Stop, ());
        if stop.is_none() {
            return None;
        }
        let end = self.at();
        let span = self.span(start, end);
        proof {
            lemma_pos_view(po@);
        }
        Some(Spanned(Triple { subject, po }, span))
    }

    /// `[ predicate-objects ] .`: a blank node that is a statement of its
    /// own.
    fn bn_triple(&mut self) -> (r: Option<Spanned<Triple>>)
        requires
            old(self).wf(),
        ensures
            final(self).tokens == old(self).tokens,
            final(self).wf(),
            (opt_view(r), final(self).idx as int) == p_bn_triple(
                old(self).ts(),
                old(self).idx as int,
            ),
    {
        let start = self.at();
        let ghost ts = self.ts();
        proof {
            lemma_unnamed_bn(ts, start as int);
        }
        let subject = match self.parse_unnamed_bn() {
            Some(s) => s,
            None => return None,
        };
        proof {
            lemma_token(ts, self.idx as int, TokenV::Stop);
        }
        let po: Vec<Spanned<PO>> = Vec::new();
        let stop = self.parse_token(Token::Stop, ());
        if stop.is_none() {
            return None;
        }
        let end = self.at();
        let span = self.span(start, end);
        proof {
            assert(pos_view(po@) =~= Seq::<(POV, Span)>::empty());
        }
        Some(Spanned(Triple { subject, po }, span))
    }

    /// `@base <iri> .` or `BASE <iri>`.
    fn parse_base(&mut self) -> (r: Option<Spanned<Base>>)
        requires
            old(self).wf(),
        ensures
            final(self).tokens == old(self).tokens,
            final(self).wf(),
            (opt_view(r), final(self).idx as int) == p_base(old(self).ts(), old(self).idx as int),
    {
        let start = self.at();
        let ghost ts = self.ts();
        proof {
            lemma_skip_comments(ts, start as int);
        }
        let j = match self.current() {
            Some(j) => j,
            None => return None,
        };
        let needs_stop = match &self.tokens[j].0 {
            Token::SparqlBase => false,
            Token::BaseTag => true,
            _ => return None,
        };
        let kwd_span = self.tokens[j].1;
        self.inc();
        proof {
            lemma_named_node(ts, self.idx as int);
        }
        let nn = match self.parse_named_node() {
            Some(Spanned(Term::NamedNode(nn), span)) => Spanned(nn, span),
            _ => return None,
        };
        if needs_stop {
            proof {
                lemma_token(ts, self.idx as int, TokenV::Stop);
            }
            let stop = self.parse_token(Token::Stop, ());
            if stop.is_none() {
                return None;
            }
        }
        let end = self.at();
        let span = self.span(start, end);
        Some(Spanned(Base(kwd_span, nn), span))
    }

    /// `@prefix pre: <iri> .` or `PREFIX pre: <iri>`.
    fn parse_prefix(&mut self) -> (r: Option<Spanned<Prefix>>)
        requires
            old(self).wf(),
        ensures
            final(self).tokens == old(self).tokens,
            final(self).wf(),
            (opt_view(r), final(self).idx as int) == p_prefix(old(self).ts(), old(self).idx as int),
    {
        let start = self.at();
        let ghost ts = self.ts();
        proof {
            lemma_skip_comments(ts, start as int);
        }
        let j = match self.current() {
            Some(j) => j,
            None => return None,
        };
        let needs_stop = match &self.tokens[j].0 {
            Token::SparqlPrefix => false,
            Token::PrefixTag => true,
            _ => return None,
        };
        let kwd_span = self.tokens[j].1;
        self.inc();
        proof {
            lemma_skip_comments(ts, self.idx as int);
        }
        let k = match self.current() {
            Some(k) => k,
            None => return None,
        };
        let prefix = match &self.tokens[k].0 {
            Token::PNameLN(x, _) => {
                let v = match x {
                    Some(p) => p.clone(),
                    None => String::new(),
                };
                Spanned(v, self.tokens[k].1)
            },
            _ => return None,
        };
        self.inc();
        proof {
            lemma_named_node(ts, self.idx as int);
        }
        let value = match self.parse_named_node() {
            Some(Spanned(Term::NamedNode(nn), span)) => Spanned(nn, span),
            _ => return None,
        };
        if needs_stop {
            proof {
                lemma_token(ts, self.idx as int, TokenV::Stop);
            }
            let stop = self.parse_token(Token::Stop, ());
            if stop.is_none() {
                return None;
            }
        }
        let end = self.at();
        let span = self.span(start, end);
        Some(Spanned(Prefix { span: kwd_span, prefix, value }, span))
    }
}

} // verus!

verus! {

impl<'a> Ctx<'a> {
    /// Reads a triple, or a blank node that stands alone, and adds it to
    /// `turtle`.
    pub fn add_triple(&mut self, turtle: &mut Turtle) -> (r: Option<()>)
        requires
            old(self).wf(),
        ensures
            final(self).tokens == old(self).tokens,
            final(self).wf(),
            ({
                let (t, j) = p_triple(old(self).ts(), old(self).idx as int);
                let (b, k) = p_bn_triple(old(self).ts(), old(self).idx as int);
                match t {
                    Some(t) => r is Some && final(self).idx == j && final(turtle)@ == (TurtleV {
                        triples: old(turtle)@.triples.push(t),
                        ..old(turtle)@
                    }),
                    None => match b {
                        Some(b) => r is Some && final(self).idx == k && final(turtle)@ == (
                        TurtleV { triples: old(turtle)@.triples.push(b), ..old(turtle)@ }),
                        None => r is None && final(self).idx == old(self).idx && final(turtle)@
                            == old(turtle)@,
                    },
                }
            }),
    {
        let at = self.at();
        let triple = match self.parse_triple() {
            Some(t) => Some(t),
            None => {
                self.reset(at);
                let b = self.bn_triple();
                if b.is_none() {
                    self.reset(at);
                }
                b
            },
        };
        match triple {
            Some(t) => {
                let ghost before = turtle.triples@;
                turtle.triples.push(t);
                proof {
                    assert(seq_view(turtle.triples@) =~= seq_view(before).push(t@));
                }
                Some(())
            },
            None => None,
        }
    }

    /// Reads a base declaration and sets it as the base of `turtle`.
    pub fn add_base(&mut self, turtle: &mut Turtle) -> (r: Option<()>)
        requires
            old(self).wf(),
        ensures
            final(self).tokens == old(self).tokens,
            final(self).wf(),
            final(self).idx == p_base(old(self).ts(), old(self).idx as int).1,
            match p_base(old(self).ts(), old(self).idx as int).0 {
                Some(b) => r is Some && final(turtle)@ == (TurtleV {
                    base: Some(b),
                    ..old(turtle)@
                }),
                None => r is None && final(turtle)@ == old(turtle)@,
            },
    {
        let base = self.parse_base()?;
        turtle.base = Some(base);
        Some(())
    }

    /// Reads a prefix declaration and adds it to `turtle`.
    pub fn add_prefix(&mut self, turtle: &mut Turtle) -> (r: Option<()>)
        requires
            old(self).wf(),
        ensures
            final(self).tokens == old(self).tokens,
            final(self).wf(),
            final(self).idx == p_prefix(old(self).ts(), old(self).idx as int).1,
            match p_prefix(old(self).ts(), old(self).idx as int).0 {
                Some(p) => r is Some && final(turtle)@ == (TurtleV {
                    prefixes: old(turtle)@.prefixes.push(p),
                    ..old(turtle)@
                }),
                None => r is None && final(turtle)@ == old(turtle)@,
            },
    {
        let prefix = self.parse_prefix()?;
        let ghost before = turtle.prefixes@;
        turtle.prefixes.push(prefix);
        proof {
            assert(seq_view(turtle.prefixes@) =~= seq_view(before).push(prefix@));
        }
        Some(())
    }

    /// Reads one statement (a prefix declaration, a base declaration or a
    /// triple, the first that reads) into `turtle`; on failure the position
    /// is where it was.
    fn add_statement(&mut self, turtle: &mut Turtle) -> (r: bool)
        requires
            old(self).wf(),
        ensures
            final(self).tokens == old(self).tokens,
            final(self).wf(),
            (if r {
                Some(final(turtle)@)
            } else {
                None
            }, final(self).idx as int) == p_statement(
                old(self).ts(),
                old(self).idx as int,
                old(turtle)@,
            ),
            !r ==> final(turtle)@ == old(turtle)@,
    {
        let at = self.at();
        if self.add_prefix(turtle).is_some() {
            return true;
        }
        self.reset(at);
        if self.add_base(turtle).is_some() {
            return true;
        }
        self.reset(at);
        if self.add_triple(turtle).is_some() {
            return true;
        }
        self.reset(at);
        false
    }

    /// Reads statements into `turtle` for as long as they read.
    pub fn parse_turtle(&mut self, turtle: &mut Turtle)
        requires
            old(self).wf(),
        ensures
            final(self).tokens == old(self).tokens,
            final(self).wf(),
            (final(turtle)@, final(self).idx as int) == p_statements(
                old(self).ts(),
                old(self).idx as int,
                old(turtle)@,
            ),
    {
        let ghost ts = self.ts();
        let ghost i0 = self.idx as int;
        let ghost d0 = turtle@;
        loop
            invariant_except_break
                p_statements(ts, self.idx as int, turtle@) == p_statements(ts, i0, d0),
            invariant
                self.tokens == old(self).tokens,
                self.wf(),
                ts == self.ts(),
            ensures
                (turtle@, self.idx as int) == p_statements(ts, i0, d0),
            decreases ts.len() - self.idx,
        {
            let ghost i = self.idx as int;
            let ghost d = turtle@;
            proof {
                lemma_statement(ts, i, d);
            }
            if !self.add_statement(turtle) {
                break ;
            }
        }
    }

    /// Reads statements into `turtle`; where one fails, records the token
    /// range up to and including the next `.` and reads on after it. Gives
    /// the failed ranges.
    #[verifier::spinoff_prover]
    #[verifier::rlimit(40)]
    pub fn parse_turtle_retry(&mut self, turtle: &mut Turtle) -> (r: Vec<std::ops::Range<usize>>)
        requires
            old(self).wf(),
            old(self).tokens@.len() + 2 <= usize::MAX,
        ensures
            final(self).tokens == old(self).tokens,
            (final(turtle)@, ranges_view(r@), final(self).idx as int) == p_retry(
                old(self).ts(),
                old(self).idx as int,
                old(turtle)@,
            ),
    {
        let ghost ts = self.ts();
        let ghost i0 = self.idx as int;
        let ghost d0 = turtle@;
        let mut failed: Vec<std::ops::Range<usize>> = Vec::new();
        while self.idx < self.tokens.len()
            invariant_except_break
                ({
                    let (d, f, e) = p_retry(ts, self.idx as int, turtle@);
                    (d, ranges_view(failed@) + f, e) == p_retry(ts, i0, d0)
                }),
            invariant
                self.tokens == old(self).tokens,
                ts == self.ts(),
                self.tokens@.len() + 2 <= usize::MAX,
                self.idx <= self.tokens@.len() + 2,
            ensures
                (turtle@, ranges_view(failed@), self.idx as int) == p_retry(ts, i0, d0),
            decreases ts.len() + 2 - self.idx,
        {
            let ghost i = self.idx as int;
            let ghost d = turtle@;
            let ghost before = failed@;
            proof {
                lemma_statements(ts, i, d);
            }
            self.parse_turtle(turtle);
            let ghost j = self.idx as int;
            proof {
                lemma_skip_comments(ts, j);
            }
            if self.current().is_none() {
                assert(ranges_view(failed@) + Seq::<(int, int)>::empty() =~= ranges_view(failed@));
                break ;
            }
            let sdx = self.at();
            while self.idx < self.tokens.len() && !(self.tokens[self.idx].0 == Token::Stop)
                invariant
                    self.tokens == old(self).tokens,
                    ts == self.ts(),
                    self.tokens@.len() + 2 <= usize::MAX,
                    sdx <= self.idx <= self.tokens@.len(),
                    next_stop(ts, self.idx as int) == next_stop(ts, sdx as int),
                decreases ts.len() - self.idx,
            {
                self.idx = self.idx + 1;
            }
            assert(self.idx == next_stop(ts, sdx as int));
            self.idx = self.idx + 1;
            failed.push(std::ops::Range { start: sdx, end: self.idx });
            self.idx = self.idx + 1;
            proof {
                let c = sdx as int;
                let s = next_stop(ts, c);
                assert(ranges_view(failed@) =~= ranges_view(before).push((c, s + 1)));
                let (d2, f2, e2) = p_retry(ts, s + 2, turtle@);
                assert(ranges_view(failed@) + f2 =~= ranges_view(before) + (seq![(c, s + 1)]
                    + f2));
            }
        }
        failed
    }
}

/// Reads the Turtle document in `source`, read from `location`: the
/// document, if its statements read up to the end (comments aside).
pub fn parse_source(location: &str, source: &str) -> (r: Option<Turtle>)
    ensures
        opt_view(r) == source_doc(location@, source@),
{
    let mut output = Turtle::empty(location);
    let (tokens, _errors) = parse_tokens_str(source);
    let mut ctx = Ctx::new(tokens.as_slice());
    ctx.parse_turtle(&mut output);
    proof {
        lemma_statements(ctx.ts(), 0, empty_doc(location@));
    }
    if ctx.current().is_none() {
        Some(output)
    } else {
        None
    }
}

} // verus!

verus! {

impl<'a> Ctx<'a> {
    /// The position of the first token from `k` on that is no comment.
    fn next_non_comment(&self, k: usize) -> (r: usize)
        requires
            self.wf(),
            k <= self.tokens@.len(),
        ensures
            r == skip_comments(self.ts(), k as int),
            k <= r <= self.tokens@.len(),
    {
        proof {
            lemma_skip_comments(self.ts(), k as int);
        }
        let mut j = k;
        while j < self.tokens.len() && self.tokens[j].0.is_comment()
            invariant
                self.wf(),
                k <= j <= self.tokens@.len(),
                skip_comments(self.ts(), j as int) == skip_comments(self.ts(), k as int),
            decreases self.tokens@.len() - j,
        {
            j = j + 1;
        }
        j
    }

    /// The empty span where something is missing before token `k`.
    fn gap(&self, k: usize) -> (r: Span)
        ensures
            r == gap_span(self.ts(), k as int),
    {
        if k < self.tokens.len() {
            Span { start: self.tokens[k].1.start, end: self.tokens[k].1.start }
        } else if self.tokens.len() > 0 {
            let e = self.tokens[self.tokens.len() - 1].1.end;
            Span { start: e, end: e }
        } else {
            Span { start: 0, end: 0 }
        }
    }

    /// Whether the token here (after comments) is an unreadable one.
    fn at_invalid_exec(&self) -> (r: bool)
        requires
            self.wf(),
        ensures
            r == at_invalid(self.ts(), self.idx as int),
    {
        let k = self.next_non_comment(self.idx);
        if k < self.tokens.len() {
            match &self.tokens[k].0 {
                Token::Invalid(_) => true,
                _ => false,
            }
        } else {
            false
        }
    }

    /// The invalid term put where a term does not read: for the
    /// unreadable token here, or for the gap here.
    fn invalid_term(&mut self, errors: &mut Vec<std::ops::Range<usize>>) -> (r: Spanned<Term>)
        requires
            old(self).wf(),
        ensures
            final(self).tokens == old(self).tokens,
            final(self).wf(),
            ({
                let (t, k, e) = p_rterm(
                    old(self).ts(),
                    old(self).idx as int,
                    (None, old(self).idx as int),
                );
                &&& r@ == t
                &&& final(self).idx == k
                &&& ranges_view(final(errors)@) == ranges_view(old(errors)@) + e
            }),
    {
        let ghost ts = self.ts();
        let inv = self.at_invalid_exec();
        let k = self.next_non_comment(self.idx);
        let ghost before = errors@;
        if inv {
            let span = self.tokens[k].1;
            self.idx = k + 1;
            errors.push(std::ops::Range { start: k, end: k + 1 });
            proof {
                assert(ranges_view(errors@) =~= ranges_view(before) + seq![(k as int, k + 1)]);
            }
            Spanned(Term::Invalid, span)
        } else {
            let span = self.gap(k);
            self.idx = k;
            errors.push(std::ops::Range { start: k, end: k });
            proof {
                assert(ranges_view(errors@) =~= ranges_view(before) + seq![(k as int, k as int)]);
            }
            Spanned(Term::Invalid, span)
        }
    }

    /// Whether another predicate-object follows here; the position stays.
    fn po_follows_exec(&mut self) -> (r: bool)
        requires
            old(self).wf(),
        ensures
            final(self).tokens == old(self).tokens,
            final(self).idx == old(self).idx,
            final(self).wf(),
            r == po_follows(old(self).ts(), old(self).idx as int),
    {
        let at = self.at();
        let p = self.parse_predicate();
        self.reset(at);
        p.is_some() || self.at_invalid_exec()
    }

    /// A predicate with its objects, read with recovery.
    fn parse_rpo(&mut self, errors: &mut Vec<std::ops::Range<usize>>) -> (r: Spanned<PO>)
        requires
            old(self).wf(),
        ensures
            final(self).tokens == old(self).tokens,
            final(self).wf(),
            ({
                let (po, k, e) = p_rpo(old(self).ts(), old(self).idx as int);
                &&& r@ == po
                &&& final(self).idx == k
                &&& ranges_view(final(errors)@) == ranges_view(old(errors)@) + e
            }),
    {
        let start = self.at();
        let ghost ts = self.ts();
        let ghost e0 = ranges_view(errors@);
        proof {
            lemma_predicate(ts, start as int);
            lemma_rpo(ts, start as int);
        }
        let predicate = match self.parse_predicate() {
            Some(p) => {
                assert(ranges_view(errors@) =~= e0 + Seq::<(int, int)>::empty());
                p
            },
            None => self.invalid_term(errors),
        };
        let ghost j0 = self.idx as int;
        proof {
            lemma_rterm(ts, start as int, p_predicate(ts, start as int));
            lemma_object_list(ts, j0);
        }
        let mut object: Vec<Spanned<Term>> = Vec::new();
        loop
            invariant_except_break
                terms_view(object@) + p_object_list(ts, self.idx as int).0 == p_object_list(
                    ts,
                    j0,
                ).0,
                p_object_list(ts, self.idx as int).1 == p_object_list(ts, j0).1,
            invariant
                self.tokens == old(self).tokens,
                self.wf(),
                ts == self.ts(),
                start <= j0 <= self.idx <= ts.len(),
                start == old(self).idx,
            ensures
                terms_view(object@) == p_object_list(ts, j0).0,
                self.idx == p_object_list(ts, j0).1,
            decreases ts.len() - self.idx,
        {
            let ghost i = self.idx as int;
            proof {
                lemma_object(ts, i);
            }
            let o = self.parse_object();
            let ghost j = self.idx as int;
            let ghost before = object@;
            match o {
                Some(t) => {
                    object.push(t);
                    proof {
                        assert(object@.subrange(0, before.len() as int) =~= before);
                    }
                },
                None => {},
            }
            let ghost head = match p_object(ts, i).0 {
                Some(t) => seq![t],
                None => Seq::<(TermV, Span)>::empty(),
            };
            assert(terms_view(object@) =~= terms_view(before) + head);
            proof {
                lemma_token(ts, j, TokenV::Comma);
            }
            let c = self.parse_token(Token::Comma, ());
            if c.is_none() {
                break ;
            }
            proof {
                let k = self.idx as int;
                lemma_object_list(ts, k);
                assert(p_object_list(ts, i).0 =~= head + p_object_list(ts, k).0);
                assert(terms_view(object@) + p_object_list(ts, k).0 =~= terms_view(before)
                    + p_object_list(ts, i).0);
            }
        }
        let k = self.at();
        let ghost e1 = ranges_view(errors@);
        if object.len() == 0 {
            let m = self.next_non_comment(k);
            let span = self.gap(m);
            object.push(Spanned(Term::Invalid, span));
            errors.push(std::ops::Range { start: m, end: m });
            proof {
                assert(object@.subrange(0, 0) =~= Seq::<Spanned<Term>>::empty());
                assert(terms_view(Seq::<Spanned<Term>>::empty()) == Seq::<(TermV, Span)>::empty());
                assert(object@[0] == Spanned(Term::Invalid, span));
                assert(term_view(Term::Invalid) == TermV::Invalid);
                assert(terms_view(object@) =~= seq![(TermV::Invalid, gap_span(ts, m as int))]);
                assert(ranges_view(errors@) =~= e1 + seq![(m as int, m as int)]);
            }
        } else {
            assert(ranges_view(errors@) =~= e1 + Seq::<(int, int)>::empty());
        }
        let span = if start < k {
            self.span(start, k)
        } else {
            let m = self.next_non_comment(start);
            self.gap(m)
        };
        proof {
            assert(ranges_view(errors@) =~= e0 + p_rpo(ts, start as int).2);
        }
        Spanned(PO { predicate, object }, span)
    }

    /// Predicate-objects separated by `;`, read with recovery.
    fn parse_rpos(&mut self, errors: &mut Vec<std::ops::Range<usize>>) -> (r: Vec<Spanned<PO>>)
        requires
            old(self).wf(),
        ensures
            final(self).tokens == old(self).tokens,
            final(self).wf(),
            ({
                let (pos, k, e) = p_rpos(old(self).ts(), old(self).idx as int);
                &&& pos_view(r@) == pos
                &&& final(self).idx == k
                &&& ranges_view(final(errors)@) == ranges_view(old(errors)@) + e
            }),
    {
        let ghost ts = self.ts();
        let ghost i0 = self.idx as int;
        let ghost e0 = ranges_view(errors@);
        proof {
            lemma_rpos(ts, i0);
        }
        let mut po: Vec<Spanned<PO>> = Vec::new();
        loop
            invariant_except_break
                pos_view(po@) + p_rpos(ts, self.idx as int).0 == p_rpos(ts, i0).0,
                p_rpos(ts, self.idx as int).1 == p_rpos(ts, i0).1,
                ranges_view(errors@) + p_rpos(ts, self.idx as int).2 == e0 + p_rpos(ts, i0).2,
            invariant
                self.tokens == old(self).tokens,
                self.wf(),
                ts == self.ts(),
                i0 == old(self).idx,
                e0 == ranges_view(old(errors)@),
                i0 <= self.idx <= ts.len(),
            ensures
                pos_view(po@) == p_rpos(ts, i0).0,
                self.idx == p_rpos(ts, i0).1,
                ranges_view(errors@) == e0 + p_rpos(ts, i0).2,
            decreases ts.len() - self.idx,
        {
            let i_x = self.at();
            let ghost i = self.idx as int;
            let ghost eb = ranges_view(errors@);
            proof {
                lemma_rpo(ts, i);
            }
            let p = self.parse_rpo(errors);
            let ghost before = po@;
            po.push(p);
            proof {
                assert(po@.subrange(0, before.len() as int) =~= before);
                assert(pos_view(po@) =~= pos_view(before) + seq![p@]);
            }
            let at_j = self.at();
            proof {
                lemma_splits(ts, at_j as int);
            }
            let split = self.parse_splits();
            let ghost k = self.idx as int;
            let ghost (ph, jh, eh) = p_rpo(ts, i);
            if !split {
                self.reset(at_j);
                proof {
                    assert(pos_view(po@) =~= pos_view(before) + p_rpos(ts, i).0);
                    assert(ranges_view(errors@) =~= eb + p_rpos(ts, i).2);
                    assert(pos_view(po@) + p_rpos(ts, i).0.skip(1) =~= pos_view(before) + p_rpos(ts, i).0);
                }
                assert(ranges_view(errors@) + Seq::<(int, int)>::empty() =~= ranges_view(errors@));
                break ;
            }
            if !(i_x < self.idx) || !self.po_follows_exec() {
                proof {
                    assert(pos_view(po@) =~= pos_view(before) + p_rpos(ts, i).0);
                    assert(ranges_view(errors@) =~= eb + p_rpos(ts, i).2);
                }
                break ;
            }
            proof {
                lemma_rpos(ts, k);
                assert(p_rpos(ts, i).0 =~= seq![ph] + p_rpos(ts, k).0);
                assert(pos_view(po@) + p_rpos(ts, k).0 =~= pos_view(before) + p_rpos(ts, i).0);
                assert(ranges_view(errors@) + p_rpos(ts, k).2 =~= eb + p_rpos(ts, i).2);
            }
        }
        po
    }

    /// `subject predicate-objects .`, read with recovery.
    fn parse_rtriple(&mut self, errors: &mut Vec<std::ops::Range<usize>>) -> (r: Option<
        Spanned<Triple>,
    >)
        requires
            old(self).wf(),
        ensures
            final(self).tokens == old(self).tokens,
            final(self).wf(),
            ({
                let (t, k, e) = p_rtriple(old(self).ts(), old(self).idx as int);
                &&& opt_view(r) == t
                &&& final(self).idx == k
                &&& ranges_view(final(errors)@) == ranges_view(old(errors)@) + e
            }),
    {
        let start = self.at();
        let ghost ts = self.ts();
        let ghost e0 = ranges_view(errors@);
        proof {
            lemma_subject(ts, start as int);
            lemma_rtriple(ts, start as int);
        }
        let subject = match self.parse_subject() {
            Some(s) => {
                assert(ranges_view(errors@) =~= e0 + Seq::<(int, int)>::empty());
                s
            },
            None => {
                if !self.at_invalid_exec() {
                    assert(ranges_view(errors@) =~= e0 + Seq::<(int, int)>::empty());
                    return None;
                }
                self.invalid_term(errors)
            },
        };
        let ghost j = self.idx as int;
        let ghost e1 = ranges_view(errors@);
        proof {
            lemma_rterm(ts, start as int, p_subject(ts, start as int));
            lemma_rpos(ts, j);
        }
        let po = self.parse_rpos(errors);
        let k = self.at();
        let ghost e2 = ranges_view(errors@);
        proof {
            lemma_token(ts, k as int, TokenV::Stop);
        }
        let stop = self.parse_token(Token::Stop, ());
        if stop.is_none() {
            self.reset(k);
            let km = self.next_non_comment(k);
            errors.push(std::ops::Range { start: km, end: km });
            proof {
                assert(ranges_view(errors@) =~= e2 + seq![(km as int, km as int)]);
            }
        } else {
            assert(ranges_view(errors@) =~= e2 + Seq::<(int, int)>::empty());
        }
        let end = self.at();
        let span = self.span(start, end);
        proof {
            lemma_pos_view(po@);
            assert(ranges_view(errors@) =~= e0 + p_rtriple(ts, start as int).2);
        }
        Some(Spanned(Triple { subject, po }, span))
    }

    /// One statement read with recovery into `turtle`, with its errors; on
    /// failure nothing changes.
    fn add_rstatement(&mut self, turtle: &mut Turtle, errors: &mut Vec<std::ops::Range<usize>>) -> (r: bool)
        requires
            old(self).wf(),
        ensures
            final(self).tokens == old(self).tokens,
            final(self).wf(),
            match p_rstatement(old(self).ts(), old(self).idx as int, old(turtle)@) {
                (Some((d, e)), j) => r && final(turtle)@ == d && final(self).idx == j && ranges_view(
                    final(errors)@,
                ) == ranges_view(old(errors)@) + e,
                (None, j) => !r && final(turtle)@ == old(turtle)@ && final(self).idx == j
                    && ranges_view(final(errors)@) == ranges_view(old(errors)@),
            },
    {
        let at = self.at();
        let ghost e0 = errors@;
        if self.add_prefix(turtle).is_some() {
            assert(ranges_view(errors@) =~= ranges_view(e0) + Seq::<(int, int)>::empty());
            return true;
        }
        self.reset(at);
        if self.add_base(turtle).is_some() {
            assert(ranges_view(errors@) =~= ranges_view(e0) + Seq::<(int, int)>::empty());
            return true;
        }
        self.reset(at);
        match self.bn_triple() {
            Some(t) => {
                let ghost before = turtle.triples@;
                turtle.triples.push(t);
                proof {
                    assert(seq_view(turtle.triples@) =~= seq_view(before).push(t@));
                }
                assert(ranges_view(errors@) =~= ranges_view(e0) + Seq::<(int, int)>::empty());
                return true;
            },
            None => {},
        }
        self.reset(at);
        let ghost save = errors@;
        match self.parse_rtriple(errors) {
            Some(t) => {
                let ghost before = turtle.triples@;
                turtle.triples.push(t);
                proof {
                    assert(seq_view(turtle.triples@) =~= seq_view(before).push(t@));
                }
                true
            },
            None => {
                assert(ranges_view(errors@) =~= ranges_view(save));
                self.reset(at);
                false
            },
        }
    }

    /// Reads statements into `turtle` with recovery: an unreadable or
    /// missing subject, predicate or object becomes an invalid term and a
    /// missing `.` an error, the statement being kept; where no statement
    /// reads, skips up to and including the next `.`. Gives the errors as
    /// token ranges: the unreadable token, an empty range where something is
    /// missing, or the skipped statement.
    #[verifier::spinoff_prover]
    #[verifier::rlimit(40)]
    pub fn parse_turtle_recover(&mut self, turtle: &mut Turtle) -> (r: Vec<std::ops::Range<usize>>)
        requires
            old(self).wf(),
            old(self).tokens@.len() + 1 <= usize::MAX,
        ensures
            final(self).tokens == old(self).tokens,
            (final(turtle)@, ranges_view(r@), final(self).idx as int) == p_recover(
                old(self).ts(),
                old(self).idx as int,
                old(turtle)@,
            ),
    {
        let ghost ts = self.ts();
        let ghost i0 = self.idx as int;
        let ghost d0 = turtle@;
        let mut failed: Vec<std::ops::Range<usize>> = Vec::new();
        while self.idx < self.tokens.len()
            invariant_except_break
                ({
                    let (d, f, e) = p_recover(ts, self.idx as int, turtle@);
                    (d, ranges_view(failed@) + f, e) == p_recover(ts, i0, d0)
                }),
            invariant
                self.tokens == old(self).tokens,
                ts == self.ts(),
                self.tokens@.len() + 1 <= usize::MAX,
                self.idx <= self.tokens@.len() + 1,
            ensures
                (turtle@, ranges_view(failed@), self.idx as int) == p_recover(ts, i0, d0),
            decreases ts.len() + 1 - self.idx,
        {
            let ghost i = self.idx as int;
            let ghost d = turtle@;
            let ghost before = ranges_view(failed@);
            proof {
                lemma_rstatement(ts, i, d);
            }
            if self.add_rstatement(turtle, &mut failed) {
                proof {
                    let (d1, e1) = p_rstatement(ts, i, d).0->0;
                    let j = self.idx as int;
                    let (d2, f2, x2) = p_recover(ts, j, turtle@);
                    assert(p_recover(ts, i, d) == (d2, e1 + f2, x2));
                    assert(ranges_view(failed@) + f2 =~= before + (e1 + f2));
                }
            } else {
                let ghost c0 = skip_comments(ts, i);
                proof {
                    lemma_skip_comments(ts, i);
                }
                if self.current().is_none() {
                    assert(ranges_view(failed@) + Seq::<(int, int)>::empty() =~= ranges_view(failed@));
                    break ;
                }
                let sdx = self.at();
                while self.idx < self.tokens.len() && !(self.tokens[self.idx].0 == Token::Stop)
                    invariant
                        self.tokens == old(self).tokens,
                        ts == self.ts(),
                        self.tokens@.len() + 1 <= usize::MAX,
                        sdx <= self.idx <= self.tokens@.len(),
                        next_stop(ts, self.idx as int) == next_stop(ts, sdx as int),
                    decreases ts.len() - self.idx,
                {
                    self.idx = self.idx + 1;
                }
                assert(self.idx == next_stop(ts, sdx as int));
                self.idx = self.idx + 1;
                failed.push(std::ops::Range { start: sdx, end: self.idx });
                proof {
                    let c = sdx as int;
                    let s = next_stop(ts, c);
                    lemma_next_stop(ts, c);
                    assert(ranges_view(failed@) =~= before.push((c, s + 1)));
                    let (d2, f2, e2) = p_recover(ts, s + 1, turtle@);
                    assert(ranges_view(failed@) + f2 =~= before + (seq![(c, s + 1)] + f2));
                }
            }
        }
        failed
    }
}

} // verus!
