//! What a pipeline makes of the tokens: whitespace is dropped, and a clause is
//! told by the tokens that lie ahead.

use crate::lookahead::{begins_with, Cursor, MultiPeekCheckExt};
use crate::token::{token_views, Token, TokenType};
use vstd::prelude::*;
use vstd::std_specs::cmp::PartialEqSpec;

verus! {

/// The tokens of `tokens` that are no whitespace, in their order.
pub open spec fn significant(tokens: Seq<Token>) -> Seq<Token> {
    tokens.filter(|token: Token| !(token is Whitespace))
}

/// Drops the whitespace tokens and keeps the others in their order.
pub fn without_whitespace(tokens: Vec<TokenType>) -> (kept: Vec<TokenType>)
    ensures
        token_views(kept@) == significant(token_views(tokens@)),
{
    let mut kept: Vec<TokenType> = Vec::new();
    let ghost all = tokens@;
    for token in it: tokens
        invariant
            it.seq() == all,
            token_views(kept@) == significant(token_views(all.take(it.index()))),
    {
        proof {
            let seen = token_views(all.take(it.index()));
            assert(token_views(all.take(it.index() + 1)) == seen.push(token@));
            seen.lemma_filter_push(token@, |token: Token| !(token is Whitespace));
            assert(token_views(kept@.push(token)) == token_views(kept@).push(token@));
        }
        match token {
            TokenType::Whitespace(_) => {},
            other => {
                kept.push(other);
            },
        }
    }
    proof {
        assert(all.take(all.len() as int) == all);
    }
    kept
}

/// A clause of a pipeline, as its first tokens tell it.
#[derive(Clone, Copy, Debug, PartialEq, Eq, Structural)]
pub enum Clause {
    /// A pipe, `stats` and `count`.
    StatsCount,
    /// A pipe and `by`.
    By,
    /// Neither of the two.
    Unknown,
}

/// The clause that `upcoming` begins with.
pub open spec fn clause_of(upcoming: Seq<Token>) -> Clause {
    if seq![Token::Pipe, Token::StatsKeyword, Token::CountKeyword].is_prefix_of(upcoming) {
        Clause::StatsCount
    } else if seq![Token::Pipe, Token::ByKeyword].is_prefix_of(upcoming) {
        Clause::By
    } else {
        Clause::Unknown
    }
}

/// Tokens begin with a pattern exactly where, taken as values, they begin
/// with the values of the pattern: variant and data both count.
pub proof fn lemma_begins_with_tokens(upcoming: Seq<TokenType>, pattern: Seq<TokenType>)
    ensures
        begins_with(upcoming, pattern) <==> token_views(pattern).is_prefix_of(
            token_views(upcoming),
        ),
{
    let values = token_views(upcoming);
    let wanted = token_views(pattern);
    if begins_with(upcoming, pattern) {
        assert forall|i: int| 0 <= i < wanted.len() implies values[i] == wanted[i] by {
            assert(upcoming[i].eq_spec(&pattern[i]));
        }
        assert(values.subrange(0, wanted.len() as int) == wanted);
    }
    if wanted.is_prefix_of(values) {
        assert forall|i: int| 0 <= i < pattern.len() implies (#[trigger] upcoming[i]).eq_spec(
            &pattern[i],
        ) by {
            assert(values.subrange(0, wanted.len() as int)[i] == wanted[i]);
        }
    }
}

/// Tells which clause the tokens ahead of `cursor` begin with, and leaves the
/// cursor where it was.
pub fn clause_ahead(cursor: &mut Cursor<TokenType>) -> (clause: Clause)
    ensures
        *final(cursor) == *old(cursor),
        clause == clause_of(token_views(old(cursor).upcoming())),
{
    let stats_count = [TokenType::Pipe, TokenType::StatsKeyword, TokenType::CountKeyword];
    let by = [TokenType::Pipe, TokenType::ByKeyword];
    proof {
        lemma_begins_with_tokens(cursor.upcoming(), stats_count@);
        lemma_begins_with_tokens(cursor.upcoming(), by@);
        assert(token_views(stats_count@) == seq![
            Token::Pipe,
            Token::StatsKeyword,
            Token::CountKeyword,
        ]);
        assert(token_views(by@) == seq![Token::Pipe, Token::ByKeyword]);
    }
    if cursor.multi_peek_check(&stats_count) {
        Clause::StatsCount
    } else if cursor.multi_peek_check(&by) {
        Clause::By
    } else {
        Clause::Unknown
    }
}

} // verus!
