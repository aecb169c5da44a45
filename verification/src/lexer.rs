//! The lexer: the tokens of a whole text, in order, and what stopped it.

use crate::charclass::{run_length, CharSet};
use crate::decimal::{is_plain, lemma_decimal_digits_of_plain};
use crate::scanner::{
    classify, consumed, fault_at, fault_of, lemma_next_token_may_follow, lemma_token_fits,
    may_follow, scan_with_width, Fault,
};
use crate::text::chars_of;
use crate::token::{token_views, Token, TokenType};
use vstd::prelude::*;

verus! {

/// The tokens of `s`. While text is left, the token at its start is taken and
/// the text goes on behind the characters that the token was read from. The
/// tokens end where the text ends, or where the scanner gives `Empty` or
/// `Value`: that token is not kept and nothing behind it is read.
pub open spec fn tokenize(s: Seq<char>) -> Seq<Token>
    decreases s.len(),
    via tokenize_terminates
{
    let first = classify(s);
    if s.len() == 0 || first.ends_lexing() {
        Seq::empty()
    } else {
        seq![first] + tokenize(s.skip(consumed(s) as int))
    }
}

#[via_fn]
proof fn tokenize_terminates(s: Seq<char>) {
    lemma_token_fits(s);
}

/// The fault at which the tokens of `s` end, and none where they end with the
/// text.
pub open spec fn first_fault(s: Seq<char>) -> Option<Fault>
    decreases s.len(),
    via first_fault_terminates
{
    let first = classify(s);
    if s.len() == 0 || first.ends_lexing() {
        fault_at(s)
    } else {
        first_fault(s.skip(consumed(s) as int))
    }
}

#[via_fn]
proof fn first_fault_terminates(s: Seq<char>) {
    lemma_token_fits(s);
}

/// The number of characters of `s` that its tokens were read from: behind
/// them lexing stopped.
pub open spec fn lexed_length(s: Seq<char>) -> nat
    decreases s.len(),
    via lexed_length_terminates
{
    let first = classify(s);
    if s.len() == 0 || first.ends_lexing() {
        0
    } else {
        consumed(s) + lexed_length(s.skip(consumed(s) as int))
    }
}

#[via_fn]
proof fn lexed_length_terminates(s: Seq<char>) {
    lemma_token_fits(s);
}

/// The number of characters of `s` that its first `k` tokens were read from:
/// the place where the token after them begins.
pub open spec fn offset_of(s: Seq<char>, k: nat) -> nat
    decreases k,
{
    if k == 0 || s.len() == 0 || classify(s).ends_lexing() {
        0
    } else {
        consumed(s) + offset_of(s.skip(consumed(s) as int), (k - 1) as nat)
    }
}

/// The number of characters that a sequence of tokens takes when it is
/// written out: the sum of their widths.
pub open spec fn total_width(tokens: Seq<Token>) -> nat
    decreases tokens.len(),
{
    if tokens.len() == 0 {
        0
    } else {
        tokens[0].width() + total_width(tokens.drop_first())
    }
}

/// Whether every constant among the tokens of `s` was read from a numeric run
/// without needless zeros in front.
pub open spec fn plain_literals(s: Seq<char>) -> bool
    decreases s.len(),
    via plain_literals_terminates
{
    let first = classify(s);
    if s.len() == 0 || first.ends_lexing() {
        true
    } else {
        &&& first is Constant ==> is_plain(s.take(run_length(s, CharSet::Numeric) as int))
        &&& plain_literals(s.skip(consumed(s) as int))
    }
}

#[via_fn]
proof fn plain_literals_terminates(s: Seq<char>) {
    lemma_token_fits(s);
}

/// A place where the scanner recognised no token, and why.
#[derive(Clone, Copy, Debug, PartialEq, Eq, Structural)]
pub struct Diagnostic {
    /// The number of characters of the text before that place.
    pub position: usize,
    /// What is wrong at that place.
    pub fault: Fault,
}

/// What the lexer does at a fault.
#[derive(Clone, Copy, Debug, PartialEq, Eq, Structural)]
pub enum Recovery {
    /// It stops: the tokens are those before the fault.
    Stop,
    /// It skips the one character at which the fault stands and goes on
    /// behind it.
    SkipCharacter,
}

/// The outcome of lexing a text.
#[derive(Debug)]
pub struct Lexed {
    /// The tokens, in the order of the text.
    pub tokens: Vec<TokenType>,
    /// The faults that were met, in the order of the text. There is none
    /// exactly where the whole text was turned into tokens.
    pub diagnostics: Vec<Diagnostic>,
}

/// The tokens of `s` under a way of recovery. Up to the first fault they are
/// `tokenize(s)`. Where the lexer skips, the tokens of what stands behind the
/// character of the fault follow, under the same way of recovery.
pub open spec fn tokenize_with(s: Seq<char>, recovery: Recovery) -> Seq<Token>
    decreases s.len(),
    via tokenize_with_terminates
{
    if first_fault(s) is None || recovery is Stop {
        tokenize(s)
    } else {
        tokenize(s) + tokenize_with(s.skip(lexed_length(s) as int + 1), recovery)
    }
}

#[via_fn]
proof fn tokenize_with_terminates(s: Seq<char>, recovery: Recovery) {
    lemma_tokens_reach_first_fault(s);
}

/// The faults of `s` under a way of recovery, where `s` stands behind `before`
/// characters of a longer text and positions count from the start of that
/// text. The first is the fault that ends `tokenize(s)`, behind the
/// characters that those tokens were read from. Where the lexer skips, the
/// faults of what stands behind the character of that fault follow.
pub open spec fn diagnose_with(s: Seq<char>, recovery: Recovery, before: nat) -> Seq<Diagnostic>
    decreases s.len(),
    via diagnose_with_terminates
{
    match first_fault(s) {
        None => Seq::empty(),
        Some(fault) => {
            let stop = lexed_length(s);
            let here = Diagnostic { position: (before + stop) as usize, fault };
            if recovery is Stop {
                seq![here]
            } else {
                seq![here] + diagnose_with(s.skip(stop as int + 1), recovery, before + stop + 1)
            }
        },
    }
}

#[via_fn]
proof fn diagnose_with_terminates(s: Seq<char>, recovery: Recovery, before: nat) {
    lemma_tokens_reach_first_fault(s);
}

/// Lexing stops within the text, and where it stops the text has ended or
/// the scanner gives `Empty`: there stands the fault that `first_fault` tells.
pub proof fn lemma_tokens_reach_first_fault(s: Seq<char>)
    ensures
        lexed_length(s) <= s.len(),
        first_fault(s) == fault_at(s.skip(lexed_length(s) as int)),
        first_fault(s) is None <==> lexed_length(s) == s.len(),
        lexed_length(s) < s.len() ==> classify(s.skip(lexed_length(s) as int)) is Empty,
    decreases s.len(),
{
    let first = classify(s);
    lemma_token_fits(s);
    if s.len() == 0 || first.ends_lexing() {
        assert(s.skip(0) == s);
    } else {
        let rest = s.skip(consumed(s) as int);
        lemma_tokens_reach_first_fault(rest);
        assert(rest.skip(lexed_length(rest) as int) == s.skip(lexed_length(s) as int));
    }
}

/// Each token is what the scanner gives at the place behind the characters
/// that the tokens before it were read from, and the next token begins behind
/// the characters that it was read from itself.
pub proof fn lemma_token_at_offset(s: Seq<char>, k: nat)
    requires
        k < tokenize(s).len(),
    ensures
        offset_of(s, k) < s.len(),
        tokenize(s)[k as int] == classify(s.skip(offset_of(s, k) as int)),
        offset_of(s, k + 1) == offset_of(s, k) + consumed(s.skip(offset_of(s, k) as int)),
        offset_of(s, k + 1) <= s.len(),
    decreases k,
{
    let rest = s.skip(consumed(s) as int);
    lemma_token_fits(s);
    if k == 0 {
        assert(s.skip(0) == s);
        assert(offset_of(rest, 0) == 0);
    } else {
        let before = (k - 1) as nat;
        lemma_token_at_offset(rest, before);
        assert(tokenize(s)[k as int] == tokenize(rest)[before as int]);
        assert(rest.skip(offset_of(rest, before) as int) == s.skip(offset_of(s, k) as int));
    }
}

/// Behind the characters that all the tokens were read from, lexing stopped.
pub proof fn lemma_offset_of_all_tokens(s: Seq<char>)
    ensures
        offset_of(s, tokenize(s).len()) == lexed_length(s),
    decreases s.len(),
{
    let first = classify(s);
    lemma_token_fits(s);
    if s.len() == 0 || first.ends_lexing() {
    } else {
        lemma_offset_of_all_tokens(s.skip(consumed(s) as int));
    }
}

/// Where no fault ends lexing, the characters that the tokens were read from
/// are all the characters of the text.
pub proof fn lemma_consumed_widths_add_up(s: Seq<char>)
    requires
        first_fault(s) is None,
    ensures
        lexed_length(s) == s.len(),
        offset_of(s, tokenize(s).len()) == s.len(),
{
    lemma_tokens_reach_first_fault(s);
    lemma_offset_of_all_tokens(s);
}

/// Written out, the tokens take no more characters than they were read from,
/// and exactly as many where every constant was read from a run without
/// needless zeros in front.
pub proof fn lemma_widths_within_lexed_length(s: Seq<char>)
    ensures
        total_width(tokenize(s)) <= lexed_length(s),
        plain_literals(s) ==> total_width(tokenize(s)) == lexed_length(s),
    decreases s.len(),
{
    let first = classify(s);
    lemma_token_fits(s);
    if s.len() == 0 || first.ends_lexing() {
    } else {
        let rest = s.skip(consumed(s) as int);
        lemma_widths_within_lexed_length(rest);
        assert((seq![first] + tokenize(rest)).drop_first() == tokenize(rest));
        if plain_literals(s) && first is Constant {
            let literal = s.take(run_length(s, CharSet::Numeric) as int);
            lemma_decimal_digits_of_plain(literal);
        }
    }
}

/// Where no fault ends lexing and every constant was read from a run without
/// needless zeros in front, the widths of the tokens add up to the length of
/// the text.
pub proof fn lemma_widths_add_up(s: Seq<char>)
    requires
        first_fault(s) is None,
        plain_literals(s),
    ensures
        total_width(tokenize(s)) == s.len(),
{
    lemma_tokens_reach_first_fault(s);
    lemma_widths_within_lexed_length(s);
}

/// The lexer keeps no token at which it stops: neither `Empty` nor `Value`
/// is among the tokens of a text.
pub proof fn lemma_tokens_are_recognised(s: Seq<char>)
    ensures
        forall|i: int| 0 <= i < tokenize(s).len() ==> !(#[trigger] tokenize(s)[i]).ends_lexing(),
    decreases s.len(),
{
    let first = classify(s);
    lemma_token_fits(s);
    if s.len() == 0 || first.ends_lexing() {
    } else {
        let rest = tokenize(s.skip(consumed(s) as int));
        lemma_tokens_are_recognised(s.skip(consumed(s) as int));
        assert forall|i: int| 0 <= i < tokenize(s).len() implies !(#[trigger] tokenize(
            s,
        )[i]).ends_lexing() by {
            if i > 0 {
                assert(tokenize(s)[i] == rest[i - 1]);
            }
        }
    }
}

/// Runs are taken whole: each token of a text may follow the token before it.
/// No whitespace follows whitespace, no constant follows a constant, and
/// neither a name, a keyword nor a constant follows a name.
pub proof fn lemma_neighbours_may_follow(s: Seq<char>)
    ensures
        forall|i: int|
            0 <= i && i + 1 < tokenize(s).len() ==> may_follow(
                #[trigger] tokenize(s)[i],
                tokenize(s)[i + 1],
            ),
    decreases s.len(),
{
    let first = classify(s);
    lemma_token_fits(s);
    if s.len() == 0 || first.ends_lexing() {
    } else {
        let behind = s.skip(consumed(s) as int);
        let rest = tokenize(behind);
        lemma_neighbours_may_follow(behind);
        lemma_next_token_may_follow(s);
        assert forall|i: int| 0 <= i && i + 1 < tokenize(s).len() implies may_follow(
            #[trigger] tokenize(s)[i],
            tokenize(s)[i + 1],
        ) by {
            assert(tokenize(s)[i + 1] == rest[i]);
            if i > 0 {
                assert(tokenize(s)[i] == rest[i - 1]);
            } else {
                assert(rest[0] == classify(behind));
            }
        }
    }
}

/// The tokens of a text that begins with a token are that token and the
/// tokens of what stands behind the characters it was read from.
proof fn lemma_first_token(s: Seq<char>)
    requires
        s.len() > 0,
        !classify(s).ends_lexing(),
    ensures
        tokenize(s) == seq![classify(s)] + tokenize(s.skip(consumed(s) as int)),
        lexed_length(s) == consumed(s) + lexed_length(s.skip(consumed(s) as int)),
        first_fault(s) == first_fault(s.skip(consumed(s) as int)),
        1 <= consumed(s) <= s.len(),
{
    lemma_token_fits(s);
}

/// Appends the tokens of `text` to `tokens`, and tells the fault that ended
/// them with the number of characters before it in `text`.
fn lex_into(text: &[char], tokens: &mut Vec<TokenType>) -> (stopped: Option<(usize, Fault)>)
    ensures
        token_views(final(tokens)@) == token_views(old(tokens)@) + tokenize(text@),
        match stopped {
            Some((stop, fault)) => {
                &&& first_fault(text@) == Some(fault)
                &&& stop == lexed_length(text@)
                &&& stop < text@.len()
            },
            None => first_fault(text@) is None,
        },
{
    let len = text.len();
    let mut pointer: usize = 0;
    let ghost before = token_views(tokens@);
    let ghost mut found: Seq<Token> = Seq::empty();
    proof {
        assert(text@.skip(0) == text@);
        assert(before + found == before);
        assert(found + tokenize(text@) == tokenize(text@));
    }
    while pointer < len
        invariant
            len == text@.len(),
            pointer <= len,
            before == token_views(old(tokens)@),
            token_views(tokens@) == before + found,
            found + tokenize(text@.skip(pointer as int)) == tokenize(text@),
            first_fault(text@) == first_fault(text@.skip(pointer as int)),
            lexed_length(text@) == pointer + lexed_length(text@.skip(pointer as int)),
        decreases len - pointer,
    {
        let rest = &text[pointer..len];
        let (token, width) = scan_with_width(rest);
        proof {
            assert(rest@ == text@.skip(pointer as int));
            lemma_token_fits(rest@);
        }
        match token {
            TokenType::Empty | TokenType::Value(_) => {
                let fault = fault_of(rest);
                proof {
                    assert(found + Seq::<Token>::empty() == found);
                }
                return Some((pointer, fault));
            },
            _ => {
                proof {
                    lemma_first_token(rest@);
                    assert(rest@.skip(width as int) == text@.skip(pointer + width));
                    assert(token_views(tokens@.push(token)) == token_views(tokens@).push(token@));
                    assert(token_views(tokens@).push(token@) == before + found.push(token@));
                    assert(found.push(token@) + tokenize(rest@.skip(width as int)) == found + (
                    seq![token@] + tokenize(rest@.skip(width as int))));
                    found = found.push(token@);
                }
                pointer += width;
                tokens.push(token);
            },
        }
    }
    proof {
        assert(found + Seq::<Token>::empty() == found);
    }
    None
}

/// Lexes `source` under a way of recovery and reports the faults. The tokens
/// are `tokenize_with` of the characters of `source`, the diagnostics are
/// `diagnose_with` of them: under `Recovery::Stop` the tokens up to the first
/// fault and that fault alone, under `Recovery::SkipCharacter` all the tokens
/// that are found when one character is skipped at each fault, and each
/// fault. Positions count characters from the start of `source`.
pub fn lexer_with_recovery(source: &str, recovery: Recovery) -> (outcome: Lexed)
    ensures
        token_views(outcome.tokens@) == tokenize_with(source@, recovery),
        outcome.diagnostics@ == diagnose_with(source@, recovery, 0),
{
    let chars = chars_of(source);
    let text = chars.as_slice();
    let len = text.len();
    let mut tokens: Vec<TokenType> = Vec::new();
    let mut diagnostics: Vec<Diagnostic> = Vec::new();
    let mut start: usize = 0;
    proof {
        assert(text@.skip(0) == text@);
        assert(token_views(tokens@) + tokenize_with(text@, recovery) == tokenize_with(
            text@,
            recovery,
        ));
        assert(diagnostics@ + diagnose_with(text@, recovery, 0) == diagnose_with(
            text@,
            recovery,
            0,
        ));
    }
    loop
        invariant
            text@ == source@,
            len == text@.len(),
            start <= len,
            tokenize_with(text@, recovery) == token_views(tokens@) + tokenize_with(
                text@.skip(start as int),
                recovery,
            ),
            diagnose_with(text@, recovery, 0) == diagnostics@ + diagnose_with(
                text@.skip(start as int),
                recovery,
                start as nat,
            ),
        decreases len - start,
    {
        let rest = &text[start..len];
        let ghost before = token_views(tokens@);
        let ghost reported = diagnostics@;
        proof {
            assert(rest@ == text@.skip(start as int));
        }
        match lex_into(rest, &mut tokens) {
            None => {
                proof {
                    assert(reported + Seq::<Diagnostic>::empty() == reported);
                }
                return Lexed { tokens, diagnostics };
            },
            Some((stop, fault)) => {
                diagnostics.push(Diagnostic { position: start + stop, fault });
                match recovery {
                    Recovery::Stop => {
                        return Lexed { tokens, diagnostics };
                    },
                    Recovery::SkipCharacter => {
                        proof {
                            let behind = rest@.skip(stop + 1);
                            assert(behind == text@.skip(start + stop + 1));
                            assert(before + (tokenize(rest@) + tokenize_with(behind, recovery))
                                == (before + tokenize(rest@)) + tokenize_with(behind, recovery));
                            let here = Diagnostic { position: (start + stop) as usize, fault };
                            let later = diagnose_with(
                                behind,
                                recovery,
                                (start + stop + 1) as nat,
                            );
                            assert(reported + (seq![here] + later) == reported.push(here)
                                + later);
                        }
                        start = start + stop + 1;
                    },
                }
            },
        }
    }
}

/// Lexes `source`: the tokens from its start up to its end, or up to the first
/// place where the scanner recognises nothing. The result is `tokenize` of the
/// characters of `source`.
pub fn lexer(source: &str) -> (tokens: Vec<TokenType>)
    ensures
        token_views(tokens@) == tokenize(source@),
{
    let chars = chars_of(source);
    let mut tokens: Vec<TokenType> = Vec::new();
    let _ = lex_into(chars.as_slice(), &mut tokens);
    proof {
        assert(token_views(Seq::<TokenType>::empty()) + tokenize(source@) == tokenize(source@));
    }
    tokens
}

} // verus!
