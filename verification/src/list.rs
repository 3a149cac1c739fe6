//! Lists of names, such as `수량, 금액` or `내부, 외부`. The scanner keeps a comma inside the word
//! it ends, so a list is cut after every word that ends in a comma: the comma is taken off the
//! word, which keeps its span, and a word that was only a comma leaves nothing behind.
use vstd::prelude::*;

use crate::declarations::{is_name_token, tokens_of};
use crate::parser::first_non_name;
use crate::scanner::{Token, TokenKind, TokenKindView, TokenView};
use crate::text::{chars_of, string_of};

verus! {

/// The word `t` ends a list item.
pub open spec fn ends_item(t: TokenView) -> bool {
    t.kind is Word && t.kind->Word_0.len() > 0 && t.kind->Word_0.last() == ','
}

/// The items so far, after one more token.
pub open spec fn split_step(items: Seq<Seq<TokenView>>, t: TokenView) -> Seq<Seq<TokenView>> {
    if ends_item(t) {
        let piece = t.kind->Word_0.drop_last();
        let current = if piece.len() > 0 {
            items.last().push(TokenView { kind: TokenKindView::Word(piece), span: t.span })
        } else {
            items.last()
        };
        items.drop_last().push(current).push(Seq::empty())
    } else {
        items.drop_last().push(items.last().push(t))
    }
}

/// The items of the first `n` tokens of `ts`.
pub open spec fn split_upto(ts: Seq<TokenView>, n: int) -> Seq<Seq<TokenView>>
    decreases n,
{
    if n <= 0 {
        seq![Seq::empty()]
    } else {
        split_step(split_upto(ts, n - 1), ts[n - 1])
    }
}

/// The items of a list: never empty, one more than the commas in it.
pub open spec fn comma_split(ts: Seq<TokenView>) -> Seq<Seq<TokenView>> {
    split_upto(ts, ts.len() as int)
}

pub open spec fn items_view(v: Seq<Vec<Token>>) -> Seq<Seq<TokenView>> {
    v.map_values(|item: Vec<Token>| item@.map_values(|t: Token| t@))
}

fn ends_in_comma(w: &str) -> (r: Option<(String, bool)>)
    ensures
        match r {
            Some((piece, nonempty)) => w@.len() > 0 && w@.last() == ',' && piece@ == w@.drop_last()
                && nonempty == (piece@.len() > 0),
            None => !(w@.len() > 0 && w@.last() == ','),
        },
{
    let cs = chars_of(w);
    if cs.len() > 0 && cs[cs.len() - 1] == ',' {
        let piece = string_of(cs.as_slice(), 0, cs.len() - 1);
        proof {
            assert(cs@.subrange(0, cs@.len() - 1) =~= w@.drop_last());
        }
        Some((piece, cs.len() > 1))
    } else {
        None
    }
}

/// Cuts a list into its items.
pub fn split_items(tokens: &[Token]) -> (items: Vec<Vec<Token>>)
    ensures
        items_view(items@) == comma_split(tokens_of(tokens)),
{
    let ghost ts = tokens_of(tokens);
    let mut items: Vec<Vec<Token>> = Vec::new();
    let mut current: Vec<Token> = Vec::new();
    let mut k: usize = 0;
    proof {
        assert(items_view(items@.push(current)) =~~= split_upto(ts, 0));
    }
    while k < tokens.len()
        invariant
            ts == tokens_of(tokens),
            k <= tokens@.len(),
            items_view(items@.push(current)) == split_upto(ts, k as int),
        decreases tokens@.len() - k,
    {
        let t = &tokens[k];
        let ghost before = split_upto(ts, k as int);
        proof {
            assert(ts[k as int] == t@);
            assert(before.drop_last() =~= items_view(items@));
            assert(before.last() == current@.map_values(|x: Token| x@));
        }
        let piece = match &t.kind {
            TokenKind::Word(w) => ends_in_comma(w.as_str()),
            _ => None,
        };
        match piece {
            Some((p, nonempty)) => {
                let ghost pv = p@;
                if nonempty {
                    current.push(Token { kind: TokenKind::Word(p), span: t.span });
                }
                proof {
                    assert(pv.len() > 0 ==> current@.map_values(|x: Token| x@) =~= before.last().push(
                        TokenView { kind: TokenKindView::Word(pv), span: t.span },
                    ));
                    assert(pv.len() == 0 ==> current@.map_values(|x: Token| x@) =~= before.last());
                }
                let ghost done = items@;
                let ghost cur_v = current@.map_values(|x: Token| x@);
                items.push(current);
                current = Vec::new();
                proof {
                    assert(items_view(items@) =~= items_view(done).push(cur_v));
                    assert(items_view(items@.push(current)) =~~= split_upto(ts, k + 1));
                }
            },
            None => {
                let c = crate::outline::copy_token(t);
                let ghost cur0 = current@;
                current.push(c);
                proof {
                    assert(current@.map_values(|x: Token| x@) =~= cur0.map_values(|x: Token| x@).push(t@));
                    assert(items_view(items@.push(current)) =~~= split_upto(ts, k + 1));
                }
            },
        }
        k = k + 1;
    }
    items.push(current);
    items
}

/// The position of the first token of `tokens` that cannot be part of a name, or its length.
pub fn first_non_name_at(tokens: &[Token]) -> (k: usize)
    ensures
        k as int == first_non_name(tokens_of(tokens), 0, tokens@.len() as int),
{
    let ghost ts = tokens_of(tokens);
    let n = tokens.len();
    let mut k: usize = 0;
    while k < n
        invariant
            ts == tokens_of(tokens),
            n == tokens@.len(),
            k <= n,
            first_non_name(ts, 0, n as int) == first_non_name(ts, k as int, n as int),
        decreases n - k,
    {
        assert(ts[k as int] == tokens@[k as int]@);
        if !is_name_token(&tokens[k]) {
            return k;
        }
        k = k + 1;
    }
    k
}

} // verus!
