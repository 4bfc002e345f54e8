use vstd::prelude::*;
use crate::token::{Token, TokenView, TagKind, view_tokens};

verus! {

/// The first index at or after `i` that holds a `Start` token.
pub open spec fn first_start(ev: Seq<TokenView>, i: int) -> Option<int>
    decreases ev.len() - i,
{
    if i < 0 || i >= ev.len() {
        None
    } else if ev[i] is Start {
        Some(i)
    } else {
        first_start(ev, i + 1)
    }
}

/// The first index at or after `i` that holds `End(tag)`.
pub open spec fn first_end(ev: Seq<TokenView>, tag: TagKind, i: int) -> Option<int>
    decreases ev.len() - i,
{
    if i < 0 || i >= ev.len() {
        None
    } else if ev[i] == TokenView::End(tag) {
        Some(i)
    } else {
        first_end(ev, tag, i + 1)
    }
}

/// The closing index of the block that begins at cursor `c`: the first `End`
/// of the same kind as the first `Start` found from `c` on. Nesting is not
/// counted, so an inner block of the same kind closes the outer one.
pub open spec fn block_end(ev: Seq<TokenView>, c: int) -> Option<int> {
    match first_start(ev, c) {
        Some(p) => first_end(ev, ev[p]->Start_0, p + 1),
        None => None,
    }
}

/// Finds the block that begins at `*s`. On success returns its inclusive span
/// and leaves `*s` on its closing token; where the sequence ends first, returns
/// `None` and leaves `*s` as it was.
pub fn skip_tag(events: &Vec<Token>, s: &mut usize) -> (r: Option<(usize, usize)>)
    ensures
        match block_end(view_tokens(events@), *old(s) as int) {
            Some(q) => r == Some((*old(s), q as usize)) && *final(s) == q,
            None => r is None && *final(s) == *old(s),
        },
        r matches Some(span) ==> span.0 < span.1 < events@.len(),
{
    let ghost ev = view_tokens(events@);
    let start = *s;
    let len = events.len();
    if start >= len {
        return None;
    }
    let mut i: usize = start;
    let mut tag: Option<TagKind> = None;
    let ghost mut p: int = 0;
    while i < len
        invariant
            ev == view_tokens(events@),
            len == events@.len(),
            start <= i <= len,
            start < len,
            *s == start,
            start == *old(s),
            tag is None ==> first_start(ev, start as int) == first_start(ev, i as int),
            tag matches Some(t) ==> {
                &&& first_start(ev, start as int) == Some(p)
                &&& start <= p < i
                &&& ev[p] == TokenView::Start(t)
                &&& first_end(ev, t, p + 1) == first_end(ev, t, i as int)
            },
        decreases len - i,
    {
        assert(ev[i as int] == events@[i as int]@);
        match &events[i] {
            Token::Start(t) => {
                if tag.is_none() {
                    tag = Some(*t);
                    proof {
                        p = i as int;
                    }
                }
            },
            Token::End(t) => {
                if let Some(ot) = tag {
                    if ot == *t {
                        assert(first_end(ev, ot, i as int) == Some(i as int));
                        *s = i;
                        return Some((start, i));
                    }
                }
            },
            _ => {},
        }
        i = i + 1;
    }
    None
}

} // verus!
