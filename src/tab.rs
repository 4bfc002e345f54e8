use vstd::prelude::*;
use crate::span::{block_end, skip_tag};
use crate::token::{Token, TokenView, TagKind, view_tokens};

verus! {

/// One tab: its title and the inclusive span of its content block.
#[derive(Debug)]
pub struct Tab {
    pub title: String,
    pub start: usize,
    pub end: usize,
}

/// The mathematical value of a tab.
pub struct TabSpec {
    pub title: Seq<char>,
    pub start: int,
    pub end: int,
}

impl View for Tab {
    type V = TabSpec;

    open spec fn view(&self) -> TabSpec {
        TabSpec { title: self.title@, start: self.start as int, end: self.end as int }
    }
}

/// The error of a document that cannot be rewritten.
#[derive(Debug, Clone, Copy, PartialEq, Eq, Structural)]
pub enum TabbedError {
    /// A tab's content block, which begins at this index, has no closing token
    /// before the sequence ends.
    UnbalancedBlock(usize),
}

/// The literal that opens a tab header: three equals signs and a space.
pub open spec fn marker() -> Seq<char> {
    seq!['=', '=', '=', ' ']
}

/// The title of the tab header paragraph at `p`, if there is one there: a
/// paragraph whose only token is a text of at least five characters that
/// begins with the marker.
pub open spec fn header_title(ev: Seq<TokenView>, p: int) -> Option<Seq<char>> {
    if 0 <= p && p + 2 < ev.len() && ev[p] == TokenView::Start(TagKind::Paragraph)
        && ev[p + 1] is Text && ev[p + 1]->Text_0.len() >= 5
        && ev[p + 1]->Text_0.subrange(0, 4) == marker()
        && ev[p + 2] == TokenView::End(TagKind::Paragraph) {
        Some(ev[p + 1]->Text_0.subrange(4, ev[p + 1]->Text_0.len() as int))
    } else {
        None
    }
}

/// What stands at `p`: no tab (`Ok(None)`), a tab whose content is the block
/// right after the header, or the start of a content block that never closes.
pub open spec fn tab_at(ev: Seq<TokenView>, p: int) -> Result<Option<TabSpec>, int> {
    match header_title(ev, p) {
        None => Ok(None),
        Some(title) => match block_end(ev, p + 3) {
            Some(e) => Ok(Some(TabSpec { title, start: p + 3, end: e })),
            None => Err(p + 3),
        },
    }
}

/// The characters of the decimal digits.
pub open spec fn digits() -> Seq<char> {
    seq!['0', '1', '2', '3', '4', '5', '6', '7', '8', '9']
}

/// The decimal notation of `n`, without leading zeros.
pub open spec fn decimal(n: nat) -> Seq<char>
    decreases n,
{
    if n < 10 {
        seq![digits()[n as int]]
    } else {
        decimal(n / 10).push(digits()[(n % 10) as int])
    }
}

/// The identifier shared by the control, the label and the content wrapper of
/// tab `j` in group `i`.
pub open spec fn ident(i: nat, j: nat) -> Seq<char> {
    "__tabbed_"@ + decimal(i) + "_"@ + decimal(j)
}

/// The selectable control of tab `j` in group `i`.
pub open spec fn input_markup(i: nat, j: nat, default: bool) -> Seq<char> {
    "<input"@ + (if default { " checked=\"true\""@ } else { ""@ }) + " id=\""@ + ident(i, j)
        + "\">"@
}

/// The label of tab `j` in group `i`, showing `title`.
pub open spec fn label_markup(i: nat, j: nat, title: Seq<char>) -> Seq<char> {
    "<label for=\""@ + ident(i, j) + "\">"@ + title + "</label>"@
}

/// The opening of the content wrapper of tab `j` in group `i`.
pub open spec fn content_markup(i: nat, j: nat, default: bool) -> Seq<char> {
    "<div id=\""@ + ident(i, j) + "_div\""@ + (if default { ""@ } else {
        " style=\"display: none;\""@
    }) + ">"@
}

/// Appends the decimal notation of `n` to `s`.
pub fn push_decimal(s: &mut String, n: usize)
    ensures
        final(s)@ == old(s)@ + decimal(n as nat),
    decreases n,
{
    if n >= 10 {
        push_decimal(s, n / 10);
    }
    let d: usize = n % 10;
    let all = "0123456789";
    proof {
        reveal_strlit("0123456789");
        assert(all@ =~= digits());
    }
    s.append(all.substring_char(d, d + 1));
    assert(all@.subrange(d as int, d + 1) =~= seq![digits()[d as int]]);
}

/// Appends the identifier of tab `j` in group `i` to `s`.
fn push_ident(s: &mut String, i: usize, j: usize)
    ensures
        final(s)@ == old(s)@ + ident(i as nat, j as nat),
{
    s.append("__tabbed_");
    push_decimal(s, i);
    s.append("_");
    push_decimal(s, j);
    assert(s@ =~= old(s)@ + ident(i as nat, j as nat));
}

impl Tab {
    /// Parses the tab whose header paragraph opens at `*s`. Where no header
    /// stands there, returns `Ok(None)` and leaves `*s` as it was; on a tab,
    /// leaves `*s` on the closing token of its content block.
    pub fn new(events: &Vec<Token>, s: &mut usize) -> (r: Result<Option<Tab>, TabbedError>)
        ensures
            match tab_at(view_tokens(events@), *old(s) as int) {
                Ok(None) => r == Ok::<Option<Tab>, TabbedError>(None) && *final(s) == *old(s),
                Ok(Some(t)) => r matches Ok(Some(tab)) && tab@ == t && *final(s) == tab.end,
                Err(c) => r == Err::<Option<Tab>, TabbedError>(TabbedError::UnbalancedBlock(c as usize))
                    && *final(s) == *old(s),
            },
            r matches Ok(Some(tab)) ==> tab.start == *old(s) + 3 && tab.start < tab.end
                < events@.len(),
    {
        let ghost ev = view_tokens(events@);
        let p = *s;
        let len = events.len();
        if p >= len || len - p < 3 {
            return Ok(None);
        }
        assert(ev[p as int] == events@[p as int]@);
        assert(ev[p + 1] == events@[p + 1]@);
        assert(ev[p + 2] == events@[p + 2]@);
        match &events[p] {
            Token::Start(TagKind::Paragraph) => {},
            _ => {
                return Ok(None);
            },
        }
        match &events[p + 2] {
            Token::End(TagKind::Paragraph) => {},
            _ => {
                return Ok(None);
            },
        }
        let text = match &events[p + 1] {
            Token::Text(t) => t.as_str(),
            _ => {
                return Ok(None);
            },
        };
        let n = text.unicode_len();
        if n < 5 || text.get_char(0) != '=' || text.get_char(1) != '=' || text.get_char(2) != '='
            || text.get_char(3) != ' ' {
            assert(header_title(ev, p as int) is None) by {
                if n >= 5 {
                    assert(text@.subrange(0, 4)[0] == text@[0]);
                    assert(text@.subrange(0, 4)[1] == text@[1]);
                    assert(text@.subrange(0, 4)[2] == text@[2]);
                    assert(text@.subrange(0, 4)[3] == text@[3]);
                }
            }
            return Ok(None);
        }
        assert(text@.subrange(0, 4) =~= marker());
        let title = String::from_str(text.substring_char(4, n));
        let mut c: usize = p + 3;
        match skip_tag(events, &mut c) {
            Some((start, end)) => {
                *s = end;
                Ok(Some(Tab { title, start, end }))
            },
            None => Err(TabbedError::UnbalancedBlock(p + 3)),
        }
    }

    /// The selectable control of this tab as tab `j` of group `i`, selected
    /// where `default` holds.
    pub fn input(&self, i: usize, j: usize, default: bool) -> (r: Token)
        ensures
            r@ == TokenView::Html(input_markup(i as nat, j as nat, default)),
    {
        let mut m = String::from_str("<input");
        if default {
            m.append(" checked=\"true\"");
        } else {
            m.append("");
        }
        m.append(" id=\"");
        push_ident(&mut m, i, j);
        m.append("\">");
        proof {
            assert(m@ =~= input_markup(i as nat, j as nat, default));
        }
        Token::Html(m)
    }

    /// The label of this tab as tab `j` of group `i`, showing its title.
    pub fn label(&self, i: usize, j: usize) -> (r: Token)
        ensures
            r@ == TokenView::Html(label_markup(i as nat, j as nat, self.title@)),
    {
        let mut m = String::from_str("<label for=\"");
        push_ident(&mut m, i, j);
        m.append("\">");
        m.append(self.title.as_str());
        m.append("</label>");
        proof {
            assert(m@ =~= label_markup(i as nat, j as nat, self.title@));
        }
        Token::Html(m)
    }

    /// The opening of this tab's content wrapper as tab `j` of group `i`,
    /// visible where `default` holds and hidden otherwise.
    pub fn content(&self, i: usize, j: usize, default: bool) -> (r: Token)
        ensures
            r@ == TokenView::Html(content_markup(i as nat, j as nat, default)),
    {
        let mut m = String::from_str("<div id=\"");
        push_ident(&mut m, i, j);
        m.append("_div\"");
        if default {
            m.append("");
        } else {
            m.append(" style=\"display: none;\"");
        }
        m.append(">");
        proof {
            assert(m@ =~= content_markup(i as nat, j as nat, default));
        }
        Token::Html(m)
    }
}

} // verus!
