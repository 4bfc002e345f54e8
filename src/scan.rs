use vstd::prelude::*;
use crate::tab::{tab_at, Tab, TabSpec, TabbedError};
use crate::token::{Token, TokenView, TagKind, view_tokens};

verus! {

/// The values of a sequence of tabs.
pub open spec fn tabs_view(v: Seq<Tab>) -> Seq<TabSpec> {
    v.map_values(|t: Tab| t@)
}

/// The values of a sequence of groups.
pub open spec fn groups_view(v: Seq<Vec<Tab>>) -> Seq<Seq<TabSpec>> {
    v.map_values(|g: Vec<Tab>| tabs_view(g@))
}

/// `ts` put before the tabs of a run, errors passed on.
pub open spec fn prepend_tabs(ts: Seq<TabSpec>, r: Result<(Seq<TabSpec>, int), int>) -> Result<
    (Seq<TabSpec>, int),
    int,
> {
    match r {
        Ok((rest, next)) => Ok((ts + rest, next)),
        Err(c) => Err(c),
    }
}

/// The run of directly adjacent tabs whose first header opens at `p`, with
/// the index right after the run. A tab is followed by another only where the
/// token right after its content block opens a paragraph.
pub open spec fn run_at(ev: Seq<TokenView>, p: int) -> Result<(Seq<TabSpec>, int), int>
    decreases ev.len() - p,
{
    match tab_at(ev, p) {
        Err(c) => Err(c),
        Ok(None) => Ok((seq![], p)),
        Ok(Some(t)) => {
            let q = t.end + 1;
            if p < q < ev.len() && ev[q] == TokenView::Start(TagKind::Paragraph) {
                prepend_tabs(seq![t], run_at(ev, q))
            } else {
                Ok((seq![t], q))
            }
        },
    }
}

/// The first group of two or more tabs found scanning from `i`, with the index
/// right after it. A run of a single tab is passed over.
pub open spec fn next_group(ev: Seq<TokenView>, i: int) -> Result<Option<(Seq<TabSpec>, int)>, int>
    decreases ev.len() - i,
{
    if i < 0 || i >= ev.len() {
        Ok(None)
    } else if ev[i] != TokenView::Start(TagKind::Paragraph) {
        next_group(ev, i + 1)
    } else {
        match run_at(ev, i) {
            Err(c) => Err(c),
            Ok((tabs, next)) => if tabs.len() >= 2 {
                Ok(Some((tabs, next)))
            } else if tabs.len() == 1 && i < next <= ev.len() {
                next_group(ev, next)
            } else {
                next_group(ev, i + 1)
            },
        }
    }
}

/// All groups found scanning from `i` to the end, in order; or the start of
/// the first content block that never closes.
pub open spec fn groups_from(ev: Seq<TokenView>, i: int) -> Result<Seq<Seq<TabSpec>>, int>
    decreases ev.len() - i,
{
    match next_group(ev, i) {
        Err(c) => Err(c),
        Ok(None) => Ok(seq![]),
        Ok(Some((tabs, next))) => if i < next <= ev.len() {
            match groups_from(ev, next) {
                Err(c) => Err(c),
                Ok(gs) => Ok(seq![tabs] + gs),
            }
        } else {
            Ok(seq![tabs])
        },
    }
}

/// The groups of a whole document.
pub open spec fn groups_of(ev: Seq<TokenView>) -> Result<Seq<Seq<TabSpec>>, int> {
    groups_from(ev, 0)
}

/// Each tab's content lies within a sequence of `len` tokens, after room for
/// its header paragraph.
pub open spec fn tab_in_bounds(t: TabSpec, len: int) -> bool {
    3 <= t.start <= t.end < len
}

/// The groups hold two or more tabs each, lie within the sequence, and come in
/// order without overlap, each header run starting after the previous group.
pub open spec fn groups_wf(gs: Seq<Seq<TabSpec>>, len: int) -> bool {
    &&& forall|k: int| 0 <= k < gs.len() ==> #[trigger] gs[k].len() >= 2
    &&& forall|k: int, j: int|
        0 <= k < gs.len() && 0 <= j < gs[k].len() ==> tab_in_bounds(#[trigger] gs[k][j], len)
    &&& forall|k: int|
        0 < k < gs.len() ==> gs[k - 1].last().end + 1 <= #[trigger] gs[k][0].start - 3
}

/// Parses the run of adjacent tabs whose first header opens at `i`.
fn parse_run(events: &Vec<Token>, i: usize) -> (r: Result<(Vec<Tab>, usize), TabbedError>)
    ensures
        match run_at(view_tokens(events@), i as int) {
            Err(c) => r == Err::<(Vec<Tab>, usize), TabbedError>(TabbedError::UnbalancedBlock(c as usize)),
            Ok((ts, next)) => r matches Ok((v, n)) && tabs_view(v@) == ts && n == next,
        },
        r matches Ok((v, n)) ==> {
            &&& v@.len() == 0 ==> n == i
            &&& v@.len() > 0 ==> v@[0].start == i + 3 && n == v@.last().end + 1 && i < n
            &&& n <= events@.len() || v@.len() == 0
            &&& forall|j: int| 0 <= j < v@.len() ==> tab_in_bounds(#[trigger] v@[j]@, events@.len() as int)
        },
{
    let ghost ev = view_tokens(events@);
    let len = events.len();
    let mut tabs: Vec<Tab> = Vec::new();
    let mut p: usize = i;
    loop
        invariant
            ev == view_tokens(events@),
            len == events@.len(),
            i <= p,
            run_at(ev, i as int) == prepend_tabs(tabs_view(tabs@), run_at(ev, p as int)),
            tabs@.len() == 0 ==> p == i,
            tabs@.len() > 0 ==> tabs@[0].start == i + 3 && p == tabs@.last().end + 1 && i < p < len,
            forall|j: int| 0 <= j < tabs@.len() ==> tab_in_bounds(#[trigger] tabs@[j]@, len as int),
        decreases len - p,
    {
        let mut c: usize = p;
        match Tab::new(events, &mut c) {
            Err(e) => {
                return Err(e);
            },
            Ok(None) => {
                assert(tabs_view(tabs@) + seq![] =~= tabs_view(tabs@));
                return Ok((tabs, p));
            },
            Ok(Some(tab)) => {
                let q = tab.end + 1;
                let ghost t = tab@;
                let ghost before = tabs_view(tabs@);
                tabs.push(tab);
                assert(tabs_view(tabs@) =~= before + seq![t]);
                if q < len {
                    assert(ev[q as int] == events@[q as int]@);
                    if let Token::Start(TagKind::Paragraph) = &events[q] {
                        assert(run_at(ev, p as int) == prepend_tabs(seq![t], run_at(ev, q as int)));
                        assert(before + (seq![t] + seq![]) =~= (before + seq![t]) + seq![]);
                        assert(forall|a: Seq<TabSpec>| before + (seq![t] + a) =~= (before + seq![t]) + a);
                        p = q;
                        continue;
                    }
                }
                return Ok((tabs, q));
            },
        }
    }
}

/// Finds the first group of two or more tabs from `*s` on. On a group, leaves
/// `*s` right after its last content block; otherwise leaves `*s` as it was.
fn get_tabs(events: &Vec<Token>, s: &mut usize) -> (r: Result<Option<Vec<Tab>>, TabbedError>)
    ensures
        match next_group(view_tokens(events@), *old(s) as int) {
            Err(c) => r == Err::<Option<Vec<Tab>>, TabbedError>(TabbedError::UnbalancedBlock(c as usize)),
            Ok(None) => r is Ok && r->Ok_0 is None,
            Ok(Some((ts, next))) => r matches Ok(Some(v)) && tabs_view(v@) == ts && *final(s)
                == next,
        },
        r matches Ok(Some(v)) ==> {
            &&& v@.len() >= 2
            &&& *old(s) + 3 <= v@[0].start
            &&& *final(s) == v@.last().end + 1
            &&& *old(s) < *final(s) <= events@.len()
            &&& forall|j: int| 0 <= j < v@.len() ==> tab_in_bounds(#[trigger] v@[j]@, events@.len() as int)
        },
{
    let ghost ev = view_tokens(events@);
    let len = events.len();
    let mut i: usize = *s;
    if i >= len {
        return Ok(None);
    }
    while i < len
        invariant
            ev == view_tokens(events@),
            len == events@.len(),
            *old(s) <= i <= len,
            *s == *old(s),
            next_group(ev, *old(s) as int) == next_group(ev, i as int),
        decreases len - i,
    {
        assert(ev[i as int] == events@[i as int]@);
        if let Token::Start(TagKind::Paragraph) = &events[i] {
            match parse_run(events, i) {
                Err(e) => {
                    return Err(e);
                },
                Ok((tabs, next)) => {
                    proof {
                        if tabs@.len() > 0 {
                            assert(tab_in_bounds(tabs@[0]@, len as int));
                        }
                    }
                    if tabs.len() >= 2 {
                        *s = next;
                        return Ok(Some(tabs));
                    } else if tabs.len() == 1 {
                        i = next;
                    } else {
                        i = i + 1;
                    }
                },
            }
        } else {
            i = i + 1;
        }
    }
    Ok(None)
}

/// Finds every group of two or more adjacent tabs in the document, in order.
/// Fails where a tab's content block never closes.
pub fn get_multi_tabs(events: &Vec<Token>) -> (r: Result<Vec<Vec<Tab>>, TabbedError>)
    ensures
        match groups_of(view_tokens(events@)) {
            Err(c) => r == Err::<Vec<Vec<Tab>>, TabbedError>(TabbedError::UnbalancedBlock(c as usize)),
            Ok(gs) => r matches Ok(v) && groups_view(v@) == gs,
        },
        r matches Ok(v) ==> groups_wf(groups_view(v@), events@.len() as int),
{
    let ghost ev = view_tokens(events@);
    let len = events.len();
    let mut groups: Vec<Vec<Tab>> = Vec::new();
    let mut i: usize = 0;
    loop
        invariant
            ev == view_tokens(events@),
            len == events@.len(),
            i <= len,
            groups_from(ev, 0) == match groups_from(ev, i as int) {
                Err(c) => Err(c),
                Ok(gs) => Ok(groups_view(groups@) + gs),
            },
            groups_wf(groups_view(groups@), len as int),
            groups@.len() > 0 ==> groups_view(groups@).last().last().end + 1 <= i,
        decreases len - i,
    {
        let ghost old_i = i;
        match get_tabs(events, &mut i) {
            Err(e) => {
                return Err(e);
            },
            Ok(None) => {
                assert(groups_view(groups@) + seq![] =~= groups_view(groups@));
                return Ok(groups);
            },
            Ok(Some(tabs)) => {
                let ghost before = groups_view(groups@);
                let ghost g = tabs_view(tabs@);
                groups.push(tabs);
                assert(groups_view(groups@) =~= before + seq![g]);
                assert(forall|a: Seq<Seq<TabSpec>>| before + (seq![g] + a) =~= (before + seq![g]) + a);
            },
        }
    }
}

} // verus!
