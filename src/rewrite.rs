use vstd::prelude::*;
use crate::scan::{get_multi_tabs, groups_of, groups_view, groups_wf, tab_in_bounds, tabs_view};
use crate::tab::{content_markup, input_markup, label_markup, Tab, TabSpec, TabbedError};
use crate::token::{copy_token, Token, TokenView, view_tokens};

verus! {

/// Style and behaviour of the tab widget, appended once to every rewritten
/// document.
pub const SCAFFOLD: &'static str = r#"
<style>
    .tabbed-labels>input {
        display: none;
    }
</style>
<script>
    window.onload = () => {
        const tabs = document.querySelectorAll(".tabbed-labels>input");
        for (const tab of tabs) {
            tab.addEventListener("click", () => {
                if (tab.checked) {
                    return
                }
                const inputs = tab.closest(".tabbed-labels").querySelectorAll("input");
                for (const input of inputs) {
                    if (input.checked) {
                        document.querySelector(`#${input.id}_div`).style.display = "none";
                        input.checked = false
                    }
                }
                document.querySelector(`#${tab.id}_div`).style.display = "block";
                tab.checked = true
            })
        }
    }
</script>"#;

/// The tokens appended after every rewritten document.
pub open spec fn scaffold() -> Seq<TokenView> {
    seq![TokenView::Html(SCAFFOLD@)]
}

/// The controls of the first `m` tabs of group `gi`; only the first is
/// selected.
pub open spec fn controls(m: nat, gi: nat) -> Seq<TokenView> {
    Seq::new(m, |j: int| TokenView::Html(input_markup(gi, j as nat, j == 0)))
}

/// The labels of the first `m` tabs of group `gi`.
pub open spec fn labels(tabs: Seq<TabSpec>, m: nat, gi: nat) -> Seq<TokenView> {
    Seq::new(m, |j: int| TokenView::Html(label_markup(gi, j as nat, tabs[j].title)))
}

/// The content wrapper of tab `j` of group `gi`, holding the tab's input
/// tokens; only the first tab's wrapper is visible.
pub open spec fn panel(ev: Seq<TokenView>, t: TabSpec, gi: nat, j: nat) -> Seq<TokenView> {
    seq![TokenView::Html(content_markup(gi, j, j == 0)), TokenView::HardBreak]
        + ev.subrange(t.start, t.end + 1) + seq![TokenView::Html("</div>"@)]
}

/// The content wrappers of the first `m` tabs of group `gi`, in order.
pub open spec fn panels(ev: Seq<TokenView>, tabs: Seq<TabSpec>, gi: nat, m: nat) -> Seq<TokenView>
    decreases m,
{
    if m == 0 {
        seq![]
    } else {
        panels(ev, tabs, gi, (m - 1) as nat) + panel(ev, tabs[m - 1], gi, (m - 1) as nat)
    }
}

/// The tokens before the content wrappers of a widget with `n` tabs.
pub open spec fn widget_head(tabs: Seq<TabSpec>, gi: nat) -> Seq<TokenView> {
    seq![
        TokenView::Html("<div class=\"tabbed-set\">"@),
        TokenView::Html("<div class=\"tabbed-labels\">"@),
    ] + controls(tabs.len(), gi) + labels(tabs, tabs.len(), gi) + seq![
        TokenView::Html("</div>"@),
        TokenView::Html("<div class=\"tabbed-contents\">"@),
    ]
}

/// The tokens after the content wrappers of a widget.
pub open spec fn widget_tail() -> Seq<TokenView> {
    seq![TokenView::Html("</div>"@), TokenView::Html("</div>"@), TokenView::HardBreak]
}

/// The widget that replaces group `gi`.
pub open spec fn widget(ev: Seq<TokenView>, tabs: Seq<TabSpec>, gi: nat) -> Seq<TokenView> {
    widget_head(tabs, gi) + panels(ev, tabs, gi, tabs.len()) + widget_tail()
}

/// The rewrite of `ev` from `cursor` on, where groups `k..` are still to
/// come: what lies between groups is copied, and each group, from its first
/// header paragraph to its last content block, is replaced by its widget.
pub open spec fn rewrite_from(ev: Seq<TokenView>, gs: Seq<Seq<TabSpec>>, k: nat, cursor: int) -> Seq<TokenView>
    decreases gs.len() - k,
{
    if k >= gs.len() {
        ev.subrange(cursor, ev.len() as int)
    } else {
        ev.subrange(cursor, gs[k as int][0].start - 3) + widget(ev, gs[k as int], k)
            + rewrite_from(ev, gs, k + 1, gs[k as int].last().end + 1)
    }
}

/// The rewrite of a whole document with the given groups.
pub open spec fn rewrite(ev: Seq<TokenView>, gs: Seq<Seq<TabSpec>>) -> Seq<TokenView> {
    rewrite_from(ev, gs, 0, 0)
}

/// What becomes of a document: its rewrite followed by the scaffold, or the
/// start of the first content block that never closes.
pub open spec fn tabbed_spec(ev: Seq<TokenView>) -> Result<Seq<TokenView>, int> {
    match groups_of(ev) {
        Ok(gs) => Ok(rewrite(ev, gs) + scaffold()),
        Err(c) => Err(c),
    }
}

fn push_token(out: &mut Vec<Token>, t: Token)
    ensures
        view_tokens(final(out)@) == view_tokens(old(out)@).push(t@),
{
    out.push(t);
    assert(view_tokens(out@) =~= view_tokens(old(out)@).push(t@));
}

fn push_html(out: &mut Vec<Token>, s: &str)
    ensures
        view_tokens(final(out)@) == view_tokens(old(out)@).push(TokenView::Html(s@)),
{
    push_token(out, Token::Html(String::from_str(s)));
}

/// Appends copies of `events[from..to]` to `out`.
fn copy_range(events: &Vec<Token>, from: usize, to: usize, out: &mut Vec<Token>)
    requires
        from <= to <= events@.len(),
    ensures
        view_tokens(final(out)@) == view_tokens(old(out)@) + view_tokens(events@).subrange(
            from as int,
            to as int,
        ),
{
    let ghost ev = view_tokens(events@);
    let mut i: usize = from;
    while i < to
        invariant
            from <= i <= to <= events@.len(),
            ev == view_tokens(events@),
            view_tokens(out@) == view_tokens(old(out)@) + ev.subrange(from as int, i as int),
        decreases to - i,
    {
        let t = copy_token(&events[i]);
        push_token(out, t);
        assert(ev.subrange(from as int, i + 1) =~= ev.subrange(from as int, i as int).push(
            events@[i as int]@,
        ));
        i = i + 1;
    }
}

/// Appends the widget of group `gi` to `out`.
fn push_widget(events: &Vec<Token>, tabs: &Vec<Tab>, gi: usize, out: &mut Vec<Token>)
    requires
        forall|j: int| 0 <= j < tabs@.len() ==> tab_in_bounds(#[trigger] tabs@[j]@, events@.len() as int),
    ensures
        view_tokens(final(out)@) == view_tokens(old(out)@) + widget(
            view_tokens(events@),
            tabs_view(tabs@),
            gi as nat,
        ),
{
    let ghost ev = view_tokens(events@);
    let ghost ts = tabs_view(tabs@);
    let ghost base = view_tokens(out@);
    let n = tabs.len();
    let elen = events.len();
    push_html(out, "<div class=\"tabbed-set\">");
    push_html(out, "<div class=\"tabbed-labels\">");
    let ghost open = view_tokens(out@);
    let mut j: usize = 0;
    while j < n
        invariant
            j <= n == tabs@.len(),
            view_tokens(out@) == open + controls(j as nat, gi as nat),
        decreases n - j,
    {
        let t = tabs[j].input(gi, j, j == 0);
        push_token(out, t);
        assert(controls((j + 1) as nat, gi as nat) =~= controls(j as nat, gi as nat).push(t@));
        j = j + 1;
    }
    let ghost with_controls = view_tokens(out@);
    j = 0;
    while j < n
        invariant
            j <= n == tabs@.len(),
            ts == tabs_view(tabs@),
            view_tokens(out@) == with_controls + labels(ts, j as nat, gi as nat),
        decreases n - j,
    {
        let t = tabs[j].label(gi, j);
        push_token(out, t);
        assert(labels(ts, (j + 1) as nat, gi as nat) =~= labels(ts, j as nat, gi as nat).push(t@));
        j = j + 1;
    }
    push_html(out, "</div>");
    push_html(out, "<div class=\"tabbed-contents\">");
    assert(view_tokens(out@) =~= base + widget_head(ts, gi as nat));
    let ghost head = view_tokens(out@);
    j = 0;
    while j < n
        invariant
            j <= n == tabs@.len(),
            ts == tabs_view(tabs@),
            ev == view_tokens(events@),
            elen == events@.len(),
            forall|j: int| 0 <= j < tabs@.len() ==> tab_in_bounds(#[trigger] tabs@[j]@, events@.len() as int),
            view_tokens(out@) == head + panels(ev, ts, gi as nat, j as nat),
        decreases n - j,
    {
        let ghost before = view_tokens(out@);
        assert(tab_in_bounds(tabs@[j as int]@, events@.len() as int));
        let st = tabs[j].start;
        let e = tabs[j].end;
        let t = tabs[j].content(gi, j, j == 0);
        push_token(out, t);
        push_token(out, Token::HardBreak);
        copy_range(events, st, e + 1, out);
        push_html(out, "</div>");
        assert(view_tokens(out@) =~= before + panel(ev, ts[j as int], gi as nat, j as nat));
        assert(panels(ev, ts, gi as nat, (j + 1) as nat) == panels(ev, ts, gi as nat, j as nat)
            + panel(ev, ts[j as int], gi as nat, j as nat));
        j = j + 1;
    }
    push_html(out, "</div>");
    push_html(out, "</div>");
    push_token(out, Token::HardBreak);
    assert(view_tokens(out@) =~= base + widget(ev, ts, gi as nat));
}

/// Rewrites `events` with the given groups: copies what lies between them and
/// replaces each by its widget.
fn new_events(events: &Vec<Token>, mtabs: &Vec<Vec<Tab>>) -> (r: Vec<Token>)
    requires
        groups_wf(groups_view(mtabs@), events@.len() as int),
    ensures
        view_tokens(r@) == rewrite(view_tokens(events@), groups_view(mtabs@)),
{
    let ghost ev = view_tokens(events@);
    let ghost gs = groups_view(mtabs@);
    let len = events.len();
    let mut out: Vec<Token> = Vec::new();
    let mut index: usize = 0;
    let mut k: usize = 0;
    while k < mtabs.len()
        invariant
            ev == view_tokens(events@),
            gs == groups_view(mtabs@),
            len == events@.len(),
            groups_wf(gs, len as int),
            k <= mtabs@.len(),
            index <= len,
            k < gs.len() ==> index <= gs[k as int][0].start - 3,
            rewrite(ev, gs) == view_tokens(out@) + rewrite_from(ev, gs, k as nat, index as int),
        decreases mtabs@.len() - k,
    {
        let tabs = &mtabs[k];
        assert(gs[k as int] == tabs_view(tabs@));
        assert(gs[k as int].len() >= 2);
        assert(tab_in_bounds(gs[k as int][0], len as int));
        let last = tabs.len() - 1;
        assert(tab_in_bounds(gs[k as int][last as int], len as int));
        assert(forall|j: int| 0 <= j < tabs@.len() ==> #[trigger] tabs@[j]@ == gs[k as int][j]);
        let ghost before = view_tokens(out@);
        copy_range(events, index, tabs[0].start - 3, &mut out);
        push_widget(events, tabs, k, &mut out);
        let ghost prev = index;
        index = tabs[last].end + 1;
        assert(before + rewrite_from(ev, gs, k as nat, prev as int) =~= view_tokens(out@)
            + rewrite_from(ev, gs, (k + 1) as nat, index as int));
        k = k + 1;
    }
    copy_range(events, index, len, &mut out);
    out
}

/// Rewrites the tab groups of one document into tab widgets.
pub struct Tabbed {
    script: Vec<Token>,
}

impl Tabbed {
    /// The rewriter holds the scaffold that it appends.
    pub closed spec fn wf(&self) -> bool {
        view_tokens(self.script@) == scaffold()
    }

    pub fn new() -> (r: Self)
        ensures
            r.wf(),
    {
        let mut script: Vec<Token> = Vec::new();
        push_html(&mut script, SCAFFOLD);
        assert(view_tokens(script@) =~= scaffold());
        Tabbed { script }
    }

    /// Rewrites a document: every group of two or more adjacent tabs becomes a
    /// widget, everything else is copied, and the scaffold is appended. Fails
    /// where a tab's content block never closes.
    pub fn tabbed(&self, events: &Vec<Token>) -> (r: Result<Vec<Token>, TabbedError>)
        requires
            self.wf(),
        ensures
            match tabbed_spec(view_tokens(events@)) {
                Ok(out) => r matches Ok(v) && view_tokens(v@) == out,
                Err(c) => r == Err::<Vec<Token>, TabbedError>(TabbedError::UnbalancedBlock(c as usize)),
            },
    {
        let mtabs = match get_multi_tabs(events) {
            Ok(m) => m,
            Err(e) => {
                return Err(e);
            },
        };
        let mut out = new_events(events, &mtabs);
        copy_range(&self.script, 0, self.script.len(), &mut out);
        assert(view_tokens(self.script@).subrange(0, self.script@.len() as int) =~= view_tokens(
            self.script@,
        ));
        Ok(out)
    }
}

} // verus!
