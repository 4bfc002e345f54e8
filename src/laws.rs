use vstd::prelude::*;
use crate::rewrite::{panel, panels, rewrite, scaffold, tabbed_spec, widget, widget_head};
use crate::scan::{groups_from, groups_of, next_group, run_at};
use crate::span::{block_end, first_end, first_start};
use crate::tab::{content_markup, decimal, digits, header_title, ident, input_markup, tab_at, TabSpec};
use crate::token::{TagKind, TokenView};

verus! {

/// No tab header paragraph opens at or after `i`.
pub open spec fn no_headers_from(ev: Seq<TokenView>, i: int) -> bool {
    forall|q: int| i <= q ==> #[trigger] header_title(ev, q) is None
}

proof fn lemma_first_start_bounds(ev: Seq<TokenView>, i: int)
    ensures
        first_start(ev, i) matches Some(p) ==> i <= p < ev.len(),
    decreases ev.len() - i,
{
    if 0 <= i < ev.len() && !(ev[i] is Start) {
        lemma_first_start_bounds(ev, i + 1);
    }
}

proof fn lemma_first_end_bounds(ev: Seq<TokenView>, t: TagKind, i: int)
    ensures
        first_end(ev, t, i) matches Some(p) ==> i <= p < ev.len(),
    decreases ev.len() - i,
{
    if 0 <= i < ev.len() && ev[i] != TokenView::End(t) {
        lemma_first_end_bounds(ev, t, i + 1);
    }
}

/// A block found from cursor `c` closes after `c` and within the sequence.
pub proof fn lemma_block_end_bounds(ev: Seq<TokenView>, c: int)
    ensures
        block_end(ev, c) matches Some(e) ==> c < e < ev.len(),
{
    lemma_first_start_bounds(ev, c);
    if let Some(p) = first_start(ev, c) {
        lemma_first_end_bounds(ev, ev[p]->Start_0, p + 1);
    }
}

proof fn lemma_no_group(ev: Seq<TokenView>, i: int)
    requires
        no_headers_from(ev, i),
    ensures
        next_group(ev, i) == Ok::<Option<(Seq<TabSpec>, int)>, int>(None),
    decreases ev.len() - i,
{
    if 0 <= i < ev.len() {
        assert(header_title(ev, i) is None);
        lemma_no_group(ev, i + 1);
    }
}

/// A document without tab headers is left as it is; only the scaffold is
/// appended.
pub proof fn law_untouched(ev: Seq<TokenView>)
    requires
        no_headers_from(ev, 0),
    ensures
        tabbed_spec(ev) == Ok::<Seq<TokenView>, int>(ev + scaffold()),
{
    lemma_no_group(ev, 0);
    assert(groups_of(ev) == Ok::<Seq<Seq<TabSpec>>, int>(seq![]));
    assert(rewrite(ev, seq![]) =~= ev);
}

proof fn lemma_lone_header(ev: Seq<TokenView>, i: int, p: int)
    requires
        0 <= i <= p,
        header_title(ev, p) is Some,
        block_end(ev, p + 3) is Some,
        forall|q: int| i <= q && q != p ==> #[trigger] header_title(ev, q) is None,
    ensures
        next_group(ev, i) == Ok::<Option<(Seq<TabSpec>, int)>, int>(None),
    decreases p - i,
{
    if i < p {
        assert(header_title(ev, i) is None);
        lemma_lone_header(ev, i + 1, p);
    } else {
        lemma_block_end_bounds(ev, p + 3);
        let e = block_end(ev, p + 3)->Some_0;
        let t = tab_at(ev, p)->Ok_0->Some_0;
        let q = e + 1;
        assert(t.end == e);
        assert(p < q);
        if q < ev.len() && ev[q] == TokenView::Start(TagKind::Paragraph) {
            assert(header_title(ev, q) is None);
            assert(tab_at(ev, q) == Ok::<Option<TabSpec>, int>(None));
            assert(run_at(ev, q) == Ok::<(Seq<TabSpec>, int), int>((seq![], q)));
            assert(seq![t] + seq![] =~= seq![t]);
        }
        assert(run_at(ev, p) == Ok::<(Seq<TabSpec>, int), int>((seq![t], q)));
        assert(no_headers_from(ev, q));
        lemma_no_group(ev, q);
    }
}

/// A single tab header paragraph with its content block, with no other tab
/// header in the document, makes no widget: the document is left as it is.
pub proof fn law_lone_tab_untouched(ev: Seq<TokenView>, p: int)
    requires
        header_title(ev, p) is Some,
        block_end(ev, p + 3) is Some,
        forall|q: int| q != p ==> #[trigger] header_title(ev, q) is None,
    ensures
        tabbed_spec(ev) == Ok::<Seq<TokenView>, int>(ev + scaffold()),
{
    lemma_lone_header(ev, 0, p);
    assert(groups_of(ev) == Ok::<Seq<Seq<TabSpec>>, int>(seq![]));
    assert(rewrite(ev, seq![]) =~= ev);
}

proof fn lemma_first_run(ev: Seq<TokenView>, i: int, p: int)
    requires
        0 <= i <= p,
        forall|q: int| i <= q < p ==> #[trigger] header_title(ev, q) is None,
        run_at(ev, p) matches Ok((tabs, _)) && tabs.len() >= 2,
    ensures
        next_group(ev, i) == Ok::<Option<(Seq<TabSpec>, int)>, int>(Some(run_at(ev, p)->Ok_0)),
    decreases p - i,
{
    if i < p {
        assert(header_title(ev, i) is None);
        lemma_first_run(ev, i + 1, p);
    } else {
        assert(header_title(ev, p) is Some);
    }
}

/// A run of two or more adjacent tabs, with no tab header before it, is taken
/// whole as the document's first group.
pub proof fn law_run_is_one_group(ev: Seq<TokenView>, p: int)
    requires
        0 <= p,
        forall|q: int| 0 <= q < p ==> #[trigger] header_title(ev, q) is None,
        run_at(ev, p) matches Ok((tabs, _)) && tabs.len() >= 2,
    ensures
        next_group(ev, 0) == Ok::<Option<(Seq<TabSpec>, int)>, int>(Some(run_at(ev, p)->Ok_0)),
        groups_of(ev) matches Ok(gs) ==> gs.len() >= 1 && gs[0] == run_at(ev, p)->Ok_0.0,
{
    lemma_first_run(ev, 0, p);
}

proof fn lemma_panels_prefix(ev: Seq<TokenView>, tabs: Seq<TabSpec>, gi: nat, m1: nat, m2: nat)
    requires
        m1 <= m2,
    ensures
        panels(ev, tabs, gi, m1).len() <= panels(ev, tabs, gi, m2).len(),
        panels(ev, tabs, gi, m2).subrange(0, panels(ev, tabs, gi, m1).len() as int) == panels(
            ev,
            tabs,
            gi,
            m1,
        ),
    decreases m2,
{
    if m1 < m2 {
        lemma_panels_prefix(ev, tabs, gi, m1, (m2 - 1) as nat);
        let a = panels(ev, tabs, gi, (m2 - 1) as nat);
        let b = panel(ev, tabs[m2 - 1], gi, (m2 - 1) as nat);
        assert((a + b).subrange(0, panels(ev, tabs, gi, m1).len() as int) =~= a.subrange(
            0,
            panels(ev, tabs, gi, m1).len() as int,
        ));
    } else {
        assert(panels(ev, tabs, gi, m2).subrange(0, panels(ev, tabs, gi, m1).len() as int)
            =~= panels(ev, tabs, gi, m1));
    }
}

/// Where the content wrapper of tab `j` begins inside its group's widget.
pub open spec fn panel_offset(ev: Seq<TokenView>, tabs: Seq<TabSpec>, gi: nat, j: nat) -> int {
    (widget_head(tabs, gi).len() + panels(ev, tabs, gi, j).len()) as int
}

proof fn lemma_panel_in_widget(ev: Seq<TokenView>, tabs: Seq<TabSpec>, gi: nat, j: nat)
    requires
        j < tabs.len(),
    ensures
        ({
            let o = panel_offset(ev, tabs, gi, j);
            let pn = panel(ev, tabs[j as int], gi, j);
            o + pn.len() <= widget(ev, tabs, gi).len() && widget(ev, tabs, gi).subrange(
                o,
                o + pn.len(),
            ) == pn
        }),
{
    let n = tabs.len();
    lemma_panels_prefix(ev, tabs, gi, j + 1, n);
    let h = widget_head(tabs, gi);
    let all = panels(ev, tabs, gi, n);
    let upto = panels(ev, tabs, gi, j + 1);
    let before = panels(ev, tabs, gi, j);
    let pn = panel(ev, tabs[j as int], gi, j);
    assert(upto == before + pn);
    let w = widget(ev, tabs, gi);
    let o = (h.len() + before.len()) as int;
    assert(w.subrange(o, o + pn.len()) =~= all.subrange(before.len() as int, upto.len() as int));
    assert(all.subrange(before.len() as int, upto.len() as int) =~= upto.subrange(
        before.len() as int,
        upto.len() as int,
    ));
    assert(upto.subrange(before.len() as int, upto.len() as int) =~= pn);
}

/// Inside the widget, the content wrapper of each tab holds, after its opening
/// marker and a line break, exactly the tokens of the tab's content block in
/// the input, in order, and is closed right after them.
pub proof fn law_content_preserved(ev: Seq<TokenView>, tabs: Seq<TabSpec>, gi: nat, j: nat)
    requires
        j < tabs.len(),
        0 <= tabs[j as int].start <= tabs[j as int].end < ev.len(),
    ensures
        ({
            let o = panel_offset(ev, tabs, gi, j);
            let t = tabs[j as int];
            let w = widget(ev, tabs, gi);
            &&& o + 2 + (t.end + 1 - t.start) < w.len()
            &&& w.subrange(o + 2, o + 2 + (t.end + 1 - t.start)) == ev.subrange(t.start, t.end + 1)
            &&& w[o + 2 + (t.end + 1 - t.start)] == TokenView::Html("</div>"@)
        }),
{
    lemma_panel_in_widget(ev, tabs, gi, j);
    let o = panel_offset(ev, tabs, gi, j);
    let t = tabs[j as int];
    let w = widget(ev, tabs, gi);
    let pn = panel(ev, t, gi, j);
    let k = t.end + 1 - t.start;
    assert(pn.len() == k + 3);
    assert(w.subrange(o + 2, o + 2 + k) =~= pn.subrange(2, 2 + k));
    assert(pn.subrange(2, 2 + k) =~= ev.subrange(t.start, t.end + 1));
    assert(w[o + 2 + k] == pn[2 + k]);
}

/// In a widget, the control of tab `j` is selected and its content wrapper
/// visible exactly where `j` is the first tab.
pub proof fn law_default_selection(ev: Seq<TokenView>, tabs: Seq<TabSpec>, gi: nat, j: nat)
    requires
        j < tabs.len(),
    ensures
        widget(ev, tabs, gi)[2 + j as int] == TokenView::Html(input_markup(gi, j, j == 0)),
        widget(ev, tabs, gi)[panel_offset(ev, tabs, gi, j)] == TokenView::Html(
            content_markup(gi, j, j == 0),
        ),
{
    lemma_panel_in_widget(ev, tabs, gi, j);
    let o = panel_offset(ev, tabs, gi, j);
    let w = widget(ev, tabs, gi);
    let pn = panel(ev, tabs[j as int], gi, j);
    assert(w[o] == w.subrange(o, o + pn.len())[0]);
}

proof fn lemma_digit(d: int, e: int)
    requires
        0 <= d < 10,
        0 <= e < 10,
    ensures
        digits()[d] != '_',
        digits()[d] == digits()[e] ==> d == e,
{
    let s = digits();
    assert(s[0] == '0' && s[1] == '1' && s[2] == '2' && s[3] == '3' && s[4] == '4');
    assert(s[5] == '5' && s[6] == '6' && s[7] == '7' && s[8] == '8' && s[9] == '9');
}

proof fn lemma_decimal_shape(n: nat)
    ensures
        decimal(n).len() >= 1,
        n >= 10 ==> decimal(n).len() >= 2,
        forall|k: int| 0 <= k < decimal(n).len() ==> #[trigger] decimal(n)[k] != '_',
    decreases n,
{
    if n < 10 {
        lemma_digit(n as int, 0);
    } else {
        lemma_decimal_shape(n / 10);
        lemma_digit((n % 10) as int, 0);
        let d = decimal(n / 10);
        assert forall|k: int| 0 <= k < decimal(n).len() implies #[trigger] decimal(n)[k] != '_' by {
            if k < d.len() {
                assert(decimal(n)[k] == d[k]);
            }
        }
    }
}

proof fn lemma_decimal_injective(a: nat, b: nat)
    requires
        decimal(a) == decimal(b),
    ensures
        a == b,
    decreases a,
{
    lemma_decimal_shape(a);
    lemma_decimal_shape(b);
    if a < 10 && b < 10 {
        assert(decimal(a)[0] == digits()[a as int]);
        assert(decimal(b)[0] == digits()[b as int]);
        lemma_digit(a as int, b as int);
    } else if a >= 10 && b >= 10 {
        let x = decimal(a);
        assert(x.drop_last() =~= decimal(a / 10));
        assert(decimal(b).drop_last() =~= decimal(b / 10));
        lemma_decimal_injective(a / 10, b / 10);
        assert(x.last() == digits()[(a % 10) as int]);
        assert(decimal(b).last() == digits()[(b % 10) as int]);
        lemma_digit((a % 10) as int, (b % 10) as int);
        assert(a % 10 == b % 10);
        assert(a / 10 == b / 10);
        assert(a == 10 * (a / 10) + a % 10);
        assert(b == 10 * (b / 10) + b % 10);
    } else if a < 10 {
        assert(decimal(a).len() == 1);
    } else {
        assert(decimal(b).len() == 1);
    }
}

proof fn lemma_split_at_separator(d1: Seq<char>, d2: Seq<char>, e1: Seq<char>, e2: Seq<char>)
    requires
        forall|k: int| 0 <= k < d1.len() ==> #[trigger] d1[k] != '_',
        forall|k: int| 0 <= k < e1.len() ==> #[trigger] e1[k] != '_',
        d1 + seq!['_'] + d2 == e1 + seq!['_'] + e2,
    ensures
        d1 == e1,
        d2 == e2,
{
    let u = d1 + seq!['_'] + d2;
    let v = e1 + seq!['_'] + e2;
    if d1.len() < e1.len() {
        assert(u[d1.len() as int] == '_');
        assert(v[d1.len() as int] == e1[d1.len() as int]);
    } else if e1.len() < d1.len() {
        assert(v[e1.len() as int] == '_');
        assert(u[e1.len() as int] == d1[e1.len() as int]);
    } else {
        assert(d1 =~= u.subrange(0, d1.len() as int));
        assert(e1 =~= v.subrange(0, e1.len() as int));
        assert(d2 =~= u.subrange(d1.len() + 1int, u.len() as int));
        assert(e2 =~= v.subrange(e1.len() + 1int, v.len() as int));
    }
}

/// Identifiers are unique: two tabs share an identifier only where they have
/// the same group index and the same index within the group.
pub proof fn law_ident_unique(i1: nat, j1: nat, i2: nat, j2: nat)
    requires
        ident(i1, j1) == ident(i2, j2),
    ensures
        i1 == i2,
        j1 == j2,
{
    reveal_strlit("_");
    let pre = "__tabbed_"@;
    let u = decimal(i1) + seq!['_'] + decimal(j1);
    let v = decimal(i2) + seq!['_'] + decimal(j2);
    assert("_"@ =~= seq!['_']);
    assert(ident(i1, j1) =~= pre + u);
    assert(ident(i2, j2) =~= pre + v);
    assert(u =~= (pre + u).subrange(pre.len() as int, (pre + u).len() as int));
    assert(v =~= (pre + v).subrange(pre.len() as int, (pre + v).len() as int));
    lemma_decimal_shape(i1);
    lemma_decimal_shape(i2);
    lemma_split_at_separator(decimal(i1), decimal(j1), decimal(i2), decimal(j2));
    lemma_decimal_injective(i1, i2);
    lemma_decimal_injective(j1, j2);
}

} // verus!
