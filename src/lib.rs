//! Detection of tab blocks in a flat stream of markdown tokens, and their
//! rewriting into a tabbed widget.
//!
//! A tab is a paragraph whose only text is `=== Title`, followed by one block
//! of content. Two or more such tabs that follow each other directly form a
//! group; each group is replaced by switcher controls, labels and one content
//! wrapper per tab, with the tab's input tokens inside it unchanged.

mod laws;
mod rewrite;
mod scan;
mod span;
mod tab;
mod token;

pub use laws::{
    law_content_preserved, law_default_selection, law_ident_unique, law_lone_tab_untouched,
    law_run_is_one_group, law_untouched, lemma_block_end_bounds, no_headers_from, panel_offset,
};
pub use rewrite::{
    controls, labels, panel, panels, rewrite, rewrite_from, scaffold, tabbed_spec, widget,
    widget_head, widget_tail, Tabbed, SCAFFOLD,
};
pub use scan::{
    get_multi_tabs, groups_from, groups_of, groups_view, groups_wf, next_group, prepend_tabs,
    run_at, tab_in_bounds, tabs_view,
};
pub use span::{block_end, first_end, first_start, skip_tag};
pub use tab::{
    content_markup, decimal, digits, header_title, ident, input_markup, label_markup, marker,
    push_decimal, tab_at, Tab, TabSpec, TabbedError,
};
pub use token::{copy_token, view_tokens, TagKind, Token, TokenView};
