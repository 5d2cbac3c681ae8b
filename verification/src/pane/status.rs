//! What is said of the search and of a display without rows.

use vstd::prelude::*;

use crate::chars::{decimal, decimal_text};
use crate::pane::{PaneView, ReceivePane};

verus! {

#[derive(Debug)]
pub enum SearchStatus {
    Busy,
    Failed(String),
    /// Nothing is searched for.
    Unused,
    /// The number of the selected match, or zero, and the number of matches.
    Found { selected: usize, count: usize, truncated: bool },
}

impl PaneView {
    /// The search has yet to come up with the matches of these rows.
    pub open spec fn search_unsettled(self) -> bool {
        self.search_busy() || !self.index_current()
    }
}

impl ReceivePane {
    pub fn search_status(&self) -> (status: SearchStatus)
        requires
            self.wf(),
        ensures
            ({
                let pane = self.inner();
                if pane.search_unsettled() {
                    status is Busy
                } else if pane.index.error is Some {
                    status matches SearchStatus::Failed(error) && error@ == pane.index.error->0
                } else if pane.query.len() == 0 {
                    status is Unused
                } else {
                    status == (SearchStatus::Found {
                        selected: match pane.selected {
                            Some(selected) => (selected + 1) as usize,
                            None => 0,
                        },
                        count: pane.index.matches.len() as usize,
                        truncated: pane.index.truncated,
                    })
                }
            }),
    {
        proof {
            self.selection_is_bounded();
        }
        if self.is_search_busy() || !self.search_index_is_current() {
            return SearchStatus::Busy;
        }
        let index = self.index();
        assert(self.inner().index.matches.len() == index.matches@.len());
        if let Some(error) = &index.error {
            return SearchStatus::Failed(error.clone());
        }
        if self.query.as_str().is_empty() {
            return SearchStatus::Unused;
        }
        let selected: usize = match self.selected_match() {
            Some(selected) => selected + 1,
            None => 0,
        };
        SearchStatus::Found { selected, count: index.matches.len(), truncated: index.truncated }
    }

    /// Whether the filter may be switched.
    pub fn can_filter(&self) -> (can: bool)
        requires
            self.wf(),
        ensures
            can == (self.inner().query.len() > 0 && !self.inner().search_unsettled()
                && self.inner().index.error is None),
    {
        !self.query.as_str().is_empty() && !self.is_search_busy() && self.search_index_is_current()
            && self.index().error.is_none()
    }

    /// Whether there is a match to go to.
    pub fn can_navigate(&self) -> (can: bool)
        requires
            self.wf(),
        ensures
            can == (!self.inner().search_unsettled() && self.inner().index.matches.len() > 0),
    {
        !self.is_search_busy() && self.search_index_is_current() && self.index().matches.len() > 0
    }

    /// What is shown in place of rows.
    pub fn placeholder(&self) -> (text: Option<&'static str>)
        requires
            self.wf(),
        ensures
            ({
                let pane = self.inner();
                if pane.rows.len() == 0 {
                    text matches Some(text) && text@ == if pane.paused {
                        "显示被暂停啦 >_<"@
                    } else {
                        "什么都没有哦 ˘o˘ ᶻᶻᶻ"@
                    }
                } else if pane.visible_rows().len() == 0 {
                    text matches Some(text) && text@ == if pane.search_busy() {
                        "正在搜索…"@
                    } else {
                        "没有匹配的接收数据"@
                    }
                } else {
                    text is None
                }
            }),
    {
        let rows = self.rows();
        assert(self.inner().rows.len() == rows@.len());
        if rows.len() == 0 {
            if self.is_paused() {
                Some("显示被暂停啦 >_<")
            } else {
                Some("什么都没有哦 ˘o˘ ᶻᶻᶻ")
            }
        } else if self.visible_row_count() == 0 {
            if self.is_search_busy() {
                Some("正在搜索…")
            } else {
                Some("没有匹配的接收数据")
            }
        } else {
            None
        }
    }
}

pub open spec fn status_text(status: SearchStatus) -> Seq<char> {
    match status {
        SearchStatus::Busy => "搜索中…"@,
        SearchStatus::Failed(_) => "表达式错误"@,
        SearchStatus::Unused => "—"@,
        SearchStatus::Found { selected, count, truncated } => decimal_text(selected as nat) + "/"@
            + decimal_text(count as nat) + if truncated {
            "+"@
        } else {
            Seq::empty()
        },
    }
}

impl SearchStatus {
    pub fn text(&self) -> (text: String)
        ensures
            text@ == status_text(*self),
    {
        match self {
            SearchStatus::Busy => "搜索中…".to_owned(),
            SearchStatus::Failed(_) => "表达式错误".to_owned(),
            SearchStatus::Unused => "—".to_owned(),
            SearchStatus::Found { selected, count, truncated } => {
                let mut text = decimal(*selected as u64);
                text.append("/");
                text.append(decimal(*count as u64).as_str());
                if *truncated {
                    text.append("+");
                }
                assert(text@ =~= status_text(*self));
                text
            },
        }
    }
}

} // verus!
