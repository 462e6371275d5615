use vstd::prelude::*;
use crate::history::History;
use crate::listing::{SortCol, SortState};
use crate::selection::Selection;

verus! {

/// How a tab shows its folder.
#[derive(Clone, Copy, PartialEq, Eq, Structural, Debug)]
pub enum ViewMode {
    Icons,
    List,
}

/// What one tab keeps: where it has been, how it lists and sorts, what is selected,
/// and what was copied or cut (the paths, and whether they were cut).
pub struct TabState {
    pub history: History,
    pub show_hidden: bool,
    pub view_mode: ViewMode,
    pub search_text: String,
    pub clipboard: Option<(Vec<String>, bool)>,
    pub selected: Selection,
    pub sort: SortState,
    pub thumb_gen: u64,
}

impl TabState {
    /// A tab opened at `initial`: icons, hidden files not shown, no search, nothing
    /// selected or copied, sorted by name ascending.
    pub fn new(initial: String) -> (r: TabState)
        ensures
            r.history@ == (seq![initial@], 0int),
            !r.show_hidden,
            r.view_mode == ViewMode::Icons,
            r.search_text@ == Seq::<char>::empty(),
            r.clipboard is None,
            r.selected@ == Set::<Seq<(u8, Seq<char>)>>::empty(),
            r.sort == (SortState { col: SortCol::Name, asc: true }),
            r.thumb_gen == 0,
    {
        TabState {
            history: History::new(initial),
            show_hidden: false,
            view_mode: ViewMode::Icons,
            search_text: String::new(),
            clipboard: None,
            selected: Selection::new(),
            sort: SortState::new(),
            thumb_gen: 0,
        }
    }
}

} // verus!
