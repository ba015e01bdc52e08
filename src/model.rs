//! The interactive session: cursor, selection, search, and the messages that drive them.
use vstd::prelude::*;
use crate::catalog::{endpoint_views, Endpoint, EndpointView, Status};
use crate::order::{lemma_sort_keeps, stable_sort_of};
use crate::search::{
    clone_all, description_scores, is_ranking, lower_of, path_scores, search_items, selected_first,
    sort_items_selected_first,
};
use crate::text::str_eq;

verus! {

/// Whether the session goes on.
#[derive(PartialEq, Eq, Structural, Clone, Copy, Debug)]
pub enum RunningState {
    Running,
    Done,
}

/// What the caller must do after a message: nothing, or write the trimmed document out.
#[derive(PartialEq, Eq, Structural, Clone, Copy, Debug)]
pub enum Action {
    Nothing,
    WriteOutput,
}

/// One user action.
pub enum Message {
    ClearSearch,
    GoToBottom,
    GoToTop,
    HideSearch,
    /// A key typed into the search field; holds the field's text after it.
    KeyPress(String),
    Quit,
    ScrollDown,
    ScrollUp,
    SelectNext,
    SelectNextPage,
    SelectPrevious,
    SelectPreviousPage,
    /// A click on a screen row of the table.
    SelectRow(u16),
    ShowSearch,
    ToggleSelectItemAndSelectNext,
    WriteAndQuit,
}

/// The state of a session.
pub struct AppModel {
    pub running_state: RunningState,
    /// The endpoints as shown: the whole list, or the search result.
    pub table_items: Vec<Endpoint>,
    /// The whole list, kept once a search has been opened.
    pub table_items_backup: Option<Vec<Endpoint>>,
    /// The cursor row.
    pub selected: Option<usize>,
    /// The first row shown.
    pub offset: usize,
    /// The height of the table on screen, borders and header included, once drawn.
    pub table_height: Option<u16>,
    pub search_active: bool,
}

/// The content of a session.
pub struct ModelView {
    pub running_state: RunningState,
    pub items: Seq<EndpointView>,
    pub backup: Option<Seq<EndpointView>>,
    pub selected: Option<usize>,
    pub offset: usize,
    pub table_height: Option<u16>,
    pub search_active: bool,
}

impl View for AppModel {
    type V = ModelView;

    open spec fn view(&self) -> ModelView {
        ModelView {
            running_state: self.running_state,
            items: endpoint_views(self.table_items@),
            backup: match self.table_items_backup {
                Some(b) => Some(endpoint_views(b@)),
                None => None,
            },
            selected: self.selected,
            offset: self.offset,
            table_height: self.table_height,
            search_active: self.search_active,
        }
    }
}

/// The number of table rows that show endpoints: the height less borders and header
/// (one row before the table is drawn), at most the number of endpoints.
pub open spec fn visible_rows(count: nat, table_height: Option<u16>) -> nat {
    let rows: nat = match table_height {
        Some(h) => if h >= 3 { (h - 3) as nat } else { 0 },
        None => 1,
    };
    if rows < count { rows } else { count }
}

/// The number of table rows that show endpoints.
pub fn calculate_visible_table_rows(count: usize, table_height: Option<u16>) -> (r: usize)
    ensures
        r == visible_rows(count as nat, table_height),
{
    let rows: usize = match table_height {
        Some(h) => h.saturating_sub(3) as usize,
        None => 1,
    };
    if rows < count { rows } else { count }
}

/// The list index under a clicked screen row, when the row lies between the header and
/// the table's last row (row one when the table has not been drawn yet).
pub open spec fn hit(row: u16, scroll_offset: usize, header_rows: u16, table_height: Option<u16>) -> Option<int> {
    let last: int = match table_height {
        Some(h) => if h >= 1 { h - 1 } else { 0 },
        None => 1,
    };
    if row < header_rows || row > last {
        None
    } else {
        Some(row - header_rows + scroll_offset)
    }
}

/// Maps a clicked screen row to a list index (see `hit`).
pub fn hit_test(row: u16, scroll_offset: usize, header_rows: u16, table_height: Option<u16>) -> (r: Option<usize>)
    ensures
        match r {
            Some(i) => hit(row, scroll_offset, header_rows, table_height) == Some(i as int),
            None => hit(row, scroll_offset, header_rows, table_height) is None || hit(row, scroll_offset, header_rows, table_height).unwrap() > usize::MAX,
        },
{
    let last: u16 = match table_height {
        Some(h) => h.saturating_sub(1),
        None => 1,
    };
    if row < header_rows || row > last {
        return None;
    }
    let row_index = (row - header_rows) as usize;
    row_index.checked_add(scroll_offset)
}

/// The other status.
pub open spec fn flipped(s: Status) -> Status {
    match s {
        Status::Selected => Status::Unselected,
        Status::Unselected => Status::Selected,
    }
}

/// An endpoint with another status.
pub open spec fn with_status(e: EndpointView, s: Status) -> EndpointView {
    EndpointView { status: s, ..e }
}

/// `r` is where `path` first occurs in `items`, or `None` when it does not occur.
pub open spec fn first_with_path(items: Seq<EndpointView>, path: Seq<char>, r: Option<int>) -> bool {
    match r {
        Some(i) => 0 <= i < items.len() && items[i].path == path && forall|j: int|
            0 <= j < i ==> (#[trigger] items[j]).path != path,
        None => forall|j: int| 0 <= j < items.len() ==> (#[trigger] items[j]).path != path,
    }
}

/// The list with the status of the first endpoint on `path` set to `s`.
pub open spec fn write_status(items: Seq<EndpointView>, path: Seq<char>, s: Status, at: Option<int>) -> Seq<EndpointView> {
    match at {
        Some(j) => items.update(j, with_status(items[j], s)),
        None => items,
    }
}

/// The cursor after a list was rebuilt: on the endpoint it was on before, when that is
/// still listed; otherwise on the first row; nowhere on an empty list.
pub open spec fn repaired(items: Seq<EndpointView>, previous: Option<Seq<char>>, selected: Option<usize>) -> bool {
    match previous {
        Some(p) if exists|j: int| 0 <= j < items.len() && (#[trigger] items[j]).path == p => match selected {
            Some(i) => first_with_path(items, p, Some(i as int)),
            None => false,
        },
        _ => if items.len() > 0 {
            selected == Some(0usize)
        } else {
            selected is None
        },
    }
}

/// The path under the cursor, if the cursor is on a row.
pub open spec fn cursor_path(m: ModelView) -> Option<Seq<char>> {
    match m.selected {
        Some(i) => if i < m.items.len() {
            Some(m.items[i as int].path)
        } else {
            None
        },
        None => None,
    }
}

/// The whole list a search works on: the kept list, or the shown one if none is kept yet.
pub open spec fn full_list(m: ModelView) -> Seq<EndpointView> {
    match m.backup {
        Some(b) => b,
        None => m.items,
    }
}

/// `b` is `a` after filtering with `query`: the whole list is kept, the shown list is the
/// search result over it (or all of it, selected first, for an empty query), and the
/// cursor is repaired.
pub open spec fn filtered(a: ModelView, query: Seq<char>, b: ModelView) -> bool {
    let full = full_list(a);
    let q = lower_of(query);
    &&& b.backup == Some(full)
    &&& query.len() == 0 ==> stable_sort_of(full, b.items, selected_first())
    &&& query.len() != 0 ==> is_ranking(full, path_scores(full, q), description_scores(full, q), b.items)
    &&& repaired(b.items, cursor_path(a), b.selected)
    &&& b.running_state == a.running_state
    &&& b.offset == a.offset
    &&& b.table_height == a.table_height
    &&& b.search_active == a.search_active
}

/// `b` is `a` with only the cursor moved to `selected`.
pub open spec fn moved_to(a: ModelView, b: ModelView, selected: Option<usize>) -> bool {
    b == ModelView { selected, ..a }
}

/// The cursor row, or the first row when there is none.
pub open spec fn cursor(a: ModelView) -> nat {
    match a.selected {
        Some(i) => i as nat,
        None => 0,
    }
}

/// The effect of toggling the endpoint under the cursor and moving on.
pub open spec fn toggled_and_moved(a: ModelView, b: ModelView) -> bool {
    let n = a.items.len();
    let i = a.selected.unwrap() as int;
    let p = a.items[i].path;
    let s = flipped(a.items[i].status);
    let shown = a.items.update(i, with_status(a.items[i], s));
    &&& b.backup == match a.backup {
        Some(bk) => Some(write_status(bk, p, s, choose|at: Option<int>| first_with_path(bk, p, at))),
        None => None,
    }
    &&& if a.search_active {
        &&& b.items == shown
        &&& b.selected == if i + 1 < n { Some((i + 1) as usize) } else { Some(i as usize) }
    } else {
        let focus = if i + 1 < n { a.items[i + 1].path } else { p };
        &&& stable_sort_of(shown, b.items, selected_first())
        &&& b.selected matches Some(k) && first_with_path(b.items, focus, Some(k as int))
    }
    &&& b.running_state == a.running_state
    &&& b.offset == a.offset
    &&& b.table_height == a.table_height
    &&& b.search_active == a.search_active
}

/// What one message does to a session, and what it asks of the caller.
pub open spec fn step(a: ModelView, msg: Message, b: ModelView, act: Action) -> bool {
    let n = a.items.len();
    let rows = visible_rows(n, a.table_height);
    &&& act == match msg {
        Message::WriteAndQuit => Action::WriteOutput,
        _ => Action::Nothing,
    }
    &&& match msg {
        Message::Quit | Message::WriteAndQuit => b == ModelView { running_state: RunningState::Done, ..a },
        Message::GoToTop => if n == 0 {
            b == a
        } else {
            b == ModelView { selected: Some(0usize), offset: 0usize, ..a }
        },
        Message::GoToBottom => if n == 0 {
            b == a
        } else {
            b == ModelView { selected: Some((n - 1) as usize), offset: (n - rows) as usize, ..a }
        },
        Message::SelectNext | Message::ScrollDown => if n > 0 && cursor(a) + 1 < n {
            moved_to(a, b, Some((cursor(a) + 1) as usize))
        } else {
            b == a
        },
        Message::SelectPrevious | Message::ScrollUp => if n > 0 && cursor(a) > 0 {
            moved_to(a, b, Some((cursor(a) - 1) as usize))
        } else {
            b == a
        },
        Message::SelectNextPage => if n == 0 {
            b == a
        } else {
            let t = cursor(a) + rows;
            moved_to(a, b, Some((if t < n { t } else { (n - 1) as nat }) as usize))
        },
        Message::SelectPreviousPage => if n == 0 {
            b == a
        } else {
            let t: nat = if cursor(a) >= rows { (cursor(a) - rows) as nat } else { 0 };
            moved_to(a, b, Some((if t < n { t } else { (n - 1) as nat }) as usize))
        },
        Message::SelectRow(row) => match hit(row, a.offset, 2, a.table_height) {
            Some(i) if i < n => moved_to(a, b, Some(i as usize)),
            _ => b == a,
        },
        Message::ToggleSelectItemAndSelectNext => if n == 0 || a.selected is None || a.selected.unwrap() >= n {
            b == a
        } else {
            toggled_and_moved(a, b)
        },
        Message::ShowSearch => b == ModelView { search_active: true, backup: Some(full_list(a)), ..a },
        Message::HideSearch => {
            &&& b.search_active == false
            &&& b.backup == a.backup
            &&& match a.backup {
                Some(bk) => stable_sort_of(bk, b.items, selected_first()),
                None => b.items == a.items,
            }
            &&& repaired(b.items, cursor_path(a), b.selected)
            &&& b.running_state == a.running_state
            &&& b.offset == a.offset
            &&& b.table_height == a.table_height
        },
        Message::ClearSearch => filtered(a, Seq::empty(), b),
        Message::KeyPress(text) => if a.search_active {
            filtered(a, text@, b)
        } else {
            b == a
        },
    }
}

/// An index as a mathematical integer.
pub open spec fn as_int(r: Option<usize>) -> Option<int> {
    match r {
        Some(i) => Some(i as int),
        None => None,
    }
}

/// The characters of an optional string.
pub open spec fn opt_text(r: Option<String>) -> Option<Seq<char>> {
    match r {
        Some(s) => Some(s@),
        None => None,
    }
}

proof fn lemma_first_with_path_unique(items: Seq<EndpointView>, path: Seq<char>, x: Option<int>, y: Option<int>)
    requires
        first_with_path(items, path, x),
        first_with_path(items, path, y),
    ensures
        x == y,
{
    match (x, y) {
        (Some(i), Some(j)) => {
            if i < j {
                assert(items[i].path != path);
            } else if j < i {
                assert(items[j].path != path);
            }
        },
        (Some(i), None) => {
            assert(items[i].path != path);
        },
        (None, Some(j)) => {
            assert(items[j].path != path);
        },
        (None, None) => {},
    }
}

/// Where `path` first occurs in `items`.
pub fn path_position(items: &Vec<Endpoint>, path: &str) -> (r: Option<usize>)
    ensures
        first_with_path(endpoint_views(items@), path@, as_int(r)),
{
    let ghost v = endpoint_views(items@);
    let mut i: usize = 0;
    while i < items.len()
        invariant
            v == endpoint_views(items@),
            0 <= i <= items@.len(),
            forall|j: int| 0 <= j < i ==> (#[trigger] v[j]).path != path@,
        decreases items@.len() - i,
    {
        if str_eq(items[i].path.as_str(), path) {
            return Some(i);
        }
        i = i + 1;
    }
    None
}

impl AppModel {
    /// A running session over `items`, with the cursor on the first row.
    pub fn new(items: Vec<Endpoint>) -> (r: AppModel)
        ensures
            r@ == (ModelView {
                running_state: RunningState::Running,
                items: endpoint_views(items@),
                backup: None,
                selected: if items@.len() > 0 { Some(0usize) } else { None },
                offset: 0,
                table_height: None,
                search_active: false,
            }),
    {
        let selected = if items.len() > 0 { Some(0) } else { None };
        AppModel {
            running_state: RunningState::Running,
            table_items: items,
            table_items_backup: None,
            selected,
            offset: 0,
            table_height: None,
            search_active: false,
        }
    }

    /// The path under the cursor, if the cursor is on a row.
    pub fn selected_path(&self) -> (r: Option<String>)
        ensures
            opt_text(r) == cursor_path(self@),
    {
        match self.selected {
            Some(i) => if i < self.table_items.len() {
                Some(self.table_items[i].path.clone())
            } else {
                None
            },
            None => None,
        }
    }

    /// Moves the cursor to the first endpoint on `path`, if there is one.
    pub fn maintain_selection(&mut self, path: &str)
        ensures
            ({
                let v = endpoint_views(old(self).table_items@);
                if exists|j: int| 0 <= j < v.len() && (#[trigger] v[j]).path == path@ {
                    final(self)@.selected matches Some(k) && first_with_path(v, path@, Some(k as int))
                } else {
                    final(self)@.selected == old(self)@.selected
                }
            }),
            final(self)@ == (ModelView { selected: final(self)@.selected, ..old(self)@ }),
    {
        match path_position(&self.table_items, path) {
            Some(i) => {
                self.selected = Some(i);
            },
            None => {},
        }
    }

    /// Puts the cursor back after the shown list was rebuilt (see `repaired`).
    pub fn repair_selection(&mut self, previous_path: Option<String>)
        ensures
            repaired(final(self)@.items, opt_text(previous_path), final(self)@.selected),
            final(self)@ == (ModelView { selected: final(self)@.selected, ..old(self)@ }),
    {
        match previous_path {
            Some(p) => match path_position(&self.table_items, p.as_str()) {
                Some(i) => {
                    self.selected = Some(i);
                    return;
                },
                None => {},
            },
            None => {},
        }
        if self.table_items.len() > 0 {
            self.selected = Some(0);
        } else {
            self.selected = None;
        }
    }

    /// Flips the status of the endpoint at `index`, in the shown list and in the kept list,
    /// and returns its path and new status; does nothing past the end of the list.
    pub fn toggle_item_status(&mut self, index: usize) -> (r: Option<(String, Status)>)
        ensures
            index >= old(self)@.items.len() ==> r is None && final(self)@ == old(self)@,
            index < old(self)@.items.len() ==> ({
                let a = old(self)@;
                let p = a.items[index as int].path;
                let s = flipped(a.items[index as int].status);
                &&& r matches Some(x) && x.0@ == p && x.1 == s
                &&& final(self)@.items == a.items.update(index as int, with_status(a.items[index as int], s))
                &&& final(self)@.backup == match a.backup {
                    Some(bk) => Some(write_status(bk, p, s, choose|at: Option<int>| first_with_path(bk, p, at))),
                    None => None,
                }
                &&& final(self)@ == (ModelView { items: final(self)@.items, backup: final(self)@.backup, ..a })
            }),
    {
        if index >= self.table_items.len() {
            return None;
        }
        let ghost a = self@;
        let path = self.table_items[index].path.clone();
        let new_status = match self.table_items[index].status {
            Status::Selected => Status::Unselected,
            Status::Unselected => Status::Selected,
        };
        let ghost e0 = self.table_items@[index as int];
        self.table_items[index].status = new_status;
        proof {
            assert(self.table_items@[index as int]@ == with_status(e0@, new_status));
            assert(endpoint_views(self.table_items@) =~= a.items.update(index as int, with_status(a.items[index as int], new_status)));
        }
        match &mut self.table_items_backup {
            Some(backup) => {
                let ghost bk = endpoint_views(backup@);
                let pos = path_position(backup, path.as_str());
                proof {
                    let c = choose|at: Option<int>| first_with_path(bk, path@, at);
                    assert(first_with_path(bk, path@, as_int(pos)));
                    lemma_first_with_path_unique(bk, path@, c, as_int(pos));
                }
                match pos {
                    Some(j) => {
                        let ghost b0 = backup@[j as int];
                        backup[j].status = new_status;
                        assert(backup@[j as int]@ == with_status(b0@, new_status));
                        assert(endpoint_views(backup@) =~= write_status(bk, path@, new_status, Some(j as int)));
                    },
                    None => {},
                }
            },
            None => {},
        }
        Some((path, new_status))
    }

    /// Shows the endpoints of the whole list that match `query` (see `filtered`), keeping
    /// the whole list aside the first time.
    pub fn filter_items(&mut self, query: &str)
        ensures
            filtered(old(self)@, query@, final(self)@),
    {
        let previous = self.selected_path();
        if self.table_items_backup.is_none() {
            self.table_items_backup = Some(clone_all(&self.table_items));
        }
        let shown = match &self.table_items_backup {
            Some(backup) => search_items(backup, query),
            None => Vec::new(),
        };
        self.table_items = shown;
        self.repair_selection(previous);
    }
}

/// The selected endpoints of a list, in list order.
pub open spec fn selected_of(items: Seq<EndpointView>) -> Seq<EndpointView>
    decreases items.len(),
{
    if items.len() == 0 {
        Seq::empty()
    } else if items.last().status == Status::Selected {
        selected_of(items.drop_last()).push(items.last())
    } else {
        selected_of(items.drop_last())
    }
}

impl AppModel {
    /// The endpoints chosen for the output: the selected ones of the whole list (not of a
    /// search result), in list order.
    pub fn selected_endpoints(&self) -> (r: Vec<&Endpoint>)
        ensures
            r@.map_values(|e: &Endpoint| e@) == selected_of(full_list(self@)),
    {
        let all = match &self.table_items_backup {
            Some(backup) => backup,
            None => &self.table_items,
        };
        let ghost v = endpoint_views(all@);
        let mut out: Vec<&Endpoint> = Vec::new();
        let mut i: usize = 0;
        while i < all.len()
            invariant
                v == endpoint_views(all@),
                0 <= i <= all@.len(),
                out@.map_values(|e: &Endpoint| e@) == selected_of(v.take(i as int)),
            decreases all@.len() - i,
        {
            let ghost o0 = out@;
            assert(v.take(i + 1).drop_last() =~= v.take(i as int));
            assert(v.take(i + 1).last() == all@[i as int]@);
            if all[i].status == Status::Selected {
                out.push(&all[i]);
                assert(out@.map_values(|e: &Endpoint| e@) =~= o0.map_values(|e: &Endpoint| e@).push(all@[i as int]@));
            }
            i = i + 1;
        }
        assert(v.take(i as int) =~= v);
        out
    }
}

/// Applies one message to the session (see `step`).
pub fn update(model: &mut AppModel, msg: Message) -> (r: Action)
    ensures
        step(old(model)@, msg, final(model)@, r),
{
    let ghost a = model@;
    let n = model.table_items.len();
    match msg {
        Message::WriteAndQuit => {
            model.running_state = RunningState::Done;
            Action::WriteOutput
        },
        Message::Quit => {
            model.running_state = RunningState::Done;
            Action::Nothing
        },
        Message::GoToTop => {
            if n > 0 {
                model.selected = Some(0);
                model.offset = 0;
            }
            Action::Nothing
        },
        Message::GoToBottom => {
            if n > 0 {
                let rows = calculate_visible_table_rows(n, model.table_height);
                model.selected = Some(n - 1);
                model.offset = n - rows;
            }
            Action::Nothing
        },
        Message::SelectNext | Message::ScrollDown => {
            let current = match model.selected {
                Some(i) => i,
                None => 0,
            };
            if n > 0 && current < n - 1 {
                model.selected = Some(current + 1);
            }
            Action::Nothing
        },
        Message::SelectPrevious | Message::ScrollUp => {
            let current = match model.selected {
                Some(i) => i,
                None => 0,
            };
            if n > 0 && current > 0 {
                model.selected = Some(current - 1);
            }
            Action::Nothing
        },
        Message::SelectNextPage => {
            if n > 0 {
                let rows = calculate_visible_table_rows(n, model.table_height);
                let current = match model.selected {
                    Some(i) => i,
                    None => 0,
                };
                let last = n - 1;
                let target = if current >= last || last - current <= rows {
                    last
                } else {
                    current + rows
                };
                model.selected = Some(target);
            }
            Action::Nothing
        },
        Message::SelectPreviousPage => {
            if n > 0 {
                let rows = calculate_visible_table_rows(n, model.table_height);
                let current = match model.selected {
                    Some(i) => i,
                    None => 0,
                };
                let back = if current >= rows { current - rows } else { 0 };
                let target = if back < n { back } else { n - 1 };
                model.selected = Some(target);
            }
            Action::Nothing
        },
        Message::SelectRow(row) => {
            match hit_test(row, model.offset, 2, model.table_height) {
                Some(i) => {
                    if i < n {
                        model.selected = Some(i);
                    }
                },
                None => {},
            }
            Action::Nothing
        },
        Message::ToggleSelectItemAndSelectNext => {
            let current = match model.selected {
                Some(i) => i,
                None => {
                    return Action::Nothing;
                },
            };
            if current >= n {
                return Action::Nothing;
            }
            let next_path = if current + 1 < n {
                Some(model.table_items[current + 1].path.clone())
            } else {
                None
            };
            let current_path = match model.toggle_item_status(current) {
                Some((path, _)) => path,
                None => {
                    return Action::Nothing;
                },
            };
            let ghost shown = model@.items;
            if current + 1 < n {
                model.selected = Some(current + 1);
            }
            if !model.search_active {
                let focused = match next_path {
                    Some(p) => p,
                    None => current_path,
                };
                let ghost fp = focused@;
                sort_items_selected_first(&mut model.table_items);
                proof {
                    let t: int = if current + 1 < n { current + 1 } else { current as int };
                    assert(shown[t].path == fp);
                    lemma_sort_keeps(shown, model@.items, selected_first(), t);
                }
                model.maintain_selection(focused.as_str());
            }
            Action::Nothing
        },
        Message::ShowSearch => {
            model.search_active = true;
            if model.table_items_backup.is_none() {
                model.table_items_backup = Some(clone_all(&model.table_items));
            }
            Action::Nothing
        },
        Message::HideSearch => {
            let previous = model.selected_path();
            model.search_active = false;
            match &model.table_items_backup {
                Some(backup) => {
                    let mut all = clone_all(backup);
                    sort_items_selected_first(&mut all);
                    model.table_items = all;
                },
                None => {},
            }
            model.repair_selection(previous);
            Action::Nothing
        },
        Message::ClearSearch => {
            proof {
                reveal_strlit("");
                assert(""@ =~= Seq::<char>::empty());
            }
            model.filter_items("");
            Action::Nothing
        },
        Message::KeyPress(text) => {
            if model.search_active {
                model.filter_items(text.as_str());
            }
            Action::Nothing
        },
    }
}

} // verus!
