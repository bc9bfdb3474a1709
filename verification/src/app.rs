//! The state of the watch list screen and how it answers keys, check
//! results and the periodic tick.
use vstd::prelude::*;

use crate::listing::{is_listing, list_order, listing_of, watches_view, SortColumn};
use crate::models::{
    chrono_whole_seconds, fresh_watch, plain_time, seconds_between, whole_seconds_between, ModeView,
    Timestamp, TrackingMode, Watch, WatchView, DEFAULT_INTERVAL_SECONDS,
};
use crate::text::{
    chars_of, decimal_digits, decimal_string, is_digit, is_digit_char, join_strings, joined,
    keyword_list, parse_u64, parsed_u64, plain_keyword, pop_char, push_char, split_keywords, string_of,
    strings_view, trim_chars, trimmed,
};

verus! {

/// What the keyboard currently drives.
#[derive(Clone, Copy, Debug, PartialEq, Eq, Structural)]
pub enum InputMode {
    Normal,
    Editing,
    Details,
    ConfirmDelete,
    Search,
}

/// The field of the watch form that has the focus.
#[derive(Clone, Copy, Debug, PartialEq, Eq, Structural)]
pub enum InputField {
    Name,
    Url,
    Interval,
    Mode,
    Advanced,
}

/// A key press.
#[derive(Clone, Copy, Debug, PartialEq, Eq, Structural)]
pub enum Key {
    Char(char),
    Enter,
    Esc,
    Up,
    Down,
    Backspace,
    Other,
}

/// What the caller has to do after the state changed.
#[derive(Clone, Copy, Debug, PartialEq, Eq, Structural)]
pub enum Effect {
    Nothing,
    /// Leave the program.
    Quit,
    /// Store the watches.
    Save,
    /// Check the watch at this index in the background.
    StartCheck(usize),
    /// Check every marked watch in the background.
    StartMarkedChecks,
}

/// The number of tracking modes the form offers.
pub const MODE_COUNT: usize = 5;

/// Automatic checks are considered at most this often, in milliseconds.
pub const TICK_MILLIS: u128 = 5000;

/// The watch list screen.
pub struct App {
    pub watches: Vec<Watch>,
    /// The selected row of the list, counted in listing order.
    pub selected: Option<usize>,
    pub input_mode: InputMode,
    pub input_field: InputField,
    pub name_input: String,
    pub url_input: String,
    pub interval_input: String,
    pub advanced_input: String,
    pub search_query: String,
    pub mode_selection: usize,
    pub editing_watch_index: Option<usize>,
    pub pending_checks: usize,
    pub scroll: u16,
    pub is_paused: bool,
    pub sort_column: SortColumn,
    pub sort_ascending: bool,
    /// The indices of the watches marked for bulk actions, in the order
    /// they were marked.
    pub marked: Vec<usize>,
}

#[verifier::ext_equal]
pub struct AppView {
    pub watches: Seq<WatchView>,
    pub selected: Option<usize>,
    pub input_mode: InputMode,
    pub input_field: InputField,
    pub name_input: Seq<char>,
    pub url_input: Seq<char>,
    pub interval_input: Seq<char>,
    pub advanced_input: Seq<char>,
    pub search_query: Seq<char>,
    pub mode_selection: usize,
    pub editing_watch_index: Option<usize>,
    pub pending_checks: usize,
    pub scroll: u16,
    pub is_paused: bool,
    pub sort_column: SortColumn,
    pub sort_ascending: bool,
    pub marked: Seq<usize>,
}

impl View for App {
    type V = AppView;

    open spec fn view(&self) -> AppView {
        AppView {
            watches: watches_view(self.watches@),
            selected: self.selected,
            input_mode: self.input_mode,
            input_field: self.input_field,
            name_input: self.name_input@,
            url_input: self.url_input@,
            interval_input: self.interval_input@,
            advanced_input: self.advanced_input@,
            search_query: self.search_query@,
            mode_selection: self.mode_selection,
            editing_watch_index: self.editing_watch_index,
            pending_checks: self.pending_checks,
            scroll: self.scroll,
            is_paused: self.is_paused,
            sort_column: self.sort_column,
            sort_ascending: self.sort_ascending,
            marked: self.marked@,
        }
    }
}

// ---------------------------------------------------------------------------
// The state machine, stated over views
// ---------------------------------------------------------------------------

/// The indices of the watches shown, in the order shown.
pub open spec fn listing(s: AppView) -> Seq<usize> {
    listing_of(s.watches, s.search_query, s.sort_column, s.sort_ascending)
}

/// The screen when it opens on `watches`: the first row selected, if any.
pub open spec fn opened(watches: Seq<WatchView>) -> AppView {
    AppView {
        watches,
        selected: if watches.len() > 0 {
            Some(0)
        } else {
            None
        },
        input_mode: InputMode::Normal,
        input_field: InputField::Name,
        name_input: Seq::empty(),
        url_input: Seq::empty(),
        interval_input: Seq::empty(),
        advanced_input: Seq::empty(),
        search_query: Seq::empty(),
        mode_selection: 0,
        editing_watch_index: None,
        pending_checks: 0,
        scroll: 0,
        is_paused: false,
        sort_column: SortColumn::Name,
        sort_ascending: true,
        marked: Seq::empty(),
    }
}

/// The row below the selected one, wrapping to the first.
pub open spec fn next_position(selected: Option<usize>, count: int) -> int {
    match selected {
        Some(i) => if i >= count - 1 {
            0
        } else {
            i + 1
        },
        None => 0,
    }
}

/// The row above the selected one, wrapping to the last.
pub open spec fn previous_position(selected: Option<usize>, count: int) -> int {
    match selected {
        Some(i) => if i == 0 {
            count - 1
        } else {
            i - 1
        },
        None => 0,
    }
}

/// `watches` with the change of the watch at `i` marked as seen.
pub open spec fn mark_seen(watches: Seq<WatchView>, i: int) -> Seq<WatchView> {
    watches.update(i, WatchView { has_unread_change: false, ..watches[i] })
}

/// Selects row `pos` and marks the change of the watch shown there as seen.
pub open spec fn select_row(s: AppView, pos: int) -> AppView {
    let order = listing(s);
    AppView {
        selected: Some(pos as usize),
        watches: if 0 <= pos < order.len() {
            mark_seen(s.watches, order[pos] as int)
        } else {
            s.watches
        },
        ..s
    }
}

pub open spec fn after_next(s: AppView) -> AppView {
    let count = listing(s).len() as int;
    if count == 0 {
        s
    } else {
        select_row(s, next_position(s.selected, count))
    }
}

pub open spec fn after_previous(s: AppView) -> AppView {
    let count = listing(s).len() as int;
    if count == 0 {
        s
    } else {
        select_row(s, previous_position(s.selected, count))
    }
}

/// The next sort setting: name, last checked, success rate ascending, then
/// success rate descending, then back to name ascending.
pub open spec fn next_sort(column: SortColumn, ascending: bool) -> (SortColumn, bool) {
    match column {
        SortColumn::Name => (SortColumn::LastChecked, ascending),
        SortColumn::LastChecked => (SortColumn::SuccessRate, ascending),
        SortColumn::SuccessRate => if ascending {
            (SortColumn::SuccessRate, false)
        } else {
            (SortColumn::Name, true)
        },
    }
}

/// The form's tracking-mode choice one down, wrapping.
pub open spec fn mode_down(m: usize) -> usize {
    ((m + 1) % (MODE_COUNT as int)) as usize
}

/// The form's tracking-mode choice one up, wrapping.
pub open spec fn mode_up(m: usize) -> usize {
    if m == 0 {
        (MODE_COUNT - 1) as usize
    } else {
        (m - 1) as usize
    }
}

/// The position of a tracking mode in the form's list.
pub open spec fn mode_index(m: ModeView) -> usize {
    match m {
        ModeView::FullPage => 0,
        ModeView::Price { .. } => 1,
        ModeView::Availability { .. } => 2,
        ModeView::Keyword { .. } => 3,
        ModeView::HtmlSection { .. } => 4,
    }
}

/// What the form's advanced field shows for a tracking mode.
pub open spec fn advanced_text(m: ModeView) -> Seq<char> {
    match m {
        ModeView::Keyword { keywords } => joined(keywords, ", "@),
        ModeView::HtmlSection { selector } => selector,
        _ => Seq::empty(),
    }
}

/// An empty form for a new watch.
pub open spec fn new_form(s: AppView) -> AppView {
    AppView {
        input_mode: InputMode::Editing,
        input_field: InputField::Name,
        editing_watch_index: None,
        name_input: Seq::empty(),
        url_input: Seq::empty(),
        interval_input: Seq::empty(),
        advanced_input: Seq::empty(),
        mode_selection: 0,
        ..s
    }
}

/// The form filled in from the watch at index `i`, to edit it.
pub open spec fn edit_form(s: AppView, i: usize) -> AppView {
    let w = s.watches[i as int];
    AppView {
        input_mode: InputMode::Editing,
        input_field: InputField::Name,
        editing_watch_index: Some(i),
        name_input: w.name,
        url_input: w.url,
        interval_input: decimal_digits(w.interval_seconds as nat),
        mode_selection: mode_index(w.mode),
        advanced_input: advanced_text(w.mode),
        ..s
    }
}

/// The form closed and emptied.
pub open spec fn cleared_form(s: AppView) -> AppView {
    AppView {
        name_input: Seq::empty(),
        url_input: Seq::empty(),
        advanced_input: Seq::empty(),
        interval_input: Seq::empty(),
        mode_selection: 0,
        editing_watch_index: None,
        input_mode: InputMode::Normal,
        input_field: InputField::Name,
        ..s
    }
}

/// The form can be submitted: name and URL are not blank.
pub open spec fn form_complete(s: AppView) -> bool {
    trimmed(s.name_input).len() > 0 && trimmed(s.url_input).len() > 0
}

/// The interval the form gives: the number typed, or one hour.
pub open spec fn form_interval(s: AppView) -> u64 {
    match parsed_u64(s.interval_input) {
        Some(n) => n,
        None => DEFAULT_INTERVAL_SECONDS,
    }
}

/// The tracking mode the form gives.
pub open spec fn form_mode(s: AppView) -> ModeView {
    if s.mode_selection == 1 {
        ModeView::Price { selector: None }
    } else if s.mode_selection == 2 {
        ModeView::Availability {
            in_stock_keywords: Seq::empty(),
            out_of_stock_keywords: Seq::empty(),
        }
    } else if s.mode_selection == 3 {
        ModeView::Keyword { keywords: keyword_list(s.advanced_input) }
    } else if s.mode_selection == 4 {
        ModeView::HtmlSection { selector: trimmed(s.advanced_input) }
    } else {
        ModeView::FullPage
    }
}

/// The watches after a complete form is applied: the watch being edited
/// takes the form's name, URL, interval and mode (nothing happens if it is
/// gone); otherwise a new watch with identifier `id` is added and selected.
pub open spec fn form_applied(s: AppView, id: u128) -> AppView {
    match s.editing_watch_index {
        Some(index) => if index < s.watches.len() {
            AppView {
                watches: s.watches.update(
                    index as int,
                    WatchView {
                        name: s.name_input,
                        url: s.url_input,
                        interval_seconds: form_interval(s),
                        mode: form_mode(s),
                        ..s.watches[index as int]
                    },
                ),
                ..s
            }
        } else {
            s
        },
        None => AppView {
            watches: s.watches.push(
                WatchView {
                    interval_seconds: form_interval(s),
                    ..fresh_watch(s.name_input, s.url_input, form_mode(s), id)
                },
            ),
            selected: Some(s.watches.len() as usize),
            ..s
        },
    }
}

/// The screen after the form is submitted: applied when complete, then
/// closed and emptied in any case.
pub open spec fn after_submit(s: AppView, id: u128) -> AppView {
    cleared_form(
        if form_complete(s) {
            form_applied(s, id)
        } else {
            s
        },
    )
}

/// `marks` without `i`.
pub open spec fn unmark(marks: Seq<usize>, i: usize) -> Seq<usize>
    decreases marks.len(),
{
    if marks.len() == 0 {
        marks
    } else if marks.last() == i {
        unmark(marks.drop_last(), i)
    } else {
        unmark(marks.drop_last(), i).push(marks.last())
    }
}

/// The marks with the mark of the watch at `i` switched: removed when it is
/// there, added last otherwise.
pub open spec fn toggle_mark(marks: Seq<usize>, i: usize) -> Seq<usize> {
    if marks.contains(i) {
        unmark(marks, i)
    } else {
        marks.push(i)
    }
}

/// The watches that are not marked, in order.
pub open spec fn unmarked(watches: Seq<WatchView>, marks: Seq<usize>) -> Seq<WatchView>
    decreases watches.len(),
{
    if watches.len() == 0 {
        watches
    } else {
        let init = unmarked(watches.drop_last(), marks);
        if marks.contains((watches.len() - 1) as usize) {
            init
        } else {
            init.push(watches.last())
        }
    }
}

/// The selected row is a row of the listing.
pub open spec fn selected_row(s: AppView) -> Option<int> {
    match s.selected {
        Some(i) => if i < listing(s).len() {
            Some(i as int)
        } else {
            None
        },
        None => None,
    }
}

/// The screen after watches were deleted: the first row is selected (none
/// when nothing is listed any more) and the list is shown again.
pub open spec fn after_removal(removed: AppView) -> AppView {
    AppView {
        selected: if listing(removed).len() == 0 {
            None
        } else {
            Some(0)
        },
        input_mode: InputMode::Normal,
        ..removed
    }
}

/// Deleting after confirmation: the marked watches when there are any (the
/// marks are then cleared), else the selected watch; then the first row is
/// selected (none when nothing is listed any more) and the watches are
/// stored.
pub open spec fn after_delete(s: AppView) -> (AppView, Effect) {
    if s.marked.len() > 0 {
        (
            after_removal(
                AppView { watches: unmarked(s.watches, s.marked), marked: Seq::empty(), ..s },
            ),
            Effect::Save,
        )
    } else {
        match selected_row(s) {
            Some(row) => (
                after_removal(
                    AppView { watches: s.watches.remove(listing(s)[row] as int), ..s },
                ),
                Effect::Save,
            ),
            None => (AppView { input_mode: InputMode::Normal, ..s }, Effect::Nothing),
        }
    }
}

pub open spec fn saturating_up(x: u16) -> u16 {
    if x == u16::MAX {
        x
    } else {
        (x + 1) as u16
    }
}

pub open spec fn saturating_down(x: u16) -> u16 {
    if x == 0 {
        0
    } else {
        (x - 1) as u16
    }
}

pub open spec fn drop_last_char(s: Seq<char>) -> Seq<char> {
    if s.len() > 0 {
        s.drop_last()
    } else {
        s
    }
}

/// Keys on the list.
pub open spec fn normal_key(s: AppView, key: Key) -> (AppView, Effect) {
    if key == Key::Char('q') {
        (s, Effect::Quit)
    } else if key == Key::Char('/') {
        (AppView { input_mode: InputMode::Search, ..s }, Effect::Nothing)
    } else if key == Key::Char('p') {
        (AppView { is_paused: !s.is_paused, ..s }, Effect::Nothing)
    } else if key == Key::Char('s') {
        let (column, ascending) = next_sort(s.sort_column, s.sort_ascending);
        (AppView { sort_column: column, sort_ascending: ascending, ..s }, Effect::Nothing)
    } else if key == Key::Enter {
        if s.selected is Some {
            (AppView { input_mode: InputMode::Details, scroll: 0, ..s }, Effect::Nothing)
        } else {
            (s, Effect::Nothing)
        }
    } else if key == Key::Char('n') {
        (new_form(s), Effect::Nothing)
    } else if key == Key::Char('e') {
        match selected_row(s) {
            Some(row) => (edit_form(s, listing(s)[row]), Effect::Nothing),
            None => (s, Effect::Nothing),
        }
    } else if key == Key::Char(' ') {
        match selected_row(s) {
            Some(row) => (
                AppView { marked: toggle_mark(s.marked, listing(s)[row]), ..s },
                Effect::Nothing,
            ),
            None => (s, Effect::Nothing),
        }
    } else if key == Key::Char('c') && s.marked.len() > 0 {
        (
            AppView { pending_checks: (s.pending_checks + s.marked.len()) as usize, ..s },
            Effect::StartMarkedChecks,
        )
    } else if key == Key::Char('c') {
        match selected_row(s) {
            Some(row) => (
                AppView { pending_checks: (s.pending_checks + 1) as usize, ..s },
                Effect::StartCheck(listing(s)[row]),
            ),
            None => (s, Effect::Nothing),
        }
    } else if key == Key::Char('d') {
        if s.selected is Some || s.marked.len() > 0 {
            (AppView { input_mode: InputMode::ConfirmDelete, ..s }, Effect::Nothing)
        } else {
            (s, Effect::Nothing)
        }
    } else if key == Key::Down {
        (after_next(s), Effect::Nothing)
    } else if key == Key::Up {
        (after_previous(s), Effect::Nothing)
    } else {
        (s, Effect::Nothing)
    }
}

/// Keys while typing a search.
pub open spec fn search_key(s: AppView, key: Key) -> AppView {
    match key {
        Key::Enter | Key::Esc => AppView { input_mode: InputMode::Normal, ..s },
        Key::Char(c) => AppView { search_query: s.search_query.push(c), selected: Some(0), ..s },
        Key::Backspace => AppView {
            search_query: drop_last_char(s.search_query),
            selected: Some(0),
            ..s
        },
        _ => s,
    }
}

/// Keys while asked to confirm a deletion.
pub open spec fn confirm_key(s: AppView, key: Key) -> (AppView, Effect) {
    if key == Key::Char('y') || key == Key::Enter {
        after_delete(s)
    } else if key == Key::Char('n') || key == Key::Esc {
        (AppView { input_mode: InputMode::Normal, ..s }, Effect::Nothing)
    } else {
        (s, Effect::Nothing)
    }
}

/// Keys on the details of a watch.
pub open spec fn details_key(s: AppView, key: Key) -> AppView {
    if key == Key::Esc || key == Key::Char('q') {
        AppView { input_mode: InputMode::Normal, ..s }
    } else if key == Key::Down {
        AppView { scroll: saturating_up(s.scroll), ..s }
    } else if key == Key::Up {
        AppView { scroll: saturating_down(s.scroll), ..s }
    } else {
        s
    }
}

/// The form submitted, with the effect: the watches are stored when the
/// form was complete.
pub open spec fn submitted(s: AppView, id: u128) -> (AppView, Effect) {
    (
        after_submit(s, id),
        if form_complete(s) {
            Effect::Save
        } else {
            Effect::Nothing
        },
    )
}

/// A character typed into the focused field; the interval takes digits only.
pub open spec fn typed(s: AppView, c: char) -> AppView {
    match s.input_field {
        InputField::Name => AppView { name_input: s.name_input.push(c), ..s },
        InputField::Url => AppView { url_input: s.url_input.push(c), ..s },
        InputField::Interval => if is_digit(c) {
            AppView { interval_input: s.interval_input.push(c), ..s }
        } else {
            s
        },
        InputField::Advanced => AppView { advanced_input: s.advanced_input.push(c), ..s },
        InputField::Mode => s,
    }
}

/// The last character of the focused field erased.
pub open spec fn erased(s: AppView) -> AppView {
    match s.input_field {
        InputField::Name => AppView { name_input: drop_last_char(s.name_input), ..s },
        InputField::Url => AppView { url_input: drop_last_char(s.url_input), ..s },
        InputField::Interval => AppView { interval_input: drop_last_char(s.interval_input), ..s },
        InputField::Advanced => AppView { advanced_input: drop_last_char(s.advanced_input), ..s },
        InputField::Mode => s,
    }
}

/// Keys in the watch form; `id` identifies the watch that a submission adds.
pub open spec fn editing_key(s: AppView, key: Key, id: u128) -> (AppView, Effect) {
    match key {
        Key::Esc => (cleared_form(s), Effect::Nothing),
        Key::Enter => match s.input_field {
            InputField::Name => (AppView { input_field: InputField::Url, ..s }, Effect::Nothing),
            InputField::Url => (
                AppView { input_field: InputField::Interval, ..s },
                Effect::Nothing,
            ),
            InputField::Interval => (
                AppView { input_field: InputField::Mode, ..s },
                Effect::Nothing,
            ),
            InputField::Mode => if s.mode_selection == 3 || s.mode_selection == 4 {
                (AppView { input_field: InputField::Advanced, ..s }, Effect::Nothing)
            } else {
                submitted(s, id)
            },
            InputField::Advanced => submitted(s, id),
        },
        Key::Down => if s.input_field == InputField::Mode {
            (AppView { mode_selection: mode_down(s.mode_selection), ..s }, Effect::Nothing)
        } else {
            (s, Effect::Nothing)
        },
        Key::Up => if s.input_field == InputField::Mode {
            (AppView { mode_selection: mode_up(s.mode_selection), ..s }, Effect::Nothing)
        } else {
            (s, Effect::Nothing)
        },
        Key::Char(c) => (typed(s, c), Effect::Nothing),
        Key::Backspace => (erased(s), Effect::Nothing),
        Key::Other => (s, Effect::Nothing),
    }
}

/// The screen after `key` is pressed, and what the caller has to do; `id`
/// identifies the watch that a submitted form adds.
pub open spec fn key_step(s: AppView, key: Key, id: u128) -> (AppView, Effect) {
    match s.input_mode {
        InputMode::Normal => normal_key(s, key),
        InputMode::Search => (search_key(s, key), Effect::Nothing),
        InputMode::ConfirmDelete => confirm_key(s, key),
        InputMode::Details => (details_key(s, key), Effect::Nothing),
        InputMode::Editing => editing_key(s, key, id),
    }
}

/// A key can be handled without a counter running over.
pub open spec fn can_take_key(s: AppView, key: Key) -> bool {
    &&& s.input_mode == InputMode::Normal && key == Key::Char('c') ==> {
        &&& s.marked.len() > 0 ==> s.pending_checks + s.marked.len() <= usize::MAX
        &&& s.marked.len() == 0 && selected_row(s) is Some ==> s.pending_checks < usize::MAX
    }
    &&& s.input_mode == InputMode::Editing && key == Key::Down && s.input_field == InputField::Mode
        ==> s.mode_selection < usize::MAX
}

/// `i` is the position of the first watch of `ws` with the identifier `id`.
pub open spec fn first_with_id(ws: Seq<WatchView>, id: u128, i: int) -> bool {
    &&& 0 <= i < ws.len()
    &&& ws[i].id == id
    &&& forall|j: int| 0 <= j < i ==> #[trigger] ws[j].id != id
}

/// Some watch of `ws` has the identifier `id`.
pub open spec fn holds_id(ws: Seq<WatchView>, id: u128) -> bool {
    exists|i: int| first_with_id(ws, id, i)
}

/// The watches once the checked watch `w` comes back: it replaces the
/// first watch with its identifier, and is dropped when no watch has that
/// identifier any more (it was deleted while its check ran).
pub open spec fn with_result(ws: Seq<WatchView>, w: WatchView) -> Seq<WatchView> {
    if holds_id(ws, w.id) {
        ws.update(choose|i: int| first_with_id(ws, w.id, i), w)
    } else {
        ws
    }
}

/// The screen after the result `w` of a background check arrives: it
/// replaces the watch it was taken from, when that watch is still there,
/// and one check fewer is pending.
pub open spec fn after_result(s: AppView, w: WatchView) -> AppView {
    AppView {
        watches: with_result(s.watches, w),
        pending_checks: if s.pending_checks == 0 {
            0
        } else {
            (s.pending_checks - 1) as usize
        },
        ..s
    }
}

// ---------------------------------------------------------------------------
// The state machine, executable
// ---------------------------------------------------------------------------

/// Takes the watch at `i` out of the list.
fn take_watch(watches: &mut Vec<Watch>, i: usize) -> (w: Watch)
    requires
        i < old(watches).len(),
    ensures
        w == old(watches)@[i as int],
        final(watches)@ == old(watches)@.remove(i as int),
{
    watches.remove(i)
}

proof fn lemma_watches_view_update(ws: Seq<Watch>, i: int, w: Watch)
    requires
        0 <= i < ws.len(),
    ensures
        watches_view(ws.update(i, w)) == watches_view(ws).update(i, w@),
{
    assert(watches_view(ws.update(i, w)) =~= watches_view(ws).update(i, w@));
}

impl App {
    /// The screen opened on `watches`.
    pub fn new(watches: Vec<Watch>) -> (app: App)
        ensures
            app@ == opened(watches_view(watches@)),
    {
        let selected = if watches.len() > 0 {
            Some(0)
        } else {
            None
        };
        let app = App {
            watches,
            selected,
            input_mode: InputMode::Normal,
            input_field: InputField::Name,
            name_input: String::new(),
            url_input: String::new(),
            interval_input: String::new(),
            advanced_input: String::new(),
            search_query: String::new(),
            mode_selection: 0,
            editing_watch_index: None,
            pending_checks: 0,
            scroll: 0,
            is_paused: false,
            sort_column: SortColumn::Name,
            sort_ascending: true,
            marked: Vec::new(),
        };
        assert(app@ =~= opened(watches_view(app.watches@)));
        app
    }

    /// The indices of the watches shown, in the order shown.
    pub fn filtered_indices(&self) -> (r: Vec<usize>)
        ensures
            r@ == listing(self@),
            is_listing(self@.watches, self@.search_query, self@.sort_column, self@.sort_ascending, r@),
    {
        list_order(&self.watches, self.search_query.as_str(), self.sort_column, self.sort_ascending)
    }

    fn select_and_mark(&mut self, indices: &Vec<usize>, pos: usize)
        requires
            indices@ == listing(old(self)@),
            is_listing(old(self)@.watches, old(self)@.search_query, old(self)@.sort_column, old(self)@.sort_ascending, indices@),
        ensures
            final(self)@ == select_row(old(self)@, pos as int),
    {
        let ghost s0 = self@;
        self.selected = Some(pos);
        if pos < indices.len() {
            let orig = indices[pos];
            assert(orig < self.watches.len());
            let mut w = take_watch(&mut self.watches, orig);
            w.has_unread_change = false;
            self.watches.insert(orig, w);
            assert(self.watches@ =~= old(self).watches@.update(orig as int, w));
            proof {
                lemma_watches_view_update(old(self).watches@, orig as int, w);
            }
            assert(w@ =~= (WatchView { has_unread_change: false, ..s0.watches[orig as int] }));
        }
        assert(self@ =~= select_row(s0, pos as int));
    }

    /// Moves the selection one row down, wrapping, and marks the change of
    /// the watch there as seen.
    pub fn next(&mut self)
        ensures
            final(self)@ == after_next(old(self)@),
    {
        let indices = self.filtered_indices();
        let count = indices.len();
        if count == 0 {
            return ;
        }
        let pos = match self.selected {
            Some(i) => if i >= count - 1 {
                0
            } else {
                i + 1
            },
            None => 0,
        };
        self.select_and_mark(&indices, pos);
    }

    /// Moves the selection one row up, wrapping, and marks the change of
    /// the watch there as seen.
    pub fn previous(&mut self)
        ensures
            final(self)@ == after_previous(old(self)@),
    {
        let indices = self.filtered_indices();
        let count = indices.len();
        if count == 0 {
            return ;
        }
        let pos = match self.selected {
            Some(i) => if i == 0 {
                count - 1
            } else {
                i - 1
            },
            None => 0,
        };
        self.select_and_mark(&indices, pos);
    }

    /// Closes and empties the form.
    pub fn reset_input(&mut self)
        ensures
            final(self)@ == cleared_form(old(self)@),
    {
        self.name_input = String::new();
        self.url_input = String::new();
        self.advanced_input = String::new();
        self.interval_input = String::new();
        self.mode_selection = 0;
        self.editing_watch_index = None;
        self.input_mode = InputMode::Normal;
        self.input_field = InputField::Name;
        assert(self@ =~= cleared_form(old(self)@));
    }

    fn form_tracking_mode(&self) -> (m: TrackingMode)
        ensures
            m@ == form_mode(self@),
    {
        if self.mode_selection == 1 {
            TrackingMode::Price { selector: None }
        } else if self.mode_selection == 2 {
            let m = TrackingMode::Availability {
                in_stock_keywords: Vec::new(),
                out_of_stock_keywords: Vec::new(),
            };
            assert(m@ =~= form_mode(self@));
            m
        } else if self.mode_selection == 3 {
            let pieces = split_keywords(&chars_of(self.advanced_input.as_str()));
            let mut keywords: Vec<String> = Vec::new();
            let n = pieces.len();
            let mut k: usize = 0;
            while k < n
                invariant
                    n == pieces.len(),
                    k <= n,
                    strings_view(keywords@) == pieces@.map_values(|p: Vec<char>| p@).take(
                        k as int,
                    ),
                decreases n - k,
            {
                let ghost before = strings_view(keywords@);
                keywords.push(string_of(&pieces[k]));
                assert(strings_view(keywords@) =~= before.push(pieces@[k as int]@));
                assert(pieces@.map_values(|p: Vec<char>| p@).take(k + 1) =~= pieces@.map_values(
                    |p: Vec<char>| p@,
                ).take(k as int).push(pieces@[k as int]@));
                assert(strings_view(keywords@) =~= pieces@.map_values(|p: Vec<char>| p@).take(
                    k + 1,
                ));
                k = k + 1;
            }
            assert(pieces@.map_values(|p: Vec<char>| p@).take(n as int) =~= pieces@.map_values(
                |p: Vec<char>| p@,
            ));
            TrackingMode::Keyword { keywords }
        } else if self.mode_selection == 4 {
            let sel = trim_chars(&chars_of(self.advanced_input.as_str()));
            TrackingMode::HtmlSection { selector: string_of(&sel) }
        } else {
            TrackingMode::FullPage
        }
    }

    /// Submits the form: a complete form updates the watch being edited or
    /// adds a new one; the form is then closed and emptied. Returns whether
    /// the watches have to be stored.
    pub fn submit_watch(&mut self) -> (saved: bool)
        ensures
            exists|id: u128| final(self)@ == after_submit(old(self)@, id),
            saved == form_complete(old(self)@),
    {
        let ghost s0 = self@;
        let ghost mut id: u128 = 0;
        let name_blank = trim_chars(&chars_of(self.name_input.as_str())).len() == 0;
        let url_blank = trim_chars(&chars_of(self.url_input.as_str())).len() == 0;
        let complete = !name_blank && !url_blank;
        if complete {
            let interval = match parse_u64(&chars_of(self.interval_input.as_str())) {
                Some(n) => n,
                None => DEFAULT_INTERVAL_SECONDS,
            };
            let mode = self.form_tracking_mode();
            match self.editing_watch_index {
                Some(index) => {
                    if index < self.watches.len() {
                        let mut w = take_watch(&mut self.watches, index);
                        w.name = self.name_input.clone();
                        w.url = self.url_input.clone();
                        w.interval_seconds = interval;
                        w.mode = mode;
                        self.watches.insert(index, w);
                        assert(self.watches@ =~= old(self).watches@.update(index as int, w));
                        proof {
                            lemma_watches_view_update(old(self).watches@, index as int, w);
                        }
                        assert(w@ =~= (WatchView {
                            name: s0.name_input,
                            url: s0.url_input,
                            interval_seconds: form_interval(s0),
                            mode: form_mode(s0),
                            ..s0.watches[index as int]
                        }));
                    }
                },
                None => {
                    let mut w = Watch::new(self.name_input.clone(), self.url_input.clone(), mode);
                    w.interval_seconds = interval;
                    proof {
                        id = w.id;
                    }
                    self.watches.push(w);
                    self.selected = Some(self.watches.len() - 1);
                    assert(watches_view(self.watches@) =~= watches_view(old(self).watches@).push(
                        w@,
                    ));
                },
            }
            assert(self@ =~= form_applied(s0, id));
        } else {
            assert(self@ =~= s0);
        }
        self.reset_input();
        assert(self@ == after_submit(s0, id));
        complete
    }
}

fn has_index(v: &Vec<usize>, i: usize) -> (r: bool)
    ensures
        r == v@.contains(i),
{
    let n = v.len();
    let mut k: usize = 0;
    while k < n
        invariant
            n == v.len(),
            k <= n,
            forall|j: int| 0 <= j < k ==> v@[j] != i,
        decreases n - k,
    {
        if v[k] == i {
            assert(v@[k as int] == i);
            return true;
        }
        k = k + 1;
    }
    false
}

/// `marks` without `i`.
fn without_index(marks: &Vec<usize>, i: usize) -> (r: Vec<usize>)
    ensures
        r@ == unmark(marks@, i),
{
    let mut r: Vec<usize> = Vec::new();
    let n = marks.len();
    let mut k: usize = 0;
    while k < n
        invariant
            n == marks.len(),
            k <= n,
            r@ == unmark(marks@.take(k as int), i),
        decreases n - k,
    {
        assert(marks@.take(k + 1).drop_last() =~= marks@.take(k as int));
        if marks[k] != i {
            r.push(marks[k]);
        }
        k = k + 1;
    }
    assert(marks@.take(n as int) =~= marks@);
    r
}

/// The watches of `watches` whose index is not in `marks`, in order.
fn keep_unmarked(watches: Vec<Watch>, marks: &Vec<usize>) -> (r: Vec<Watch>)
    ensures
        watches_view(r@) == unmarked(watches_view(watches@), marks@),
{
    let ghost all = watches_view(watches@);
    let n = watches.len();
    let mut rest = watches;
    let mut kept: Vec<Watch> = Vec::new();
    let mut k: usize = 0;
    while k < n
        invariant
            n == all.len(),
            k <= n,
            rest.len() == n - k,
            forall|j: int| 0 <= j < rest.len() ==> #[trigger] rest@[j]@ == all[k + j],
            watches_view(kept@) == unmarked(all.take(k as int), marks@),
        decreases n - k,
    {
        assert(all.take(k + 1).drop_last() =~= all.take(k as int));
        let ghost before_rest = rest@;
        let w = rest.remove(0);
        assert(w@ == all[k as int]);
        if !has_index(marks, k) {
            let ghost before = watches_view(kept@);
            kept.push(w);
            assert(watches_view(kept@) =~= before.push(w@));
        }
        assert forall|j: int| 0 <= j < rest.len() implies #[trigger] rest@[j]@ == all[k + 1 + j] by {
            assert(rest@[j] == before_rest[j + 1]);
        }
        k = k + 1;
    }
    assert(all.take(n as int) =~= all);
    kept
}

impl App {
    /// Switches the mark of the watch at `i`.
    fn toggle_marked(&mut self, i: usize)
        ensures
            final(self)@ == (AppView { marked: toggle_mark(old(self)@.marked, i), ..old(self)@ }),
    {
        let ghost s0 = self@;
        if has_index(&self.marked, i) {
            self.marked = without_index(&self.marked, i);
        } else {
            self.marked.push(i);
        }
        assert(self@ =~= (AppView { marked: toggle_mark(s0.marked, i), ..s0 }));
    }

    /// Removes the marked watches and clears the marks.
    fn remove_marked(&mut self)
        ensures
            final(self)@ == (AppView {
                watches: unmarked(old(self)@.watches, old(self)@.marked),
                marked: Seq::empty(),
                ..old(self)@
            }),
    {
        let ghost s0 = self@;
        let mut watches: Vec<Watch> = Vec::new();
        std::mem::swap(&mut watches, &mut self.watches);
        self.watches = keep_unmarked(watches, &self.marked);
        self.marked = Vec::new();
        assert(self@ =~= (AppView {
            watches: unmarked(s0.watches, s0.marked),
            marked: Seq::empty(),
            ..s0
        }));
    }
}

impl App {
    /// Opens the form on the watch at index `orig`.
    fn start_edit(&mut self, orig: usize)
        requires
            orig < old(self).watches.len(),
        ensures
            final(self)@ == edit_form(old(self)@, orig),
    {
        let ghost s0 = self@;
        assert(s0.watches[orig as int] == self.watches@[orig as int]@);
        let name = self.watches[orig].name.clone();
        let url = self.watches[orig].url.clone();
        let interval = string_of(&decimal_string(self.watches[orig].interval_seconds));
        let (mode_selection, advanced) = match &self.watches[orig].mode {
            TrackingMode::FullPage => (0, String::new()),
            TrackingMode::Price { .. } => (1, String::new()),
            TrackingMode::Availability { .. } => (2, String::new()),
            TrackingMode::Keyword { keywords } => (3, join_strings(keywords, ", ")),
            TrackingMode::HtmlSection { selector } => (4, selector.clone()),
        };
        self.input_mode = InputMode::Editing;
        self.input_field = InputField::Name;
        self.editing_watch_index = Some(orig);
        self.name_input = name;
        self.url_input = url;
        self.interval_input = interval;
        self.mode_selection = mode_selection;
        self.advanced_input = advanced;
        assert(self@ =~= edit_form(s0, orig));
    }

    fn normal_key(&mut self, key: Key) -> (effect: Effect)
        requires
            can_take_key(old(self)@, key),
            old(self)@.input_mode == InputMode::Normal,
        ensures
            (final(self)@, effect) == normal_key(old(self)@, key),
    {
        let ghost s0 = self@;
        match key {
            Key::Char('q') => {
                return Effect::Quit;
            },
            Key::Char('/') => {
                self.input_mode = InputMode::Search;
            },
            Key::Char('p') => {
                self.is_paused = !self.is_paused;
            },
            Key::Char('s') => {
                match self.sort_column {
                    SortColumn::Name => {
                        self.sort_column = SortColumn::LastChecked;
                    },
                    SortColumn::LastChecked => {
                        self.sort_column = SortColumn::SuccessRate;
                    },
                    SortColumn::SuccessRate => {
                        if self.sort_ascending {
                            self.sort_ascending = false;
                        } else {
                            self.sort_column = SortColumn::Name;
                            self.sort_ascending = true;
                        }
                    },
                }
            },
            Key::Enter => {
                if self.selected.is_some() {
                    self.input_mode = InputMode::Details;
                    self.scroll = 0;
                }
            },
            Key::Char('n') => {
                self.input_mode = InputMode::Editing;
                self.input_field = InputField::Name;
                self.editing_watch_index = None;
                self.name_input = String::new();
                self.url_input = String::new();
                self.interval_input = String::new();
                self.advanced_input = String::new();
                self.mode_selection = 0;
            },
            Key::Char('e') => {
                let indices = self.filtered_indices();
                if let Some(i) = self.selected {
                    if i < indices.len() {
                        let orig = indices[i];
                        self.start_edit(orig);
                    }
                }
            },
            Key::Char(' ') => {
                let indices = self.filtered_indices();
                if let Some(i) = self.selected {
                    if i < indices.len() {
                        let orig = indices[i];
                        self.toggle_marked(orig);
                    }
                }
            },
            Key::Char('c') => {
                if self.marked.len() > 0 {
                    self.pending_checks = self.pending_checks + self.marked.len();
                    assert(self@ =~= normal_key(s0, key).0);
                    return Effect::StartMarkedChecks;
                }
                let indices = self.filtered_indices();
                if let Some(i) = self.selected {
                    if i < indices.len() {
                        let orig = indices[i];
                        self.pending_checks = self.pending_checks + 1;
                        assert(self@ =~= (AppView {
                            pending_checks: (s0.pending_checks + 1) as usize,
                            ..s0
                        }));
                        return Effect::StartCheck(orig);
                    }
                }
            },
            Key::Char('d') => {
                if self.selected.is_some() || self.marked.len() > 0 {
                    self.input_mode = InputMode::ConfirmDelete;
                }
            },
            Key::Down => {
                self.next();
            },
            Key::Up => {
                self.previous();
            },
            _ => {},
        }
        assert(self@ =~= normal_key(s0, key).0);
        Effect::Nothing
    }

    fn search_key(&mut self, key: Key)
        ensures
            final(self)@ == search_key(old(self)@, key),
    {
        let ghost s0 = self@;
        match key {
            Key::Enter | Key::Esc => {
                self.input_mode = InputMode::Normal;
            },
            Key::Char(c) => {
                push_char(&mut self.search_query, c);
                self.selected = Some(0);
            },
            Key::Backspace => {
                pop_char(&mut self.search_query);
                self.selected = Some(0);
            },
            _ => {},
        }
        assert(self@ =~= search_key(s0, key));
    }

    fn confirm_delete(&mut self) -> (effect: Effect)
        ensures
            (final(self)@, effect) == after_delete(old(self)@),
    {
        let ghost s0 = self@;
        if self.marked.len() > 0 {
            self.remove_marked();
            let remaining = self.filtered_indices();
            self.selected = if remaining.len() == 0 {
                None
            } else {
                Some(0)
            };
            self.input_mode = InputMode::Normal;
            assert(self@ =~= after_delete(s0).0);
            return Effect::Save;
        }
        let indices = self.filtered_indices();
        let mut effect = Effect::Nothing;
        if let Some(i) = self.selected {
            if i < indices.len() {
                let orig = indices[i];
                assert(orig < self.watches.len());
                self.watches.remove(orig);
                assert(watches_view(self.watches@) =~= s0.watches.remove(orig as int));
                let ghost removed = self@;
                let remaining = self.filtered_indices();
                self.selected = if remaining.len() == 0 {
                    None
                } else {
                    Some(0)
                };
                effect = Effect::Save;
                assert(removed =~= (AppView { watches: s0.watches.remove(orig as int), ..s0 }));
            }
        }
        self.input_mode = InputMode::Normal;
        assert(self@ =~= after_delete(s0).0);
        effect
    }

    fn details_key(&mut self, key: Key)
        ensures
            final(self)@ == details_key(old(self)@, key),
    {
        let ghost s0 = self@;
        match key {
            Key::Esc | Key::Char('q') => {
                self.input_mode = InputMode::Normal;
            },
            Key::Down => {
                if self.scroll < u16::MAX {
                    self.scroll = self.scroll + 1;
                }
            },
            Key::Up => {
                if self.scroll > 0 {
                    self.scroll = self.scroll - 1;
                }
            },
            _ => {},
        }
        assert(self@ =~= details_key(s0, key));
    }

    fn type_char(&mut self, c: char)
        ensures
            final(self)@ == typed(old(self)@, c),
    {
        let ghost s0 = self@;
        match self.input_field {
            InputField::Name => push_char(&mut self.name_input, c),
            InputField::Url => push_char(&mut self.url_input, c),
            InputField::Interval => {
                if is_digit_char(c) {
                    push_char(&mut self.interval_input, c);
                }
            },
            InputField::Advanced => push_char(&mut self.advanced_input, c),
            InputField::Mode => {},
        }
        assert(self@ =~= typed(s0, c));
    }

    fn erase_char(&mut self)
        ensures
            final(self)@ == erased(old(self)@),
    {
        let ghost s0 = self@;
        match self.input_field {
            InputField::Name => {
                pop_char(&mut self.name_input);
            },
            InputField::Url => {
                pop_char(&mut self.url_input);
            },
            InputField::Interval => {
                pop_char(&mut self.interval_input);
            },
            InputField::Advanced => {
                pop_char(&mut self.advanced_input);
            },
            InputField::Mode => {},
        }
        assert(self@ =~= erased(s0));
    }

    fn submit(&mut self) -> (effect: Effect)
        ensures
            exists|id: u128| (final(self)@, effect) == submitted(old(self)@, id),
    {
        let ghost s0 = self@;
        let saved = self.submit_watch();
        let ghost id = choose|id: u128| self@ == after_submit(s0, id);
        let effect = if saved {
            Effect::Save
        } else {
            Effect::Nothing
        };
        assert((self@, effect) == submitted(s0, id));
        effect
    }

    fn editing_key(&mut self, key: Key) -> (effect: Effect)
        requires
            can_take_key(old(self)@, key),
            old(self)@.input_mode == InputMode::Editing,
        ensures
            exists|id: u128| (final(self)@, effect) == editing_key(old(self)@, key, id),
    {
        let ghost s0 = self@;
        match key {
            Key::Esc => {
                self.reset_input();
            },
            Key::Enter => {
                match self.input_field {
                    InputField::Name => {
                        self.input_field = InputField::Url;
                    },
                    InputField::Url => {
                        self.input_field = InputField::Interval;
                    },
                    InputField::Interval => {
                        self.input_field = InputField::Mode;
                    },
                    InputField::Mode => {
                        if self.mode_selection == 3 || self.mode_selection == 4 {
                            self.input_field = InputField::Advanced;
                        } else {
                            let effect = self.submit();
                            let ghost id = choose|id: u128|
                                (self@, effect) == submitted(s0, id);
                            assert((self@, effect) == editing_key(s0, key, id));
                            return effect;
                        }
                    },
                    InputField::Advanced => {
                        let effect = self.submit();
                        let ghost id = choose|id: u128| (self@, effect) == submitted(s0, id);
                        assert((self@, effect) == editing_key(s0, key, id));
                        return effect;
                    },
                }
            },
            Key::Down => {
                if self.input_field == InputField::Mode {
                    self.mode_selection = (self.mode_selection + 1) % MODE_COUNT;
                }
            },
            Key::Up => {
                if self.input_field == InputField::Mode {
                    self.mode_selection = if self.mode_selection == 0 {
                        MODE_COUNT - 1
                    } else {
                        self.mode_selection - 1
                    };
                }
            },
            Key::Char(c) => {
                self.type_char(c);
            },
            Key::Backspace => {
                self.erase_char();
            },
            Key::Other => {},
        }
        assert(self@ =~= editing_key(s0, key, 0).0);
        assert((self@, Effect::Nothing) == editing_key(s0, key, 0));
        Effect::Nothing
    }

    /// Answers a key press; returns what the caller has to do.
    pub fn handle_key(&mut self, key: Key) -> (effect: Effect)
        requires
            can_take_key(old(self)@, key),
        ensures
            exists|id: u128|
                final(self)@ == (#[trigger] key_step(old(self)@, key, id)).0 && effect == key_step(
                    old(self)@,
                    key,
                    id,
                ).1,
    {
        let ghost s0 = self@;
        match self.input_mode {
            InputMode::Normal => {
                let effect = self.normal_key(key);
                assert(key_step(s0, key, 0) == normal_key(s0, key));
                effect
            },
            InputMode::Search => {
                self.search_key(key);
                assert(key_step(s0, key, 0) == (search_key(s0, key), Effect::Nothing));
                Effect::Nothing
            },
            InputMode::ConfirmDelete => {
                if key == Key::Char('y') || key == Key::Enter {
                    let effect = self.confirm_delete();
                    assert(key_step(s0, key, 0) == after_delete(s0));
                    effect
                } else {
                    if key == Key::Char('n') || key == Key::Esc {
                        self.input_mode = InputMode::Normal;
                    }
                    assert(self@ =~= key_step(s0, key, 0).0);
                    Effect::Nothing
                }
            },
            InputMode::Details => {
                self.details_key(key);
                assert(key_step(s0, key, 0) == (details_key(s0, key), Effect::Nothing));
                Effect::Nothing
            },
            InputMode::Editing => {
                let effect = self.editing_key(key);
                let ghost id = choose|id: u128| (self@, effect) == editing_key(s0, key, id);
                assert(key_step(s0, key, id) == editing_key(s0, key, id));
                effect
            },
        }
    }

    /// Whether answering `key` would run a counter over (`handle_key` does
    /// not accept such a key).
    pub fn key_overflows(&self, key: Key) -> (r: bool)
        ensures
            r == !can_take_key(self@, key),
    {
        if self.input_mode == InputMode::Normal && key == Key::Char('c') {
            if self.marked.len() > 0 {
                return self.pending_checks > usize::MAX - self.marked.len();
            }
            let indices = self.filtered_indices();
            let has_row = match self.selected {
                Some(i) => i < indices.len(),
                None => false,
            };
            return has_row && self.pending_checks == usize::MAX;
        }
        self.input_mode == InputMode::Editing && key == Key::Down && self.input_field
            == InputField::Mode && self.mode_selection == usize::MAX
    }

    /// Takes in `watch`, the result of a background check: it replaces the
    /// watch with the same identifier when that watch is still there, and
    /// is dropped otherwise; one check fewer is pending. Returns whether
    /// the watches have to be stored.
    pub fn apply_check_result(&mut self, watch: Watch) -> (saved: bool)
        ensures
            final(self)@ == after_result(old(self)@, watch@),
            saved == holds_id(old(self)@.watches, watch.id),
    {
        let ghost s0 = self@;
        let ghost ws = s0.watches;
        let n = self.watches.len();
        let mut k: usize = 0;
        while k < n
            invariant
                n == self.watches.len(),
                k <= n,
                self@ == s0,
                ws == s0.watches,
                forall|j: int| 0 <= j < k ==> #[trigger] ws[j].id != watch.id,
            ensures
                n == self.watches.len(),
                k <= n,
                self@ == s0,
                forall|j: int| 0 <= j < k ==> #[trigger] ws[j].id != watch.id,
                k < n ==> ws[k as int].id == watch.id,
            decreases n - k,
        {
            if self.watches[k].id == watch.id {
                break;
            }
            k = k + 1;
        }
        let saved = k < n;
        if saved {
            assert(first_with_id(ws, watch.id, k as int));
            assert forall|i: int| first_with_id(ws, watch.id, i) implies i == k by {
                if i < k {
                    assert(ws[i].id != watch.id);
                } else if i > k {
                    assert(ws[k as int].id != watch.id);
                }
            }
            let ghost w = watch;
            self.watches.set(k, watch);
            proof {
                lemma_watches_view_update(old(self).watches@, k as int, w);
            }
        } else {
            assert forall|i: int| !first_with_id(ws, watch.id, i) by {
                if 0 <= i < ws.len() {
                    assert(ws[i].id != watch.id);
                }
            }
        }
        if self.pending_checks > 0 {
            self.pending_checks = self.pending_checks - 1;
        }
        assert(self@ =~= after_result(s0, watch@));
        saved
    }

    /// Sets the selected row, as the list widget left it after drawing.
    pub fn set_selected(&mut self, selected: Option<usize>)
        ensures
            final(self)@ == (AppView { selected, ..old(self)@ }),
    {
        self.selected = selected;
        assert(self@ =~= (AppView { selected, ..old(self)@ }));
    }
}

// ---------------------------------------------------------------------------
// Automatic checks
// ---------------------------------------------------------------------------

/// The interval read as a signed 64-bit number, as `as i64` reads it.
pub open spec fn signed_interval(x: u64) -> int {
    if x <= i64::MAX {
        x as int
    } else {
        x - 0x1_0000_0000_0000_0000
    }
}

/// A watch is due for a check when it was never checked, or when its
/// interval has passed since its last check (a last check at a time that
/// `chrono` cannot represent counts as long past).
pub open spec fn is_due(w: WatchView, now: Timestamp) -> bool {
    match w.last_checked {
        None => true,
        Some(t) => match chrono_whole_seconds(now.secs, now.nanos, t.secs, t.nanos) {
            Some(secs) => secs >= signed_interval(w.interval_seconds),
            None => true,
        },
    }
}

/// The indices of the watches due for a check, in list order.
pub open spec fn due_watches(ws: Seq<WatchView>, now: Timestamp) -> Seq<usize>
    decreases ws.len(),
{
    if ws.len() == 0 {
        Seq::empty()
    } else {
        let before = due_watches(ws.drop_last(), now);
        if is_due(ws.last(), now) {
            before.push((ws.len() - 1) as usize)
        } else {
            before
        }
    }
}

/// The periodic tick, `millis` after the last one that ran: unless checks
/// are paused or the tick comes too early, every due watch is checked.
pub open spec fn after_tick(s: AppView, millis: u128, now: Timestamp) -> (AppView, Option<
    Seq<usize>,
>) {
    if !s.is_paused && millis >= TICK_MILLIS {
        let due = due_watches(s.watches, now);
        (AppView { pending_checks: (s.pending_checks + due.len()) as usize, ..s }, Some(due))
    } else {
        (s, None)
    }
}

proof fn lemma_due_watches_len(ws: Seq<WatchView>, now: Timestamp)
    ensures
        due_watches(ws, now).len() <= ws.len(),
    decreases ws.len(),
{
    if ws.len() > 0 {
        lemma_due_watches_len(ws.drop_last(), now);
    }
}

proof fn lemma_due_watches_members(ws: Seq<WatchView>, now: Timestamp)
    requires
        ws.len() <= usize::MAX,
    ensures
        forall|i: usize| #[trigger]
            due_watches(ws, now).contains(i) <==> i < ws.len() && is_due(ws[i as int], now),
        forall|a: int, b: int|
            0 <= a < b < due_watches(ws, now).len() ==> #[trigger] due_watches(ws, now)[a]
                < #[trigger] due_watches(ws, now)[b],
        forall|k: int|
            0 <= k < due_watches(ws, now).len() ==> #[trigger] due_watches(ws, now)[k] < ws.len(),
    decreases ws.len(),
{
    if ws.len() > 0 {
        let init = ws.drop_last();
        lemma_due_watches_members(init, now);
        let before = due_watches(init, now);
        let last = (ws.len() - 1) as usize;
        assert(last == ws.len() - 1);
        let d = due_watches(ws, now);
        if is_due(ws.last(), now) {
            assert(d == before.push(last));
            assert(d[d.len() - 1] == last);
        } else {
            assert(d == before);
        }
        assert forall|i: usize| #[trigger] d.contains(i) <==> i < ws.len() && is_due(
            ws[i as int],
            now,
        ) by {
            if i < last {
                assert(init[i as int] == ws[i as int]);
            }
            if d.contains(i) {
                let k = choose|k: int| 0 <= k < d.len() && d[k] == i;
                if k < before.len() {
                    assert(before[k] == i);
                    assert(before.contains(i));
                }
            }
            if i < ws.len() && is_due(ws[i as int], now) {
                if i < last {
                    assert(before.contains(i));
                    let k = choose|k: int| 0 <= k < before.len() && before[k] == i;
                    assert(d[k] == i);
                } else {
                    assert(ws[i as int] == ws.last());
                }
            }
        }
        assert forall|a: int, b: int| 0 <= a < b < d.len() implies #[trigger] d[a] < #[trigger] d[b] by {
            if b < before.len() {
                assert(d[a] == before[a] && d[b] == before[b]);
            } else {
                assert(d[a] == before[a]);
                assert(before[a] < init.len());
            }
        }
        assert forall|k: int| 0 <= k < d.len() implies #[trigger] d[k] < ws.len() by {
            if k < before.len() {
                assert(d[k] == before[k]);
            }
        }
    }
}

/// Which watches are due depends on nothing but when each was last checked
/// and its interval: two lists that agree on those have the same due
/// watches, whatever else their watches hold.
pub proof fn lemma_due_depends_on_schedule_only(
    ws: Seq<WatchView>,
    other: Seq<WatchView>,
    now: Timestamp,
)
    requires
        ws.len() == other.len(),
        forall|i: int|
            0 <= i < ws.len() ==> (#[trigger] ws[i]).last_checked == other[i].last_checked
                && ws[i].interval_seconds == other[i].interval_seconds,
    ensures
        due_watches(ws, now) == due_watches(other, now),
    decreases ws.len(),
{
    if ws.len() > 0 {
        let a = ws.drop_last();
        let b = other.drop_last();
        assert forall|i: int| 0 <= i < a.len() implies (#[trigger] a[i]).last_checked
            == b[i].last_checked && a[i].interval_seconds == b[i].interval_seconds by {
            assert(a[i] == ws[i] && b[i] == other[i]);
        }
        lemma_due_depends_on_schedule_only(a, b, now);
        assert(ws.last() == ws[ws.len() - 1] && other.last() == other[other.len() - 1]);
    }
}

/// A tick that runs (checks are not paused and the tick is not early)
/// starts a check of every watch that is due, and of no other, each once
/// and in list order: a watch never checked is due; a watch checked before
/// is due when the whole seconds since that check reach its interval (or
/// cannot be counted). Each started check is pending.
pub proof fn lemma_tick_checks_every_due_watch(s: AppView, millis: u128, now: Timestamp)
    requires
        !s.is_paused,
        millis >= TICK_MILLIS,
        s.pending_checks + s.watches.len() <= usize::MAX,
    ensures
        after_tick(s, millis, now).1 is Some,
        ({
            let due = after_tick(s, millis, now).1->Some_0;
            &&& forall|i: usize|
                i < s.watches.len() && (#[trigger] s.watches[i as int]).last_checked is None
                    ==> due.contains(i)
            &&& forall|i: usize|
                i < s.watches.len() ==> ((#[trigger] s.watches[i as int]).last_checked matches Some(
                    t,
                ) ==> (chrono_whole_seconds(now.secs, now.nanos, t.secs, t.nanos) matches Some(secs)
                    ==> (due.contains(i) <==> secs >= signed_interval(
                    s.watches[i as int].interval_seconds,
                ))))
            &&& forall|i: usize|
                i < s.watches.len() ==> (((#[trigger] s.watches[i as int]).last_checked matches Some(
                    t,
                ) && chrono_whole_seconds(now.secs, now.nanos, t.secs, t.nanos) is None)
                    ==> due.contains(i))
            &&& forall|i: usize| #[trigger] due.contains(i) ==> i < s.watches.len()
            &&& forall|a: int, b: int| 0 <= a < b < due.len() ==> #[trigger] due[a] < #[trigger] due[b]
            &&& after_tick(s, millis, now).0.pending_checks == s.pending_checks + due.len()
        }),
{
    lemma_due_watches_members(s.watches, now);
    lemma_due_watches_len(s.watches, now);
}

fn due(w: &Watch, now: Timestamp) -> (r: bool)
    ensures
        r == is_due(w@, now),
        w.last_checked is Some && plain_time(now) && plain_time(w.last_checked->0) ==> r == (
        whole_seconds_between(now, w.last_checked->0) >= signed_interval(w.interval_seconds)),
{
    match w.last_checked {
        None => true,
        Some(t) => {
            let interval: i128 = if w.interval_seconds <= i64::MAX as u64 {
                w.interval_seconds as i128
            } else {
                w.interval_seconds as i128 - 0x1_0000_0000_0000_0000
            };
            match seconds_between(now, t) {
                Some(secs) => secs as i128 >= interval,
                None => true,
            }
        },
    }
}

impl App {
    /// The periodic tick, `millis` after the last one that ran, at time
    /// `now`: returns the indices of the watches to check, or `None` when
    /// the tick does not run (checks paused, or too early).
    pub fn tick(&mut self, millis: u128, now: Timestamp) -> (r: Option<Vec<usize>>)
        requires
            old(self).pending_checks + old(self).watches.len() <= usize::MAX,
        ensures
            final(self)@ == after_tick(old(self)@, millis, now).0,
            match (r, after_tick(old(self)@, millis, now).1) {
                (Some(v), Some(d)) => v@ == d,
                (None, None) => true,
                _ => false,
            },
    {
        let ghost s0 = self@;
        if self.is_paused || millis < TICK_MILLIS {
            return None;
        }
        let n = self.watches.len();
        let mut found: Vec<usize> = Vec::new();
        let mut i: usize = 0;
        while i < n
            invariant
                n == self.watches.len(),
                i <= n,
                s0.watches == watches_view(self.watches@),
                found@ == due_watches(s0.watches.take(i as int), now),
            decreases n - i,
        {
            assert(s0.watches.take(i + 1).drop_last() =~= s0.watches.take(i as int));
            if due(&self.watches[i], now) {
                found.push(i);
            }
            i = i + 1;
        }
        assert(s0.watches.take(n as int) =~= s0.watches);
        proof {
            lemma_due_watches_len(s0.watches, now);
        }
        self.pending_checks = self.pending_checks + found.len();
        assert(self@ =~= after_tick(s0, millis, now).0);
        Some(found)
    }
}

// ---------------------------------------------------------------------------
// Laws of the screen
// ---------------------------------------------------------------------------

/// Moving the selection down then up, or up then down, comes back to the
/// same row, and both moves stay within the rows.
pub proof fn lemma_previous_undoes_next(i: usize, count: int)
    requires
        i < count,
        count <= usize::MAX + 1,
    ensures
        0 <= next_position(Some(i), count) < count,
        0 <= previous_position(Some(i), count) < count,
        previous_position(Some(next_position(Some(i), count) as usize), count) == i,
        next_position(Some(previous_position(Some(i), count) as usize), count) == i,
{
}

/// Marking a change as seen does not change the listing.
pub proof fn lemma_mark_seen_keeps_listing(s: AppView, i: int)
    requires
        0 <= i < s.watches.len(),
    ensures
        listing(AppView { watches: mark_seen(s.watches, i), ..s }) == listing(s),
{
    let t = mark_seen(s.watches, i);
    assert forall|j: int| 0 <= j < s.watches.len() implies crate::listing::same_listing_keys(
        #[trigger] s.watches[j],
        t[j],
    ) by {}
    crate::listing::lemma_listing_same_keys(
        s.watches,
        t,
        s.search_query,
        s.sort_column,
        s.sort_ascending,
    );
}

/// Down then up on the list selects the row that was selected.
pub proof fn lemma_up_undoes_down(s: AppView)
    requires
        s.selected matches Some(i) && i < listing(s).len(),
    ensures
        after_previous(after_next(s)).selected == s.selected,
        after_next(after_previous(s)).selected == s.selected,
{
    let count = listing(s).len() as int;
    let i = s.selected->0;
    crate::listing::lemma_listing_exists(s.watches, s.search_query, s.sort_column, s.sort_ascending);
    lemma_previous_undoes_next(i, count);
    let n = next_position(s.selected, count);
    let p = previous_position(s.selected, count);
    assert(0 <= listing(s)[n] < s.watches.len()) by {
        crate::listing::lemma_listing_in_range(s.watches, s.search_query, s.sort_column, s.sort_ascending, n);
    }
    assert(0 <= listing(s)[p] < s.watches.len()) by {
        crate::listing::lemma_listing_in_range(s.watches, s.search_query, s.sort_column, s.sort_ascending, p);
    }
    lemma_mark_seen_keeps_listing(s, listing(s)[n] as int);
    lemma_mark_seen_keeps_listing(s, listing(s)[p] as int);
}

/// The form's mode choice: down then up, or up then down, comes back to
/// the same mode.
pub proof fn lemma_mode_choice_round_trip(m: usize)
    requires
        m < MODE_COUNT,
    ensures
        mode_up(mode_down(m)) == m,
        mode_down(mode_up(m)) == m,
        mode_down(m) < MODE_COUNT,
        mode_up(m) < MODE_COUNT,
{
}

/// Pressing the sort key four times comes back to the same sort, from any
/// of the four sorts it cycles through.
pub proof fn lemma_sort_cycle(column: SortColumn, ascending: bool)
    requires
        ascending || column == SortColumn::SuccessRate,
    ensures
        ({
            let (c1, a1) = next_sort(column, ascending);
            let (c2, a2) = next_sort(c1, a1);
            let (c3, a3) = next_sort(c2, a2);
            next_sort(c3, a3)
        }) == (column, ascending),
{
}

/// A complete form for a new watch adds exactly one watch, at the end,
/// selects it, and closes the form; the watches listed before stay as they
/// were.
pub proof fn lemma_submit_adds_one(s: AppView, id: u128)
    requires
        form_complete(s),
        s.editing_watch_index is None,
    ensures
        after_submit(s, id).watches.len() == s.watches.len() + 1,
        after_submit(s, id).watches.drop_last() == s.watches,
        after_submit(s, id).watches.last().name == s.name_input,
        after_submit(s, id).watches.last().url == s.url_input,
        after_submit(s, id).watches.last().interval_seconds == form_interval(s),
        after_submit(s, id).watches.last().mode == form_mode(s),
        after_submit(s, id).selected == Some(s.watches.len() as usize),
        after_submit(s, id).input_mode == InputMode::Normal,
{
    assert(after_submit(s, id).watches.drop_last() =~= s.watches);
}

/// The mode choice follows the form's labels: pressing Enter on the mode
/// choice of a complete form for a new watch adds a watch that tracks the
/// full page for choice 0, a price (with no selector) for choice 1 and
/// availability (with the default phrases) for choice 2; choices 3 and 4
/// first ask for their keywords or selector.
pub proof fn lemma_mode_choice_follows_labels(s: AppView, id: u128)
    requires
        s.input_mode == InputMode::Editing,
        s.input_field == InputField::Mode,
        s.editing_watch_index is None,
        form_complete(s),
    ensures
        s.mode_selection < 3 ==> key_step(s, Key::Enter, id).0.watches.len() == s.watches.len() + 1,
        s.mode_selection == 0 ==> key_step(s, Key::Enter, id).0.watches.last().mode
            == ModeView::FullPage,
        s.mode_selection == 1 ==> key_step(s, Key::Enter, id).0.watches.last().mode
            == (ModeView::Price { selector: None }),
        s.mode_selection == 2 ==> key_step(s, Key::Enter, id).0.watches.last().mode
            == (ModeView::Availability {
            in_stock_keywords: Seq::empty(),
            out_of_stock_keywords: Seq::empty(),
        }),
        s.mode_selection == 3 || s.mode_selection == 4 ==> key_step(s, Key::Enter, id).0
            == (AppView { input_field: InputField::Advanced, ..s }),
{
}

/// Choices 3 and 4 take their setting from the advanced field: Enter there
/// adds a watch tracking the comma-separated keywords typed (choice 3) or
/// the HTML section of the selector typed, trimmed (choice 4).
pub proof fn lemma_advanced_choice_follows_labels(s: AppView, id: u128)
    requires
        s.input_mode == InputMode::Editing,
        s.input_field == InputField::Advanced,
        s.editing_watch_index is None,
        form_complete(s),
    ensures
        key_step(s, Key::Enter, id).0.watches.len() == s.watches.len() + 1,
        s.mode_selection == 3 ==> key_step(s, Key::Enter, id).0.watches.last().mode
            == (ModeView::Keyword { keywords: keyword_list(s.advanced_input) }),
        s.mode_selection == 4 ==> key_step(s, Key::Enter, id).0.watches.last().mode
            == (ModeView::HtmlSection { selector: trimmed(s.advanced_input) }),
{
}

/// Opening a watch to edit points the mode choice at its mode, by the same
/// labels: 0 full page, 1 price, 2 availability, 3 keywords, 4 HTML section.
pub proof fn lemma_edit_form_points_at_mode(s: AppView, i: usize)
    requires
        i < s.watches.len(),
    ensures
        edit_form(s, i).mode_selection == (match s.watches[i as int].mode {
            ModeView::FullPage => 0usize,
            ModeView::Price { .. } => 1usize,
            ModeView::Availability { .. } => 2usize,
            ModeView::Keyword { .. } => 3usize,
            ModeView::HtmlSection { .. } => 4usize,
        }),
{
}

/// A form with a blank name or URL changes no watch; it is closed anyway.
pub proof fn lemma_incomplete_form_changes_nothing(s: AppView, id: u128)
    requires
        !form_complete(s),
    ensures
        after_submit(s, id).watches == s.watches,
        after_submit(s, id) == cleared_form(s),
{
}

/// A tracking mode that the form shows in full, so that submitting the form
/// unchanged gives it back: modes without settings, keywords that read back
/// from their comma-separated list, and a selector without surrounding
/// whitespace.
pub open spec fn kept_by_form(m: ModeView) -> bool {
    match m {
        ModeView::FullPage => true,
        ModeView::Price { selector } => selector is None,
        ModeView::Availability { in_stock_keywords, out_of_stock_keywords } =>
            in_stock_keywords.len() == 0 && out_of_stock_keywords.len() == 0,
        ModeView::Keyword { keywords } => forall|k: int|
            0 <= k < keywords.len() ==> plain_keyword(#[trigger] keywords[k]),
        ModeView::HtmlSection { selector } => trimmed(selector) == selector,
    }
}

/// Editing a watch and submitting the form unchanged keeps its name, URL,
/// interval and what it has recorded, and its tracking mode when the form
/// shows that mode in full.
pub proof fn lemma_edit_keeps_watch(s: AppView, i: usize, id: u128)
    requires
        i < s.watches.len(),
        trimmed(s.watches[i as int].name).len() > 0,
        trimmed(s.watches[i as int].url).len() > 0,
    ensures
        after_submit(edit_form(s, i), id).watches.len() == s.watches.len(),
        after_submit(edit_form(s, i), id).watches[i as int].name == s.watches[i as int].name,
        after_submit(edit_form(s, i), id).watches[i as int].url == s.watches[i as int].url,
        after_submit(edit_form(s, i), id).watches[i as int].interval_seconds
            == s.watches[i as int].interval_seconds,
        after_submit(edit_form(s, i), id).watches[i as int].last_value
            == s.watches[i as int].last_value,
        kept_by_form(s.watches[i as int].mode) ==> after_submit(edit_form(s, i), id).watches[i as int].mode
            == s.watches[i as int].mode,
{
    crate::text::lemma_decimal_round_trip(s.watches[i as int].interval_seconds);
    let m = s.watches[i as int].mode;
    if kept_by_form(m) {
        match m {
            ModeView::Keyword { keywords } => {
                crate::text::lemma_keyword_list_round_trip(keywords);
            },
            ModeView::Availability { in_stock_keywords, out_of_stock_keywords } => {
                assert(in_stock_keywords =~= Seq::<Seq<char>>::empty());
                assert(out_of_stock_keywords =~= Seq::<Seq<char>>::empty());
            },
            _ => {},
        }
    }
}

/// Without marks, deleting removes exactly the selected watch.
pub proof fn lemma_delete_removes_one(s: AppView)
    requires
        s.marked.len() == 0,
        s.selected matches Some(i) && i < listing(s).len(),
    ensures
        after_delete(s).0.watches.len() == s.watches.len() - 1,
        after_delete(s).0.watches == s.watches.remove(listing(s)[s.selected->0 as int] as int),
        after_delete(s).1 == Effect::Save,
        after_delete(s).0.input_mode == InputMode::Normal,
{
    crate::listing::lemma_listing_in_range(
        s.watches,
        s.search_query,
        s.sort_column,
        s.sort_ascending,
        s.selected->0 as int,
    );
}

/// A check result replaces exactly the watch it was taken from, when a
/// watch with its identifier is still in the list, and leaves every other
/// watch as it was; a result for a watch that was deleted meanwhile
/// changes no watch. Either way the check is counted as done, and the
/// count of pending checks never drops below zero.
pub proof fn lemma_result_settles_one_check(s: AppView, w: WatchView)
    ensures
        after_result(s, w).watches.len() == s.watches.len(),
        forall|i: int|
            first_with_id(s.watches, w.id, i) ==> after_result(s, w).watches == s.watches.update(
                i,
                w,
            ),
        !holds_id(s.watches, w.id) ==> after_result(s, w).watches == s.watches,
        s.pending_checks > 0 ==> after_result(s, w).pending_checks == s.pending_checks - 1,
        s.pending_checks == 0 ==> after_result(s, w).pending_checks == 0,
{
    assert forall|i: int| first_with_id(s.watches, w.id, i) implies after_result(s, w).watches
        == s.watches.update(i, w) by {
        let c = choose|c: int| first_with_id(s.watches, w.id, c);
        if c < i {
            assert(s.watches[c].id != w.id);
        } else if c > i {
            assert(s.watches[i].id != w.id);
        }
    }
}

/// With marks, deleting removes exactly the marked watches, keeps the
/// others in their order, and clears the marks.
pub proof fn lemma_delete_removes_marked(s: AppView)
    requires
        s.marked.len() > 0,
    ensures
        after_delete(s).0.watches == unmarked(s.watches, s.marked),
        after_delete(s).0.marked.len() == 0,
        after_delete(s).1 == Effect::Save,
        forall|j: int|
            0 <= j < s.watches.len() && !s.marked.contains(j as usize) ==> after_delete(
                s,
            ).0.watches.contains(#[trigger] s.watches[j]),
{
    assert forall|j: int|
        0 <= j < s.watches.len() && !s.marked.contains(j as usize) implies unmarked(
        s.watches,
        s.marked,
    ).contains(#[trigger] s.watches[j]) by {
        lemma_unmarked_keeps(s.watches, s.marked, j);
    }
}

proof fn lemma_unmarked_keeps(ws: Seq<WatchView>, marks: Seq<usize>, j: int)
    requires
        0 <= j < ws.len(),
        !marks.contains(j as usize),
    ensures
        unmarked(ws, marks).contains(ws[j]),
    decreases ws.len(),
{
    let init = unmarked(ws.drop_last(), marks);
    if j == ws.len() - 1 {
        assert(unmarked(ws, marks) == init.push(ws.last()));
        assert(unmarked(ws, marks)[init.len() as int] == ws[j]);
    } else {
        lemma_unmarked_keeps(ws.drop_last(), marks, j);
        assert(ws.drop_last()[j] == ws[j]);
        let k = choose|k: int| 0 <= k < init.len() && init[k] == ws[j];
        if marks.contains((ws.len() - 1) as usize) {
        } else {
            assert(unmarked(ws, marks)[k] == ws[j]);
        }
    }
}

/// Every mark names a watch of the list.
pub open spec fn marks_valid(s: AppView) -> bool {
    forall|k: int| 0 <= k < s.marked.len() ==> #[trigger] s.marked[k] < s.watches.len()
}

proof fn lemma_unmark_subset(marks: Seq<usize>, i: usize)
    ensures
        forall|k: int|
            0 <= k < unmark(marks, i).len() ==> marks.contains(#[trigger] unmark(marks, i)[k]),
    decreases marks.len(),
{
    if marks.len() > 0 {
        let init = marks.drop_last();
        lemma_unmark_subset(init, i);
        assert forall|k: int|
            0 <= k < unmark(marks, i).len() implies marks.contains(
            #[trigger] unmark(marks, i)[k],
        ) by {
            if k < unmark(init, i).len() {
                let x = unmark(marks, i)[k];
                assert(x == unmark(init, i)[k]);
                assert(init.contains(x));
                let p = choose|p: int| 0 <= p < init.len() && init[p] == x;
                assert(marks[p] == x);
            } else {
                assert(unmark(marks, i)[k] == marks.last());
                assert(marks[marks.len() - 1] == marks.last());
            }
        }
    }
}

/// Marks always name watches of the list: every key, check result and
/// tick keeps them valid.
pub proof fn lemma_marks_stay_valid(s: AppView, key: Key, id: u128, w: WatchView, millis: u128, now: Timestamp)
    requires
        marks_valid(s),
    ensures
        marks_valid(key_step(s, key, id).0),
        marks_valid(after_result(s, w)),
        marks_valid(after_tick(s, millis, now).0),
{
    let t = key_step(s, key, id).0;
    if s.input_mode == InputMode::Normal && key == Key::Char(' ') {
        if let Some(row) = selected_row(s) {
            crate::listing::lemma_listing_in_range(
                s.watches,
                s.search_query,
                s.sort_column,
                s.sort_ascending,
                row,
            );
            let x = listing(s)[row];
            if s.marked.contains(x) {
                lemma_unmark_subset(s.marked, x);
                assert forall|k: int| 0 <= k < t.marked.len() implies #[trigger] t.marked[k]
                    < t.watches.len() by {
                    let p = choose|p: int| 0 <= p < s.marked.len() && s.marked[p] == t.marked[k];
                }
            } else {
                assert forall|k: int| 0 <= k < t.marked.len() implies #[trigger] t.marked[k]
                    < t.watches.len() by {
                    if k < s.marked.len() {
                        assert(t.marked[k] == s.marked[k]);
                    }
                }
            }
        }
    }
    if s.input_mode == InputMode::Editing {
        assert(t.watches.len() >= s.watches.len());
        assert(t.marked == s.marked);
        assert forall|k: int| 0 <= k < t.marked.len() implies #[trigger] t.marked[k]
            < t.watches.len() by {
            assert(s.marked[k] < s.watches.len());
        }
    }
    if s.input_mode == InputMode::ConfirmDelete {
        if s.marked.len() == 0 {
            assert(t.marked.len() == 0);
        }
        assert(marks_valid(t));
    }
    if s.input_mode == InputMode::Normal && key != Key::Char(' ') {
        let count = listing(s).len() as int;
        let n = next_position(s.selected, count);
        let p = previous_position(s.selected, count);
        if 0 <= n < count {
            crate::listing::lemma_listing_in_range(
                s.watches,
                s.search_query,
                s.sort_column,
                s.sort_ascending,
                n,
            );
        }
        if 0 <= p < count {
            crate::listing::lemma_listing_in_range(
                s.watches,
                s.search_query,
                s.sort_column,
                s.sort_ascending,
                p,
            );
        }
        assert(t.marked == s.marked);
        assert(t.watches.len() == s.watches.len());
        assert forall|k: int| 0 <= k < t.marked.len() implies #[trigger] t.marked[k]
            < t.watches.len() by {
            assert(s.marked[k] < s.watches.len());
        }
    }
}

} // verus!
